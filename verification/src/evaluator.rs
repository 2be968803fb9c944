//! Scoring of unverified contributions, and the well-formedness rules for
//! level updates.

use crate::contribution::{Contribution, ContributionView, LevelUpdate, LevelUpdateView};
use crate::identity::{symmetric_difference, Identity, CAPACITY};
use crate::partitioner::{BinomialPartitioner, MAX_LEVELS};
use crate::registry::Registry;
use crate::store::{best_of, levels_match, levels_wf, state_of, LevelState, LevelStateView, ReplaceStore};
use std::sync::Arc;
use vstd::prelude::*;
use vstd::set_lib::{lemma_len_subset, lemma_set_disjoint_lens, lemma_set_subset_finite};

verus! {

/// If a contribution completes a level this is the base score.
pub const COMPLETES_LEVEL_BASE_SCORE: usize = 1_000_000;

/// For a contribution that completes a level, the penalty per level, so that
/// higher levels score lower.
pub const COMPLETES_LEVEL_LEVEL_PENALTY: usize = 10;

/// If a contribution improves the best of its level this is the base score.
pub const IMPROVEMENT_BASE_SCORE: usize = 100_000;

/// For a contribution that improves the best, the penalty per level.
pub const IMPROVEMENT_LEVEL_PENALTY: usize = 100;

/// For a contribution that improves the best, the bonus per signature added.
pub const IMPROVEMENT_ADDED_SIG_BONUS: usize = 10;

/// What taking a contribution would come to.
pub struct Tally {
    /// The number of signers of the resulting aggregate.
    pub new_total: int,
    /// How many signers it has more than the best has now.
    pub added_sigs: int,
    /// How many of them come from stored individuals.
    pub combined_sigs: int,
}

/// The tally for a contribution of signers `identity`, given the signers of
/// the level's best aggregate and the signers of its verified individuals.
///
/// The individuals can always be merged in. The best can only where it
/// shares no signer with the contribution.
pub open spec fn tally(identity: Set<nat>, best: Option<Set<nat>>, individuals: Set<nat>) -> Tally {
    let with_individuals = identity.union(individuals);
    match best {
        Some(b) => {
            if !identity.disjoint(b) {
                Tally {
                    new_total: with_individuals.len() as int,
                    added_sigs: with_individuals.len() - b.len(),
                    combined_sigs: with_individuals.len() - identity.len(),
                }
            } else {
                let merged = with_individuals.union(b);
                let without_individuals = b.union(identity);
                Tally {
                    new_total: merged.len() as int,
                    added_sigs: merged.len() - b.len(),
                    combined_sigs: symmetric_difference(merged, without_individuals).len() as int,
                }
            }
        },
        None => Tally {
            new_total: with_individuals.len() as int,
            added_sigs: with_individuals.len() as int,
            combined_sigs: with_individuals.len() - identity.len(),
        },
    }
}

/// The score that a tally earns on `level`.
///
/// A contribution that adds nothing is of no use, unless it is an individual,
/// which is kept for its weight. One that completes the level scores highest,
/// earlier levels first. Any other scores by how much it adds. Signatures
/// that have to be filled in from individuals count against it.
pub open spec fn tally_score(
    t: Tally,
    level: nat,
    level_size: nat,
    identity_len: nat,
    weight: Option<nat>,
) -> int {
    if t.added_sigs <= 0 {
        if identity_len == 1 {
            match weight {
                Some(w) => w as int,
                None => 0,
            }
        } else {
            0
        }
    } else if t.new_total == level_size {
        COMPLETES_LEVEL_BASE_SCORE - level * COMPLETES_LEVEL_LEVEL_PENALTY - t.combined_sigs
    } else {
        IMPROVEMENT_BASE_SCORE - level * IMPROVEMENT_LEVEL_PENALTY + t.added_sigs
            * IMPROVEMENT_ADDED_SIG_BONUS - t.combined_sigs
    }
}

/// The score of a contribution of signers `identity` against the state of
/// its level.
///
/// Zero for an empty contribution, for an individual that is already stored,
/// for a level that is complete, and for a contribution that the best
/// aggregate already covers; otherwise what its tally earns.
pub open spec fn level_score(
    state: LevelStateView,
    identity: Set<nat>,
    level: nat,
    level_size: nat,
    weight: Option<nat>,
) -> int {
    if identity == Set::<nat>::empty() {
        0
    } else if state.individual_signature(identity) is Some {
        0
    } else if state.best matches Some(b) && (b.contributors.len() == level_size
        || identity.subset_of(b.contributors)) {
        0
    } else {
        tally_score(
            tally(
                identity,
                match state.best {
                    Some(b) => Some(b.contributors),
                    None => None,
                },
                state.individuals_verified,
            ),
            level,
            level_size,
            identity.len(),
            weight,
        )
    }
}

/// The score of `contribution` on `level`, given the store, the registry and
/// the partition.
///
/// The top level is kept for final aggregates: whatever arrives there gets
/// the highest score. A level that is none of the partition's regular
/// levels, or that the store does not hold, gets zero.
pub open spec fn evaluate_spec(
    store: Seq<LevelStateView>,
    registry: Registry,
    partitioner: BinomialPartitioner,
    contribution: ContributionView,
    level: nat,
) -> int {
    if level == partitioner.top() {
        usize::MAX as int
    } else if level < 1 || level > partitioner.top() {
        0
    } else {
        match state_of(store, level) {
            Some(state) => level_score(
                state,
                registry.signers_identity_spec(contribution.contributors),
                level,
                partitioner.level_size_spec(level),
                registry.signature_weight_spec(contribution.contributors),
            ),
            None => 0,
        }
    }
}

/// Why a level update is rejected.
#[derive(Debug)]
pub enum VerificationError {
    InvalidLevel { level: usize, num_levels: usize },
    InvalidFullAggregate { weight: usize, expected_weight: usize },
    InvalidOrigin { origin: usize, allowed_contributors: Identity },
    InvalidIndividualContribution { num_contributors: usize, contains_origin: bool },
    InvalidContributors { contributors: Identity, allowed_contributors: Identity },
}

/// What a [`VerificationError`] stands for.
pub enum VerificationErrorView {
    InvalidLevel { level: nat, num_levels: nat },
    InvalidFullAggregate { weight: nat, expected_weight: nat },
    InvalidOrigin { origin: nat, allowed_contributors: Set<nat> },
    InvalidIndividualContribution { num_contributors: nat, contains_origin: bool },
    InvalidContributors { contributors: Set<nat>, allowed_contributors: Set<nat> },
}

impl View for VerificationError {
    type V = VerificationErrorView;

    open spec fn view(&self) -> VerificationErrorView {
        match *self {
            VerificationError::InvalidLevel { level, num_levels } => VerificationErrorView::InvalidLevel {
                level: level as nat,
                num_levels: num_levels as nat,
            },
            VerificationError::InvalidFullAggregate {
                weight,
                expected_weight,
            } => VerificationErrorView::InvalidFullAggregate {
                weight: weight as nat,
                expected_weight: expected_weight as nat,
            },
            VerificationError::InvalidOrigin {
                origin,
                allowed_contributors,
            } => VerificationErrorView::InvalidOrigin {
                origin: origin as nat,
                allowed_contributors: allowed_contributors@,
            },
            VerificationError::InvalidIndividualContribution {
                num_contributors,
                contains_origin,
            } => VerificationErrorView::InvalidIndividualContribution {
                num_contributors: num_contributors as nat,
                contains_origin,
            },
            VerificationError::InvalidContributors {
                contributors,
                allowed_contributors,
            } => VerificationErrorView::InvalidContributors {
                contributors: contributors@,
                allowed_contributors: allowed_contributors@,
            },
        }
    }
}

/// Whether a level update is well-formed, and if not, the first rule it
/// breaks: the level lies within one and the top; on the top level the
/// aggregate holds every validator; on any other level the origin is allowed
/// there, the attached individual, if any, is of the origin alone, and the
/// aggregate stays within the validators allowed there.
pub open spec fn verify_spec(
    registry: Registry,
    partitioner: BinomialPartitioner,
    msg: LevelUpdateView,
) -> Result<(), VerificationErrorView> {
    let level = msg.level as nat;
    let origin = msg.origin as nat;
    let contributors = registry.signers_identity_spec(msg.aggregate.contributors);
    if level > partitioner.top() || level < 1 {
        Err(VerificationErrorView::InvalidLevel { level, num_levels: partitioner.top() })
    } else if level == partitioner.top() {
        if contributors.len() != partitioner.total() {
            Err(
                VerificationErrorView::InvalidFullAggregate {
                    weight: contributors.len(),
                    expected_weight: partitioner.total(),
                },
            )
        } else {
            Ok(())
        }
    } else {
        let allowed = partitioner.identities_on_spec(level)->0;
        if !allowed.contains(origin) {
            Err(VerificationErrorView::InvalidOrigin { origin, allowed_contributors: allowed })
        } else if msg.individual matches Some(i) && (registry.signers_identity_spec(
            i.contributors,
        ).len() != 1 || !registry.signers_identity_spec(i.contributors).contains(origin)) {
            Err(
                VerificationErrorView::InvalidIndividualContribution {
                    num_contributors: registry.signers_identity_spec(
                        msg.individual->0.contributors,
                    ).len(),
                    contains_origin: registry.signers_identity_spec(
                        msg.individual->0.contributors,
                    ).contains(origin),
                },
            )
        } else if !contributors.subset_of(allowed) {
            Err(
                VerificationErrorView::InvalidContributors {
                    contributors,
                    allowed_contributors: allowed,
                },
            )
        } else {
            Ok(())
        }
    }
}

/// Scores contributions and checks level updates.
pub trait Evaluator {
    /// Takes an unverified contribution and scores it in terms of
    /// usefulness: zero for one that can be discarded, and the more useful
    /// the bigger the number.
    /// The identifier of the aggregation, `id`, serves to tell aggregations
    /// apart where scores are reported; it has no part in the score.
    fn evaluate<TId>(&self, contribution: &Contribution, level: usize, id: TId) -> usize;

    /// Checks that a level update is well-formed.
    fn verify(&self, msg: &LevelUpdate) -> Result<(), VerificationError>;
}

/// A finite set has no member exactly if it has length zero.
proof fn lemma_empty_iff_len0(s: Set<nat>)
    requires
        s.finite(),
    ensures
        s.len() == 0 <==> s == Set::<nat>::empty(),
{
    if s.len() == 0 {
        s.lemma_len0_is_empty();
        assert(s =~= Set::<nat>::empty());
    }
}

/// The sizes that a tally is made of stay within [`CAPACITY`], and what the
/// individuals fill in is never negative.
proof fn lemma_tally_bounds(identity: Set<nat>, best: Option<Set<nat>>, individuals: Set<nat>)
    requires
        forall|i: nat| identity.contains(i) ==> i < CAPACITY,
        forall|i: nat| individuals.contains(i) ==> i < CAPACITY,
        best matches Some(b) ==> forall|i: nat| b.contains(i) ==> i < CAPACITY,
    ensures
        0 <= tally(identity, best, individuals).new_total <= CAPACITY,
        0 <= tally(identity, best, individuals).combined_sigs <= CAPACITY,
        tally(identity, best, individuals).added_sigs <= CAPACITY,
        identity.finite(),
        identity.len() <= tally(identity, best, individuals).new_total,
        best matches Some(b) ==> b.finite() && (identity.disjoint(b) ==> b.len() + identity.len()
            <= tally(identity, best, individuals).new_total),
{
    let with_individuals = identity.union(individuals);
    crate::identity::lemma_count_is_len(identity, CAPACITY as nat);
    crate::identity::lemma_count_is_len(individuals, CAPACITY as nat);
    crate::identity::lemma_count_is_len(with_individuals, CAPACITY as nat);
    lemma_len_subset(identity, with_individuals);
    match best {
        Some(b) => {
            crate::identity::lemma_count_is_len(b, CAPACITY as nat);
            if identity.disjoint(b) {
                let merged = with_individuals.union(b);
                let without_individuals = b.union(identity);
                crate::identity::lemma_count_is_len(merged, CAPACITY as nat);
                crate::identity::lemma_count_is_len(
                    symmetric_difference(merged, without_individuals),
                    CAPACITY as nat,
                );
                crate::identity::lemma_count_is_len(without_individuals, CAPACITY as nat);
                lemma_set_disjoint_lens(b, identity);
                lemma_len_subset(without_individuals, merged);
            }
        },
        None => {},
    }
}

/// The score of `contribution` on `level` against a snapshot of the store.
pub fn score(
    store: &ReplaceStore,
    registry: &Registry,
    partitioner: &BinomialPartitioner,
    contribution: &Contribution,
    level: usize,
) -> (r: usize)
    ensures
        r == evaluate_spec(store@, *registry, *partitioner, contribution@, level as nat),
{
    let top = partitioner.levels();
    if level == top {
        return usize::MAX;
    }
    if level < 1 || level > top {
        return 0;
    }
    match store.state(level) {
        Some(state) => {
            let identity = registry.signers_identity(&contribution.contributors);
            let level_size = partitioner.level_size(level);
            let weight = registry.signature_weight(contribution);
            score_on_level(state, &identity, level, level_size, weight)
        },
        None => 0,
    }
}

/// The score of a contribution of signers `identity` against the state of
/// its level.
pub fn score_on_level(
    state: &LevelState,
    identity: &Identity,
    level: usize,
    level_size: usize,
    weight: Option<usize>,
) -> (r: usize)
    requires
        state@.wf(),
        level <= MAX_LEVELS,
    ensures
        r == level_score(
            state@,
            identity@,
            level as nat,
            level_size as nat,
            match weight {
                Some(w) => Some(w as nat),
                None => None,
            },
        ),
{
    proof {
        use_type_invariant(identity);
        use_type_invariant(&state.individuals_verified);
        identity.lemma_bounded();
        state.individuals_verified.lemma_bounded();
        lemma_set_subset_finite(state@.allowed, state@.individuals_verified);
    }
    if identity.is_empty() {
        return 0;
    }
    let identity_len = identity.len();
    if state.individual_signature(identity).is_some() {
        return 0;
    }
    let ghost best_view: Option<Set<nat>> = match state@.best {
        Some(b) => Some(b.contributors),
        None => None,
    };
    let ghost t = tally(identity@, best_view, state@.individuals_verified);
    let mut with_individuals = identity.clone();
    with_individuals.combine(&state.individuals_verified, true);
    let new_total: usize;
    let added_sigs: usize;  // meaningful only where `gains`
    let gains: bool;
    let combined_sigs: usize;
    match state.best() {
        Some(best) => {
            proof {
                use_type_invariant(&best.contributors);
                best.contributors.lemma_bounded();
                lemma_tally_bounds(identity@, best_view, state@.individuals_verified);
            }
            let best_len = best.contributors.len();
            if best_len == level_size {
                return 0;
            }
            if best.contributors.is_superset_of(identity) {
                return 0;
            }
            let shared = identity.intersection_size(&best.contributors);
            proof {
                lemma_empty_iff_len0(identity@.intersect(best@.contributors));
                vstd::set_lib::lemma_disjoint_iff_empty_intersection(
                    identity@,
                    best@.contributors,
                );
            }
            if shared > 0 {
                new_total = with_individuals.len();
                gains = new_total > best_len;
                added_sigs = if gains {
                    new_total - best_len
                } else {
                    0
                };
                combined_sigs = new_total - identity_len;
            } else {
                let mut merged = with_individuals.clone();
                merged.combine(&best.contributors, true);
                let mut without_individuals = best.contributors.clone();
                without_individuals.combine(identity, false);
                new_total = merged.len();
                gains = new_total > best_len;
                added_sigs = if gains {
                    new_total - best_len
                } else {
                    0
                };
                combined_sigs = merged.symmetric_difference(&without_individuals).len();
            }
        },
        None => {
            proof {
                lemma_tally_bounds(identity@, best_view, state@.individuals_verified);
            }
            new_total = with_individuals.len();
            gains = new_total > 0;
            added_sigs = new_total;
            combined_sigs = new_total - identity_len;
        },
    }
    assert(new_total == t.new_total);
    assert(combined_sigs == t.combined_sigs);
    assert(gains == (t.added_sigs > 0));
    assert(gains ==> added_sigs == t.added_sigs);
    if !gains {
        if identity_len == 1 {
            return match weight {
                Some(w) => w,
                None => 0,
            };
        }
        return 0;
    }
    if new_total == level_size {
        return COMPLETES_LEVEL_BASE_SCORE - level * COMPLETES_LEVEL_LEVEL_PENALTY - combined_sigs;
    }
    IMPROVEMENT_BASE_SCORE - level * IMPROVEMENT_LEVEL_PENALTY + added_sigs
        * IMPROVEMENT_ADDED_SIG_BONUS - combined_sigs
}

/// Checks `msg` against the registry and the partition.
pub fn check_update(registry: &Registry, partitioner: &BinomialPartitioner, msg: &LevelUpdate) -> (r:
    Result<(), VerificationError>)
    ensures
        r is Ok <==> verify_spec(*registry, *partitioner, msg@) is Ok,
        r matches Err(e) ==> verify_spec(*registry, *partitioner, msg@) == Err::<
            (),
            VerificationErrorView,
        >(e@),
{
    let level = msg.level as usize;
    let num_levels = partitioner.levels();
    if level > num_levels || level < 1 {
        return Err(VerificationError::InvalidLevel { level, num_levels });
    }
    let contributors = registry.signers_identity(&msg.aggregate.contributors);
    if level == num_levels {
        let weight = contributors.len();
        let expected_weight = partitioner.size();
        if weight != expected_weight {
            return Err(VerificationError::InvalidFullAggregate { weight, expected_weight });
        }
        return Ok(());
    }
    let allowed_contributors = partitioner.identities_on(level).unwrap();
    let origin = msg.origin as usize;
    if !allowed_contributors.contains(origin) {
        return Err(VerificationError::InvalidOrigin { origin, allowed_contributors });
    }
    match &msg.individual {
        Some(individual) => {
            let individual_contributors = registry.signers_identity(&individual.contributors);
            let num_contributors = individual_contributors.len();
            let contains_origin = individual_contributors.contains(origin);
            if num_contributors != 1 || !contains_origin {
                return Err(
                    VerificationError::InvalidIndividualContribution {
                        num_contributors,
                        contains_origin,
                    },
                );
            }
        },
        None => {},
    }
    if !allowed_contributors.is_superset_of(&contributors) {
        return Err(VerificationError::InvalidContributors { contributors, allowed_contributors });
    }
    Ok(())
}

/// The reader-writer lock of `lock_api`, opaque to the verifier.
#[verifier::external_type_specification]
#[verifier::external_body]
#[verifier::reject_recursive_types(R)]
#[verifier::reject_recursive_types(T)]
pub struct ExRwLock<R, T: ?Sized>(lock_api::RwLock<R, T>);

/// The raw reader-writer lock of `parking_lot`, opaque to the verifier.
#[verifier::external_type_specification]
#[verifier::external_body]
pub struct ExRawRwLock(parking_lot::RawRwLock);

/// A copy of the store as it stands, taken under the read lock by
/// `lock_api::RwLock::read`. Other holders of the lock may have changed the
/// store at any time before, so nothing is claimed of the copy beyond what
/// the store's own invariant gives.
#[verifier::external_body]
fn snapshot(store: &lock_api::RwLock<parking_lot::RawRwLock, ReplaceStore>) -> (r: ReplaceStore) {
    store.read().clone()
}

/// A signature counts as if it was signed N times, where N is the signer's
/// weight.
pub struct WeightedVote {
    /// The contribution store.
    store: Arc<lock_api::RwLock<parking_lot::RawRwLock, ReplaceStore>>,
    /// Registry that maps the signers to the weight they have in a signature.
    pub weights: Arc<Registry>,
    /// Partitioner that registers the levels and their validators.
    partitioner: Arc<BinomialPartitioner>,
}

impl WeightedVote {
    /// The partition that this evaluator scores and checks against.
    pub closed spec fn partition(self) -> BinomialPartitioner {
        *self.partitioner
    }

    /// The registry that this evaluator scores and checks against.
    pub closed spec fn registry(self) -> Registry {
        *self.weights
    }

    /// The evaluator that scores against `store` by the weights of
    /// `weights` and the levels of `partitioner`.
    pub fn new(
        store: Arc<lock_api::RwLock<parking_lot::RawRwLock, ReplaceStore>>,
        weights: Arc<Registry>,
        partitioner: Arc<BinomialPartitioner>,
    ) -> (r: Self)
        ensures
            r.registry() == *weights,
            r.partition() == *partitioner,
    {
        WeightedVote { store, weights, partitioner }
    }
}

impl Evaluator for WeightedVote {
    /// Scores `contribution` against the store as it stands when the read
    /// lock is taken.
    fn evaluate<TId>(&self, contribution: &Contribution, level: usize, id: TId) -> (r: usize)
        ensures
            exists|s: Seq<LevelStateView>| #[trigger]
                levels_wf(s) && r == evaluate_spec(
                    s,
                    self.registry(),
                    self.partition(),
                    contribution@,
                    level as nat,
                ),
    {
        // Special case for final aggregations: full verification comes later.
        if level == self.partitioner.levels() {
            assert(levels_wf(Seq::<LevelStateView>::empty()));
            return usize::MAX;
        }
        let store = snapshot(&self.store);
        proof {
            use_type_invariant(&store);
            store.lemma_wf();
        }
        score(&store, &self.weights, &self.partitioner, contribution, level)
    }

    /// Checks that `msg` is well-formed, and says which rule it breaks
    /// first if it is not. No signature is looked at.
    fn verify(&self, msg: &LevelUpdate) -> (r: Result<(), VerificationError>)
        ensures
            r is Ok <==> verify_spec(self.registry(), self.partition(), msg@) is Ok,
            r matches Err(e) ==> verify_spec(self.registry(), self.partition(), msg@) == Err::<
                (),
                VerificationErrorView,
            >(e@),
    {
        check_update(&self.weights, &self.partitioner, msg)
    }
}

/// A contribution whose signers the best aggregate of its level already
/// holds scores zero, on every level but the top.
pub proof fn law_covered_scores_zero(
    store: Seq<LevelStateView>,
    registry: Registry,
    partitioner: BinomialPartitioner,
    contribution: ContributionView,
    level: nat,
)
    requires
        level != partitioner.top(),
        best_of(store, level) matches Some(b) && registry.signers_identity_spec(
            contribution.contributors,
        ).subset_of(b.contributors),
    ensures
        evaluate_spec(store, registry, partitioner, contribution, level) == 0,
{
}

/// Once the best aggregate of a level holds as many validators as the level
/// has, every further contribution on that level scores zero.
pub proof fn law_complete_level_scores_zero(
    store: Seq<LevelStateView>,
    registry: Registry,
    partitioner: BinomialPartitioner,
    contribution: ContributionView,
    level: nat,
)
    requires
        level != partitioner.top(),
        best_of(store, level) matches Some(b) && b.contributors.len()
            == partitioner.level_size_spec(level),
    ensures
        evaluate_spec(store, registry, partitioner, contribution, level) == 0,
{
}

/// In a store whose levels are the partition's, a complete level scores
/// every further contribution zero.
pub proof fn law_complete_state_scores_zero(
    store: Seq<LevelStateView>,
    registry: Registry,
    partitioner: BinomialPartitioner,
    contribution: ContributionView,
    level: nat,
)
    requires
        levels_match(store, partitioner),
        1 <= level < partitioner.top(),
        store[level - 1].complete(),
    ensures
        evaluate_spec(store, registry, partitioner, contribution, level) == 0,
{
    assert(Some(store[level - 1].allowed) == partitioner.identities_on_spec(level));
}

/// An individual contribution is always kept: on a regular level that the
/// store holds, one that is not stored yet and whose signer the best
/// aggregate does not hold already scores above zero, unless the level is
/// complete.
pub proof fn law_new_individual_scores(
    store: Seq<LevelStateView>,
    registry: Registry,
    partitioner: BinomialPartitioner,
    contribution: ContributionView,
    level: nat,
)
    requires
        levels_wf(store),
        partitioner.wf(),
        registry.wf(),
        1 <= level < partitioner.top(),
        level <= store.len(),
        registry.signers_identity_spec(contribution.contributors).finite(),
        registry.signers_identity_spec(contribution.contributors).len() == 1,
        store[level - 1].individual_signature(
            registry.signers_identity_spec(contribution.contributors),
        ) is None,
        store[level - 1].best matches Some(b) ==> b.contributors.len()
            != partitioner.level_size_spec(level) && !registry.signers_identity_spec(
            contribution.contributors,
        ).subset_of(b.contributors),
    ensures
        evaluate_spec(store, registry, partitioner, contribution, level) > 0,
{
    let identity = registry.signers_identity_spec(contribution.contributors);
    let state = store[level - 1];
    let best_view: Option<Set<nat>> = match state.best {
        Some(b) => Some(b.contributors),
        None => None,
    };
    registry.lemma_wf();
    partitioner.lemma_wf();
    assert(state.wf());
    assert forall|i: nat| identity.contains(i) implies i < CAPACITY by {
        assert(registry.known().contains(i));
    }
    lemma_set_subset_finite(state.allowed, state.individuals_verified);
    assert forall|i: nat| state.individuals_verified.contains(i) implies i < CAPACITY by {
        assert(state.allowed.contains(i));
    }
    if state.best is Some {
        let b = state.best->0.contributors;
        assert forall|i: nat| b.contains(i) implies i < CAPACITY by {
            assert(state.allowed.contains(i));
        }
        let x = choose|x: nat| identity.contains(x) && !b.contains(x);
        crate::identity::lemma_only_member(identity, x);
        assert(identity.disjoint(b));
    }
    lemma_tally_bounds(identity, best_view, state.individuals_verified);
    if identity =~= Set::<nat>::empty() {
        assert(identity.len() == 0);
    }
}

/// Whatever passes the check is a full aggregate on the top level, or an
/// aggregate within the validators of its level from an origin that is one
/// of them.
pub proof fn law_verified_update(
    registry: Registry,
    partitioner: BinomialPartitioner,
    msg: LevelUpdateView,
)
    requires
        verify_spec(registry, partitioner, msg) is Ok,
    ensures
        1 <= msg.level <= partitioner.top(),
        (msg.level == partitioner.top() && registry.signers_identity_spec(
            msg.aggregate.contributors,
        ).len() == partitioner.total()) || (msg.level < partitioner.top()
            && registry.signers_identity_spec(msg.aggregate.contributors).subset_of(
            partitioner.identities_on_spec(msg.level as nat)->0,
        ) && partitioner.identities_on_spec(msg.level as nat)->0.contains(msg.origin as nat)),
        msg.level < partitioner.top() ==> (msg.individual matches Some(i)
            ==> registry.signers_identity_spec(i.contributors).len() == 1
            && registry.signers_identity_spec(i.contributors).contains(msg.origin as nat)),
{
}

} // verus!
