//! The decisions of an aggregation: which updates to queue for signature
//! verification and in which order to take them, what to merge into the
//! store, when to open the next level, whom to send to and what, and when
//! the aggregation is done.
//!
//! Reading and writing the network, checking signatures, aggregating them,
//! and keeping time are the caller's part. The caller tells what happened
//! and is told what follows.

use crate::contribution::{Contribution, ContributionView, LevelUpdate, SIGNATURE_SIZE};
use crate::evaluator::{check_update, evaluate_spec, score, verify_spec, VerificationError};
use crate::identity::{singleton, span, Identity};
use crate::partitioner::BinomialPartitioner;
use crate::registry::Registry;
use crate::store::{levels_match, levels_wf, state_of, LevelStateView, ReplaceStore};
use std::sync::Arc;
use vstd::prelude::*;

verus! {

/// An update that waits for its signatures to be verified.
#[derive(Debug)]
pub struct PendingUpdate {
    pub update: LevelUpdate,
    pub score: usize,
}

/// Whether `i` is the place of the first among the highest-scored of `q`.
pub open spec fn is_first_best(q: Seq<PendingUpdate>, i: int) -> bool {
    &&& 0 <= i < q.len()
    &&& forall|j: int| 0 <= j < q.len() ==> (#[trigger] q[j]).score <= q[i].score
    &&& forall|j: int| 0 <= j < i ==> (#[trigger] q[j]).score < q[i].score
}

/// Whether `i` is the place of the first among the lowest-scored of `q`.
pub open spec fn is_first_worst(q: Seq<PendingUpdate>, i: int) -> bool {
    &&& 0 <= i < q.len()
    &&& forall|j: int| 0 <= j < q.len() ==> (#[trigger] q[j]).score >= q[i].score
    &&& forall|j: int| 0 <= j < i ==> (#[trigger] q[j]).score > q[i].score
}

/// Whether a queue of `capacity` that held `before` holds `after` once
/// `entry` was pushed, with `evicted` dropped: the entry goes to the end;
/// if that is one too many, the first of the lowest-scored goes.
pub open spec fn pushed(
    before: Seq<PendingUpdate>,
    capacity: nat,
    entry: PendingUpdate,
    after: Seq<PendingUpdate>,
    evicted: Option<PendingUpdate>,
) -> bool {
    let appended = before.push(entry);
    if appended.len() <= capacity {
        evicted is None && after == appended
    } else {
        exists|i: int|
            #[trigger] is_first_worst(appended, i) && evicted == Some(appended[i]) && after
                == appended.remove(i)
    }
}

/// Whether a queue that held `before` holds `after` once `taken` was
/// popped: the first of the highest-scored, or nothing from an empty queue.
pub open spec fn popped(
    before: Seq<PendingUpdate>,
    after: Seq<PendingUpdate>,
    taken: Option<PendingUpdate>,
) -> bool {
    if before.len() == 0 {
        taken is None && after == before
    } else {
        exists|i: int|
            #[trigger] is_first_best(before, i) && taken == Some(before[i]) && after
                == before.remove(i)
    }
}

/// The updates that wait for verification, in the order they came, never
/// more than a fixed number.
#[derive(Debug)]
pub struct VerifyQueue {
    entries: Vec<PendingUpdate>,
    capacity: usize,
}

impl View for VerifyQueue {
    type V = Seq<PendingUpdate>;

    closed spec fn view(&self) -> Seq<PendingUpdate> {
        self.entries@
    }
}

impl VerifyQueue {
    /// The queue never holds more than its capacity.
    #[verifier::type_invariant]
    pub closed spec fn wf(self) -> bool {
        self.entries@.len() <= self.capacity
    }

    /// The most updates the queue holds.
    pub closed spec fn capacity(self) -> nat {
        self.capacity as nat
    }

    /// An empty queue that holds up to `capacity` updates.
    pub fn new(capacity: usize) -> (r: Self)
        ensures
            r@ == Seq::<PendingUpdate>::empty(),
            r.capacity() == capacity,
            r.wf(),
    {
        VerifyQueue { entries: Vec::new(), capacity }
    }

    /// The number of updates that wait.
    pub fn len(&self) -> (r: usize)
        ensures
            r == self@.len(),
            r <= self.capacity(),
    {
        proof {
            use_type_invariant(self);
        }
        self.entries.len()
    }

    /// Whether no update waits.
    pub fn is_empty(&self) -> (r: bool)
        ensures
            r == (self@.len() == 0),
    {
        self.entries.len() == 0
    }

    /// Queues `update` with its `score`. Where the queue is full, the
    /// lowest-scored update is dropped, the oldest of them if there are
    /// several, and handed back.
    pub fn push(&mut self, update: LevelUpdate, score: usize) -> (evicted: Option<PendingUpdate>)
        ensures
            pushed(
                old(self)@,
                old(self).capacity(),
                PendingUpdate { update, score },
                final(self)@,
                evicted,
            ),
            final(self).capacity() == old(self).capacity(),
            final(self).wf(),
    {
        proof {
            use_type_invariant(&*self);
        }
        let mut entries: Vec<PendingUpdate> = Vec::new();
        std::mem::swap(&mut self.entries, &mut entries);
        entries.push(PendingUpdate { update, score });
        let ghost appended = entries@;
        if entries.len() <= self.capacity {
            self.entries = entries;
            return None;
        }
        let mut worst: usize = 0;
        let mut j: usize = 1;
        while j < entries.len()
            invariant
                1 <= j <= entries.len(),
                worst < j,
                forall|p: int| 0 <= p < j ==> (#[trigger] entries@[p]).score >= entries@[worst as int].score,
                forall|p: int| 0 <= p < worst ==> (#[trigger] entries@[p]).score > entries@[worst as int].score,
            decreases entries.len() - j,
        {
            if entries[j].score < entries[worst].score {
                worst = j;
            }
            j = j + 1;
        }
        assert(is_first_worst(appended, worst as int));
        let evicted = entries.remove(worst);
        self.entries = entries;
        Some(evicted)
    }

    /// Takes the highest-scored update out of the queue, the oldest of them
    /// if there are several.
    pub fn pop(&mut self) -> (taken: Option<PendingUpdate>)
        ensures
            popped(old(self)@, final(self)@, taken),
            final(self).capacity() == old(self).capacity(),
            final(self).wf(),
    {
        proof {
            use_type_invariant(&*self);
        }
        if self.entries.len() == 0 {
            return None;
        }
        let mut entries: Vec<PendingUpdate> = Vec::new();
        std::mem::swap(&mut self.entries, &mut entries);
        let ghost before = entries@;
        let mut best: usize = 0;
        let mut j: usize = 1;
        while j < entries.len()
            invariant
                1 <= j <= entries.len(),
                best < j,
                forall|p: int| 0 <= p < j ==> (#[trigger] entries@[p]).score <= entries@[best as int].score,
                forall|p: int| 0 <= p < best ==> (#[trigger] entries@[p]).score < entries@[best as int].score,
            decreases entries.len() - j,
        {
            if entries[j].score > entries[best].score {
                best = j;
            }
            j = j + 1;
        }
        assert(is_first_best(before, best as int));
        let taken = entries.remove(best);
        self.entries = entries;
        Some(taken)
    }
}

/// What became of an update that came in.
#[derive(Debug)]
pub enum Receipt {
    /// It is not well-formed, and is dropped.
    Invalid(VerificationError),
    /// It is of no use, and is dropped.
    Useless,
    /// It waits for its signatures to be verified. Another update may have
    /// had to make room for it.
    Queued { score: usize, evicted: Option<PendingUpdate> },
}

/// Takes an update that came in: checks that it is well-formed, scores its
/// aggregate against the store, and queues it unless it scores zero.
pub fn receive(
    store: &ReplaceStore,
    registry: &Registry,
    partitioner: &BinomialPartitioner,
    queue: &mut VerifyQueue,
    update: LevelUpdate,
) -> (r: Receipt)
    ensures
        final(queue).capacity() == old(queue).capacity(),
        final(queue).wf(),
        match verify_spec(*registry, *partitioner, update@) {
            Err(e) => r matches Receipt::Invalid(x) && x@ == e && final(queue)@ == old(queue)@,
            Ok(_) => {
                let s = evaluate_spec(
                    store@,
                    *registry,
                    *partitioner,
                    update@.aggregate,
                    update.level as nat,
                );
                if s == 0 {
                    r is Useless && final(queue)@ == old(queue)@
                } else {
                    r matches Receipt::Queued { score, evicted } && score == s && pushed(
                        old(queue)@,
                        old(queue).capacity(),
                        PendingUpdate { update, score },
                        final(queue)@,
                        evicted,
                    )
                }
            },
        },
{
    proof {
        use_type_invariant(&*queue);
    }
    match check_update(registry, partitioner, &update) {
        Err(e) => {
            return Receipt::Invalid(e);
        },
        Ok(_) => {},
    }
    let s = score(store, registry, partitioner, &update.aggregate, update.level as usize);
    if s == 0 {
        return Receipt::Useless;
    }
    let evicted = queue.push(update, s);
    Receipt::Queued { score: s, evicted }
}

/// Why an update that was taken from the queue is not merged.
#[derive(Debug, PartialEq, Eq, Clone, Copy, Structural)]
pub enum AggregationError {
    /// The aggregate signature does not verify.
    CryptoVerifyFailed,
}

/// What merging an update changed in the store.
#[derive(Debug, PartialEq, Eq, Clone, Copy, Structural)]
pub struct Merged {
    /// The aggregate became the best of its level.
    pub best_replaced: bool,
    /// The individual contribution was stored.
    pub individual_stored: bool,
}

/// The store after `c` was offered as best of `level`.
pub open spec fn with_best(levels: Seq<LevelStateView>, level: nat, c: ContributionView) -> Seq<
    LevelStateView,
> {
    if 1 <= level <= levels.len() {
        levels.update(level - 1, levels[level - 1].put_best(c))
    } else {
        levels
    }
}

/// The store after the individual `c` was offered on `level`.
pub open spec fn with_individual(
    levels: Seq<LevelStateView>,
    level: nat,
    c: ContributionView,
) -> Seq<LevelStateView> {
    if 1 <= level <= levels.len() {
        levels.update(level - 1, levels[level - 1].put_individual(c))
    } else {
        levels
    }
}

/// The store after an update was merged whose aggregate signature
/// verified: the aggregate was offered as best of the update's level, and
/// then the individual, if there is one of a single signer and its
/// signature verified too.
pub open spec fn merged_store(
    levels: Seq<LevelStateView>,
    update: crate::contribution::LevelUpdateView,
    individual_valid: bool,
) -> Seq<LevelStateView> {
    let first = with_best(levels, update.level as nat, update.aggregate);
    match update.individual {
        Some(i) => if individual_valid && i.individual() {
            with_individual(first, update.level as nat, i)
        } else {
            first
        },
        None => first,
    }
}

/// Merges an update whose signatures have been checked into the store.
///
/// Nothing is merged unless the aggregate signature verified. The
/// aggregate is offered as best of its level; the individual, where there
/// is one, it is of a single signer and its signature verified, is stored.
pub fn merge_verified(
    store: &mut ReplaceStore,
    update: LevelUpdate,
    aggregate_valid: bool,
    individual_valid: bool,
) -> (r: Result<Merged, AggregationError>)
    ensures
        final(store).wf(),
        !aggregate_valid ==> r == Err::<Merged, AggregationError>(
            AggregationError::CryptoVerifyFailed,
        ) && final(store)@ == old(store)@,
        aggregate_valid ==> r is Ok && final(store)@ == merged_store(
            old(store)@,
            update@,
            individual_valid,
        ),
        r matches Ok(m) ==> m.best_replaced == (state_of(old(store)@, update.level as nat) is Some
            && state_of(old(store)@, update.level as nat)->0.accepts_best(update@.aggregate)),
{
    proof {
        use_type_invariant(&*store);
        store.lemma_wf();
    }
    if !aggregate_valid {
        return Err(AggregationError::CryptoVerifyFailed);
    }
    let level = update.level as usize;
    let ghost before = store@;
    let best_replaced = store.put_best(level, update.aggregate);
    proof {
        if !best_replaced {
            assert(store@ =~= with_best(before, level as nat, update@.aggregate));
        }
    }
    let ghost first = store@;
    let individual_stored = match update.individual {
        Some(individual) => {
            if individual_valid && individual.is_individual() {
                let stored = store.put_individual(level, individual);
                proof {
                    if !stored {
                        assert(store@ =~= with_individual(first, level as nat, individual@));
                    }
                }
                stored
            } else {
                false
            }
        },
        None => false,
    };
    Ok(Merged { best_replaced, individual_stored })
}

/// The level that is open last once the levels up to `current` were open
/// and `current` was looked at: the next one, if there is a regular level
/// next and `current` is complete or has timed out.
pub open spec fn next_level(levels: Seq<LevelStateView>, current: nat, timed_out: bool) -> nat {
    if 1 <= current && current + 1 < levels.len() && (levels[current - 1].complete() || timed_out) {
        current + 1
    } else {
        current
    }
}

/// Opens the first level. Level one is open from the start.
pub fn start(store: &mut ReplaceStore)
    ensures
        final(store).wf(),
        final(store)@ == (if old(store)@.len() >= 1 {
            old(store)@.update(0, old(store)@[0].activate())
        } else {
            old(store)@
        }),
{
    store.activate(1);
}

/// Opens the level after `current` if there is a regular level next and
/// `current` is complete or its time is up; says which level is open last.
pub fn open_next_level(store: &mut ReplaceStore, current: usize, timed_out: bool) -> (r: usize)
    ensures
        final(store).wf(),
        r == next_level(old(store)@, current as nat, timed_out),
        r == current ==> final(store)@ == old(store)@,
        r != current ==> final(store)@ == old(store)@.update(
            current as int,
            old(store)@[current as int].activate(),
        ),
{
    proof {
        use_type_invariant(&*store);
        store.lemma_wf();
    }
    let top = store.levels();
    if current < 1 || current >= top || current + 1 >= top {
        return current;
    }
    let complete = match store.state(current) {
        Some(state) => state.is_complete(),
        None => false,
    };
    if complete || timed_out {
        store.activate(current + 1);
        current + 1
    } else {
        current
    }
}

/// The signers of what a node has to offer on `level`: its own, and those
/// of the best aggregates of all levels below.
pub open spec fn lower_union(levels: Seq<LevelStateView>, own: Set<nat>, level: nat) -> Set<nat>
    decreases level,
{
    if level <= 1 {
        own
    } else {
        let below = lower_union(levels, own, (level - 1) as nat);
        match state_of(levels, (level - 1) as nat) {
            Some(s) => match s.best {
                Some(b) => below.union(b.contributors),
                None => below,
            },
            None => below,
        }
    }
}

/// The contributions that make up what a node has to offer on `level`:
/// its own, and the best aggregates of all levels below, lowest first.
pub open spec fn lower_parts(
    levels: Seq<LevelStateView>,
    own: ContributionView,
    level: nat,
) -> Seq<ContributionView>
    decreases level,
{
    if level <= 1 {
        seq![own]
    } else {
        let below = lower_parts(levels, own, (level - 1) as nat);
        match state_of(levels, (level - 1) as nat) {
            Some(s) => match s.best {
                Some(b) => below.push(b),
                None => below,
            },
            None => below,
        }
    }
}

/// What is to be aggregated, and whose signatures the outcome will hold.
#[derive(Debug)]
pub struct Parts {
    /// The contributions whose signatures are to be aggregated.
    pub parts: Vec<Contribution>,
    /// The signers of the aggregate.
    pub contributors: Identity,
}

/// The views of contributions, in order.
pub open spec fn views(parts: Seq<Contribution>) -> Seq<ContributionView> {
    Seq::new(parts.len(), |i: int| parts[i]@)
}

/// What the node has to offer on `level`: its own contribution and the
/// best aggregates of the levels below.
pub fn collect(store: &ReplaceStore, own: &Contribution, level: usize) -> (r: Parts)
    ensures
        views(r.parts@) == lower_parts(store@, own@, level as nat),
        r.contributors@ == lower_union(store@, own@.contributors, level as nat),
        r.contributors.wf(),
{
    let mut parts: Vec<Contribution> = Vec::new();
    parts.push(own.clone());
    let mut contributors = own.contributors.clone();
    assert(views(parts@) =~= lower_parts(store@, own@, 1));
    let top = store.levels();
    let stop = if level <= top + 1 {
        level
    } else {
        top + 1
    };
    let mut l: usize = 1;
    while l < stop
        invariant
            1 <= l,
            l <= stop || (stop < 1 && l == 1),
            top == store@.len(),
            stop == (if level <= top + 1 {
                level
            } else {
                (top + 1) as usize
            }),
            views(parts@) == lower_parts(store@, own@, l as nat),
            contributors@ == lower_union(store@, own@.contributors, l as nat),
            contributors.wf(),
        decreases stop - l,
    {
        let ghost before = views(parts@);
        match store.best(l) {
            Some(b) => {
                parts.push(b.clone());
                contributors.combine(&b.contributors, true);
                assert(views(parts@) =~= before.push(b@));
            },
            None => {},
        }
        l = l + 1;
    }
    proof {
        if level > top + 1 {
            lemma_lower_beyond(store@, own@, (top + 1) as nat, level as nat);
        }
        if level == 0 {
            assert(lower_parts(store@, own@, 0) == lower_parts(store@, own@, 1));
            assert(lower_union(store@, own@.contributors, 0) == lower_union(
                store@,
                own@.contributors,
                1,
            ));
        }
    }
    Parts { parts, contributors }
}

/// Above the levels of the store there is nothing more to offer.
proof fn lemma_lower_beyond(levels: Seq<LevelStateView>, own: ContributionView, from: nat, to: nat)
    requires
        levels.len() + 1 <= from <= to,
    ensures
        lower_parts(levels, own, to) == lower_parts(levels, own, from),
        lower_union(levels, own.contributors, to) == lower_union(levels, own.contributors, from),
    decreases to,
{
    if from < to {
        lemma_lower_beyond(levels, own, from, (to - 1) as nat);
    }
}

/// Whom to send to on a level, and what.
#[derive(Debug)]
pub struct SendPlan {
    /// The level the update is for.
    pub level: usize,
    /// The validator to send to.
    pub peer: usize,
    /// What the update's aggregate is made of.
    pub offer: Parts,
}

/// Plans the next send on `level`: picks the peer that the level's cursor
/// points at, moves the cursor on, and collects what there is to offer.
///
/// There is nothing to send on a level that is not open for sending, that
/// the store lacks, that is the top level, or that has no validators. The
/// cursor moves whether or not there is anything new to offer.
pub fn plan_send(store: &mut ReplaceStore, own: &Contribution, level: usize) -> (r: Option<SendPlan>)
    ensures
        final(store).wf(),
        r is Some <==> 1 <= level < old(store)@.len() && old(store)@[level - 1].send_started
            && old(store)@[level - 1].allowed.len() > 0,
        r is None ==> final(store)@ == old(store)@,
        r matches Some(plan) ==> {
            &&& plan.level == level
            &&& old(store)@[level - 1].is_next_peer(plan.peer as nat)
            &&& final(store)@ == old(store)@.update(level - 1, old(store)@[level - 1].after_send())
            &&& views(plan.offer.parts@) == lower_parts(old(store)@, own@, level as nat)
            &&& plan.offer.contributors@ == lower_union(
                old(store)@,
                own@.contributors,
                level as nat,
            )
        },
{
    proof {
        use_type_invariant(&*store);
    }
    let top = store.levels();
    if level < 1 || level >= top {
        return None;
    }
    let open = match store.state(level) {
        Some(state) => state.send_started,
        None => false,
    };
    if !open {
        return None;
    }
    let offer = collect(store, own, level);
    match store.take_peer(level) {
        Some(peer) => Some(SendPlan { level, peer, offer }),
        None => None,
    }
}

/// Whether the aggregation is done: what the node has to offer across all
/// regular levels holds every one of the `total` validators. If so, the
/// parts of the final aggregate.
pub fn plan_final(store: &ReplaceStore, own: &Contribution, total: usize) -> (r: Option<Parts>)
    ensures
        r is Some <==> lower_union(store@, own@.contributors, store@.len()).len() == total,
        r matches Some(p) ==> views(p.parts@) == lower_parts(store@, own@, store@.len())
            && p.contributors@ == lower_union(store@, own@.contributors, store@.len()),
{
    let top = store.levels();
    let offer = collect(store, own, top);
    if offer.contributors.len() == total {
        Some(offer)
    } else {
        None
    }
}

/// The update that carries an aggregate of `contributors` with the
/// aggregated `signature`, from `origin` on `level`, with the sender's own
/// individual contribution attached where one is given.
pub fn make_update(
    contributors: Identity,
    signature: [u8; SIGNATURE_SIZE],
    individual: Option<Contribution>,
    level: u8,
    origin: u16,
) -> (r: LevelUpdate)
    ensures
        r.aggregate.contributors == contributors,
        r.aggregate.signature == signature,
        r.individual == individual,
        r.level == level,
        r.origin == origin,
{
    LevelUpdate::new(Contribution::new(contributors, signature), individual, level, origin)
}

/// Each one popped scores no lower than any that stays in the queue.
pub proof fn law_pop_takes_highest(
    before: Seq<PendingUpdate>,
    after: Seq<PendingUpdate>,
    taken: Option<PendingUpdate>,
)
    requires
        popped(before, after, taken),
    ensures
        before.len() > 0 ==> taken is Some && after.len() == before.len() - 1,
        taken matches Some(t) ==> forall|j: int|
            0 <= j < after.len() ==> (#[trigger] after[j]).score <= t.score,
{
    if before.len() > 0 {
        let i = choose|i: int|
            #[trigger] is_first_best(before, i) && taken == Some(before[i]) && after
                == before.remove(i);
        assert forall|j: int| 0 <= j < after.len() implies (#[trigger] after[j]).score
            <= before[i].score by {
            if j < i {
                assert(after[j] == before[j]);
            } else {
                assert(after[j] == before[j + 1]);
            }
        }
    }
}

/// A queue never grows beyond its capacity, and what a push drops scores
/// no higher than any that stays.
pub proof fn law_push_drops_lowest(
    before: Seq<PendingUpdate>,
    capacity: nat,
    entry: PendingUpdate,
    after: Seq<PendingUpdate>,
    evicted: Option<PendingUpdate>,
)
    requires
        before.len() <= capacity,
        pushed(before, capacity, entry, after, evicted),
    ensures
        after.len() <= capacity,
        evicted is Some <==> before.len() == capacity,
        evicted matches Some(e) ==> forall|j: int|
            0 <= j < after.len() ==> (#[trigger] after[j]).score >= e.score,
{
    let appended = before.push(entry);
    if appended.len() > capacity {
        let i = choose|i: int|
            #[trigger] is_first_worst(appended, i) && evicted == Some(appended[i]) && after
                == appended.remove(i);
        assert forall|j: int| 0 <= j < after.len() implies (#[trigger] after[j]).score
            >= appended[i].score by {
            if j < i {
                assert(after[j] == appended[j]);
            } else {
                assert(after[j] == appended[j + 1]);
            }
        }
    }
}

/// The signers of all of `parts` together.
pub open spec fn union_of(parts: Seq<ContributionView>) -> Set<nat>
    decreases parts.len(),
{
    if parts.len() == 0 {
        Set::empty()
    } else {
        union_of(parts.drop_last()).union(parts.last().contributors)
    }
}

/// The validators on the levels below `level`, the node's own level zero
/// among them.
pub open spec fn below(partitioner: BinomialPartitioner, level: nat) -> Set<nat> {
    Set::new(
        |i: nat|
            exists|k: nat|
                k < level && k < partitioner.top() && (
                #[trigger] partitioner.identities_on_spec(k))->0.contains(i),
    )
}

/// What a node offers on a level is signed by the signers of its parts,
/// and by nobody else.
pub proof fn law_offer_is_union(levels: Seq<LevelStateView>, own: ContributionView, level: nat)
    ensures
        union_of(lower_parts(levels, own, level)) == lower_union(levels, own.contributors, level),
    decreases level,
{
    if level <= 1 {
        let one = seq![own];
        assert(one.drop_last() =~= Seq::<ContributionView>::empty());
        assert(one.last() == own);
        assert(union_of(one.drop_last()) == Set::<nat>::empty());
        assert(union_of(one) =~= own.contributors);
    } else {
        law_offer_is_union(levels, own, (level - 1) as nat);
        let under = lower_parts(levels, own, (level - 1) as nat);
        match state_of(levels, (level - 1) as nat) {
            Some(s) => match s.best {
                Some(b) => {
                    assert(under.push(b).drop_last() =~= under);
                },
                None => {},
            },
            None => {},
        }
    }
}

/// In a store whose levels are those of the partition, the parts of what a
/// node offers share no signer, and none of them reaches beyond the levels
/// below the one the offer is for. So no signature is aggregated twice.
pub proof fn law_offer_parts_disjoint(
    levels: Seq<LevelStateView>,
    partitioner: BinomialPartitioner,
    own: ContributionView,
    level: nat,
)
    requires
        levels_wf(levels),
        levels_match(levels, partitioner),
        partitioner.wf(),
        own.contributors == singleton(partitioner.node()),
        1 <= level <= partitioner.top(),
    ensures
        forall|i: int, j: int|
            0 <= i < j < lower_parts(levels, own, level).len() ==> (#[trigger] lower_parts(
                levels,
                own,
                level,
            )[i]).contributors.disjoint((#[trigger] lower_parts(levels, own, level)[j]).contributors),
        forall|i: int|
            0 <= i < lower_parts(levels, own, level).len() ==> (#[trigger] lower_parts(
                levels,
                own,
                level,
            )[i]).contributors.subset_of(below(partitioner, level)),
    decreases level,
{
    let parts = lower_parts(levels, own, level);
    if level <= 1 {
        assert(partitioner.identities_on_spec(0)->0 == singleton(partitioner.node()));
        assert forall|i: int| 0 <= i < parts.len() implies (#[trigger] parts[i]).contributors.subset_of(
            below(partitioner, level),
        ) by {
            assert forall|x: nat| parts[i].contributors.contains(x) implies below(
                partitioner,
                level,
            ).contains(x) by {
                assert(partitioner.identities_on_spec(0)->0.contains(x));
            }
        }
    } else {
        let l = (level - 1) as nat;
        law_offer_parts_disjoint(levels, partitioner, own, l);
        let under = lower_parts(levels, own, l);
        assert forall|x: nat| below(partitioner, l).contains(x) implies below(
            partitioner,
            level,
        ).contains(x) by {
            let k = choose|k: nat|
                k < l && k < partitioner.top() && (#[trigger] partitioner.identities_on_spec(
                    k,
                ))->0.contains(x);
            assert(k < level && k < partitioner.top() && partitioner.identities_on_spec(
                k,
            )->0.contains(x));
        }
        let s = levels[l - 1];
        assert(state_of(levels, l) == Some(s));
        assert(s.wf());
        assert(Some(s.allowed) == partitioner.identities_on_spec(l));
        match s.best {
            Some(b) => {
                assert(parts == under.push(b));
                assert forall|x: nat| b.contributors.contains(x) implies below(
                    partitioner,
                    level,
                ).contains(x) by {
                    assert(partitioner.identities_on_spec(l)->0.contains(x));
                }
                assert forall|i: int| 0 <= i < under.len() implies (#[trigger] under[i]).contributors.disjoint(
                    b.contributors,
                ) by {
                    assert forall|x: nat| under[i].contributors.contains(x) implies !b.contributors.contains(
                        x,
                    ) by {
                        assert(below(partitioner, l).contains(x));
                        let k = choose|k: nat|
                            k < l && k < partitioner.top() && (
                            #[trigger] partitioner.identities_on_spec(k))->0.contains(x);
                        partitioner.law_levels_disjoint(k, l);
                    }
                }
                assert forall|i: int, j: int| 0 <= i < j < parts.len() implies (#[trigger] parts[i]).contributors.disjoint(
                    (#[trigger] parts[j]).contributors,
                ) by {
                    if j < under.len() {
                        assert(parts[i] == under[i] && parts[j] == under[j]);
                    } else {
                        assert(parts[i] == under[i]);
                    }
                }
                assert forall|i: int| 0 <= i < parts.len() implies (#[trigger] parts[i]).contributors.subset_of(
                    below(partitioner, level),
                ) by {
                    if i < under.len() {
                        assert(parts[i] == under[i]);
                    }
                }
            },
            None => {
                assert(parts == under);
            },
        }
    }
}

/// In a store whose levels are those of the partition, what a node offers
/// once it holds as many signers as there are validators is signed by
/// every validator.
pub proof fn law_final_holds_all(
    levels: Seq<LevelStateView>,
    partitioner: BinomialPartitioner,
    own: ContributionView,
)
    requires
        levels_wf(levels),
        levels_match(levels, partitioner),
        partitioner.wf(),
        own.contributors == singleton(partitioner.node()),
        lower_union(levels, own.contributors, partitioner.top()).len() == partitioner.total(),
    ensures
        lower_union(levels, own.contributors, partitioner.top()) == span(0, partitioner.total()),
{
    let top = partitioner.top();
    let all = span(0, partitioner.total());
    let offer = lower_union(levels, own.contributors, top);
    partitioner.lemma_wf();
    law_offer_is_union(levels, own, top);
    law_offer_parts_disjoint(levels, partitioner, own, top);
    lemma_union_within(lower_parts(levels, own, top), below(partitioner, top));
    assert forall|x: nat| below(partitioner, top).contains(x) implies all.contains(x) by {
        let k = choose|k: nat|
            k < top && k < partitioner.top() && (#[trigger] partitioner.identities_on_spec(
                k,
            ))->0.contains(x);
        partitioner.lemma_level_bounded(k);
    }
    crate::identity::lemma_span_len(0, partitioner.total());
    assert(offer.subset_of(all));
    vstd::set_lib::lemma_subset_equality(offer, all);
}

/// Parts that each stay within a set stay within it together.
proof fn lemma_union_within(parts: Seq<ContributionView>, bound: Set<nat>)
    requires
        forall|i: int| 0 <= i < parts.len() ==> (#[trigger] parts[i]).contributors.subset_of(bound),
    ensures
        union_of(parts).subset_of(bound),
    decreases parts.len(),
{
    if parts.len() > 0 {
        let front = parts.drop_last();
        assert forall|i: int| 0 <= i < front.len() implies (#[trigger] front[i]).contributors.subset_of(
            bound,
        ) by {
            assert(front[i] == parts[i]);
        }
        lemma_union_within(front, bound);
        assert(parts.last() == parts[parts.len() - 1]);
    }
}

/// The store after the next level was opened, if one was.
pub open spec fn opened(levels: Seq<LevelStateView>, current: nat, timed_out: bool) -> Seq<
    LevelStateView,
> {
    if next_level(levels, current, timed_out) != current {
        levels.update(current as int, levels[current as int].activate())
    } else {
        levels
    }
}

/// What one node keeps of an aggregation beside the store: its own
/// contribution, the level that was opened last, and the updates that wait
/// for their signatures to be checked.
pub struct Aggregation {
    registry: Arc<Registry>,
    partitioner: Arc<BinomialPartitioner>,
    own_contribution: Contribution,
    current_level: usize,
    pending_verify: VerifyQueue,
}

impl Aggregation {
    /// The registry of the validators.
    pub closed spec fn registry(self) -> Registry {
        *self.registry
    }

    /// The partition of the validators into levels.
    pub closed spec fn partition(self) -> BinomialPartitioner {
        *self.partitioner
    }

    /// The node's own contribution.
    pub closed spec fn own(self) -> Contribution {
        self.own_contribution
    }

    /// The level that was opened last.
    pub closed spec fn current(self) -> nat {
        self.current_level as nat
    }

    /// The updates that wait, in the order they came.
    pub closed spec fn pending(self) -> Seq<PendingUpdate> {
        self.pending_verify@
    }

    /// The most updates that wait at a time.
    pub closed spec fn capacity(self) -> nat {
        self.pending_verify.capacity()
    }

    /// Everything but the updates that wait and the level that was opened
    /// last stays as it is for the whole of an aggregation.
    pub open spec fn same_setting(self, other: Aggregation) -> bool {
        &&& self.registry() == other.registry()
        &&& self.partition() == other.partition()
        &&& self.own() == other.own()
        &&& self.capacity() == other.capacity()
    }

    /// An aggregation at its start: level one is open, and nothing waits.
    pub fn new(
        registry: Arc<Registry>,
        partitioner: Arc<BinomialPartitioner>,
        own_contribution: Contribution,
        queue_capacity: usize,
    ) -> (r: Self)
        ensures
            r.registry() == *registry,
            r.partition() == *partitioner,
            r.own() == own_contribution,
            r.current() == 1,
            r.pending() == Seq::<PendingUpdate>::empty(),
            r.capacity() == queue_capacity,
    {
        Aggregation {
            registry,
            partitioner,
            own_contribution,
            current_level: 1,
            pending_verify: VerifyQueue::new(queue_capacity),
        }
    }

    /// The level that was opened last.
    pub fn current_level(&self) -> (r: usize)
        ensures
            r == self.current(),
    {
        self.current_level
    }

    /// Takes an update that came in from a peer: drops it if it is not
    /// well-formed or scores zero against `store`, and has it wait for its
    /// signatures to be checked otherwise.
    pub fn on_update(&mut self, store: &ReplaceStore, update: LevelUpdate) -> (r: Receipt)
        ensures
            final(self).same_setting(*old(self)),
            final(self).current() == old(self).current(),
            match verify_spec(old(self).registry(), old(self).partition(), update@) {
                Err(e) => r matches Receipt::Invalid(x) && x@ == e && final(self).pending() == old(
                    self,
                ).pending(),
                Ok(_) => {
                    let s = evaluate_spec(
                        store@,
                        old(self).registry(),
                        old(self).partition(),
                        update@.aggregate,
                        update.level as nat,
                    );
                    if s == 0 {
                        r is Useless && final(self).pending() == old(self).pending()
                    } else {
                        r matches Receipt::Queued { score, evicted } && score == s && pushed(
                            old(self).pending(),
                            old(self).capacity(),
                            PendingUpdate { update, score },
                            final(self).pending(),
                            evicted,
                        )
                    }
                },
            },
    {
        receive(store, &self.registry, &self.partitioner, &mut self.pending_verify, update)
    }

    /// Takes the update whose signatures are to be checked next: of those
    /// that wait, the one that scores highest, and of several the one that
    /// came first.
    pub fn next_pending(&mut self) -> (r: Option<PendingUpdate>)
        ensures
            final(self).same_setting(*old(self)),
            final(self).current() == old(self).current(),
            popped(old(self).pending(), final(self).pending(), r),
    {
        self.pending_verify.pop()
    }

    /// Merges an update whose signatures have been checked into `store`,
    /// and opens the next level if the level that was opened last is
    /// complete by now.
    pub fn on_verified(
        &mut self,
        store: &mut ReplaceStore,
        update: LevelUpdate,
        aggregate_valid: bool,
        individual_valid: bool,
    ) -> (r: Result<Merged, AggregationError>)
        ensures
            final(self).same_setting(*old(self)),
            final(self).pending() == old(self).pending(),
            final(store).wf(),
            !aggregate_valid ==> r == Err::<Merged, AggregationError>(
                AggregationError::CryptoVerifyFailed,
            ) && final(store)@ == old(store)@ && final(self).current() == old(self).current(),
            aggregate_valid ==> r is Ok && final(self).current() == next_level(
                merged_store(old(store)@, update@, individual_valid),
                old(self).current(),
                false,
            ) && final(store)@ == opened(
                merged_store(old(store)@, update@, individual_valid),
                old(self).current(),
                false,
            ),
            r matches Ok(m) ==> m.best_replaced == (state_of(old(store)@, update.level as nat)
                is Some && state_of(old(store)@, update.level as nat)->0.accepts_best(
                update@.aggregate,
            )),
    {
        let merged = merge_verified(store, update, aggregate_valid, individual_valid);
        match merged {
            Ok(m) => {
                self.current_level = open_next_level(store, self.current_level, false);
                Ok(m)
            },
            Err(e) => Err(e),
        }
    }

    /// The time of the level that was opened last is up: the next level is
    /// opened, if there is a regular level next.
    pub fn on_level_timeout(&mut self, store: &mut ReplaceStore)
        ensures
            final(self).same_setting(*old(self)),
            final(self).pending() == old(self).pending(),
            final(store).wf(),
            final(self).current() == next_level(old(store)@, old(self).current(), true),
            final(store)@ == opened(old(store)@, old(self).current(), true),
    {
        self.current_level = open_next_level(store, self.current_level, true);
    }

    /// Plans the next send on `level`; see [`plan_send`].
    pub fn next_send(&self, store: &mut ReplaceStore, level: usize) -> (r: Option<SendPlan>)
        ensures
            final(store).wf(),
            r is Some <==> 1 <= level < old(store)@.len() && old(store)@[level - 1].send_started
                && old(store)@[level - 1].allowed.len() > 0,
            r is None ==> final(store)@ == old(store)@,
            r matches Some(plan) ==> {
                &&& plan.level == level
                &&& old(store)@[level - 1].is_next_peer(plan.peer as nat)
                &&& final(store)@ == old(store)@.update(
                    level - 1,
                    old(store)@[level - 1].after_send(),
                )
                &&& views(plan.offer.parts@) == lower_parts(old(store)@, self.own()@, level as nat)
                &&& plan.offer.contributors@ == lower_union(
                    old(store)@,
                    self.own()@.contributors,
                    level as nat,
                )
            },
    {
        plan_send(store, &self.own_contribution, level)
    }

    /// Whether the aggregation is done, and if so the parts of the final
    /// aggregate; see [`plan_final`].
    pub fn finished(&self, store: &ReplaceStore) -> (r: Option<Parts>)
        ensures
            r is Some <==> lower_union(store@, self.own()@.contributors, store@.len()).len()
                == self.partition().total(),
            r matches Some(p) ==> views(p.parts@) == lower_parts(store@, self.own()@, store@.len())
                && p.contributors@ == lower_union(store@, self.own()@.contributors, store@.len()),
    {
        plan_final(store, &self.own_contribution, self.partitioner.size())
    }
}

} // verus!
