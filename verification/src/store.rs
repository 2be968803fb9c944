//! The contribution store: for every level the best aggregate seen so far
//! and the verified individual contributions.

use crate::contribution::{Contribution, ContributionView};
use crate::identity::{count_below, lemma_only_member, singleton, Identity, CAPACITY};
use crate::partitioner::{BinomialPartitioner, MAX_LEVELS};
use std::collections::HashMap;
use vstd::prelude::*;
use vstd::std_specs::hash::*;

verus! {

broadcast use group_hash_axioms;

/// What the store keeps for one level.
#[derive(Debug)]
pub struct LevelState {
    pub level: usize,
    pub allowed: Identity,
    pub best: Option<Contribution>,
    pub individuals_verified: Identity,
    pub individuals: HashMap<usize, Contribution>,
    pub receive_started: bool,
    pub send_started: bool,
    pub next_peer_idx: usize,
}

/// What a [`LevelState`] stands for.
pub struct LevelStateView {
    pub level: nat,
    pub allowed: Set<nat>,
    pub best: Option<ContributionView>,
    pub individuals_verified: Set<nat>,
    pub individuals: Map<nat, ContributionView>,
    pub receive_started: bool,
    pub send_started: bool,
    pub next_peer_idx: nat,
}

/// The individuals of a level, by signer, as the store's map holds them.
pub open spec fn individuals_view(m: Map<usize, Contribution>) -> Map<nat, ContributionView> {
    Map::new(|i: nat| i <= usize::MAX && m.contains_key(i as usize), |i: nat| m[i as usize]@)
}

impl View for LevelState {
    type V = LevelStateView;

    open spec fn view(&self) -> LevelStateView {
        LevelStateView {
            level: self.level as nat,
            allowed: self.allowed@,
            best: match self.best {
                Some(c) => Some(c@),
                None => None,
            },
            individuals_verified: self.individuals_verified@,
            individuals: individuals_view(self.individuals@),
            receive_started: self.receive_started,
            send_started: self.send_started,
            next_peer_idx: self.next_peer_idx as nat,
        }
    }
}

impl LevelStateView {
    /// The invariants of a level: the allowed validators are a bounded finite
    /// set; the best aggregate is not empty and stays within them; every
    /// individual is stored under its one signer, who is allowed; and the set
    /// of verified individuals is the set of those signers.
    pub open spec fn wf(self) -> bool {
        &&& self.allowed.finite()
        &&& forall|i: nat| self.allowed.contains(i) ==> i < CAPACITY
        &&& self.best matches Some(b) ==> b.contributors.subset_of(self.allowed)
            && b.contributors.len() >= 1
        &&& self.individuals_verified == self.individuals.dom()
        &&& self.individuals.dom().subset_of(self.allowed)
        &&& forall|i: nat| #[trigger]
            self.individuals.contains_key(i) ==> self.individuals[i].contributors == singleton(i)
    }

    /// A level is complete once its best aggregate holds every allowed
    /// validator.
    pub open spec fn complete(self) -> bool {
        self.best matches Some(b) && b.contributors.len() == self.allowed.len()
    }

    /// Whether `c` would become the best aggregate: it is not empty, stays
    /// within the allowed validators, and there is no best yet or `c` holds
    /// strictly more than the best does.
    pub open spec fn accepts_best(self, c: ContributionView) -> bool {
        &&& c.contributors != Set::<nat>::empty()
        &&& c.contributors.subset_of(self.allowed)
        &&& self.best matches Some(b) ==> b.contributors.subset_of(c.contributors)
            && b.contributors != c.contributors
    }

    /// The level after `c` was offered as best aggregate.
    pub open spec fn put_best(self, c: ContributionView) -> LevelStateView {
        if self.accepts_best(c) {
            LevelStateView { best: Some(c), ..self }
        } else {
            self
        }
    }

    /// Whether the individual `c` would be stored: its signer is allowed and
    /// has no individual stored yet.
    pub open spec fn accepts_individual(self, c: ContributionView) -> bool {
        let signer = c.contributors.choose();
        self.allowed.contains(signer) && !self.individuals.contains_key(signer)
    }

    /// The level after the individual `c` was offered.
    pub open spec fn put_individual(self, c: ContributionView) -> LevelStateView {
        let signer = c.contributors.choose();
        if self.accepts_individual(c) {
            LevelStateView {
                individuals: self.individuals.insert(signer, c),
                individuals_verified: self.individuals_verified.insert(signer),
                ..self
            }
        } else {
            self
        }
    }

    /// The individual stored for the one signer of `identity`, if `identity`
    /// has exactly one member and that signer has one stored.
    pub open spec fn individual_signature(self, identity: Set<nat>) -> Option<ContributionView> {
        if identity.finite() && identity.len() == 1 && self.individuals.contains_key(
            identity.choose(),
        ) {
            Some(self.individuals[identity.choose()])
        } else {
            None
        }
    }

    /// The level once it is open: it receives and it sends.
    pub open spec fn activate(self) -> LevelStateView {
        LevelStateView { receive_started: true, send_started: true, ..self }
    }

    /// Where the round-robin cursor points among the allowed validators,
    /// counted from the least.
    pub open spec fn cursor(self) -> nat {
        self.next_peer_idx % self.allowed.len()
    }

    /// Whether `peer` is the validator the cursor points at: the allowed
    /// validator that has as many allowed validators below it as the cursor
    /// says.
    pub open spec fn is_next_peer(self, peer: nat) -> bool {
        self.allowed.contains(peer) && count_below(self.allowed, peer) == self.cursor()
    }

    /// The level after a send: the cursor has moved on by one, and around
    /// at the end.
    pub open spec fn after_send(self) -> LevelStateView {
        LevelStateView { next_peer_idx: (self.cursor() + 1) % self.allowed.len(), ..self }
    }

    /// The level after every contribution of `cs` was offered in turn as
    /// best aggregate.
    pub open spec fn put_bests(self, cs: Seq<ContributionView>) -> LevelStateView
        decreases cs.len(),
    {
        if cs.len() == 0 {
            self
        } else {
            self.put_bests(cs.drop_last()).put_best(cs.last())
        }
    }

    /// Whether every contribution of `cs`, offered in turn, was accepted.
    pub open spec fn all_accepted(self, cs: Seq<ContributionView>) -> bool
        decreases cs.len(),
    {
        cs.len() > 0 ==> self.all_accepted(cs.drop_last()) && self.put_bests(
            cs.drop_last(),
        ).accepts_best(cs.last())
    }
}

/// The one member of a singleton is what `choose` picks from it.
pub proof fn lemma_choose_single(i: nat)
    ensures
        singleton(i).choose() == i,
        singleton(i).finite(),
        singleton(i).len() == 1,
{
    assert(singleton(i).contains(i));
    assert(singleton(i).contains(singleton(i).choose()));
}

/// Offering a best aggregate or an individual keeps a level well-formed.
pub proof fn lemma_puts_keep_wf(s: LevelStateView, c: ContributionView)
    requires
        s.wf(),
        c.contributors.finite(),
    ensures
        s.put_best(c).wf(),
        c.individual() ==> s.put_individual(c).wf(),
{
    if s.accepts_best(c) {
        if c.contributors.len() == 0 {
            c.contributors.lemma_len0_is_empty();
            assert(c.contributors =~= Set::<nat>::empty());
        }
    }
    if c.individual() && s.accepts_individual(c) {
        let signer = c.contributors.choose();
        let t = s.put_individual(c);
        assert(c.contributors.contains(signer)) by {
            if c.contributors =~= Set::<nat>::empty() {
                assert(c.contributors.len() == 0);
            }
        }
        lemma_only_member(c.contributors, signer);
        assert(t.individuals.dom() =~= s.individuals.dom().insert(signer));
        assert forall|i: nat| #[trigger] t.individuals.contains_key(i) implies t.individuals[i].contributors
            == singleton(i) by {
            if i != signer {
                assert(s.individuals.contains_key(i));
            }
        }
    }
}

/// Each accepted best aggregate holds strictly more validators than the one
/// it replaces.
pub proof fn law_accepted_best_strictly_grows(s: LevelStateView, c: ContributionView)
    requires
        s.accepts_best(c),
    ensures
        s.put_best(c).best == Some(c),
        s.best matches Some(b) ==> b.contributors.subset_of(c.contributors) && b.contributors
            != c.contributors,
{
}

/// Over any sequence of accepted best aggregates the stored contributor sets
/// rise strictly: each one offered later holds all of an earlier one and is
/// not equal to it; and the last one offered is the one stored.
pub proof fn law_accepted_bests_rise(s: LevelStateView, cs: Seq<ContributionView>)
    requires
        s.all_accepted(cs),
    ensures
        cs.len() > 0 ==> s.put_bests(cs).best == Some(cs.last()),
        forall|i: int, j: int|
            0 <= i < j < cs.len() ==> (#[trigger] cs[i]).contributors.subset_of(
                (#[trigger] cs[j]).contributors,
            ) && cs[i].contributors != cs[j].contributors,
    decreases cs.len(),
{
    if cs.len() > 0 {
        let front = cs.drop_last();
        law_accepted_bests_rise(s, front);
        let before = s.put_bests(front);
        let last = cs.last();
        assert forall|i: int, j: int| 0 <= i < j < cs.len() implies (#[trigger] cs[i]).contributors.subset_of(
            (#[trigger] cs[j]).contributors,
        ) && cs[i].contributors != cs[j].contributors by {
            assert(cs[i] == front[i]);
            if j < cs.len() - 1 {
                assert(cs[j] == front[j]);
            } else {
                let prev = front.last();
                assert(before.best == Some(prev));
                assert(prev.contributors.subset_of(last.contributors));
                assert(prev.contributors != last.contributors);
                if i < cs.len() - 2 {
                    assert(front[i].contributors.subset_of(prev.contributors));
                    if cs[i].contributors == last.contributors {
                        assert(prev.contributors =~= last.contributors);
                    }
                }
            }
        }
    }
}

/// A complete level never changes its best aggregate again.
pub proof fn law_complete_level_is_final(s: LevelStateView, c: ContributionView)
    requires
        s.wf(),
        s.complete(),
    ensures
        !s.accepts_best(c),
        s.put_best(c) == s,
{
    if s.accepts_best(c) {
        let b = s.best->0;
        vstd::set_lib::lemma_set_subset_finite(s.allowed, c.contributors);
        vstd::set_lib::lemma_len_subset(c.contributors, s.allowed);
        vstd::set_lib::lemma_len_subset(b.contributors, c.contributors);
        vstd::set_lib::lemma_subset_equality(b.contributors, c.contributors);
    }
}

/// The cursor of a level points at one validator at a time, and every
/// allowed validator has a place at which the cursor points at it. So a
/// round of as many sends as the level has validators reaches each of
/// them once.
pub proof fn law_cursor_takes_turns(s: LevelStateView, p: nat, q: nat)
    requires
        s.wf(),
        s.allowed.contains(p),
        s.allowed.contains(q),
    ensures
        count_below(s.allowed, p) < s.allowed.len(),
        count_below(s.allowed, p) == count_below(s.allowed, q) ==> p == q,
{
    crate::identity::lemma_count_is_len(s.allowed, CAPACITY as nat);
    crate::identity::lemma_count_grows(s.allowed, p + 1, CAPACITY as nat);
    assert(count_below(s.allowed, p + 1) == count_below(s.allowed, p) + 1);
    if p < q {
        crate::identity::lemma_count_grows(s.allowed, p + 1, q);
    } else if q < p {
        crate::identity::lemma_count_grows(s.allowed, q + 1, p);
        assert(count_below(s.allowed, q + 1) == count_below(s.allowed, q) + 1);
    }
}

/// Storing an individual a second time changes nothing.
pub proof fn law_put_individual_idempotent(s: LevelStateView, c: ContributionView)
    ensures
        s.put_individual(c).put_individual(c) == s.put_individual(c),
{
}

impl LevelState {
    /// The fresh state of `level` with the given allowed validators.
    pub fn new(level: usize, allowed: Identity) -> (r: Self)
        ensures
            r@.wf(),
            r@.level == level,
            r@.allowed == allowed@,
            r@.best is None,
            r@.individuals == Map::<nat, ContributionView>::empty(),
            !r@.receive_started,
            !r@.send_started,
            r@.next_peer_idx == 0,
    {
        proof {
            use_type_invariant(&allowed);
            allowed.lemma_bounded();
        }
        let r = LevelState {
            level,
            allowed,
            best: None,
            individuals_verified: Identity::new(),
            individuals: HashMap::new(),
            receive_started: false,
            send_started: false,
            next_peer_idx: 0,
        };
        assert(r@.individuals =~= Map::<nat, ContributionView>::empty());
        assert(r@.individuals.dom() =~= Set::<nat>::empty());
        r
    }

    /// Offers `c` as the best aggregate of the level and says whether it was
    /// taken.
    pub fn put_best(&mut self, c: Contribution) -> (accepted: bool)
        requires
            old(self)@.wf(),
        ensures
            accepted == old(self)@.accepts_best(c@),
            final(self)@ == old(self)@.put_best(c@),
            final(self)@.wf(),
    {
        if c.contributors.is_empty() {
            return false;
        }
        if !self.allowed.is_superset_of(&c.contributors) {
            return false;
        }
        let grows = match &self.best {
            Some(b) => c.contributors.is_superset_of(&b.contributors) && !b.contributors.is_superset_of(
                &c.contributors,
            ),
            None => true,
        };
        proof {
            if self.best is Some {
                let b = self.best->0;
                if b@.contributors.subset_of(c@.contributors) && c@.contributors.subset_of(
                    b@.contributors,
                ) {
                    assert(b@.contributors =~= c@.contributors);
                }
            }
        }
        if !grows {
            return false;
        }
        proof {
            vstd::set_lib::lemma_set_subset_finite(self@.allowed, c@.contributors);
            lemma_puts_keep_wf(self@, c@);
            use_type_invariant(&c.contributors);
        }
        self.best = Some(c);
        true
    }

    /// Stores the individual contribution `c` unless its signer is not
    /// allowed on the level or already has one stored; says whether it was
    /// stored.
    pub fn put_individual(&mut self, c: Contribution) -> (stored: bool)
        requires
            old(self)@.wf(),
            c@.individual(),
        ensures
            stored == old(self)@.accepts_individual(c@),
            final(self)@ == old(self)@.put_individual(c@),
            final(self)@.wf(),
    {
        let single = c.contributors.as_single();
        let signer = single.unwrap();
        proof {
            lemma_choose_single(signer as nat);
            lemma_puts_keep_wf(self@, c@);
        }
        if !self.allowed.contains(signer) {
            return false;
        }
        if self.individuals.contains_key(&signer) {
            return false;
        }
        let ghost before = self@;
        let ghost cv = c@;
        self.individuals_verified.insert(signer);
        self.individuals.insert(signer, c);
        proof {
            assert(self@.individuals =~= before.individuals.insert(signer as nat, cv));
            assert(self@ == before.put_individual(cv));
        }
        true
    }

    /// Opens the level for receiving and sending.
    pub fn activate(&mut self)
        requires
            old(self)@.wf(),
        ensures
            final(self)@ == old(self)@.activate(),
            final(self)@.wf(),
    {
        self.receive_started = true;
        self.send_started = true;
    }

    /// Whether the best aggregate holds every validator of the level.
    pub fn is_complete(&self) -> (r: bool)
        requires
            self@.wf(),
        ensures
            r == self@.complete(),
    {
        match &self.best {
            Some(b) => b.contributors.len() == self.allowed.len(),
            None => false,
        }
    }

    /// The peer to send to next, and moves the cursor on. `None`, and no
    /// move, on a level without validators.
    pub fn take_peer(&mut self) -> (r: Option<usize>)
        requires
            old(self)@.wf(),
        ensures
            r is None <==> old(self)@.allowed.len() == 0,
            r is None ==> final(self)@ == old(self)@,
            r matches Some(peer) ==> old(self)@.is_next_peer(peer as nat)
                && final(self)@ == old(self)@.after_send(),
            final(self)@.wf(),
    {
        let n = self.allowed.len();
        if n == 0 {
            return None;
        }
        let idx = self.next_peer_idx % n;
        let peer = self.allowed.nth(idx);
        self.next_peer_idx = (idx + 1) % n;
        peer
    }

    /// The best aggregate of the level, if there is one.
    pub fn best(&self) -> (r: Option<&Contribution>)
        ensures
            r is Some <==> self@.best is Some,
            r matches Some(c) ==> Some(c@) == self@.best && Some(*c) == self.best,
    {
        self.best.as_ref()
    }

    /// The individual stored for the one signer of `identity`, if there is
    /// one.
    pub fn individual_signature(&self, identity: &Identity) -> (r: Option<&Contribution>)
        ensures
            r is Some <==> self@.individual_signature(identity@) is Some,
            r matches Some(c) ==> Some(c@) == self@.individual_signature(identity@),
    {
        match identity.as_single() {
            Some(signer) => {
                proof {
                    lemma_choose_single(signer as nat);
                }
                self.individuals.get(&signer)
            },
            None => None,
        }
    }
}

/// The contribution store of one aggregation: a [`LevelState`] for each of
/// the levels one up to the top.
#[derive(Debug)]
pub struct ReplaceStore {
    levels: Vec<LevelState>,
}

/// The states of a store, well-formed each, and numbered from one.
pub open spec fn levels_wf(levels: Seq<LevelStateView>) -> bool {
    &&& levels.len() <= MAX_LEVELS
    &&& forall|k: int| 0 <= k < levels.len() ==> (#[trigger] levels[k]).wf() && levels[k].level == k + 1
}

/// The state of `level` in a store; nothing for a level the store lacks.
pub open spec fn state_of(levels: Seq<LevelStateView>, level: nat) -> Option<LevelStateView> {
    if 1 <= level <= levels.len() {
        Some(levels[level - 1])
    } else {
        None
    }
}

/// The best aggregate of `level` in a store.
pub open spec fn best_of(levels: Seq<LevelStateView>, level: nat) -> Option<ContributionView> {
    match state_of(levels, level) {
        Some(s) => s.best,
        None => None,
    }
}

/// Whether the store's levels are those of `partitioner`, each with the
/// validators it allows.
pub open spec fn levels_match(levels: Seq<LevelStateView>, partitioner: BinomialPartitioner) -> bool {
    &&& levels.len() == partitioner.top()
    &&& forall|k: int|
        0 <= k < levels.len() ==> Some((#[trigger] levels[k]).allowed)
            == partitioner.identities_on_spec((k + 1) as nat)
}

impl View for ReplaceStore {
    type V = Seq<LevelStateView>;

    closed spec fn view(&self) -> Seq<LevelStateView> {
        Seq::new(self.levels@.len(), |k: int| self.levels@[k]@)
    }
}

impl ReplaceStore {
    /// Every level of the store keeps its invariants.
    #[verifier::type_invariant]
    pub closed spec fn wf(self) -> bool {
        levels_wf(self@)
    }

    /// A well-formed store has well-formed levels.
    pub proof fn lemma_wf(self)
        requires
            self.wf(),
        ensures
            levels_wf(self@),
    {
    }

    /// The empty store for the levels of `partitioner`.
    pub fn new(partitioner: &BinomialPartitioner) -> (r: Self)
        ensures
            r.wf(),
            levels_match(r@, *partitioner),
            forall|k: int|
                0 <= k < r@.len() ==> (#[trigger] r@[k]).best is None && r@[k].individuals
                    == Map::<nat, ContributionView>::empty() && !r@[k].receive_started
                    && !r@[k].send_started && r@[k].next_peer_idx == 0,
    {
        let top = partitioner.levels();
        let mut levels: Vec<LevelState> = Vec::new();
        let mut level: usize = 1;
        while level <= top
            invariant
                1 <= level <= top + 1,
                top == partitioner.top(),
                top <= MAX_LEVELS,
                levels@.len() == level - 1,
                forall|k: int|
                    0 <= k < levels@.len() ==> {
                        &&& (#[trigger] levels@[k])@.wf()
                        &&& levels@[k]@.level == k + 1
                        &&& Some(levels@[k]@.allowed) == partitioner.identities_on_spec(
                            (k + 1) as nat,
                        )
                        &&& levels@[k]@.best is None
                        &&& levels@[k]@.individuals == Map::<nat, ContributionView>::empty()
                        &&& !levels@[k]@.receive_started
                        &&& !levels@[k]@.send_started
                        &&& levels@[k]@.next_peer_idx == 0
                    },
            decreases top + 1 - level,
        {
            let allowed = partitioner.identities_on(level).unwrap();
            levels.push(LevelState::new(level, allowed));
            level = level + 1;
        }
        ReplaceStore { levels }
    }

    /// The number of levels the store holds.
    pub fn levels(&self) -> (r: usize)
        ensures
            r == self@.len(),
            r <= MAX_LEVELS,
    {
        proof {
            use_type_invariant(self);
        }
        self.levels.len()
    }

    /// The state of `level`, if the store has that level.
    pub fn state(&self, level: usize) -> (r: Option<&LevelState>)
        ensures
            r is Some <==> state_of(self@, level as nat) is Some,
            r matches Some(s) ==> Some(s@) == state_of(self@, level as nat) && s@.wf(),
    {
        proof {
            use_type_invariant(self);
        }
        if 1 <= level && level <= self.levels.len() {
            Some(&self.levels[level - 1])
        } else {
            None
        }
    }

    /// The best aggregate of `level`, if there is one.
    pub fn best(&self, level: usize) -> (r: Option<&Contribution>)
        ensures
            r is Some <==> best_of(self@, level as nat) is Some,
            r matches Some(c) ==> Some(c@) == best_of(self@, level as nat),
    {
        match self.state(level) {
            Some(s) => s.best(),
            None => None,
        }
    }

    /// The signers whose individual contributions are verified and stored
    /// on `level`.
    pub fn individual_verified(&self, level: usize) -> (r: &Identity)
        requires
            1 <= level <= self@.len(),
        ensures
            r@ == self@[level - 1].individuals_verified,
    {
        proof {
            use_type_invariant(self);
        }
        &self.levels[level - 1].individuals_verified
    }

    /// The individual stored on `level` for the one signer of `identity`.
    pub fn individual_signature(&self, level: usize, identity: &Identity) -> (r: Option<
        &Contribution,
    >)
        ensures
            r is Some <==> state_of(self@, level as nat) is Some && state_of(
                self@,
                level as nat,
            )->0.individual_signature(identity@) is Some,
            r matches Some(c) ==> Some(c@) == state_of(
                self@,
                level as nat,
            )->0.individual_signature(identity@),
    {
        match self.state(level) {
            Some(s) => s.individual_signature(identity),
            None => None,
        }
    }

    /// Opens `level` for receiving and sending; says whether the store has
    /// that level.
    pub fn activate(&mut self, level: usize) -> (found: bool)
        ensures
            found == (state_of(old(self)@, level as nat) is Some),
            found ==> final(self)@ == old(self)@.update(
                level - 1,
                old(self)@[level - 1].activate(),
            ),
            !found ==> final(self)@ == old(self)@,
            final(self).wf(),
    {
        proof {
            use_type_invariant(&*self);
        }
        if level < 1 || level > self.levels.len() {
            return false;
        }
        let ghost before = self@;
        let ghost states = self.levels@;
        let mut levels: Vec<LevelState> = Vec::new();
        std::mem::swap(&mut self.levels, &mut levels);
        let mut state = levels.remove(level - 1);
        state.activate();
        let ghost after = state@;
        levels.insert(level - 1, state);
        proof {
            assert forall|k: int| 0 <= k < levels@.len() implies (#[trigger] levels@[k])@.wf()
                && levels@[k]@.level == k + 1 by {
                if k != level - 1 {
                    assert(levels@[k] == states[k]);
                    assert(before[k] == states[k]@);
                } else {
                    assert(before[k] == states[k]@);
                }
            }
        }
        self.levels = levels;
        proof {
            assert(self@ =~= before.update(level - 1, after));
        }
        true
    }

    /// The peer of `level` to send to next, and moves that level's cursor
    /// on. `None`, and no move, if the store lacks the level or the level
    /// has no validators.
    pub fn take_peer(&mut self, level: usize) -> (r: Option<usize>)
        ensures
            r is Some <==> state_of(old(self)@, level as nat) is Some && old(self)@[level
                - 1].allowed.len() > 0,
            r is None ==> final(self)@ == old(self)@,
            r matches Some(peer) ==> old(self)@[level - 1].is_next_peer(peer as nat)
                && final(self)@ == old(self)@.update(
                level - 1,
                old(self)@[level - 1].after_send(),
            ),
            final(self).wf(),
    {
        proof {
            use_type_invariant(&*self);
        }
        if level < 1 || level > self.levels.len() {
            return None;
        }
        let ghost before = self@;
        let ghost states = self.levels@;
        let mut levels: Vec<LevelState> = Vec::new();
        std::mem::swap(&mut self.levels, &mut levels);
        let mut state = levels.remove(level - 1);
        let peer = state.take_peer();
        let ghost after = state@;
        levels.insert(level - 1, state);
        proof {
            assert forall|k: int| 0 <= k < levels@.len() implies (#[trigger] levels@[k])@.wf()
                && levels@[k]@.level == k + 1 by {
                if k != level - 1 {
                    assert(levels@[k] == states[k]);
                    assert(before[k] == states[k]@);
                } else {
                    assert(before[k] == states[k]@);
                }
            }
        }
        self.levels = levels;
        proof {
            assert(self@ =~= before.update(level - 1, after));
            if peer is None {
                assert(self@ =~= before);
            }
        }
        peer
    }

    /// Offers `c` as the best aggregate of `level`. It replaces the best
    /// only if the level exists, `c` is not empty and stays within the
    /// level's validators, and there is no best yet or `c` holds strictly
    /// more than it. Says whether `c` was taken.
    pub fn put_best(&mut self, level: usize, c: Contribution) -> (accepted: bool)
        ensures
            accepted == (state_of(old(self)@, level as nat) is Some && state_of(
                old(self)@,
                level as nat,
            )->0.accepts_best(c@)),
            accepted ==> final(self)@ == old(self)@.update(
                level - 1,
                old(self)@[level - 1].put_best(c@),
            ),
            !accepted ==> final(self)@ == old(self)@,
            final(self).wf(),
    {
        proof {
            use_type_invariant(&*self);
        }
        if level < 1 || level > self.levels.len() {
            return false;
        }
        let ghost before = self@;
        let ghost states = self.levels@;
        let mut levels: Vec<LevelState> = Vec::new();
        std::mem::swap(&mut self.levels, &mut levels);
        let mut state = levels.remove(level - 1);
        let accepted = state.put_best(c);
        let ghost after = state@;
        levels.insert(level - 1, state);
        proof {
            assert forall|k: int| 0 <= k < levels@.len() implies (#[trigger] levels@[k])@.wf()
                && levels@[k]@.level == k + 1 by {
                if k != level - 1 {
                    assert(levels@[k] == states[k]);
                    assert(before[k] == states[k]@);
                } else {
                    assert(before[k] == states[k]@);
                }
            }
        }
        self.levels = levels;
        proof {
            assert(self@ =~= before.update(level - 1, after));
            if !accepted {
                assert(self@ =~= before);
            }
        }
        accepted
    }

    /// Stores the individual contribution `c` on `level` unless the level
    /// does not exist, the signer is not allowed on it, or the signer
    /// already has one stored. Says whether it was stored.
    pub fn put_individual(&mut self, level: usize, c: Contribution) -> (stored: bool)
        requires
            c@.individual(),
        ensures
            stored == (state_of(old(self)@, level as nat) is Some && state_of(
                old(self)@,
                level as nat,
            )->0.accepts_individual(c@)),
            stored ==> final(self)@ == old(self)@.update(
                level - 1,
                old(self)@[level - 1].put_individual(c@),
            ),
            !stored ==> final(self)@ == old(self)@,
            final(self).wf(),
    {
        proof {
            use_type_invariant(&*self);
        }
        if level < 1 || level > self.levels.len() {
            return false;
        }
        let ghost before = self@;
        let ghost states = self.levels@;
        let mut levels: Vec<LevelState> = Vec::new();
        std::mem::swap(&mut self.levels, &mut levels);
        let mut state = levels.remove(level - 1);
        let stored = state.put_individual(c);
        let ghost after = state@;
        levels.insert(level - 1, state);
        proof {
            assert forall|k: int| 0 <= k < levels@.len() implies (#[trigger] levels@[k])@.wf()
                && levels@[k]@.level == k + 1 by {
                if k != level - 1 {
                    assert(levels@[k] == states[k]);
                    assert(before[k] == states[k]@);
                } else {
                    assert(before[k] == states[k]@);
                }
            }
        }
        self.levels = levels;
        proof {
            assert(self@ =~= before.update(level - 1, after));
            if !stored {
                assert(self@ =~= before);
            }
        }
        stored
    }
}

impl Clone for LevelState {
    fn clone(&self) -> (r: Self)
        ensures
            r@ == self@,
    {
        let r = LevelState {
            level: self.level,
            allowed: self.allowed.clone(),
            best: match &self.best {
                Some(c) => Some(c.clone()),
                None => None,
            },
            individuals_verified: self.individuals_verified.clone(),
            individuals: self.individuals.clone(),
            receive_started: self.receive_started,
            send_started: self.send_started,
            next_peer_idx: self.next_peer_idx,
        };
        r
    }
}

impl Clone for ReplaceStore {
    fn clone(&self) -> (r: Self)
        ensures
            r@ == self@,
            r.wf(),
    {
        proof {
            use_type_invariant(self);
        }
        let mut levels: Vec<LevelState> = Vec::new();
        let mut k: usize = 0;
        while k < self.levels.len()
            invariant
                k <= self.levels.len(),
                levels@.len() == k,
                self.wf(),
                forall|p: int|
                    0 <= p < k ==> (#[trigger] levels@[p])@ == self.levels@[p]@,
            decreases self.levels.len() - k,
        {
            levels.push(self.levels[k].clone());
            k = k + 1;
        }
        proof {
            assert forall|p: int| 0 <= p < levels@.len() implies (#[trigger] levels@[p])@.wf()
                && levels@[p]@.level == p + 1 by {
                assert(self@[p] == self.levels@[p]@);
            }
        }
        let r = ReplaceStore { levels };
        assert(r@ =~= self@);
        r
    }
}

} // verus!
