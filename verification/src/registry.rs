//! The registry of validators: who is known, and with what weight.

use crate::contribution::Contribution;
use crate::identity::{Identity, CAPACITY};
use vstd::prelude::*;

verus! {

/// The weight of slot `i`: what the table gives, and zero where it gives none.
pub open spec fn slot_weight(table: Seq<Option<usize>>, i: nat) -> nat {
    if i < table.len() && table[i as int] is Some {
        table[i as int]->0 as nat
    } else {
        0
    }
}

/// The weights of the members of `s` below `n`, summed.
pub open spec fn weight_below(table: Seq<Option<usize>>, s: Set<nat>, n: nat) -> nat
    decreases n,
{
    if n == 0 {
        0
    } else {
        weight_below(table, s, (n - 1) as nat) + if s.contains((n - 1) as nat) {
            slot_weight(table, (n - 1) as nat)
        } else {
            0
        }
    }
}

/// The weights of every slot below `n`, summed.
pub open spec fn total_below(table: Seq<Option<usize>>, n: nat) -> nat {
    weight_below(table, Set::full(), n)
}

/// The indices to which the table gives a weight.
pub open spec fn known_slots(table: Seq<Option<usize>>) -> Set<nat> {
    Set::new(|i: nat| i < table.len() && table[i as int] is Some)
}

/// The weight of a subset never exceeds the weight of all slots, and grows
/// with the bound.
proof fn lemma_weight_bounded(table: Seq<Option<usize>>, s: Set<nat>, n: nat, m: nat)
    requires
        n <= m,
    ensures
        weight_below(table, s, n) <= total_below(table, m),
    decreases m,
{
    if n < m {
        lemma_weight_bounded(table, s, n, (m - 1) as nat);
    } else if n > 0 {
        lemma_weight_bounded(table, s, (n - 1) as nat, (m - 1) as nat);
    }
}

/// Maps validator indices to their voting weight.
#[derive(Debug)]
pub struct Registry {
    weights: Vec<Option<usize>>,
    known: Identity,
}

impl Registry {
    /// The table is bounded, its total weight fits a machine word, and the
    /// set of known validators is kept beside it.
    #[verifier::type_invariant]
    pub closed spec fn wf(self) -> bool {
        &&& self.weights@.len() <= CAPACITY
        &&& total_below(self.weights@, self.weights@.len()) <= usize::MAX
        &&& self.known@ == known_slots(self.weights@)
        &&& self.known.wf()
    }

    /// The table of weights, by validator index.
    pub closed spec fn table(self) -> Seq<Option<usize>> {
        self.weights@
    }

    /// The validators to which the registry gives a weight.
    pub open spec fn known(self) -> Set<nat> {
        known_slots(self.table())
    }

    /// The signers among `contributors` that the registry knows.
    pub open spec fn signers_identity_spec(self, contributors: Set<nat>) -> Set<nat> {
        contributors.intersect(self.known())
    }

    /// The summed weight of `contributors`, if the registry knows them all.
    pub open spec fn signature_weight_spec(self, contributors: Set<nat>) -> Option<nat> {
        if contributors.subset_of(self.known()) {
            Some(weight_below(self.table(), contributors, self.table().len()))
        } else {
            None
        }
    }

    /// What a well-formed registry is, over its table.
    pub proof fn lemma_wf(self)
        requires
            self.wf(),
        ensures
            self.table().len() <= CAPACITY,
            total_below(self.table(), self.table().len()) <= usize::MAX,
    {
    }

    /// The registry with the given table of weights, a slot per validator
    /// index; `None` if the table has more than [`CAPACITY`] slots or its
    /// weights do not sum within a machine word.
    pub fn new(weights: Vec<Option<usize>>) -> (r: Option<Self>)
        ensures
            r is Some <==> weights@.len() <= CAPACITY && total_below(weights@, weights@.len())
                <= usize::MAX,
            r matches Some(reg) ==> reg.table() == weights@ && reg.wf(),
    {
        if weights.len() > CAPACITY {
            return None;
        }
        let mut known = Identity::new();
        let mut total: usize = 0;
        let mut i: usize = 0;
        while i < weights.len()
            invariant
                i <= weights.len(),
                weights.len() <= CAPACITY,
                known.wf(),
                forall|x: nat| known@.contains(x) <==> x < i && weights@[x as int] is Some,
                total == total_below(weights@, i as nat),
            decreases weights.len() - i,
        {
            match weights[i] {
                Some(w) => {
                    known.insert(i);
                    if w > usize::MAX - total {
                        proof {
                            lemma_weight_bounded(
                                weights@,
                                Set::full(),
                                (i + 1) as nat,
                                weights@.len(),
                            );
                        }
                        return None;
                    }
                    total = total + w;
                },
                None => {},
            }
            i = i + 1;
        }
        assert(known@ =~= known_slots(weights@));
        Some(Registry { weights, known })
    }

    /// The weight of validator `id`, if the registry knows it.
    pub fn weight(&self, id: usize) -> (r: Option<usize>)
        ensures
            r is Some <==> self.known().contains(id as nat),
            r matches Some(w) ==> w == slot_weight(self.table(), id as nat),
    {
        if id < self.weights.len() {
            self.weights[id]
        } else {
            None
        }
    }

    /// The signers among `contributors` that the registry knows.
    pub fn signers_identity(&self, contributors: &Identity) -> (r: Identity)
        ensures
            r@ == self.signers_identity_spec(contributors@),
            r.wf(),
    {
        proof {
            use_type_invariant(self);
        }
        contributors.intersection(&self.known)
    }

    /// The summed weight of the signers of `contribution`, or `None` if the
    /// registry does not know one of them.
    pub fn signature_weight(&self, contribution: &Contribution) -> (r: Option<usize>)
        ensures
            r is Some <==> self.signature_weight_spec(contribution@.contributors) is Some,
            r matches Some(w) ==> w == self.signature_weight_spec(contribution@.contributors)->0,
    {
        proof {
            use_type_invariant(self);
        }
        if !self.known.is_superset_of(&contribution.contributors) {
            return None;
        }
        let ghost signers = contribution@.contributors;
        let mut total: usize = 0;
        let mut i: usize = 0;
        while i < self.weights.len()
            invariant
                i <= self.weights.len(),
                self.weights@.len() <= CAPACITY,
                total_below(self.weights@, self.weights@.len()) <= usize::MAX,
                signers == contribution@.contributors,
                total == weight_below(self.weights@, signers, i as nat),
            decreases self.weights.len() - i,
        {
            proof {
                lemma_weight_bounded(self.weights@, signers, (i + 1) as nat, self.weights@.len());
            }
            if contribution.contributors.contains(i) {
                match self.weights[i] {
                    Some(w) => {
                        total = total + w;
                    },
                    None => {},
                }
            }
            i = i + 1;
        }
        Some(total)
    }
}

} // verus!
