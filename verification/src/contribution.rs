//! Contributions to an aggregate, and the update message that carries them.

use crate::identity::Identity;
use vstd::prelude::*;

verus! {

/// Length in bytes of a compressed aggregate signature.
pub const SIGNATURE_SIZE: usize = 95;

/// An aggregate signature together with the set of validators whose
/// signatures went into it. The signature itself is opaque here.
#[derive(Debug)]
pub struct Contribution {
    pub contributors: Identity,
    pub signature: [u8; SIGNATURE_SIZE],
}

/// What a [`Contribution`] stands for.
pub struct ContributionView {
    pub contributors: Set<nat>,
    pub signature: Seq<u8>,
}

impl View for Contribution {
    type V = ContributionView;

    open spec fn view(&self) -> ContributionView {
        ContributionView { contributors: self.contributors@, signature: self.signature@ }
    }
}

impl ContributionView {
    /// A contribution carries a full-length signature of a finite, bounded,
    /// non-empty set of signers.
    pub open spec fn valid(self) -> bool {
        &&& self.signature.len() == SIGNATURE_SIZE
        &&& self.contributors.finite()
        &&& self.contributors.len() >= 1
    }

    /// A contribution of exactly one signer.
    pub open spec fn individual(self) -> bool {
        self.contributors.finite() && self.contributors.len() == 1
    }
}

impl Contribution {
    /// The contribution of `contributors` with the aggregate `signature`.
    pub fn new(contributors: Identity, signature: [u8; SIGNATURE_SIZE]) -> (r: Self)
        ensures
            r.contributors == contributors,
            r.signature == signature,
    {
        Contribution { contributors, signature }
    }

    /// The set of validators whose signatures are aggregated.
    pub fn contributors(&self) -> (r: &Identity)
        ensures
            r == self.contributors,
    {
        &self.contributors
    }

    /// The number of validators whose signatures are aggregated.
    pub fn num_contributors(&self) -> (r: usize)
        ensures
            self@.contributors.finite(),
            r == self@.contributors.len(),
    {
        self.contributors.len()
    }

    /// Whether exactly one validator contributed.
    pub fn is_individual(&self) -> (r: bool)
        ensures
            r == self@.individual(),
    {
        self.contributors.len() == 1
    }
}

impl Clone for Contribution {
    fn clone(&self) -> (r: Self)
        ensures
            r@ == self@,
            r.contributors.words() == self.contributors.words(),
            r.contributors.wf(),
            r.signature == self.signature,
    {
        Contribution { contributors: self.contributors.clone(), signature: self.signature }
    }
}

/// The message a validator sends to a peer on one level: its best aggregate
/// for that level, and its own individual contribution if the peer lacks it.
#[derive(Debug)]
pub struct LevelUpdate {
    pub aggregate: Contribution,
    pub individual: Option<Contribution>,
    pub level: u8,
    pub origin: u16,
}

/// What a [`LevelUpdate`] stands for.
pub struct LevelUpdateView {
    pub aggregate: ContributionView,
    pub individual: Option<ContributionView>,
    pub level: u8,
    pub origin: u16,
}

impl View for LevelUpdate {
    type V = LevelUpdateView;

    open spec fn view(&self) -> LevelUpdateView {
        LevelUpdateView {
            aggregate: self.aggregate@,
            individual: match self.individual {
                Some(c) => Some(c@),
                None => None,
            },
            level: self.level,
            origin: self.origin,
        }
    }
}

impl LevelUpdate {
    /// The update from `origin` for `level`.
    pub fn new(
        aggregate: Contribution,
        individual: Option<Contribution>,
        level: u8,
        origin: u16,
    ) -> (r: Self)
        ensures
            r.aggregate == aggregate,
            r.individual == individual,
            r.level == level,
            r.origin == origin,
    {
        LevelUpdate { aggregate, individual, level, origin }
    }

    /// The level this update is for.
    pub fn level(&self) -> (r: usize)
        ensures
            r == self.level,
    {
        self.level as usize
    }

    /// The validator that sent this update.
    pub fn origin(&self) -> (r: usize)
        ensures
            r == self.origin,
    {
        self.origin as usize
    }
}

} // verus!
