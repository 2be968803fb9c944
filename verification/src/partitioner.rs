//! The binomial partition of the validators into levels, as one node sees it.

use crate::identity::{lemma_span_len, singleton, span, Identity, CAPACITY};
use vstd::arithmetic::power2::{lemma2_to64, lemma_pow2_strictly_increases, lemma_pow2_unfold, pow2};
use vstd::prelude::*;

verus! {

/// No partition has more levels than this: two to the sixteenth is
/// [`CAPACITY`].
pub const MAX_LEVELS: usize = 17;

/// Whether `levels` is the number of levels for `n` validators: the least
/// count, at least one, whose last regular level reaches across all of them.
pub open spec fn is_level_count(n: nat, levels: nat) -> bool {
    &&& levels >= 1
    &&& pow2((levels - 1) as nat) >= n
    &&& levels >= 2 ==> pow2((levels - 2) as nat) < n
}

/// The number of validator slots that level `level` spans (`level >= 1`).
pub open spec fn level_width(level: nat) -> nat {
    pow2((level - 1) as nat)
}

/// The first slot of level `level` for `node`: the start of that half of the
/// node's block of twice the level's width in which the node does not lie.
pub open spec fn level_start(node: nat, level: nat) -> nat {
    let half = level_width(level);
    let base = (node / (2 * half)) * (2 * half);
    if node < base + half {
        base + half
    } else {
        base
    }
}

/// The end of level `level` for `node` among `n` validators: where its slots
/// stop, or where the validators do.
pub open spec fn level_end(node: nat, n: nat, level: nat) -> nat {
    let stop = level_start(node, level) + level_width(level);
    if stop < n {
        stop
    } else {
        n
    }
}

/// The validators on level `level` (`level >= 1`) for `node`, of `n`.
pub open spec fn level_members(node: nat, n: nat, level: nat) -> Set<nat> {
    span(level_start(node, level), level_end(node, n, level))
}

/// Two to the `e`, for `e` up to sixteen.
fn pow2_of(e: usize) -> (r: usize)
    requires
        e <= 16,
    ensures
        r == pow2(e as nat),
        1 <= r <= CAPACITY,
{
    proof {
        lemma2_to64();
    }
    let mut r: usize = 1;
    let mut i: usize = 0;
    while i < e
        invariant
            i <= e <= 16,
            r == pow2(i as nat),
            1 <= r <= pow2(16),
            pow2(16) == 65536,
        decreases e - i,
    {
        proof {
            lemma_pow2_unfold((i + 1) as nat);
            if i + 1 < 16 {
                lemma_pow2_strictly_increases((i + 1) as nat, 16);
            }
        }
        r = 2 * r;
        i = i + 1;
    }
    r
}

/// Rounding `node` down to a multiple of `block` stays within `block` of it.
proof fn lemma_round_down(node: nat, block: nat)
    requires
        block > 0,
    ensures
        (node / block) * block <= node < (node / block) * block + block,
{
    assert((node / block) * block <= node < (node / block) * block + block) by (nonlinear_arith)
        requires
            block > 0,
    ;
}

/// The levels of a set of validators as one of them sees it.
#[derive(Debug)]
pub struct BinomialPartitioner {
    node_id: usize,
    num_ids: usize,
    num_levels: usize,
}

impl BinomialPartitioner {
    /// There is at least one validator and at most [`CAPACITY`]; the node is
    /// one of them; the level count is the one their number calls for.
    #[verifier::type_invariant]
    pub closed spec fn wf(self) -> bool {
        &&& 1 <= self.num_ids <= CAPACITY
        &&& self.node_id < self.num_ids
        &&& is_level_count(self.num_ids as nat, self.num_levels as nat)
        &&& self.num_levels <= MAX_LEVELS
    }

    /// The index of the node whose view this is.
    pub closed spec fn node(self) -> nat {
        self.node_id as nat
    }

    /// The number of validators.
    pub closed spec fn total(self) -> nat {
        self.num_ids as nat
    }

    /// The number of the level that is kept for final aggregates.
    pub closed spec fn top(self) -> nat {
        self.num_levels as nat
    }

    /// The validators allowed on `level`: the node itself on level zero, the
    /// level's span on a regular level, all of them on the top level, and
    /// nothing beyond.
    pub open spec fn identities_on_spec(self, level: nat) -> Option<Set<nat>> {
        if level == 0 {
            Some(singleton(self.node()))
        } else if level < self.top() {
            Some(level_members(self.node(), self.total(), level))
        } else if level == self.top() {
            Some(span(0, self.total()))
        } else {
            None
        }
    }

    /// The number of validators allowed on `level`; zero beyond the top.
    pub open spec fn level_size_spec(self, level: nat) -> nat {
        match self.identities_on_spec(level) {
            Some(s) => s.len(),
            None => 0,
        }
    }

    /// What a well-formed partitioner is, over its three numbers.
    pub proof fn lemma_wf(self)
        requires
            self.wf(),
        ensures
            1 <= self.total() <= CAPACITY,
            self.node() < self.total(),
            is_level_count(self.total(), self.top()),
            self.top() <= MAX_LEVELS,
    {
    }

    /// On every level up to the top, the allowed validators are a finite set
    /// of indices below the number of validators.
    pub proof fn lemma_level_bounded(self, level: nat)
        requires
            self.wf(),
            level <= self.top(),
        ensures
            self.identities_on_spec(level) is Some,
            self.identities_on_spec(level)->0.finite(),
            self.identities_on_spec(level)->0.subset_of(span(0, self.total())),
            self.level_size_spec(level) <= self.total(),
    {
        let s = self.identities_on_spec(level)->0;
        lemma_span_len(0, self.total());
        if level == 0 {
            assert(s =~= span(self.node(), self.node() + 1));
        }
        assert(s.subset_of(span(0, self.total())));
        vstd::set_lib::lemma_len_subset(s, span(0, self.total()));
    }

    /// The view of node `node_id` on `num_ids` validators; `None` unless
    /// there is at least one validator, at most [`CAPACITY`], and the node is
    /// one of them.
    pub fn new(node_id: usize, num_ids: usize) -> (r: Option<Self>)
        ensures
            r is Some <==> 1 <= num_ids <= CAPACITY && node_id < num_ids,
            r matches Some(p) ==> p.wf() && p.node() == node_id && p.total() == num_ids,
    {
        if num_ids < 1 || num_ids > CAPACITY || node_id >= num_ids {
            return None;
        }
        proof {
            lemma2_to64();
        }
        let mut levels: usize = 1;
        let mut reach: usize = 1;
        while reach < num_ids
            invariant
                1 <= levels <= MAX_LEVELS,
                reach == pow2((levels - 1) as nat),
                levels >= 2 ==> pow2((levels - 2) as nat) < num_ids,
                num_ids <= CAPACITY,
                pow2(16) == 65536,
                1 <= reach <= CAPACITY,
            decreases MAX_LEVELS - levels,
        {
            proof {
                lemma_pow2_unfold(levels as nat);
                // The reach is still short of the validators, of whom
                // there are no more than two to the sixteenth.
                assert(levels < MAX_LEVELS);
                if levels < 16 {
                    lemma_pow2_strictly_increases(levels as nat, 16);
                }
            }
            reach = 2 * reach;
            levels = levels + 1;
        }
        Some(BinomialPartitioner { node_id, num_ids, num_levels: levels })
    }

    /// The index of the node whose view this is.
    pub fn node_id(&self) -> (r: usize)
        ensures
            r == self.node(),
    {
        self.node_id
    }

    /// The number of validators.
    pub fn size(&self) -> (r: usize)
        ensures
            r == self.total(),
            1 <= r <= CAPACITY,
    {
        proof {
            use_type_invariant(self);
        }
        self.num_ids
    }

    /// The number of the top level, the one kept for final aggregates.
    pub fn levels(&self) -> (r: usize)
        ensures
            r == self.top(),
            1 <= r <= MAX_LEVELS,
    {
        proof {
            use_type_invariant(self);
        }
        self.num_levels
    }

    /// The first and the one-past-last slot of a regular level.
    fn bounds(&self, level: usize) -> (r: (usize, usize))
        requires
            1 <= level < self.top(),
        ensures
            r.0 == level_start(self.node(), level as nat),
            r.1 == level_end(self.node(), self.total(), level as nat),
            r.1 <= CAPACITY,
    {
        proof {
            use_type_invariant(self);
        }
        let half = pow2_of(level - 1);
        let block = 2 * half;
        proof {
            lemma_round_down(self.node_id as nat, block as nat);
        }
        let base = (self.node_id / block) * block;
        let start = if self.node_id < base + half {
            base + half
        } else {
            base
        };
        let stop = start + half;
        let end = if stop < self.num_ids {
            stop
        } else {
            self.num_ids
        };
        (start, end)
    }

    /// The validators allowed on `level`; `None` beyond the top level.
    pub fn identities_on(&self, level: usize) -> (r: Option<Identity>)
        ensures
            r is Some <==> level <= self.top(),
            r matches Some(id) ==> Some(id@) == self.identities_on_spec(level as nat) && id.wf(),
    {
        proof {
            use_type_invariant(self);
        }
        if level == 0 {
            Some(Identity::single(self.node_id))
        } else if level < self.num_levels {
            let (start, end) = self.bounds(level);
            Some(Identity::range(start, end))
        } else if level == self.num_levels {
            Some(Identity::range(0, self.num_ids))
        } else {
            None
        }
    }

    /// The number of validators allowed on `level`; zero beyond the top.
    pub fn level_size(&self, level: usize) -> (r: usize)
        ensures
            r == self.level_size_spec(level as nat),
            r <= self.total(),
    {
        proof {
            use_type_invariant(self);
            if level <= self.num_levels {
                self.lemma_level_bounded(level as nat);
            }
        }
        if level == 0 {
            proof {
                assert(singleton(self.node()) =~= span(self.node(), self.node() + 1));
                lemma_span_len(self.node(), self.node() + 1);
            }
            1
        } else if level < self.num_levels {
            let (start, end) = self.bounds(level);
            if start < end {
                proof {
                    lemma_span_len(start as nat, end as nat);
                }
                end - start
            } else {
                proof {
                    assert(span(start as nat, end as nat) =~= Set::empty());
                }
                0
            }
        } else if level == self.num_levels {
            proof {
                lemma_span_len(0, self.num_ids as nat);
            }
            self.num_ids
        } else {
            0
        }
    }
}

/// The start of the block of `2^k` slots in which `node` lies.
pub open spec fn block_start(node: nat, k: nat) -> nat {
    (node / pow2(k)) * pow2(k)
}

/// The block of `2^k` slots in which `node` lies.
pub open spec fn block_of(node: nat, k: nat) -> Set<nat> {
    span(block_start(node, k), block_start(node, k) + pow2(k))
}

/// A number between two neighbouring multiples of `h` divides down to the
/// lower one.
proof fn lemma_div_between(x: nat, c: nat, h: nat)
    requires
        h > 0,
        c * h <= x < (c + 1) * h,
    ensures
        x / h == c,
{
    assert(x / h == c) by (nonlinear_arith)
        requires
            h > 0,
            c * h <= x < (c + 1) * h,
    ;
}

/// The block of half the size in which a node lies is the lower or the
/// upper half of its block, whichever the node lies in.
proof fn lemma_half_block(node: nat, level: nat)
    requires
        level >= 1,
    ensures
        pow2(level) == 2 * pow2((level - 1) as nat),
        pow2((level - 1) as nat) >= 1,
        block_start(node, level) <= node < block_start(node, level) + pow2(level),
        block_start(node, (level - 1) as nat) == (if node < block_start(node, level) + pow2(
            (level - 1) as nat,
        ) {
            block_start(node, level)
        } else {
            block_start(node, level) + pow2((level - 1) as nat)
        }),
{
    let h = pow2((level - 1) as nat);
    let b = pow2(level);
    lemma_pow2_unfold(level);
    vstd::arithmetic::power2::lemma_pow2_pos((level - 1) as nat);
    lemma_round_down(node, b);
    let q = node / b;
    assert(q * b == (2 * q) * h && q * b + h == (2 * q + 1) * h && q * b + b == (2 * q + 2) * h)
        by (nonlinear_arith)
        requires
            b == 2 * h,
    ;
    if node < q * b + h {
        lemma_div_between(node, 2 * q, h);
    } else {
        lemma_div_between(node, 2 * q + 1, h);
    }
}

/// A level is the half of the node's block in which the node does not
/// lie: with the smaller block it makes up the larger, and shares no slot
/// with it.
proof fn lemma_level_is_other_half(node: nat, level: nat)
    requires
        level >= 1,
    ensures
        block_of(node, level) == block_of(node, (level - 1) as nat).union(
            span(level_start(node, level), level_start(node, level) + level_width(level)),
        ),
        block_of(node, (level - 1) as nat).disjoint(
            span(level_start(node, level), level_start(node, level) + level_width(level)),
        ),
        block_of(node, (level - 1) as nat).contains(node),
{
    lemma_half_block(node, level);
    let h = pow2((level - 1) as nat);
    if level >= 2 {
        lemma_half_block(node, (level - 1) as nat);
    } else {
        lemma2_to64();
        assert(block_start(node, 0) == node) by (nonlinear_arith)
            requires
                pow2(0) == 1,
                block_start(node, 0) == (node / pow2(0)) * pow2(0),
        ;
    }
    assert(block_start(node, level) == (node / (2 * h)) * (2 * h));
    assert(block_of(node, level) =~= block_of(node, (level - 1) as nat).union(
        span(level_start(node, level), level_start(node, level) + level_width(level)),
    ));
}

/// The blocks of a node lie one within the next.
proof fn lemma_blocks_nest(node: nat, a: nat, b: nat)
    requires
        a <= b,
    ensures
        block_of(node, a).subset_of(block_of(node, b)),
    decreases b - a,
{
    if a < b {
        lemma_blocks_nest(node, a, (b - 1) as nat);
        lemma_level_is_other_half(node, b);
    }
}

/// Whoever lies in a block of a node is the node itself or lies on one of
/// the levels up to the block's.
proof fn lemma_block_is_levels(node: nat, k: nat, i: nat) -> (level: nat)
    requires
        block_of(node, k).contains(i),
        i != node,
    ensures
        1 <= level <= k,
        span(level_start(node, level), level_start(node, level) + level_width(level)).contains(i),
    decreases k,
{
    if k == 0 {
        lemma2_to64();
        assert(block_start(node, 0) == node) by (nonlinear_arith)
            requires
                pow2(0) == 1,
                block_start(node, 0) == (node / pow2(0)) * pow2(0),
        ;
        0
    } else {
        lemma_level_is_other_half(node, k);
        if block_of(node, (k - 1) as nat).contains(i) {
            lemma_block_is_levels(node, (k - 1) as nat, i)
        } else {
            k
        }
    }
}

impl BinomialPartitioner {
    /// No validator is on two levels below the top: the levels of a node,
    /// its own level zero among them, share no validator.
    pub proof fn law_levels_disjoint(self, lower: nat, upper: nat)
        requires
            self.wf(),
            lower < upper < self.top(),
        ensures
            self.identities_on_spec(lower)->0.disjoint(self.identities_on_spec(upper)->0),
    {
        let node = self.node();
        lemma_level_is_other_half(node, upper);
        lemma_blocks_nest(node, lower, (upper - 1) as nat);
        if lower >= 1 {
            lemma_level_is_other_half(node, lower);
        } else {
            lemma_blocks_nest(node, 0, (upper - 1) as nat);
            lemma_level_is_other_half(node, 1);
            lemma_blocks_nest(node, 0, 0);
        }
        let a = self.identities_on_spec(lower)->0;
        let b = self.identities_on_spec(upper)->0;
        assert forall|i: nat| a.contains(i) implies !b.contains(i) by {
            assert(block_of(node, lower).contains(i));
            assert(block_of(node, (upper - 1) as nat).contains(i));
        }
    }

    /// Every validator is on a level below the top: the levels of a node,
    /// its own level zero among them, hold all validators between them.
    pub proof fn law_levels_cover(self, validator: nat) -> (level: nat)
        requires
            self.wf(),
            validator < self.total(),
        ensures
            level < self.top(),
            self.identities_on_spec(level)->0.contains(validator),
    {
        let node = self.node();
        let n = self.total();
        if validator == node {
            0
        } else {
            let k = (self.top() - 1) as nat;
            // The widest block starts at slot zero and reaches past the last validator.
            assert(node / pow2(k) == 0) by {
                vstd::arithmetic::div_mod::lemma_basic_div(node as int, pow2(k) as int);
            }
            assert(block_start(node, k) == 0) by (nonlinear_arith)
                requires
                    node / pow2(k) == 0,
                    block_start(node, k) == (node / pow2(k)) * pow2(k),
            ;
            assert(block_of(node, k).contains(validator));
            lemma_block_is_levels(node, k, validator)
        }
    }
}

} // verus!
