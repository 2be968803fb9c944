//! Sets of validator indices, packed sixty-four to a word.

use vstd::prelude::*;
use vstd::std_specs::bits::*;

verus! {

/// Largest number of words an [`Identity`] holds.
pub const MAX_WORDS: usize = 1024;

/// Every validator index is below this bound; it is what sixteen bits can name.
pub const CAPACITY: usize = 65536;

/// Whether bit `k` of `w` is set. Meaningful for `k < 64`.
pub open spec fn bit_at(w: u64, k: nat) -> bool {
    (w >> (k as u64)) & 1 == 1
}

/// How many of the lowest `k` bits of `w` are set.
pub open spec fn bits_below(w: u64, k: nat) -> nat
    decreases k,
{
    if k == 0 {
        0
    } else {
        bits_below(w, (k - 1) as nat) + if bit_at(w, (k - 1) as nat) {
            1nat
        } else {
            0nat
        }
    }
}

/// Whether index `i` is a member of the set that `words` packs.
pub open spec fn words_contain(words: Seq<u64>, i: nat) -> bool {
    i / 64 < words.len() && bit_at(words[(i / 64) as int], i % 64)
}

/// The set of indices that `words` packs.
pub open spec fn words_set(words: Seq<u64>) -> Set<nat> {
    Set::new(|i: nat| words_contain(words, i))
}

/// How many members of `s` lie below `n`.
pub open spec fn count_below(s: Set<nat>, n: nat) -> nat
    decreases n,
{
    if n == 0 {
        0
    } else {
        count_below(s, (n - 1) as nat) + if s.contains((n - 1) as nat) {
            1nat
        } else {
            0nat
        }
    }
}

/// The set with the single member `i`.
pub open spec fn singleton(i: nat) -> Set<nat> {
    Set::empty().insert(i)
}

/// The members of exactly one of `a` and `b`.
pub open spec fn symmetric_difference(a: Set<nat>, b: Set<nat>) -> Set<nat> {
    a.difference(b).union(b.difference(a))
}

/// A bit of the disjunction of two words is set where it is set in either.
proof fn lemma_bit_or(a: u64, b: u64, k: u64)
    by (bit_vector)
    requires
        k < 64,
    ensures
        (((a | b) >> k) & 1 == 1) <==> (((a >> k) & 1 == 1) || ((b >> k) & 1 == 1)),
{
}

/// A bit of the conjunction of two words is set where it is set in both.
proof fn lemma_bit_and(a: u64, b: u64, k: u64)
    by (bit_vector)
    requires
        k < 64,
    ensures
        (((a & b) >> k) & 1 == 1) <==> (((a >> k) & 1 == 1) && ((b >> k) & 1 == 1)),
{
}

/// A bit of the exclusive disjunction of two words is set where it is set
/// in exactly one.
proof fn lemma_bit_xor(a: u64, b: u64, k: u64)
    by (bit_vector)
    requires
        k < 64,
    ensures
        (((a ^ b) >> k) & 1 == 1) <==> (((a >> k) & 1 == 1) != ((b >> k) & 1 == 1)),
{
}

/// A bit of one word without another is set where it is set in the first
/// and not in the second.
proof fn lemma_bit_and_not(a: u64, b: u64, k: u64)
    by (bit_vector)
    requires
        k < 64,
    ensures
        (((a & !b) >> k) & 1 == 1) <==> (((a >> k) & 1 == 1) && !((b >> k) & 1 == 1)),
{
}

/// No bit of zero is set.
proof fn lemma_bit_zero(k: u64)
    by (bit_vector)
    requires
        k < 64,
    ensures
        !(((0u64 >> k) & 1) == 1),
{
}

/// Setting bit `j` of a word sets that bit and changes no other.
proof fn lemma_bit_set(w: u64, j: u64, k: u64)
    by (bit_vector)
    requires
        j < 64,
        k < 64,
    ensures
        (((w | (1u64 << j)) >> k) & 1 == 1) <==> (((w >> k) & 1 == 1) || k == j),
{
}

/// A word that is not zero has a set bit.
proof fn lemma_nonzero_has_bit(w: u64) -> (k: nat)
    requires
        w != 0,
    ensures
        k < 64,
        bit_at(w, k),
{
    axiom_u64_trailing_zeros(w);
    let t = u64_trailing_zeros(w);
    let k = t as nat;
    assert((w >> (t as u64)) & 1u64 == 1u64);
    assert(k as u64 == t as u64);
    k
}

/// Two sets that agree below `n` have the same count below `n`.
proof fn lemma_count_agree(s: Set<nat>, t: Set<nat>, n: nat)
    requires
        forall|i: nat| i < n ==> (s.contains(i) <==> t.contains(i)),
    ensures
        count_below(s, n) == count_below(t, n),
    decreases n,
{
    if n > 0 {
        lemma_count_agree(s, t, (n - 1) as nat);
    }
}

/// A set of naturals below `n` is finite, and has as many members as are
/// counted below `n`.
pub proof fn lemma_count_is_len(s: Set<nat>, n: nat)
    requires
        forall|i: nat| s.contains(i) ==> i < n,
    ensures
        s.finite(),
        s.len() == count_below(s, n),
        s.len() <= n,
    decreases n,
{
    if n == 0 {
        assert(s =~= Set::empty());
    } else {
        let m = (n - 1) as nat;
        let t = s.remove(m);
        assert forall|i: nat| t.contains(i) implies i < m by {
            assert(s.contains(i));
        }
        lemma_count_is_len(t, m);
        lemma_count_agree(s, t, m);
        if s.contains(m) {
            assert(s =~= t.insert(m));
        } else {
            assert(s =~= t);
        }
    }
}

/// Counting up to bit `k` of word `j` adds the set bits of that word.
proof fn lemma_count_words(words: Seq<u64>, j: nat, k: nat)
    requires
        j < words.len(),
        k <= 64,
    ensures
        count_below(words_set(words), 64 * j + k) == count_below(words_set(words), 64 * j)
            + bits_below(words[j as int], k),
    decreases k,
{
    if k > 0 {
        let p = (k - 1) as nat;
        lemma_count_words(words, j, p);
        let i = 64 * j + p;
        assert(i / 64 == j && i % 64 == p) by (nonlinear_arith)
            requires
                i == 64 * j + p,
                p < 64,
        ;
        assert(words_set(words).contains(i) == bit_at(words[j as int], p));
        assert((64 * j + k - 1) as nat == i);
    }
}

/// The packed set holds nothing at or above sixty-four times the word count.
proof fn lemma_words_bounded(words: Seq<u64>)
    ensures
        forall|i: nat| words_set(words).contains(i) ==> i < 64 * words.len(),
        words_set(words).finite(),
        words_set(words).len() == count_below(words_set(words), 64 * words.len()),
        words_set(words).len() <= 64 * words.len(),
{
    assert forall|i: nat| words_set(words).contains(i) implies i < 64 * words.len() by {
        assert(i / 64 < words.len());
        assert(i < 64 * words.len()) by (nonlinear_arith)
            requires
                i / 64 < words.len(),
        ;
    }
    lemma_count_is_len(words_set(words), 64 * words.len());
}

/// Where an index falls: its word and its bit in that word.
proof fn lemma_split_index(i: nat, j: nat, k: nat)
    requires
        k < 64,
        i == 64 * j + k,
    ensures
        i / 64 == j,
        i % 64 == k,
{
    assert(i / 64 == j && i % 64 == k) by (nonlinear_arith)
        requires
            i == 64 * j + k,
            k < 64,
    ;
}

/// The naturals from `lo` up to, not including, `hi`.
pub open spec fn span(lo: nat, hi: nat) -> Set<nat> {
    Set::new(|i: nat| lo <= i < hi)
}

/// A span is finite and has `hi - lo` members.
pub proof fn lemma_span_len(lo: nat, hi: nat)
    requires
        lo <= hi,
    ensures
        span(lo, hi).finite(),
        span(lo, hi).len() == hi - lo,
    decreases hi - lo,
{
    if lo == hi {
        assert(span(lo, hi) =~= Set::empty());
    } else {
        let m = (hi - 1) as nat;
        lemma_span_len(lo, m);
        assert(span(lo, hi) =~= span(lo, m).insert(m));
    }
}

/// A finite set of one member is the singleton of any member it has.
pub proof fn lemma_only_member(s: Set<nat>, m: nat)
    requires
        s.finite(),
        s.len() == 1,
        s.contains(m),
    ensures
        s == singleton(m),
{
    let rest = s.remove(m);
    assert(rest.len() == 0);
    rest.lemma_len0_is_empty();
    assert(s =~= rest.insert(m));
    assert(s =~= singleton(m));
}

/// The count below a bound grows with the bound.
pub proof fn lemma_count_grows(s: Set<nat>, n: nat, m: nat)
    requires
        n <= m,
    ensures
        count_below(s, n) <= count_below(s, m),
    decreases m,
{
    if n < m {
        lemma_count_grows(s, n, (m - 1) as nat);
    }
}

/// The number of set bits in `w`, by `u64::count_ones`, which std documents
/// as the number of ones in the binary representation.
#[verifier::external_body]
fn count_ones(w: u64) -> (r: usize)
    ensures
        r == bits_below(w, 64),
{
    w.count_ones() as usize
}

/// No more bits are set among the lowest `k` than `k`.
proof fn lemma_bits_bounded(w: u64, k: nat)
    ensures
        bits_below(w, k) <= k,
    decreases k,
{
    if k > 0 {
        lemma_bits_bounded(w, (k - 1) as nat);
    }
}

/// A set of validator indices, all below [`CAPACITY`].
#[derive(Debug)]
pub struct Identity {
    words: Vec<u64>,
}

impl View for Identity {
    type V = Set<nat>;

    closed spec fn view(&self) -> Set<nat> {
        words_set(self.words@)
    }
}

impl Identity {
    /// The representation is bounded, and with it every member.
    #[verifier::type_invariant]
    pub closed spec fn wf(self) -> bool {
        self.words@.len() <= MAX_WORDS
    }

    /// The packed words behind the set, lowest indices first.
    pub closed spec fn words(self) -> Seq<u64> {
        self.words@
    }

    /// What a well-formed identity is, over its words.
    pub proof fn lemma_wf(self)
        ensures
            self.wf() <==> self.words().len() <= MAX_WORDS,
            self@ == words_set(self.words()),
    {
    }

    /// A well-formed identity is a finite set of indices below [`CAPACITY`].
    pub proof fn lemma_bounded(self)
        requires
            self.wf(),
        ensures
            self@.finite(),
            self@.len() <= CAPACITY,
            forall|i: nat| self@.contains(i) ==> i < CAPACITY,
    {
        lemma_words_bounded(self.words@);
        assert forall|i: nat| self@.contains(i) implies i < CAPACITY by {
            assert(i < 64 * self.words@.len());
        }
        lemma_count_is_len(self@, CAPACITY as nat);
    }

    /// The empty set.
    pub fn new() -> (r: Self)
        ensures
            r@ == Set::<nat>::empty(),
            r.words() == Seq::<u64>::empty(),
            r.wf(),
    {
        let r = Identity { words: Vec::new() };
        assert(r@ =~= Set::<nat>::empty());
        r
    }

    /// The identity that packs `words`, or `None` if there are more than
    /// [`MAX_WORDS`] of them.
    pub fn from_words(words: Vec<u64>) -> (r: Option<Self>)
        ensures
            r is Some <==> words@.len() <= MAX_WORDS,
            r matches Some(id) ==> id.words() == words@ && id@ == words_set(words@) && id.wf(),
    {
        if words.len() <= MAX_WORDS {
            Some(Identity { words })
        } else {
            None
        }
    }

    /// A copy of the packed words, lowest indices first.
    pub fn to_words(&self) -> (r: Vec<u64>)
        ensures
            r@ == self.words(),
    {
        self.words.clone()
    }

    /// The set that holds `i` alone.
    pub fn single(i: usize) -> (r: Self)
        requires
            i < CAPACITY,
        ensures
            r@ == singleton(i as nat),
            r.wf(),
    {
        let mut r = Identity::new();
        r.insert(i);
        assert(r@ =~= singleton(i as nat));
        r
    }

    /// Adds `i` to the set.
    pub fn insert(&mut self, i: usize)
        requires
            i < CAPACITY,
        ensures
            final(self)@ == old(self)@.insert(i as nat),
            final(self).wf(),
    {
        proof {
            use_type_invariant(&*self);
        }
        let j = i / 64;
        let k = (i % 64) as u64;
        let mut words: Vec<u64> = Vec::new();
        std::mem::swap(&mut self.words, &mut words);
        while words.len() <= j
            invariant
                j < MAX_WORDS,
                words.len() <= MAX_WORDS,
                words@.len() >= old(self).words@.len(),
                forall|p: int| 0 <= p < old(self).words@.len() ==> words@[p] == old(self).words@[p],
                forall|p: int| old(self).words@.len() <= p < words@.len() ==> words@[p] == 0,
            decreases j + 1 - words.len(),
        {
            words.push(0);
        }
        let w = words[j];
        words.set(j, w | (1u64 << k));
        proof {
            let old_set = old(self)@;
            let new_set = words_set(words@);
            assert forall|x: nat| new_set.contains(x) <==> old_set.insert(i as nat).contains(
                x,
            ) by {
                let xj = x / 64;
                let xk = x % 64;
                if xj < words@.len() {
                    if xj == j {
                        lemma_bit_set(w, k, xk as u64);
                        lemma_split_index(x, xj, xk);
                        lemma_split_index(i as nat, j as nat, k as nat);
                    }
                    if xj >= old(self).words@.len() {
                        lemma_bit_zero(xk as u64);
                    }
                }
            }
            assert(new_set =~= old_set.insert(i as nat));
        }
        self.words = words;
    }

    /// The set of the indices from `lo` up to, not including, `hi`.
    pub fn range(lo: usize, hi: usize) -> (r: Self)
        requires
            hi <= CAPACITY,
        ensures
            r@ == span(lo as nat, hi as nat),
            r.wf(),
    {
        let mut r = Identity::new();
        if hi <= lo {
            assert(r@ =~= span(lo as nat, hi as nat));
            return r;
        }
        let mut i = lo;
        while i < hi
            invariant
                hi <= CAPACITY,
                lo <= i <= hi,
                r.wf(),
                forall|x: nat| r@.contains(x) <==> lo <= x < i,
            decreases hi - i,
        {
            r.insert(i);
            i = i + 1;
        }
        assert(r@ =~= span(lo as nat, hi as nat));
        r
    }

    /// Whether `i` is a member.
    pub fn contains(&self, i: usize) -> (r: bool)
        ensures
            r == self@.contains(i as nat),
    {
        let j = i / 64;
        if j < self.words.len() {
            let k = (i % 64) as u64;
            (self.words[j] >> k) & 1 == 1
        } else {
            false
        }
    }

    /// The number of members.
    pub fn len(&self) -> (r: usize)
        ensures
            self@.finite(),
            r == self@.len(),
            r <= CAPACITY,
    {
        proof {
            use_type_invariant(self);
            lemma_words_bounded(self.words@);
        }
        let mut total: usize = 0;
        let mut j: usize = 0;
        while j < self.words.len()
            invariant
                j <= self.words.len(),
                self.words.len() <= MAX_WORDS,
                total == count_below(words_set(self.words@), 64 * j as nat),
                total <= 64 * j,
            decreases self.words.len() - j,
        {
            let c = count_ones(self.words[j]);
            proof {
                lemma_count_words(self.words@, j as nat, 64);
                lemma_bits_bounded(self.words@[j as int], 64);
            }
            total = total + c;
            j = j + 1;
        }
        total
    }

    /// Whether the set has no member.
    pub fn is_empty(&self) -> (r: bool)
        ensures
            r == (self@ == Set::<nat>::empty()),
    {
        let n = self.len();
        proof {
            if n == 0 {
                self@.lemma_len0_is_empty();
                assert(self@ =~= Set::<nat>::empty());
            }
        }
        n == 0
    }

    /// Whether every member of `other` is a member of `self`.
    pub fn is_superset_of(&self, other: &Identity) -> (r: bool)
        ensures
            r == other@.subset_of(self@),
    {
        let mut j: usize = 0;
        while j < other.words.len()
            invariant
                j <= other.words.len(),
                forall|i: nat| i < 64 * j && other@.contains(i) ==> self@.contains(i),
            decreases other.words.len() - j,
        {
            let b = other.words[j];
            let a = if j < self.words.len() {
                self.words[j]
            } else {
                0
            };
            if b & !a != 0 {
                proof {
                    let k = lemma_nonzero_has_bit(b & !a);
                    lemma_bit_and_not(b, a, k as u64);
                    let i = 64 * j as nat + k;
                    lemma_split_index(i, j as nat, k);
                    assert(other@.contains(i));
                    if j < self.words.len() {
                        assert(!self@.contains(i));
                    } else {
                        assert(!self@.contains(i));
                    }
                }
                return false;
            }
            proof {
                assert forall|i: nat| i < 64 * (j + 1) && other@.contains(i) implies self@.contains(
                    i,
                ) by {
                    if i >= 64 * j {
                        let k = (i - 64 * j) as nat;
                        lemma_split_index(i, j as nat, k);
                        lemma_bit_and_not(b, a, k as u64);
                        lemma_bit_zero(k as u64);
                    }
                }
            }
            j = j + 1;
        }
        proof {
            lemma_words_bounded(other.words@);
        }
        true
    }

    /// The number of members that `self` and `other` share.
    pub fn intersection_size(&self, other: &Identity) -> (r: usize)
        ensures
            self@.intersect(other@).finite(),
            r == self@.intersect(other@).len(),
            r <= CAPACITY,
    {
        proof {
            use_type_invariant(self);
            use_type_invariant(other);
        }
        let n = if self.words.len() < other.words.len() {
            self.words.len()
        } else {
            other.words.len()
        };
        let ghost both = Seq::new(
            n as nat,
            |p: int| self.words@[p] & other.words@[p],
        );
        proof {
            assert forall|i: nat| words_set(both).contains(i) <==> self@.intersect(
                other@,
            ).contains(i) by {
                if i / 64 < n {
                    lemma_bit_and(
                        self.words@[(i / 64) as int],
                        other.words@[(i / 64) as int],
                        (i % 64) as u64,
                    );
                }
            }
            assert(words_set(both) =~= self@.intersect(other@));
            lemma_words_bounded(both);
        }
        let mut total: usize = 0;
        let mut j: usize = 0;
        while j < n
            invariant
                j <= n,
                n <= MAX_WORDS,
                n <= self.words.len(),
                n <= other.words.len(),
                both.len() == n,
                forall|p: int| 0 <= p < n ==> both[p] == self.words@[p] & other.words@[p],
                total == count_below(words_set(both), 64 * j as nat),
                total <= 64 * j,
            decreases n - j,
        {
            let c = count_ones(self.words[j] & other.words[j]);
            proof {
                lemma_count_words(both, j as nat, 64);
                lemma_bits_bounded(both[j as int], 64);
            }
            total = total + c;
            j = j + 1;
        }
        total
    }

    /// Takes the members of `other` into `self`. Unless `allow_overlap` is
    /// set the two sets must share no member.
    pub fn combine(&mut self, other: &Identity, allow_overlap: bool)
        requires
            allow_overlap || old(self)@.disjoint(other@),
        ensures
            final(self)@ == old(self)@.union(other@),
            final(self).wf(),
    {
        proof {
            use_type_invariant(&*self);
            use_type_invariant(other);
        }
        let n = if self.words.len() < other.words.len() {
            other.words.len()
        } else {
            self.words.len()
        };
        let mut words: Vec<u64> = Vec::new();
        let mut j: usize = 0;
        while j < n
            invariant
                j <= n,
                n <= MAX_WORDS,
                n >= self.words.len(),
                n >= other.words.len(),
                words.len() == j,
                forall|p: int|
                    0 <= p < j ==> words@[p] == (if p < self.words@.len() {
                        self.words@[p]
                    } else {
                        0u64
                    }) | (if p < other.words@.len() {
                        other.words@[p]
                    } else {
                        0u64
                    }),
            decreases n - j,
        {
            let a = if j < self.words.len() {
                self.words[j]
            } else {
                0
            };
            let b = if j < other.words.len() {
                other.words[j]
            } else {
                0
            };
            words.push(a | b);
            j = j + 1;
        }
        proof {
            let joined = words_set(words@);
            assert forall|i: nat| joined.contains(i) <==> old(self)@.union(other@).contains(
                i,
            ) by {
                let p = (i / 64) as int;
                let k = (i % 64) as u64;
                if p < n {
                    let a = if p < self.words@.len() {
                        self.words@[p]
                    } else {
                        0u64
                    };
                    let b = if p < other.words@.len() {
                        other.words@[p]
                    } else {
                        0u64
                    };
                    lemma_bit_or(a, b, k);
                    lemma_bit_zero(k);
                }
            }
            assert(joined =~= old(self)@.union(other@));
        }
        self.words = words;
    }

    /// The least member, or `None` for the empty set.
    pub fn min(&self) -> (r: Option<usize>)
        ensures
            r is None <==> self@ == Set::<nat>::empty(),
            r matches Some(m) ==> self@.contains(m as nat) && m < CAPACITY && forall|i: nat|
                i < m ==> !self@.contains(i),
    {
        proof {
            use_type_invariant(self);
        }
        let mut j: usize = 0;
        while j < self.words.len()
            invariant
                j <= self.words.len(),
                self.words.len() <= MAX_WORDS,
                forall|i: nat| i < 64 * j ==> !self@.contains(i),
            decreases self.words.len() - j,
        {
            let w = self.words[j];
            if w != 0 {
                let t = w.trailing_zeros();
                proof {
                    axiom_u64_trailing_zeros(w);
                    let k = t as nat;
                    let m = 64 * j as nat + k;
                    lemma_split_index(m, j as nat, k);
                    assert(k as u64 == t as u64);
                    assert(self@.contains(m));
                    assert forall|i: nat| i < m implies !self@.contains(i) by {
                        if i >= 64 * j {
                            let q = (i - 64 * j) as nat;
                            lemma_split_index(i, j as nat, q);
                            assert((w >> (q as u64)) & 1u64 == 0u64);
                        }
                    }
                }
                return Some(64 * j + t as usize);
            }
            proof {
                assert forall|i: nat| i < 64 * (j + 1) implies !self@.contains(i) by {
                    if i >= 64 * j {
                        let q = (i - 64 * j) as nat;
                        lemma_split_index(i, j as nat, q);
                        lemma_bit_zero(q as u64);
                    }
                }
            }
            j = j + 1;
        }
        proof {
            lemma_words_bounded(self.words@);
            assert(self@ =~= Set::<nat>::empty());
        }
        None
    }

    /// The one member, if the set has exactly one.
    pub fn as_single(&self) -> (r: Option<usize>)
        ensures
            r is Some <==> self@.finite() && self@.len() == 1,
            r matches Some(m) ==> self@ == singleton(m as nat) && m < CAPACITY,
    {
        if self.len() != 1 {
            return None;
        }
        let m = self.min();
        proof {
            if m is Some {
                lemma_only_member(self@, m->0 as nat);
            } else {
                assert(self@.len() == 0);
            }
        }
        m
    }

    /// The member that has exactly `k` members below it, or `None` if the
    /// set has no more than `k` members.
    pub fn nth(&self, k: usize) -> (r: Option<usize>)
        ensures
            r is Some <==> self@.finite() && k < self@.len(),
            r matches Some(m) ==> self@.contains(m as nat) && count_below(self@, m as nat) == k
                && m < CAPACITY,
    {
        proof {
            use_type_invariant(self);
            lemma_words_bounded(self.words@);
        }
        let limit = self.words.len() * 64;
        let mut seen: usize = 0;
        let mut i: usize = 0;
        while i < limit
            invariant
                i <= limit,
                limit == self.words.len() * 64,
                self.words.len() <= MAX_WORDS,
                seen == count_below(self@, i as nat),
                seen <= i,
                seen <= k,
                self@.finite(),
                self@.len() == count_below(self@, limit as nat),
            decreases limit - i,
        {
            if self.contains(i) {
                if seen == k {
                    proof {
                        lemma_count_grows(self@, (i + 1) as nat, limit as nat);
                        assert(count_below(self@, (i + 1) as nat) == count_below(self@, i as nat)
                            + 1);
                        assert(self@.len() == count_below(self@, limit as nat));
                    }
                    return Some(i);
                }
                seen = seen + 1;
            }
            i = i + 1;
        }
        None
    }

    /// The members that `self` and `other` share.
    pub fn intersection(&self, other: &Identity) -> (r: Identity)
        ensures
            r@ == self@.intersect(other@),
            r.wf(),
    {
        proof {
            use_type_invariant(self);
            use_type_invariant(other);
        }
        let n = if self.words.len() < other.words.len() {
            self.words.len()
        } else {
            other.words.len()
        };
        let mut words: Vec<u64> = Vec::new();
        let mut j: usize = 0;
        while j < n
            invariant
                j <= n,
                n <= MAX_WORDS,
                n <= self.words.len(),
                n <= other.words.len(),
                words.len() == j,
                forall|p: int| 0 <= p < j ==> words@[p] == self.words@[p] & other.words@[p],
            decreases n - j,
        {
            words.push(self.words[j] & other.words[j]);
            j = j + 1;
        }
        proof {
            let shared = words_set(words@);
            assert forall|i: nat| shared.contains(i) <==> self@.intersect(other@).contains(
                i,
            ) by {
                if i / 64 < n {
                    lemma_bit_and(
                        self.words@[(i / 64) as int],
                        other.words@[(i / 64) as int],
                        (i % 64) as u64,
                    );
                }
            }
            assert(shared =~= self@.intersect(other@));
        }
        Identity { words }
    }

    /// The members of exactly one of `self` and `other`.
    pub fn symmetric_difference(&self, other: &Identity) -> (r: Identity)
        ensures
            r@ == symmetric_difference(self@, other@),
            r.wf(),
    {
        proof {
            use_type_invariant(self);
            use_type_invariant(other);
        }
        let n = if self.words.len() < other.words.len() {
            other.words.len()
        } else {
            self.words.len()
        };
        let mut words: Vec<u64> = Vec::new();
        let mut j: usize = 0;
        while j < n
            invariant
                j <= n,
                n <= MAX_WORDS,
                n >= self.words.len(),
                n >= other.words.len(),
                words.len() == j,
                forall|p: int|
                    0 <= p < j ==> words@[p] == (if p < self.words@.len() {
                        self.words@[p]
                    } else {
                        0u64
                    }) ^ (if p < other.words@.len() {
                        other.words@[p]
                    } else {
                        0u64
                    }),
            decreases n - j,
        {
            let a = if j < self.words.len() {
                self.words[j]
            } else {
                0
            };
            let b = if j < other.words.len() {
                other.words[j]
            } else {
                0
            };
            words.push(a ^ b);
            j = j + 1;
        }
        proof {
            let mixed = words_set(words@);
            assert forall|i: nat| mixed.contains(i) <==> symmetric_difference(
                self@,
                other@,
            ).contains(i) by {
                let p = (i / 64) as int;
                let k = (i % 64) as u64;
                if p < n {
                    let a = if p < self.words@.len() {
                        self.words@[p]
                    } else {
                        0u64
                    };
                    let b = if p < other.words@.len() {
                        other.words@[p]
                    } else {
                        0u64
                    };
                    lemma_bit_xor(a, b, k);
                    lemma_bit_zero(k);
                }
            }
            assert(mixed =~= symmetric_difference(self@, other@));
        }
        Identity { words }
    }

    /// The members, in rising order.
    pub fn to_vec(&self) -> (r: Vec<usize>)
        ensures
            forall|p: int| 0 <= p < r@.len() ==> self@.contains(#[trigger] r@[p] as nat),
            forall|i: nat| self@.contains(i) ==> i <= usize::MAX && r@.contains(i as usize),
            forall|p: int, q: int| 0 <= p < q < r@.len() ==> r@[p] < r@[q],
    {
        proof {
            use_type_invariant(self);
            lemma_words_bounded(self.words@);
        }
        let mut out: Vec<usize> = Vec::new();
        let limit = self.words.len() * 64;
        let mut i: usize = 0;
        while i < limit
            invariant
                i <= limit,
                limit == self.words.len() * 64,
                self.words.len() <= MAX_WORDS,
                forall|x: nat| x < i && self@.contains(x) ==> out@.contains(x as usize),
                forall|p: int| 0 <= p < out@.len() ==> out@[p] < i && self@.contains(out@[p] as nat),
                forall|p: int, q: int| 0 <= p < q < out@.len() ==> out@[p] < out@[q],
            decreases limit - i,
        {
            if self.contains(i) {
                let ghost before = out@;
                out.push(i);
                proof {
                    assert forall|x: nat| x < i + 1 && self@.contains(x) implies out@.contains(
                        x as usize,
                    ) by {
                        if x < i {
                            let p = choose|p: int| 0 <= p < before.len() && before[p] == x as usize;
                            assert(out@[p] == x as usize);
                        } else {
                            assert(out@[before.len() as int] == i);
                        }
                    }
                }
            }
            i = i + 1;
        }
        out
    }
}

impl Clone for Identity {
    fn clone(&self) -> (r: Self)
        ensures
            r@ == self@,
            r.words() == self.words(),
            r.wf(),
    {
        proof {
            use_type_invariant(self);
        }
        let words = self.words.clone();
        assert(words@ =~= self.words@);
        Identity { words }
    }
}

} // verus!
