//! The wire format of level updates.
//!
//! A contribution is its contributor bitset, as a count of bytes in two bytes
//! big-endian followed by that many bytes, eight to a word, each word
//! little-endian; and then the signature, of fixed length. A level update is
//! the aggregate; one byte that says whether an individual contribution
//! follows, and the individual if it does; the level, in one byte; and the
//! origin, in two bytes big-endian.

use crate::contribution::{Contribution, LevelUpdate, SIGNATURE_SIZE};
use crate::identity::{Identity, MAX_WORDS};
use vstd::bytes::{
    lemma_auto_spec_u64_to_from_le_bytes, spec_u64_from_le_bytes, spec_u64_to_le_bytes,
    u64_from_le_bytes, u64_to_le_bytes,
};
use vstd::prelude::*;
use vstd::slice::slice_subrange;

verus! {

/// Why bytes do not decode.
#[derive(Debug, PartialEq, Eq, Clone, Copy, Structural)]
pub enum DeserializeError {
    /// The bytes stop before the value does.
    UnexpectedEnd,
    /// A bitset is longer than an identity can be, or not whole words.
    InvalidLength,
    /// The byte that says whether an individual follows is neither 0 nor 1.
    InvalidTag,
    /// Bytes are left over after the value.
    ExtraData,
}

impl DeserializeError {
    /// The error for bytes that stop short.
    pub fn unexpected_end() -> (r: Self)
        ensures
            r == DeserializeError::UnexpectedEnd,
    {
        DeserializeError::UnexpectedEnd
    }
}

/// A contribution as the wire carries it.
pub struct WireContribution {
    pub words: Seq<u64>,
    pub signature: Seq<u8>,
}

/// A level update as the wire carries it.
pub struct WireUpdate {
    pub aggregate: WireContribution,
    pub individual: Option<WireContribution>,
    pub level: u8,
    pub origin: u16,
}

impl WireContribution {
    /// What the wire can carry: a bitset an identity can hold, and a
    /// signature of the fixed length.
    pub open spec fn valid(self) -> bool {
        self.words.len() <= MAX_WORDS && self.signature.len() == SIGNATURE_SIZE
    }
}

impl WireUpdate {
    /// What the wire can carry.
    pub open spec fn valid(self) -> bool {
        self.aggregate.valid() && (self.individual matches Some(i) ==> i.valid())
    }
}

impl Contribution {
    /// The contribution as the wire carries it.
    pub open spec fn wire(self) -> WireContribution {
        WireContribution { words: self.contributors.words(), signature: self.signature@ }
    }
}

impl LevelUpdate {
    /// The update as the wire carries it.
    pub open spec fn wire(self) -> WireUpdate {
        WireUpdate {
            aggregate: self.aggregate.wire(),
            individual: match self.individual {
                Some(c) => Some(c.wire()),
                None => None,
            },
            level: self.level,
            origin: self.origin,
        }
    }
}

/// Two bytes, big-endian.
pub open spec fn be16(x: u16) -> Seq<u8> {
    seq![(x / 256) as u8, (x % 256) as u8]
}

/// The number that two bytes stand for, big-endian.
pub open spec fn from_be16(hi: u8, lo: u8) -> u16 {
    (hi * 256 + lo) as u16
}

/// Four bytes, big-endian.
pub open spec fn be32(x: u32) -> Seq<u8> {
    seq![
        (x / 16777216) as u8,
        ((x / 65536) % 256) as u8,
        ((x / 256) % 256) as u8,
        (x % 256) as u8,
    ]
}

/// The number that four bytes stand for, big-endian.
pub open spec fn from_be32(b: Seq<u8>) -> u32 {
    (b[0] * 16777216 + b[1] * 65536 + b[2] * 256 + b[3]) as u32
}

/// The bytes of `words`: eight a word, each word little-endian.
pub open spec fn words_bytes(words: Seq<u64>) -> Seq<u8> {
    Seq::new(8 * words.len(), |i: int| spec_u64_to_le_bytes(words[i / 8])[i % 8])
}

/// The words that `bytes` hold, eight bytes a word, each little-endian.
pub open spec fn bytes_words(bytes: Seq<u8>) -> Seq<u64> {
    Seq::new(bytes.len() / 8, |k: int| spec_u64_from_le_bytes(bytes.subrange(8 * k, 8 * k + 8)))
}

/// The bytes of a contribution.
pub open spec fn contribution_bytes(c: WireContribution) -> Seq<u8> {
    be16((8 * c.words.len()) as u16) + words_bytes(c.words) + c.signature
}

/// The bytes of a level update.
pub open spec fn update_bytes(u: WireUpdate) -> Seq<u8> {
    contribution_bytes(u.aggregate) + (match u.individual {
        Some(i) => seq![1u8] + contribution_bytes(i),
        None => seq![0u8],
    }) + seq![u.level] + be16(u.origin)
}

/// The contribution that starts at `at` in `b`, and where it ends.
pub open spec fn parse_contribution(b: Seq<u8>, at: int) -> Result<
    (WireContribution, int),
    DeserializeError,
> {
    if at + 2 > b.len() {
        Err(DeserializeError::UnexpectedEnd)
    } else {
        let n = from_be16(b[at], b[at + 1]) as int;
        if n % 8 != 0 || n > 8 * MAX_WORDS {
            Err(DeserializeError::InvalidLength)
        } else if at + 2 + n + SIGNATURE_SIZE > b.len() {
            Err(DeserializeError::UnexpectedEnd)
        } else {
            Ok(
                (
                    WireContribution {
                        words: bytes_words(b.subrange(at + 2, at + 2 + n)),
                        signature: b.subrange(at + 2 + n, at + 2 + n + SIGNATURE_SIZE),
                    },
                    at + 2 + n + SIGNATURE_SIZE,
                ),
            )
        }
    }
}

/// The individual contribution, if any, that starts at `at` in `b`, and
/// where it ends.
pub open spec fn parse_individual(b: Seq<u8>, at: int) -> Result<
    (Option<WireContribution>, int),
    DeserializeError,
> {
    if at + 1 > b.len() {
        Err(DeserializeError::UnexpectedEnd)
    } else if b[at] == 0 {
        Ok((None, at + 1))
    } else if b[at] == 1 {
        match parse_contribution(b, at + 1) {
            Ok((c, end)) => Ok((Some(c), end)),
            Err(e) => Err(e),
        }
    } else {
        Err(DeserializeError::InvalidTag)
    }
}

/// The level update that `b` holds: all of `b`, and nothing left over.
pub open spec fn parse_update(b: Seq<u8>) -> Result<WireUpdate, DeserializeError> {
    match parse_contribution(b, 0) {
        Err(e) => Err(e),
        Ok((aggregate, at)) => match parse_individual(b, at) {
            Err(e) => Err(e),
            Ok((individual, end)) => {
                if end + 3 > b.len() {
                    Err(DeserializeError::UnexpectedEnd)
                } else if end + 3 < b.len() {
                    Err(DeserializeError::ExtraData)
                } else {
                    Ok(
                        WireUpdate {
                            aggregate,
                            individual,
                            level: b[end],
                            origin: from_be16(b[end + 1], b[end + 2]),
                        },
                    )
                }
            },
        },
    }
}

/// Words written as bytes read back as the same words.
pub proof fn lemma_words_round_trip(words: Seq<u64>)
    ensures
        words_bytes(words).len() == 8 * words.len(),
        bytes_words(words_bytes(words)) == words,
{
    lemma_auto_spec_u64_to_from_le_bytes();
    let bytes = words_bytes(words);
    assert forall|k: int| 0 <= k < words.len() implies bytes_words(bytes)[k] == words[k] by {
        let part = bytes.subrange(8 * k, 8 * k + 8);
        assert(part =~= spec_u64_to_le_bytes(words[k])) by {
            assert forall|j: int| 0 <= j < 8 implies part[j] == spec_u64_to_le_bytes(words[k])[j] by {
                assert((8 * k + j) / 8 == k);
                assert((8 * k + j) % 8 == j);
            }
        }
    }
    assert(bytes_words(bytes) =~= words);
}

/// The bytes of words with one more word are the bytes of the words and
/// then the bytes of that word.
proof fn lemma_words_bytes_push(words: Seq<u64>, w: u64)
    ensures
        words_bytes(words.push(w)) == words_bytes(words) + spec_u64_to_le_bytes(w),
{
    lemma_auto_spec_u64_to_from_le_bytes();
    let l = words_bytes(words.push(w));
    let r = words_bytes(words) + spec_u64_to_le_bytes(w);
    assert(l.len() == r.len());
    assert forall|i: int| 0 <= i < l.len() implies l[i] == r[i] by {
        if i < 8 * words.len() {
            assert(i / 8 < words.len());
        } else {
            assert(i / 8 == words.len());
            assert(i % 8 == i - 8 * words.len());
        }
    }
    assert(l =~= r);
}

/// A contribution written at `at` is read back from there.
pub proof fn lemma_contribution_round_trip(
    before: Seq<u8>,
    c: WireContribution,
    after: Seq<u8>,
)
    requires
        c.valid(),
    ensures
        parse_contribution(before + contribution_bytes(c) + after, before.len() as int) == Ok::<
            (WireContribution, int),
            DeserializeError,
        >((c, (before.len() + contribution_bytes(c).len()) as int)),
        contribution_bytes(c).len() == 2 + 8 * c.words.len() + SIGNATURE_SIZE,
{
    let b = before + contribution_bytes(c) + after;
    let at = before.len() as int;
    let n = 8 * c.words.len();
    lemma_words_round_trip(c.words);
    assert(b[at] == be16(n as u16)[0]);
    assert(b[at + 1] == be16(n as u16)[1]);
    assert(from_be16(b[at], b[at + 1]) == n);
    assert(b.subrange(at + 2, at + 2 + n) =~= words_bytes(c.words));
    assert(b.subrange(at + 2 + n, at + 2 + n + SIGNATURE_SIZE) =~= c.signature);
}

/// Every level update that the wire can carry decodes from its bytes to
/// itself.
pub proof fn law_update_round_trip(u: WireUpdate)
    requires
        u.valid(),
    ensures
        parse_update(update_bytes(u)) == Ok::<WireUpdate, DeserializeError>(u),
{
    let tail = seq![u.level] + be16(u.origin);
    let b = update_bytes(u);
    let a = contribution_bytes(u.aggregate);
    match u.individual {
        Some(i) => {
            let ib = contribution_bytes(i);
            assert(b =~= Seq::<u8>::empty() + a + (seq![1u8] + ib + tail));
            lemma_contribution_round_trip(Seq::empty(), u.aggregate, seq![1u8] + ib + tail);
            assert(b =~= (a + seq![1u8]) + ib + tail);
            lemma_contribution_round_trip(a + seq![1u8], i, tail);
            let end: int = (a.len() + 1 + ib.len()) as int;
            assert(b[a.len() as int] == 1);
            assert(b[end] == u.level);
            assert(b[end + 1] == be16(u.origin)[0]);
            assert(b[end + 2] == be16(u.origin)[1]);
        },
        None => {
            assert(b =~= Seq::<u8>::empty() + a + (seq![0u8] + tail));
            lemma_contribution_round_trip(Seq::empty(), u.aggregate, seq![0u8] + tail);
            let end: int = (a.len() + 1) as int;
            assert(b[a.len() as int] == 0);
            assert(b[end] == u.level);
            assert(b[end + 1] == be16(u.origin)[0]);
            assert(b[end + 2] == be16(u.origin)[1]);
        },
    }
}

/// Appends the two bytes of `x`, big-endian.
fn put_be16(out: &mut Vec<u8>, x: u16)
    ensures
        final(out)@ == old(out)@ + be16(x),
{
    out.push((x / 256) as u8);
    out.push((x % 256) as u8);
    assert(out@ =~= old(out)@ + be16(x));
}

/// Appends the bytes of a contribution.
fn put_contribution(out: &mut Vec<u8>, c: &Contribution)
    ensures
        final(out)@ == old(out)@ + contribution_bytes(c.wire()),
{
    let words = c.contributors.to_words();
    proof {
        use_type_invariant(&c.contributors);
        c.contributors.lemma_wf();
    }
    put_be16(out, (8 * words.len()) as u16);
    let ghost base = out@;
    let mut k: usize = 0;
    assert(out@ =~= base + words_bytes(words@.take(0)));
    while k < words.len()
        invariant
            k <= words.len(),
            words@.len() <= MAX_WORDS,
            out@ == base + words_bytes(words@.take(k as int)),
        decreases words.len() - k,
    {
        let bytes = u64_to_le_bytes(words[k]);
        let ghost prev = out@;
        let mut j: usize = 0;
        while j < 8
            invariant
                j <= 8,
                bytes@.len() == 8,
                out@ == prev + bytes@.subrange(0, j as int),
            decreases 8 - j,
        {
            out.push(bytes[j]);
            assert(out@ =~= prev + bytes@.subrange(0, j + 1));
            j = j + 1;
        }
        proof {
            assert(bytes@.subrange(0, 8) =~= bytes@);
            lemma_words_bytes_push(words@.take(k as int), words@[k as int]);
            assert(words@.take(k + 1) =~= words@.take(k as int).push(words@[k as int]));
            assert(out@ =~= base + words_bytes(words@.take(k + 1)));
        }
        k = k + 1;
    }
    assert(words@.take(words@.len() as int) =~= words@);
    let ghost filled = out@;
    let mut s: usize = 0;
    while s < SIGNATURE_SIZE
        invariant
            s <= SIGNATURE_SIZE,
            out@ == filled + c.signature@.subrange(0, s as int),
        decreases SIGNATURE_SIZE - s,
    {
        out.push(c.signature[s]);
        assert(out@ =~= filled + c.signature@.subrange(0, s + 1));
        s = s + 1;
    }
    assert(c.signature@.subrange(0, SIGNATURE_SIZE as int) =~= c.signature@);
    assert(out@ =~= old(out)@ + contribution_bytes(c.wire()));
}

/// Reads the contribution that starts at `at`.
fn take_contribution(bytes: &[u8], at: usize) -> (r: Result<(Contribution, usize), DeserializeError>)
    requires
        at <= bytes@.len(),
    ensures
        match r {
            Ok((c, end)) => parse_contribution(bytes@, at as int) == Ok::<
                (WireContribution, int),
                DeserializeError,
            >((c.wire(), end as int)) && end <= bytes@.len() && c.wire().valid(),
            Err(e) => parse_contribution(bytes@, at as int) == Err::<
                (WireContribution, int),
                DeserializeError,
            >(e),
        },
{
    if bytes.len() - at < 2 {
        return Err(DeserializeError::UnexpectedEnd);
    }
    let n = (bytes[at] as usize) * 256 + bytes[at + 1] as usize;
    if n % 8 != 0 || n > 8 * MAX_WORDS {
        return Err(DeserializeError::InvalidLength);
    }
    if bytes.len() - at - 2 < n + SIGNATURE_SIZE {
        return Err(DeserializeError::UnexpectedEnd);
    }
    let start = at + 2;
    let ghost packed = bytes@.subrange(start as int, start + n);
    let mut words: Vec<u64> = Vec::new();
    let mut k: usize = 0;
    while k < n / 8
        invariant
            k <= n / 8,
            n % 8 == 0,
            n <= 8 * MAX_WORDS,
            start + n + SIGNATURE_SIZE <= bytes@.len(),
            bytes@.len() <= usize::MAX,
            packed == bytes@.subrange(start as int, start + n),
            words@.len() == k,
            forall|p: int| 0 <= p < k ==> words@[p] == bytes_words(packed)[p],
        decreases n / 8 - k,
    {
        let part = slice_subrange(bytes, start + 8 * k, start + 8 * k + 8);
        assert(part@ =~= packed.subrange(8 * k, 8 * k + 8));
        words.push(u64_from_le_bytes(part));
        k = k + 1;
    }
    assert(words@ =~= bytes_words(packed));
    let mut signature = [0u8; SIGNATURE_SIZE];
    let mut s: usize = 0;
    while s < SIGNATURE_SIZE
        invariant
            s <= SIGNATURE_SIZE,
            start + n + SIGNATURE_SIZE <= bytes@.len(),
            bytes@.len() <= usize::MAX,
            forall|p: int| 0 <= p < s ==> signature@[p] == bytes@[start + n + p],
        decreases SIGNATURE_SIZE - s,
    {
        signature[s] = bytes[start + n + s];
        s = s + 1;
    }
    assert(signature@ =~= bytes@.subrange(start + n, start + n + SIGNATURE_SIZE));
    let contributors = Identity::from_words(words).unwrap();
    Ok((Contribution::new(contributors, signature), start + n + SIGNATURE_SIZE))
}

impl LevelUpdate {
    /// The bytes of the update.
    pub fn serialize_to_vec(&self) -> (r: Vec<u8>)
        ensures
            r@ == update_bytes(self.wire()),
            self.wire().valid(),
    {
        proof {
            use_type_invariant(&self.aggregate.contributors);
            self.aggregate.contributors.lemma_wf();
        }
        let mut out: Vec<u8> = Vec::new();
        put_contribution(&mut out, &self.aggregate);
        match &self.individual {
            Some(individual) => {
                proof {
                    use_type_invariant(&individual.contributors);
                    individual.contributors.lemma_wf();
                }
                out.push(1);
                put_contribution(&mut out, individual);
            },
            None => {
                out.push(0);
            },
        }
        out.push(self.level);
        put_be16(&mut out, self.origin);
        assert(out@ =~= update_bytes(self.wire()));
        out
    }

    /// The update that `bytes` hold, if they hold exactly one.
    pub fn deserialize_from_vec(bytes: &[u8]) -> (r: Result<LevelUpdate, DeserializeError>)
        ensures
            match r {
                Ok(u) => parse_update(bytes@) == Ok::<WireUpdate, DeserializeError>(u.wire()),
                Err(e) => parse_update(bytes@) == Err::<WireUpdate, DeserializeError>(e),
            },
    {
        let (aggregate, at) = match take_contribution(bytes, 0) {
            Ok(pair) => pair,
            Err(e) => {
                return Err(e);
            },
        };
        if bytes.len() - at < 1 {
            return Err(DeserializeError::UnexpectedEnd);
        }
        let tag = bytes[at];
        let (individual, end) = if tag == 0 {
            (None, at + 1)
        } else if tag == 1 {
            match take_contribution(bytes, at + 1) {
                Ok((c, end)) => (Some(c), end),
                Err(e) => {
                    return Err(e);
                },
            }
        } else {
            return Err(DeserializeError::InvalidTag);
        };
        if bytes.len() - end < 3 {
            return Err(DeserializeError::UnexpectedEnd);
        }
        if bytes.len() - end > 3 {
            return Err(DeserializeError::ExtraData);
        }
        let level = bytes[end];
        let origin = (bytes[end + 1] as u16) * 256 + bytes[end + 2] as u16;
        Ok(LevelUpdate::new(aggregate, individual, level, origin))
    }
}

/// Written and read back, a level update is what it was.
pub fn round_trip(update: &LevelUpdate) -> (r: LevelUpdate)
    ensures
        r.wire() == update.wire(),
        r@ == update@,
{
    let bytes = update.serialize_to_vec();
    proof {
        law_update_round_trip(update.wire());
    }
    match LevelUpdate::deserialize_from_vec(bytes.as_slice()) {
        Ok(u) => {
            proof {
                u.aggregate.contributors.lemma_wf();
                update.aggregate.contributors.lemma_wf();
                if u.individual is Some {
                    u.individual->0.contributors.lemma_wf();
                    update.individual->0.contributors.lemma_wf();
                }
            }
            u
        },
        Err(_) => {
            // What was written always reads back: this is never reached.
            proof {
                assert(false);
            }
            LevelUpdate::new(update.aggregate.clone(), None, update.level, update.origin)
        },
    }
}

} // verus!
