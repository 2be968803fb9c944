//! Hashers over byte strings: what is written to one is what its digest is
//! taken of.

use vstd::prelude::*;
use vstd::string::StringSliceAdditionalSpecFns;

verus! {

/// Length in bytes of a Blake2b hash as used here.
pub const BLAKE2B_LENGTH: usize = 32;

/// Length in bytes of an Argon2d hash as used here.
pub const ARGON2D_LENGTH: usize = 32;

/// Length in bytes of a SHA-256 hash.
pub const SHA256_LENGTH: usize = 32;

/// The salt under which Argon2d hashes are taken.
pub const NIMIQ_ARGON2_SALT: &'static str = "nimiqrocks!";

/// The memory cost, in KiB, of the default Argon2d hasher.
pub const DEFAULT_ARGON2_COST: u32 = 512;

/// The unkeyed BLAKE2b digest of `data`, `nn` bytes long.
pub uninterp spec fn blake2b_digest(nn: nat, data: Seq<u8>) -> Seq<u8>;

/// The SHA-256 digest of `data`.
pub uninterp spec fn sha256_digest(data: Seq<u8>) -> Seq<u8>;

/// The lower-case hexadecimal digit of value `d`, for `d` below sixteen.
pub open spec fn hex_digit(d: nat) -> char {
    seq!['0', '1', '2', '3', '4', '5', '6', '7', '8', '9', 'a', 'b', 'c', 'd', 'e', 'f'][d as int]
}

/// The lower-case hexadecimal text of `bytes`: two digits a byte, high
/// nibble first.
pub open spec fn hex_lower(bytes: Seq<u8>) -> Seq<char>
    decreases bytes.len(),
{
    if bytes.len() == 0 {
        Seq::empty()
    } else {
        hex_lower(bytes.drop_last()).push(hex_digit((bytes.last() / 16) as nat)).push(
            hex_digit((bytes.last() % 16) as nat),
        )
    }
}

/// The unkeyed BLAKE2b hash of `data`, `nn` bytes long, by
/// `blake2_rfc::blake2b::blake2b` with an empty key. That function refuses a
/// length outside one to sixty-four, and hands back as many bytes as were
/// asked for.
#[verifier::external_body]
fn blake2b(nn: usize, data: &[u8]) -> (r: Vec<u8>)
    requires
        1 <= nn <= 64,
    ensures
        r@ == blake2b_digest(nn as nat, data@),
        r@.len() == nn,
{
    blake2_rfc::blake2b::blake2b(nn, &[], data).as_bytes().to_vec()
}

/// The SHA-256 hash of `data`, by `sha2::Sha256::digest`; it is thirty-two
/// bytes long.
#[verifier::external_body]
fn sha256(data: &[u8]) -> (r: Vec<u8>)
    ensures
        r@ == sha256_digest(data@),
        r@.len() == 32,
{
    <sha2::Sha256 as sha2::Digest>::digest(data).to_vec()
}

/// The lower-case hexadecimal text of `data`, by `hex::encode`.
#[verifier::external_body]
fn hex_encode(data: &[u8]) -> (r: String)
    ensures
        r@ == hex_lower(data@),
{
    hex::encode(data)
}

/// The lower-case hexadecimal text of `data`: two digits a byte, high
/// nibble first.
pub fn to_hex(data: &[u8]) -> (r: String)
    ensures
        r@ == hex_lower(data@),
{
    hex_encode(data)
}

/// The thirty-two bytes of `bytes`, as an array.
fn to_array(bytes: &Vec<u8>) -> (r: [u8; 32])
    requires
        bytes@.len() == 32,
    ensures
        r@ == bytes@,
{
    let mut out = [0u8; 32];
    let mut i: usize = 0;
    while i < 32
        invariant
            i <= 32,
            bytes@.len() == 32,
            forall|p: int| 0 <= p < i ==> out@[p] == bytes@[p],
        decreases 32 - i,
    {
        out[i] = bytes[i];
        i = i + 1;
    }
    assert(out@ =~= bytes@);
    out
}

/// Appends `bytes` to `buf`.
fn append(buf: &mut Vec<u8>, bytes: &[u8])
    ensures
        final(buf)@ == old(buf)@ + bytes@,
{
    let mut i: usize = 0;
    while i < bytes.len()
        invariant
            i <= bytes.len(),
            buf@ == old(buf)@ + bytes@.subrange(0, i as int),
        decreases bytes.len() - i,
    {
        buf.push(bytes[i]);
        assert(buf@ =~= old(buf)@ + bytes@.subrange(0, i + 1));
        i = i + 1;
    }
    assert(bytes@.subrange(0, bytes@.len() as int) =~= bytes@);
}

/// A state that takes in bytes and gives out a digest of them.
pub trait Hasher {
    type Output;

    /// The digest of what was written.
    fn finish(self) -> Self::Output;

    /// Takes in `bytes`.
    fn write(&mut self, bytes: &[u8]) -> &mut Self;

    /// The digest of `bytes`.
    fn digest(self, bytes: &[u8]) -> Self::Output;
}

/// A value that can be fed to a hasher.
pub trait Hash {
    /// Writes the value into `state`.
    fn hash<H>(&self, state: &mut H) where H: Hasher;
}

/// A Blake2b hash.
#[derive(Clone, Copy, Debug, PartialEq, Eq)]
pub struct Blake2bHash(pub [u8; BLAKE2B_LENGTH]);

/// An Argon2d hash.
#[derive(Clone, Copy, Debug, PartialEq, Eq)]
pub struct Argon2dHash(pub [u8; ARGON2D_LENGTH]);

/// A SHA-256 hash.
#[derive(Clone, Copy, Debug, PartialEq, Eq)]
pub struct Sha256Hash(pub [u8; SHA256_LENGTH]);

impl View for Blake2bHash {
    type V = Seq<u8>;

    open spec fn view(&self) -> Seq<u8> {
        self.0@
    }
}

impl View for Argon2dHash {
    type V = Seq<u8>;

    open spec fn view(&self) -> Seq<u8> {
        self.0@
    }
}

impl View for Sha256Hash {
    type V = Seq<u8>;

    open spec fn view(&self) -> Seq<u8> {
        self.0@
    }
}

impl Blake2bHash {
    /// The bytes of the hash.
    pub fn as_bytes(&self) -> (r: &[u8; BLAKE2B_LENGTH])
        ensures
            r@ == self@,
    {
        &self.0
    }

    /// The hash as lower-case hexadecimal text.
    pub fn to_hex(&self) -> (r: String)
        ensures
            r@ == hex_lower(self@),
    {
        hex_encode(self.0.as_slice())
    }
}

impl Argon2dHash {
    /// The bytes of the hash.
    pub fn as_bytes(&self) -> (r: &[u8; ARGON2D_LENGTH])
        ensures
            r@ == self@,
    {
        &self.0
    }

    /// The hash as lower-case hexadecimal text.
    pub fn to_hex(&self) -> (r: String)
        ensures
            r@ == hex_lower(self@),
    {
        hex_encode(self.0.as_slice())
    }
}

impl Sha256Hash {
    /// The bytes of the hash.
    pub fn as_bytes(&self) -> (r: &[u8; SHA256_LENGTH])
        ensures
            r@ == self@,
    {
        &self.0
    }

    /// The hash as lower-case hexadecimal text.
    pub fn to_hex(&self) -> (r: String)
        ensures
            r@ == hex_lower(self@),
    {
        hex_encode(self.0.as_slice())
    }
}

/// Hashes with BLAKE2b, to thirty-two bytes.
pub struct Blake2bHasher {
    buf: Vec<u8>,
}

impl Blake2bHasher {
    /// What has been written so far.
    pub closed spec fn written(self) -> Seq<u8> {
        self.buf@
    }

    /// A hasher to which nothing has been written.
    pub fn new() -> (r: Self)
        ensures
            r.written() == Seq::<u8>::empty(),
    {
        Blake2bHasher { buf: Vec::new() }
    }
}

impl Default for Blake2bHasher {
    fn default() -> (r: Self)
        ensures
            r.written() == Seq::<u8>::empty(),
    {
        Blake2bHasher::new()
    }
}

impl Hasher for Blake2bHasher {
    type Output = Blake2bHash;

    fn finish(self) -> (r: Blake2bHash)
        ensures
            r@ == blake2b_digest(BLAKE2B_LENGTH as nat, self.written()),
    {
        let result = blake2b(BLAKE2B_LENGTH, self.buf.as_slice());
        Blake2bHash(to_array(&result))
    }

    fn write(&mut self, bytes: &[u8]) -> (r: &mut Blake2bHasher)
        ensures
            r.written() == old(self).written() + bytes@,
            *final(self) == *final(r),
    {
        append(&mut self.buf, bytes);
        self
    }

    fn digest(self, bytes: &[u8]) -> (r: Blake2bHash)
        ensures
            r@ == blake2b_digest(BLAKE2B_LENGTH as nat, self.written() + bytes@),
    {
        let mut state = self;
        state.write(bytes);
        state.finish()
    }
}

/// Hashes with SHA-256.
pub struct Sha256Hasher {
    buf: Vec<u8>,
}

impl Sha256Hasher {
    /// What has been written so far.
    pub closed spec fn written(self) -> Seq<u8> {
        self.buf@
    }

    /// A hasher to which nothing has been written.
    pub fn new() -> (r: Self)
        ensures
            r.written() == Seq::<u8>::empty(),
    {
        Sha256Hasher { buf: Vec::new() }
    }
}

impl Default for Sha256Hasher {
    fn default() -> (r: Self)
        ensures
            r.written() == Seq::<u8>::empty(),
    {
        Sha256Hasher::new()
    }
}

impl Hasher for Sha256Hasher {
    type Output = Sha256Hash;

    fn finish(self) -> (r: Sha256Hash)
        ensures
            r@ == sha256_digest(self.written()),
    {
        let result = sha256(self.buf.as_slice());
        Sha256Hash(to_array(&result))
    }

    fn write(&mut self, bytes: &[u8]) -> (r: &mut Sha256Hasher)
        ensures
            r.written() == old(self).written() + bytes@,
            *final(self) == *final(r),
    {
        append(&mut self.buf, bytes);
        self
    }

    fn digest(self, bytes: &[u8]) -> (r: Sha256Hash)
        ensures
            r@ == sha256_digest(self.written() + bytes@),
    {
        let mut state = self;
        state.write(bytes);
        state.finish()
    }
}

/// All that one run of the Argon2d function takes: its cost parameters, the
/// bytes to hash, the salt, and the length of the hash to give.
#[derive(Debug)]
pub struct Argon2dInput {
    pub passes: u32,
    pub kib: u32,
    pub lanes: u32,
    pub password: Vec<u8>,
    pub salt: Vec<u8>,
    pub hash_length: usize,
}

/// Collects the bytes for an Argon2d hash, and says on what the Argon2d
/// function is to be run for it.
pub struct Argon2dHasher {
    buf: Vec<u8>,
    passes: u32,
    lanes: u32,
    kib: u32,
}

impl Argon2dHasher {
    /// What has been written so far.
    pub closed spec fn written(self) -> Seq<u8> {
        self.buf@
    }

    /// The number of passes.
    pub closed spec fn passes(self) -> u32 {
        self.passes
    }

    /// The number of lanes.
    pub closed spec fn lanes(self) -> u32 {
        self.lanes
    }

    /// The memory cost in KiB.
    pub closed spec fn kib(self) -> u32 {
        self.kib
    }

    /// A hasher with the given costs, to which nothing has been written.
    pub fn new(passes: u32, lanes: u32, kib: u32) -> (r: Self)
        ensures
            r.written() == Seq::<u8>::empty(),
            r.passes() == passes,
            r.lanes() == lanes,
            r.kib() == kib,
    {
        Argon2dHasher { buf: Vec::new(), passes, lanes, kib }
    }

    /// The run of Argon2d that hashes `bytes` under `salt` at this hasher's
    /// costs.
    pub fn hash(&self, bytes: &[u8], salt: &[u8]) -> (r: Argon2dInput)
        ensures
            r.passes == self.passes(),
            r.kib == self.kib(),
            r.lanes == self.lanes(),
            r.password@ == bytes@,
            r.salt@ == salt@,
            r.hash_length == ARGON2D_LENGTH,
    {
        let mut password: Vec<u8> = Vec::new();
        append(&mut password, bytes);
        let mut salt_bytes: Vec<u8> = Vec::new();
        append(&mut salt_bytes, salt);
        Argon2dInput {
            passes: self.passes,
            kib: self.kib,
            lanes: self.lanes,
            password,
            salt: salt_bytes,
            hash_length: ARGON2D_LENGTH,
        }
    }

    /// The run of Argon2d for what was written, under the fixed salt.
    pub fn finish(self) -> (r: Argon2dInput)
        ensures
            r.passes == self.passes(),
            r.kib == self.kib(),
            r.lanes == self.lanes(),
            r.password@ == self.written(),
            r.salt@ == NIMIQ_ARGON2_SALT.spec_bytes(),
            r.hash_length == ARGON2D_LENGTH,
    {
        self.hash(self.buf.as_slice(), NIMIQ_ARGON2_SALT.as_bytes())
    }

    /// Takes in `bytes`.
    pub fn write(&mut self, bytes: &[u8]) -> (r: &mut Argon2dHasher)
        ensures
            r.written() == old(self).written() + bytes@,
            r.passes() == old(self).passes(),
            r.lanes() == old(self).lanes(),
            r.kib() == old(self).kib(),
            *final(self) == *final(r),
    {
        append(&mut self.buf, bytes);
        self
    }

    /// The run of Argon2d for `bytes` alone, under the fixed salt. What was
    /// written before has no part in it.
    pub fn digest(self, bytes: &[u8]) -> (r: Argon2dInput)
        ensures
            r.passes == self.passes(),
            r.kib == self.kib(),
            r.lanes == self.lanes(),
            r.password@ == bytes@,
            r.salt@ == NIMIQ_ARGON2_SALT.spec_bytes(),
            r.hash_length == ARGON2D_LENGTH,
    {
        self.hash(bytes, NIMIQ_ARGON2_SALT.as_bytes())
    }
}

impl Default for Argon2dHasher {
    fn default() -> (r: Self)
        ensures
            r.written() == Seq::<u8>::empty(),
            r.passes() == 1,
            r.lanes() == 1,
            r.kib() == DEFAULT_ARGON2_COST,
    {
        Argon2dHasher::new(1, 1, DEFAULT_ARGON2_COST)
    }
}

} // verus!
