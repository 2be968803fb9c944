//! A BLS key pair as bytes, for handing across a language boundary.

use crate::hash::{hex_lower, to_hex};
use vstd::prelude::*;

verus! {

/// A BLS key pair, kept as the bytes that its keys serialise to. It is
/// what validators vote with.
#[derive(Debug)]
pub struct BLSKeyPair {
    inner: Vec<u8>,
}

impl BLSKeyPair {
    /// The bytes that the keys serialise to.
    pub closed spec fn native(self) -> Seq<u8> {
        self.inner@
    }

    /// The key pair that serialises to `key_pair`.
    pub fn from_native(key_pair: Vec<u8>) -> (r: BLSKeyPair)
        ensures
            r.native() == key_pair@,
    {
        BLSKeyPair { inner: key_pair }
    }

    /// The bytes that the keys serialise to.
    pub fn native_ref(&self) -> (r: &Vec<u8>)
        ensures
            r@ == self.native(),
    {
        &self.inner
    }

    /// Serializes to a byte array: the bytes of the keys, and a zero byte
    /// after them.
    pub fn serialize(&self) -> (r: Vec<u8>)
        ensures
            r@ == self.native().push(0),
    {
        let mut vec = self.inner.clone();
        assert(vec@ =~= self.inner@);
        vec.push(0);
        vec
    }

    /// Formats the key pair into a hex string.
    pub fn to_hex(&self) -> (r: String)
        ensures
            r@ == hex_lower(self.native().push(0)),
    {
        to_hex(self.serialize().as_slice())
    }
}

} // verus!
