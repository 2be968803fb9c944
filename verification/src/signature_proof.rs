//! Proofs that a message was signed, as far as their bytes go: what they
//! hold, and what a WebAuthn authenticator signs for a message, which is
//! the authenticator data and the hash of the client data that names the
//! message, the origin and how the client wrote them down.
//!
//! Keys, signatures and Merkle paths are carried as the bytes they
//! serialise to. Checking a signature against a key is the caller's part.

use crate::hash::{blake2b_digest, sha256_digest, Blake2bHasher, Hasher, Sha256Hasher, BLAKE2B_LENGTH};
use vstd::prelude::*;
use vstd::string::*;
use vstd::utf8::encode_utf8;

verus! {

/// The client left the `crossOrigin` field out of its client data.
pub const NO_CROSSORIGIN_FIELD: u8 = 1;

/// The client wrote the slashes of the origin with a backslash before each.
pub const ESCAPED_ORIGIN_SLASHES: u8 = 2;

/// How a client departs from the standard way of writing client data.
#[derive(Clone, Copy, Debug, PartialEq, Eq, Structural)]
pub struct WebauthnClientDataFlags {
    bits: u8,
}

impl WebauthnClientDataFlags {
    /// The flags as bits.
    pub closed spec fn spec_bits(self) -> u8 {
        self.bits
    }

    /// No flag.
    pub fn empty() -> (r: Self)
        ensures
            r.spec_bits() == 0,
    {
        WebauthnClientDataFlags { bits: 0 }
    }

    /// The flags that `bits` stand for; `None` if a bit is set that stands
    /// for no flag.
    pub fn from_bits(bits: u8) -> (r: Option<Self>)
        ensures
            r is Some <==> bits & !(NO_CROSSORIGIN_FIELD | ESCAPED_ORIGIN_SLASHES) == 0,
            r matches Some(f) ==> f.spec_bits() == bits,
    {
        if bits & !(NO_CROSSORIGIN_FIELD | ESCAPED_ORIGIN_SLASHES) == 0 {
            Some(WebauthnClientDataFlags { bits })
        } else {
            None
        }
    }

    /// The flags as bits.
    pub fn bits(&self) -> (r: u8)
        ensures
            r == self.spec_bits(),
    {
        self.bits
    }

    /// Whether every flag of `flag` is set.
    pub fn contains(&self, flag: u8) -> (r: bool)
        ensures
            r == (self.spec_bits() & flag == flag),
    {
        self.bits & flag == flag
    }
}

/// The host of the URL that `origin` spells, if it spells one that has a
/// host.
pub uninterp spec fn origin_host(origin: Seq<char>) -> Option<Seq<char>>;

/// The base64 text of `data` in the URL-safe alphabet without padding.
pub uninterp spec fn base64url_text(data: Seq<u8>) -> Seq<char>;

/// The JSON string literal for `s`, quotes included.
pub uninterp spec fn json_string_text(s: Seq<char>) -> Seq<char>;

/// `text` with every match of `from`, taken from the left and none
/// overlapping another, replaced by `to`. `from` is not empty.
pub open spec fn replaced(text: Seq<char>, from: Seq<char>, to: Seq<char>) -> Seq<char>
    decreases text.len(),
{
    if from.len() == 0 || text.len() < from.len() {
        text
    } else if text.take(from.len() as int) == from {
        to + replaced(text.skip(from.len() as int), from, to)
    } else {
        seq![text[0]] + replaced(text.skip(1), from, to)
    }
}

/// The host of the URL that `origin` spells, by `url::Url::parse` and
/// `Url::host_str`: `None` where `origin` does not parse as an absolute
/// URL, or the URL has no host.
#[verifier::external_body]
fn host_of(origin: &str) -> (r: Option<String>)
    ensures
        r is Some <==> origin_host(origin@) is Some,
        r matches Some(h) ==> h@ == origin_host(origin@)->0,
{
    match url::Url::parse(origin) {
        Ok(url) => url.host_str().map(|h| h.to_owned()),
        Err(_) => None,
    }
}

/// The base64 text of `data`, by `Engine::encode` of
/// `base64::prelude::BASE64_URL_SAFE_NO_PAD`, which refuses an input whose
/// encoded length no machine word holds.
#[verifier::external_body]
fn base64url(data: &[u8]) -> (r: String)
    requires
        data@.len() <= 0x1000_0000,
    ensures
        r@ == base64url_text(data@),
{
    base64::Engine::encode(&base64::prelude::BASE64_URL_SAFE_NO_PAD, data)
}

/// The JSON string literal for `s`, as `serde_json` prints a string value.
#[verifier::external_body]
fn json_string(s: &str) -> (r: String)
    ensures
        r@ == json_string_text(s@),
{
    serde_json::Value::String(s.to_owned()).to_string()
}

/// `text` with every match of `from` replaced by `to`, by `str::replace`.
#[verifier::external_body]
fn replace(text: &str, from: &str, to: &str) -> (r: String)
    requires
        from@.len() > 0,
    ensures
        r@ == replaced(text@, from@, to@),
{
    text.replace(from, to)
}

/// Whether `host` is, or begins with, `localhost`.
pub open spec fn is_local(host: Seq<char>) -> bool {
    let bytes = encode_utf8(host);
    let local = encode_utf8("localhost"@);
    bytes.len() >= local.len() && bytes.take(local.len() as int) == local
}

/// The origin of `host`: plain HTTP for a local host and HTTPS for any
/// other, with the slashes escaped if the client escaped them.
pub open spec fn origin_text(host: Seq<char>, escaped: bool) -> Seq<char> {
    (if is_local(host) {
        "http"@
    } else {
        "https"@
    }) + (if escaped {
        ":\\/\\/"@
    } else {
        "://"@
    }) + host
}

/// The client data for a challenge and an origin, as the client wrote it
/// down: the fields in their standard order; a backslash for each doubled
/// one; the `crossOrigin` field left out if the client left it out; and the
/// client's extra fields, if any, before the closing brace.
pub open spec fn client_data_text(
    challenge: Seq<char>,
    origin: Seq<char>,
    no_crossorigin: bool,
    extra: Seq<char>,
) -> Seq<char> {
    let fields = "{\"type\":\"webauthn.get\",\"challenge\":"@ + json_string_text(challenge)
        + ",\"origin\":"@ + json_string_text(origin) + ",\"crossOrigin\":false"@;
    let unescaped = replaced(fields, "\\\\"@, "\\"@);
    let trimmed = if no_crossorigin {
        replaced(unescaped, ",\"crossOrigin\":false"@, ""@)
    } else {
        unescaped
    };
    trimmed + (if extra.len() > 0 {
        ","@ + extra
    } else {
        Seq::empty()
    }) + "}"@
}

/// What the authenticator signs for `message`: the hash of the host name,
/// the rest of the authenticator data, and the hash of the client data.
/// Nothing, if the origin is no URL with a host.
pub open spec fn signed_data_spec(
    message: Seq<u8>,
    host: Seq<char>,
    suffix: Seq<u8>,
    flags: u8,
    extra: Seq<char>,
) -> Option<Seq<u8>> {
    let origin = origin_text(host, flags & ESCAPED_ORIGIN_SLASHES == ESCAPED_ORIGIN_SLASHES);
    match origin_host(origin) {
        None => None,
        Some(hostname) => Some(
            sha256_digest(encode_utf8(hostname)) + suffix + sha256_digest(
                encode_utf8(
                    client_data_text(
                        base64url_text(blake2b_digest(BLAKE2B_LENGTH as nat, message)),
                        origin,
                        flags & NO_CROSSORIGIN_FIELD == NO_CROSSORIGIN_FIELD,
                        extra,
                    ),
                ),
            ),
        ),
    }
}

/// Whether `host` is, or begins with, `localhost`.
fn starts_local(host: &str) -> (r: bool)
    ensures
        r == is_local(host@),
{
    let bytes = host.as_bytes();
    let local = "localhost".as_bytes();
    if bytes.len() < local.len() {
        return false;
    }
    let mut i: usize = 0;
    while i < local.len()
        invariant
            i <= local.len() <= bytes.len(),
            bytes@ == encode_utf8(host@),
            local@ == encode_utf8("localhost"@),
            forall|p: int| 0 <= p < i ==> bytes@[p] == local@[p],
        decreases local.len() - i,
    {
        if bytes[i] != local[i] {
            assert(bytes@.take(local@.len() as int)[i as int] != local@[i as int]);
            return false;
        }
        i = i + 1;
    }
    assert(bytes@.take(local@.len() as int) =~= local@);
    true
}

/// The origin of `host`.
fn origin_of(host: &str, escaped: bool) -> (r: String)
    ensures
        r@ == origin_text(host@, escaped),
{
    let mut origin = String::from_str(
        if starts_local(host) {
            "http"
        } else {
            "https"
        },
    );
    origin.append(
        if escaped {
            ":\\/\\/"
        } else {
            "://"
        },
    );
    origin.append(host);
    origin
}

/// The client data for a challenge and an origin.
fn client_data_of(challenge: &str, origin: &str, no_crossorigin: bool, extra: &str) -> (r: String)
    ensures
        r@ == client_data_text(challenge@, origin@, no_crossorigin, extra@),
{
    let mut fields = String::from_str("{\"type\":\"webauthn.get\",\"challenge\":");
    fields.append(json_string(challenge).as_str());
    fields.append(",\"origin\":");
    fields.append(json_string(origin).as_str());
    fields.append(",\"crossOrigin\":false");
    proof {
        reveal_strlit("\\\\");
        reveal_strlit(",\"crossOrigin\":false");
    }
    let unescaped = replace(fields.as_str(), "\\\\", "\\");
    let mut text = if no_crossorigin {
        replace(unescaped.as_str(), ",\"crossOrigin\":false", "")
    } else {
        unescaped
    };
    if extra.unicode_len() > 0 {
        text.append(",");
        text.append(extra);
    } else {
        assert(text@ + Seq::<char>::empty() =~= text@);
    }
    text.append("}");
    text
}

/// What a WebAuthn authenticator signs for `message`, for a credential of
/// `host` whose authenticator data goes on with `suffix`, by a client that
/// writes its client data as `flags` say and adds `extra` fields.
///
/// `None` if the origin of `host` is no URL with a host.
pub fn webauthn_signed_data(
    message: &[u8],
    host: &str,
    suffix: &[u8],
    flags: WebauthnClientDataFlags,
    extra: &str,
) -> (r: Option<Vec<u8>>)
    ensures
        r is Some <==> signed_data_spec(message@, host@, suffix@, flags.spec_bits(), extra@)
            is Some,
        r matches Some(data) ==> data@ == signed_data_spec(
            message@,
            host@,
            suffix@,
            flags.spec_bits(),
            extra@,
        )->0,
{
    // The challenge is the hash of the message.
    let challenge = Blake2bHasher::default().digest(message);
    assert(Seq::<u8>::empty() + message@ =~= message@);
    let origin = origin_of(host, flags.contains(ESCAPED_ORIGIN_SLASHES));
    let hostname = match host_of(origin.as_str()) {
        Some(hostname) => hostname,
        None => {
            return None;
        },
    };
    // The relying party is known by the hash of its host name.
    let rp_id = Sha256Hasher::default().digest(hostname.as_str().as_bytes());
    assert(Seq::<u8>::empty() + encode_utf8(hostname@) =~= encode_utf8(hostname@));
    let client_data = client_data_of(
        base64url(challenge.0.as_slice()).as_str(),
        origin.as_str(),
        flags.contains(NO_CROSSORIGIN_FIELD),
        extra,
    );
    let client_data_hash = Sha256Hasher::default().digest(client_data.as_str().as_bytes());
    assert(Seq::<u8>::empty() + encode_utf8(client_data@) =~= encode_utf8(client_data@));
    let mut signed: Vec<u8> = Vec::new();
    let mut i: usize = 0;
    while i < 32
        invariant
            i <= 32,
            signed@ == rp_id@.take(i as int),
        decreases 32 - i,
    {
        signed.push(rp_id.0[i]);
        assert(signed@ =~= rp_id@.take(i + 1));
        i = i + 1;
    }
    assert(rp_id@.take(32) =~= rp_id@);
    let mut j: usize = 0;
    while j < suffix.len()
        invariant
            j <= suffix.len(),
            signed@ == rp_id@ + suffix@.take(j as int),
        decreases suffix.len() - j,
    {
        signed.push(suffix[j]);
        assert(signed@ =~= rp_id@ + suffix@.take(j + 1));
        j = j + 1;
    }
    assert(suffix@.take(suffix@.len() as int) =~= suffix@);
    let mut k: usize = 0;
    while k < 32
        invariant
            k <= 32,
            signed@ == rp_id@ + suffix@ + client_data_hash@.take(k as int),
        decreases 32 - k,
    {
        signed.push(client_data_hash.0[k]);
        assert(signed@ =~= rp_id@ + suffix@ + client_data_hash@.take(k + 1));
        k = k + 1;
    }
    assert(client_data_hash@.take(32) =~= client_data_hash@);
    Some(signed)
}

/// Length in bytes of an EdDSA public key.
pub const EDDSA_PUBLIC_KEY_SIZE: usize = 32;

/// Length in bytes of a signature.
pub const SIGNATURE_BYTES: usize = 64;

/// `n` zero bytes.
fn zeros(n: usize) -> (r: Vec<u8>)
    ensures
        r@ == Seq::new(n as nat, |i: int| 0u8),
{
    let mut out: Vec<u8> = Vec::new();
    let mut i: usize = 0;
    while i < n
        invariant
            i <= n,
            out@ == Seq::new(i as nat, |k: int| 0u8),
        decreases n - i,
    {
        out.push(0);
        assert(out@ =~= Seq::new((i + 1) as nat, |k: int| 0u8));
        i = i + 1;
    }
    out
}

/// A proof by an EdDSA signature.
#[derive(Debug)]
pub struct EdDSASignatureProof {
    pub public_key: Vec<u8>,
    pub merkle_path: Vec<u8>,
    pub signature: Vec<u8>,
}

impl EdDSASignatureProof {
    /// The proof by `signature` under `public_key`, with an empty Merkle
    /// path.
    pub fn from(public_key: Vec<u8>, signature: Vec<u8>) -> (r: Self)
        ensures
            r.public_key == public_key,
            r.merkle_path@ == Seq::<u8>::empty(),
            r.signature == signature,
    {
        EdDSASignatureProof { public_key, merkle_path: Vec::new(), signature }
    }
}

impl Default for EdDSASignatureProof {
    /// The proof of all-zero key and signature, with an empty Merkle path.
    fn default() -> (r: Self)
        ensures
            r.public_key@ == Seq::new(EDDSA_PUBLIC_KEY_SIZE as nat, |i: int| 0u8),
            r.merkle_path@ == Seq::<u8>::empty(),
            r.signature@ == Seq::new(SIGNATURE_BYTES as nat, |i: int| 0u8),
    {
        EdDSASignatureProof {
            public_key: zeros(EDDSA_PUBLIC_KEY_SIZE),
            merkle_path: Vec::new(),
            signature: zeros(SIGNATURE_BYTES),
        }
    }
}

/// A proof by a WebAuthn signature.
#[derive(Debug)]
pub struct WebauthnSignatureProof {
    pub public_key: Vec<u8>,
    pub merkle_path: Vec<u8>,
    pub signature: Vec<u8>,
    pub host: String,
    pub authenticator_data_suffix: Vec<u8>,
    pub client_data_flags: WebauthnClientDataFlags,
    pub client_data_extra_fields: String,
}

impl WebauthnSignatureProof {
    /// The proof by `signature` under `public_key` for a credential of
    /// `host`, with an empty Merkle path.
    pub fn from(
        public_key: Vec<u8>,
        signature: Vec<u8>,
        host: String,
        authenticator_data_suffix: Vec<u8>,
        client_data_flags: WebauthnClientDataFlags,
        client_data_extra_fields: String,
    ) -> (r: Self)
        ensures
            r.public_key == public_key,
            r.merkle_path@ == Seq::<u8>::empty(),
            r.signature == signature,
            r.host == host,
            r.authenticator_data_suffix == authenticator_data_suffix,
            r.client_data_flags == client_data_flags,
            r.client_data_extra_fields == client_data_extra_fields,
    {
        WebauthnSignatureProof {
            public_key,
            merkle_path: Vec::new(),
            signature,
            host,
            authenticator_data_suffix,
            client_data_flags,
            client_data_extra_fields,
        }
    }

    /// What the signature has to be a signature of, for the proof to prove
    /// that `message` was signed. `None` if the host makes no origin.
    pub fn signed_data(&self, message: &[u8]) -> (r: Option<Vec<u8>>)
        ensures
            r is Some <==> signed_data_spec(
                message@,
                self.host@,
                self.authenticator_data_suffix@,
                self.client_data_flags.spec_bits(),
                self.client_data_extra_fields@,
            ) is Some,
            r matches Some(data) ==> data@ == signed_data_spec(
                message@,
                self.host@,
                self.authenticator_data_suffix@,
                self.client_data_flags.spec_bits(),
                self.client_data_extra_fields@,
            )->0,
    {
        webauthn_signed_data(
            message,
            self.host.as_str(),
            self.authenticator_data_suffix.as_slice(),
            self.client_data_flags,
            self.client_data_extra_fields.as_str(),
        )
    }
}

/// A proof that a message was signed.
#[derive(Debug)]
pub enum SignatureProof {
    EdDSA(EdDSASignatureProof),
    ECDSA(WebauthnSignatureProof),
}

impl SignatureProof {
    /// The Merkle path of the proof.
    pub fn merkle_path(&self) -> (r: &Vec<u8>)
        ensures
            r == (match *self {
                SignatureProof::EdDSA(proof) => proof.merkle_path,
                SignatureProof::ECDSA(proof) => proof.merkle_path,
            }),
    {
        match self {
            SignatureProof::EdDSA(proof) => &proof.merkle_path,
            SignatureProof::ECDSA(proof) => &proof.merkle_path,
        }
    }
}

impl Default for SignatureProof {
    /// The EdDSA proof of all-zero key and signature.
    fn default() -> (r: Self)
        ensures
            r is EdDSA,
    {
        SignatureProof::EdDSA(EdDSASignatureProof::default())
    }
}

} // verus!
