use handel::hash::{
    Argon2dHasher, Blake2bHash, Blake2bHasher, Hasher, Sha256Hash, Sha256Hasher, ARGON2D_LENGTH,
    DEFAULT_ARGON2_COST, NIMIQ_ARGON2_SALT,
};
use handel::network::{MockAddress, MockId, MockPeerId};

#[test]
fn blake2b_of_test() {
    assert_eq!(
        Blake2bHasher::default().digest(b"test").to_hex(),
        "928b20366943e2afd11ebc0eae2e53a93bf177a4fcf35bcc64d503704e65e202"
    );
}

#[test]
fn blake2b_of_nothing() {
    assert_eq!(
        Blake2bHasher::new().finish().to_hex(),
        "0e5751c026e543b2e8ab2eb06099daa1d1e5df47778f7787faab45cdf12fe3a8"
    );
}

#[test]
fn blake2b_of_parts_is_that_of_the_whole() {
    let mut h = Blake2bHasher::new();
    h.write(b"hello").write(b" ").write(b"world");
    let whole = Blake2bHasher::new().digest(b"hello world");
    assert_eq!(h.finish(), whole);
    assert_eq!(whole.to_hex(), "256c83b297114d201b30179f3f0ef0cace9783622da5974326b436178aeef610");
    let mut h = Blake2bHasher::new();
    h.write(b"hello ");
    assert_eq!(h.digest(b"world"), whole);
}

#[test]
fn sha256_of_test() {
    assert_eq!(
        Sha256Hasher::default().digest(b"test").to_hex(),
        "9f86d081884c7d659a2feaa0c55ad015a3bf4f1b2b0b822cd15d6c15b0f00a08"
    );
}

#[test]
fn sha256_of_nothing() {
    assert_eq!(
        Sha256Hasher::new().finish().to_hex(),
        "e3b0c44298fc1c149afbf4c8996fb92427ae41e4649b934ca495991b7852b855"
    );
}

#[test]
fn sha256_of_parts_is_that_of_the_whole() {
    let mut h = Sha256Hasher::new();
    h.write(b"a").write(b"bc");
    let whole = Sha256Hasher::new().digest(b"abc");
    assert_eq!(h.finish(), whole);
    assert_eq!(whole.to_hex(), "ba7816bf8f01cfea414140de5dae2223b00361a396177a9cb410ff61f20015ad");
}

#[test]
fn hashes_and_their_bytes() {
    let mut bytes = [0u8; 32];
    bytes[0] = 0xab;
    bytes[31] = 0x0f;
    let hash = Blake2bHash(bytes);
    assert_eq!(hash.as_bytes(), &bytes);
    assert_eq!(hash.to_hex(), "ab0000000000000000000000000000000000000000000000000000000000000f");
    assert_eq!(Sha256Hash(bytes).to_hex(), hash.to_hex());
    assert_eq!(Sha256Hash(bytes).as_bytes(), &bytes);
}

#[test]
fn argon2d_hasher_says_what_to_run() {
    let mut h = Argon2dHasher::new(3, 2, 64);
    h.write(b"ab").write(b"cd");
    let input = h.finish();
    assert_eq!(input.passes, 3);
    assert_eq!(input.lanes, 2);
    assert_eq!(input.kib, 64);
    assert_eq!(input.password, b"abcd".to_vec());
    assert_eq!(input.salt, b"nimiqrocks!".to_vec());
    assert_eq!(input.hash_length, ARGON2D_LENGTH);
    assert_eq!(NIMIQ_ARGON2_SALT, "nimiqrocks!");
}

#[test]
fn argon2d_digest_takes_the_bytes_given_alone() {
    let mut h = Argon2dHasher::default();
    h.write(b"written before");
    let input = h.digest(b"test");
    assert_eq!(input.passes, 1);
    assert_eq!(input.lanes, 1);
    assert_eq!(input.kib, DEFAULT_ARGON2_COST);
    assert_eq!(input.kib, 512);
    assert_eq!(input.password, b"test".to_vec());
    assert_eq!(input.salt, b"nimiqrocks!".to_vec());
    assert_eq!(input.hash_length, 32);
}

#[test]
fn argon2d_hash_takes_bytes_and_salt() {
    let h = Argon2dHasher::new(1, 1, 8);
    let input = h.hash(b"password", b"somesalt");
    assert_eq!(input.password, b"password".to_vec());
    assert_eq!(input.salt, b"somesalt".to_vec());
    assert_eq!(input.kib, 8);
}

#[test]
fn mock_id_names_its_source() {
    let id = MockId::new(MockPeerId(17));
    assert_eq!(id.propagation_source(), MockPeerId(17));
    assert_eq!(id.clone().propagation_source(), MockPeerId(17));
    assert_eq!(MockAddress(5).peer_id(), MockPeerId(5));
    assert_eq!(MockPeerId(5).address(), MockAddress(5));
}
