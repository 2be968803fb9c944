use handel::signature_proof::{
    webauthn_signed_data, WebauthnClientDataFlags, ESCAPED_ORIGIN_SLASHES, NO_CROSSORIGIN_FIELD,
};

fn flags(bits: u8) -> WebauthnClientDataFlags {
    WebauthnClientDataFlags::from_bits(bits).unwrap()
}

#[test]
fn flags_are_two_bits() {
    assert_eq!(NO_CROSSORIGIN_FIELD, 1);
    assert_eq!(ESCAPED_ORIGIN_SLASHES, 2);
    assert_eq!(WebauthnClientDataFlags::empty().bits(), 0);
    assert!(WebauthnClientDataFlags::from_bits(3).is_some());
    assert!(WebauthnClientDataFlags::from_bits(4).is_none());
    assert!(WebauthnClientDataFlags::from_bits(0x81).is_none());
    assert!(flags(3).contains(NO_CROSSORIGIN_FIELD));
    assert!(flags(3).contains(ESCAPED_ORIGIN_SLASHES));
    assert!(flags(2).contains(ESCAPED_ORIGIN_SLASHES));
    assert!(!flags(2).contains(NO_CROSSORIGIN_FIELD));
    assert!(!flags(0).contains(NO_CROSSORIGIN_FIELD));
    assert_eq!(flags(2).bits(), 2);
}

#[test]
fn a_local_host_has_a_plain_origin() {
    let data = webauthn_signed_data(b"hello", "localhost:3000", &[1, 0, 0, 0, 5], flags(0), "").unwrap();
    assert_eq!(
        data,
        vec![
            73, 150, 13, 229, 136, 14, 140, 104, 116, 52, 23, 15, 100, 118, 96, 91, 143, 228, 174, 185,
            162, 134, 50, 199, 153, 92, 243, 186, 131, 29, 151, 99, 1, 0, 0, 0, 5, 73, 5, 66, 77, 122,
            107, 172, 15, 7, 224, 238, 104, 35, 66, 240, 225, 174, 100, 99, 86, 218, 190, 190, 159, 7,
            243, 181, 247, 166, 115, 153, 131
        ]
    );
}

#[test]
fn the_crossorigin_field_is_left_out_on_demand() {
    let data = webauthn_signed_data(b"hello", "example.com", &[5], flags(NO_CROSSORIGIN_FIELD), "").unwrap();
    assert_eq!(
        data,
        vec![
            163, 121, 166, 246, 238, 175, 185, 165, 94, 55, 140, 17, 128, 52, 226, 117, 30, 104, 47,
            171, 159, 45, 48, 171, 19, 210, 18, 85, 134, 206, 25, 71, 5, 156, 24, 235, 100, 49, 233,
            187, 43, 253, 32, 241, 238, 231, 166, 82, 13, 205, 163, 105, 115, 74, 38, 89, 221, 210, 36,
            235, 91, 212, 215, 192, 234
        ]
    );
}

#[test]
fn extra_fields_go_before_the_closing_brace() {
    let data = webauthn_signed_data(
        b"",
        "example.com",
        &[],
        flags(0),
        "\"other_keys_can_be_added_here\":\"do not compare\"",
    )
    .unwrap();
    assert_eq!(
        data,
        vec![
            163, 121, 166, 246, 238, 175, 185, 165, 94, 55, 140, 17, 128, 52, 226, 117, 30, 104, 47,
            171, 159, 45, 48, 171, 19, 210, 18, 85, 134, 206, 25, 71, 127, 82, 87, 118, 219, 14, 109,
            223, 154, 159, 184, 244, 162, 252, 158, 203, 193, 233, 36, 214, 94, 172, 194, 179, 73, 54,
            91, 221, 75, 219, 109, 1
        ]
    );
}

#[test]
fn escaped_slashes_stay_escaped_once() {
    let data =
        webauthn_signed_data(b"hello", "example.com", &[1, 2], flags(ESCAPED_ORIGIN_SLASHES), "").unwrap();
    assert_eq!(
        data,
        vec![
            163, 121, 166, 246, 238, 175, 185, 165, 94, 55, 140, 17, 128, 52, 226, 117, 30, 104, 47,
            171, 159, 45, 48, 171, 19, 210, 18, 85, 134, 206, 25, 71, 1, 2, 87, 58, 174, 116, 49, 3, 89,
            122, 32, 155, 135, 34, 188, 103, 37, 41, 85, 245, 214, 216, 43, 132, 63, 6, 137, 237, 37,
            96, 103, 157, 181, 168
        ]
    );
}

#[test]
fn both_flags_and_extra_fields() {
    let data = webauthn_signed_data(b"hello", "example.com", &[1, 2], flags(3), "\"x\":1").unwrap();
    assert_eq!(
        data,
        vec![
            163, 121, 166, 246, 238, 175, 185, 165, 94, 55, 140, 17, 128, 52, 226, 117, 30, 104, 47,
            171, 159, 45, 48, 171, 19, 210, 18, 85, 134, 206, 25, 71, 1, 2, 185, 175, 186, 222, 183,
            129, 138, 23, 1, 212, 1, 207, 189, 81, 130, 221, 159, 99, 112, 173, 249, 56, 89, 168, 118,
            95, 163, 153, 200, 18, 226, 99
        ]
    );
}

#[test]
fn a_host_that_makes_no_url_gives_nothing() {
    assert!(webauthn_signed_data(b"hello", "", &[], flags(0), "").is_none());
    assert!(webauthn_signed_data(b"hello", "exa mple.com", &[], flags(0), "").is_none());
}
