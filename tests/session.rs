use mcproto::auth::{digest_to_mc_hex, session_hash};

#[test]
fn zero_digest_is_zero() {
    assert_eq!(digest_to_mc_hex(&[0u8; 20]), "0");
}

#[test]
fn minimum_negative_digest() {
    let mut d = [0u8; 20];
    d[0] = 0x80;
    let expected = format!("-80{}", "0".repeat(38));
    assert_eq!(digest_to_mc_hex(&d), expected);
}

#[test]
fn all_ones_digest_is_minus_one() {
    assert_eq!(digest_to_mc_hex(&[0xff; 20]), "-1");
}

#[test]
fn leading_zeros_are_dropped() {
    let mut d = [0u8; 20];
    d[19] = 0x0a;
    assert_eq!(digest_to_mc_hex(&d), "a");
    d[18] = 0x01;
    assert_eq!(digest_to_mc_hex(&d), "10a");
}

#[test]
fn known_session_hashes() {
    assert_eq!(session_hash("Notch", &[], &[]), "4ed1f46bbe04bc756bcb17c0c7ce3e4632f06a48");
    assert_eq!(session_hash("jeb_", &[], &[]), "-7c9d5b0044c130109a5d7b5fb5c317c02b4e28c1");
    assert_eq!(session_hash("simon", &[], &[]), "88e16a1019277b15d58faf0541e11910eb756f6");
}

#[test]
fn session_hash_concatenates_its_inputs() {
    let split = session_hash("No", b"tc", b"h");
    assert_eq!(split, session_hash("Notch", &[], &[]));
    assert_ne!(session_hash("", &[1, 2, 3], &[4]), session_hash("", &[], &[]));
}
