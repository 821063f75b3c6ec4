use session_auth::digits::parse_u64;
use session_auth::digits::u64_to_dec;
use session_auth::hash;
use sha2::Digest;
use sha2::Sha256;

#[test]
fn hash_is_deterministic() {
    assert_eq!(hash("password"), hash("password"));
    assert_eq!(hash(""), hash(""));
}

#[test]
fn hash_is_case_sensitive() {
    assert_ne!(hash("password"), hash("Password"));
}

#[test]
fn hash_matches_sha256_hex() {
    let expected = format!("{:x}", Sha256::digest("password".as_bytes()));
    assert_eq!(hash("password"), expected);
    assert_eq!(
        hash("password"),
        "5e884898da28047151d0e56f8dc6292773603d0d6aabbdd62a11ef721d1542d8"
    );
}

#[test]
fn hash_is_not_identity() {
    assert_ne!(hash("password"), "password");
    assert_eq!(hash("password").len(), 64);
    assert_eq!(hash("").len(), 64);
}

#[test]
fn hash_emits_lowercase_hex_only() {
    for input in ["", "password", "Bearer token", "   "] {
        assert!(hash(input).chars().all(|c| "0123456789abcdef".contains(c)));
    }
}

#[test]
fn decimal_rendering() {
    assert_eq!(u64_to_dec(0), "0");
    assert_eq!(u64_to_dec(7), "7");
    assert_eq!(u64_to_dec(1234567890), "1234567890");
    assert_eq!(u64_to_dec(u64::MAX), "18446744073709551615");
}

#[test]
fn decimal_parsing() {
    assert_eq!(parse_u64("0"), Some(0));
    assert_eq!(parse_u64("007"), Some(7));
    assert_eq!(parse_u64("1234567890"), Some(1234567890));
    assert_eq!(parse_u64("18446744073709551615"), Some(u64::MAX));
    assert_eq!(parse_u64("18446744073709551616"), None);
    assert_eq!(parse_u64(""), None);
    assert_eq!(parse_u64("12a"), None);
    assert_eq!(parse_u64("-1"), None);
}

#[test]
fn decimal_round_trip() {
    for n in [0u64, 1, 9, 10, 99, 100, 4096, u64::MAX - 1, u64::MAX] {
        assert_eq!(parse_u64(&u64_to_dec(n)), Some(n));
    }
}
