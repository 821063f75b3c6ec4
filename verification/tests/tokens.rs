use session_auth::Error;
use session_auth::Tokenizer;

#[test]
fn fresh_token_verifies() {
    let tokenizer = Tokenizer::new(3600, Some("server-key"));
    let token = tokenizer.generate_at(1000);
    assert!(tokenizer.verify_at(&token, 1000).is_ok());
    assert!(tokenizer.verify_at(&token, 4600).is_ok());
}

#[test]
fn token_expires_after_lifetime() {
    let tokenizer = Tokenizer::new(3600, Some("server-key"));
    let token = tokenizer.generate_at(1000);
    assert!(matches!(tokenizer.verify_at(&token, 4601), Err(Error::InvalidToken)));
}

#[test]
fn zero_lifetime_expires_immediately() {
    let tokenizer = Tokenizer::new(0, Some("server-key"));
    let token = tokenizer.generate_at(1000);
    assert!(tokenizer.verify_at(&token, 1000).is_ok());
    assert!(tokenizer.verify_at(&token, 1001).is_err());
}

#[test]
fn wrong_key_fails() {
    let issuer = Tokenizer::new(3600, Some("server-key"));
    let other = Tokenizer::new(3600, Some("another-key"));
    let token = issuer.generate_at(1000);
    assert!(issuer.verify_at(&token, 1000).is_ok());
    assert!(matches!(other.verify_at(&token, 1000), Err(Error::InvalidToken)));
}

#[test]
fn corrupted_tokens_fail() {
    let tokenizer = Tokenizer::new(3600, Some("server-key"));
    let token = tokenizer.generate_at(1000);

    let truncated = &token[..token.len() - 1];
    assert!(tokenizer.verify_at(truncated, 1000).is_err());

    let reencoded = token.to_uppercase();
    assert!(tokenizer.verify_at(&reencoded, 1000).is_err());

    assert!(tokenizer.verify_at("", 1000).is_err());
    assert!(tokenizer.verify_at("garbage", 1000).is_err());
    assert!(tokenizer.verify_at("4600", 1000).is_err());
    assert!(tokenizer.verify_at(".", 1000).is_err());
    assert!(tokenizer.verify_at("99999999999999999999999999.deadbeef", 1000).is_err());
}

#[test]
fn tampered_expiry_fails() {
    let tokenizer = Tokenizer::new(3600, Some("server-key"));
    let token = tokenizer.generate_at(1000);
    let signature = token.split_once('.').unwrap().1;
    let forged = format!("9999999999.{}", signature);
    assert!(tokenizer.verify_at(&forged, 1000).is_err());
}

#[test]
fn wall_clock_generate_and_verify() {
    let tokenizer = Tokenizer::new(3600, Some("server-key"));
    let token = tokenizer.generate().unwrap();
    assert!(tokenizer.verify(&token).is_ok());
}

#[test]
fn oversized_lifetime_fails_generation() {
    let tokenizer = Tokenizer::new(u64::MAX, Some("server-key"));
    assert!(matches!(tokenizer.generate(), Err(Error::TokenGeneration)));
}

#[test]
fn zero_lifetime_always_generates() {
    let tokenizer = Tokenizer::new(0, Some("server-key"));
    assert!(tokenizer.generate().is_ok());
}

#[test]
fn issued_tokens_hold_no_spaces() {
    let tokenizer = Tokenizer::new(3600, Some("server-key"));
    let token = tokenizer.generate_at(1000);
    assert!(!token.contains(' '));
}

#[test]
fn ephemeral_key_round_trips() {
    let tokenizer = Tokenizer::new(3600, None);
    let token = tokenizer.generate_at(1000);
    assert!(tokenizer.verify_at(&token, 1000).is_ok());
}

#[test]
fn distinct_instants_distinct_tokens() {
    let tokenizer = Tokenizer::new(3600, Some("server-key"));
    assert_ne!(tokenizer.generate_at(1000), tokenizer.generate_at(2000));
}
