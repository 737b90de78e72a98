use rdtool::auth::{derive_key, machine_seed, open_token, open_token_with, seal_token, seal_token_with, EncryptedToken, TokenError};

#[test]
fn seed_of_a_machine() {
    assert_eq!(machine_seed(Some("abc123")), "abc123rdtool-v1");
    assert_eq!(machine_seed(None), "rdtool-fallbackrdtool-v1");
}

#[test]
fn key_is_the_blake3_digest_of_the_seed() {
    assert_eq!(derive_key(Some("abc123")), *blake3::hash(b"abc123rdtool-v1").as_bytes());
    assert_eq!(derive_key(None), *blake3::hash(b"rdtool-fallbackrdtool-v1").as_bytes());
}

#[test]
fn sealed_token_opens_on_the_same_machine() {
    let st = seal_token("SECRET-REDACTED", Some("machine-1")).unwrap();
    assert_ne!(st.ciphertext, "SECRET-REDACTED");
    assert_eq!(open_token(&st, Some("machine-1")).unwrap(), "SECRET-REDACTED");
    assert_eq!(open_token(&st, Some("machine-2")).unwrap_err(), TokenError::Decrypt);
}

#[test]
fn every_seal_uses_a_fresh_nonce() {
    let a = seal_token("tok", None).unwrap();
    let b = seal_token("tok", None).unwrap();
    assert_ne!(a.nonce, b.nonce);
    assert_eq!(open_token(&a, None).unwrap(), "tok");
    assert_eq!(open_token(&b, None).unwrap(), "tok");
}

#[test]
fn sealing_with_a_given_nonce() {
    let key = [7u8; 32];
    let nonce = [1u8; 12];
    let st = seal_token_with("héllo", &key, &nonce).unwrap();
    assert_eq!(st.nonce, "AQEBAQEBAQEBAQEB");
    assert_eq!(open_token_with(&st, &key).unwrap(), "héllo");
}

#[test]
fn broken_stored_tokens() {
    let key = [7u8; 32];
    let bad = EncryptedToken { nonce: "***".into(), ciphertext: "AAAA".into() };
    assert_eq!(open_token_with(&bad, &key).unwrap_err(), TokenError::Encoding);
    let short = EncryptedToken { nonce: "AAAA".into(), ciphertext: "AAAA".into() };
    assert_eq!(open_token_with(&short, &key).unwrap_err(), TokenError::NonceLength);
    let st = seal_token_with("x", &key, &[2u8; 12]).unwrap();
    let tampered = EncryptedToken { nonce: st.nonce.clone(), ciphertext: "AAAAAAAAAAAAAAAAAAAAAAAA".into() };
    assert_eq!(open_token_with(&tampered, &key).unwrap_err(), TokenError::Decrypt);
}
