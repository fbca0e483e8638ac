//! Token codec behaviour: round trips, tamper rejection, expiry, and the
//! distinct error conditions of the key pipeline.

use svue::api::ApiError;
use svue::crypto::{
    authenticate, check_validity, create_token, token_update, try_decrypt_token, AuthToken,
    CipherError, CryptoError,
};

fn test_key() -> Option<String> {
    // 16 bytes, base64.
    Some("MDEyMzQ1Njc4OWFiY2RlZg==".to_string())
}

fn sample_token() -> AuthToken {
    AuthToken {
        username: "student".to_string(),
        password: "hunter:2".to_string(),
        cookie: Some("ASP.NET_SessionId=abc; ".to_string()),
        expiry: 99999999999999u128,
        district_url: "md-mcps-psv.edupoint.com".to_string(),
    }
}

fn encode_std(bytes: &[u8]) -> String {
    let chars = svue::base64::b64_encode(&bytes.to_vec());
    chars.into_iter().collect()
}

#[test]
fn text_round_trip() {
    let key = test_key();
    let token = create_token("hello world".to_string(), &key).unwrap();
    // nonce, ciphertext, tag
    assert_eq!(token.len(), 12 + "hello world".len() + 16);
    let back = try_decrypt_token(&token, &key).unwrap();
    assert_eq!(back, "hello world");
}

#[test]
fn each_token_draws_a_fresh_nonce() {
    let key = test_key();
    let a = create_token("same text".to_string(), &key).unwrap();
    let b = create_token("same text".to_string(), &key).unwrap();
    assert_ne!(a[..12], b[..12]);
}

#[test]
fn record_round_trip_through_bearer() {
    let key = test_key();
    let old = sample_token();
    let mut new = sample_token();
    new.cookie = Some("EES=xyz; ".to_string());
    let issued = token_update(&old, &new, &key).unwrap().unwrap();
    let header = format!("Bearer {issued}");
    let got = authenticate(Some(&header), 5, &key).unwrap();
    assert_eq!(got, new);
}

#[test]
fn unchanged_record_issues_no_token() {
    let key = test_key();
    let t = sample_token();
    assert_eq!(token_update(&t, &t.clone(), &key).unwrap(), None);
}

#[test]
fn tampering_any_byte_fails_authentication() {
    let key = test_key();
    let token = create_token("payload".to_string(), &key).unwrap();
    for i in 0..token.len() {
        let mut bad = token.clone();
        bad[i] ^= 0x01;
        match try_decrypt_token(&bad, &key) {
            Err(CryptoError::CryptError) => {}
            Err(e) => panic!("byte {i}: unexpected error {e:?}"),
            Ok(_) => panic!("byte {i}: tampered token decrypted"),
        }
    }
}

#[test]
fn short_input_is_a_length_error() {
    let key = test_key();
    let r = try_decrypt_token(&vec![0u8; 12], &key);
    assert_eq!(r.unwrap_err(), CryptoError::InvalidCipher(CipherError::Length));
}

#[test]
fn missing_key_is_the_no_key_condition() {
    let r = create_token("x".to_string(), &None);
    assert_eq!(r.unwrap_err(), CryptoError::Nokey);
    let r = try_decrypt_token(&vec![0u8; 40], &None);
    assert_eq!(r.unwrap_err(), CryptoError::Nokey);
}

#[test]
fn undecodable_key_is_the_no_key_condition() {
    let r = create_token("x".to_string(), &Some("!!!not base64!!!".to_string()));
    assert_eq!(r.unwrap_err(), CryptoError::Nokey);
}

#[test]
fn wrong_length_key_is_invalid() {
    // 8 bytes only.
    let r = create_token("x".to_string(), &Some("MDEyMzQ1Njc=".to_string()));
    assert_eq!(r.unwrap_err(), CryptoError::InvalidKey);
}

#[test]
fn expired_record_is_rejected() {
    let mut t = sample_token();
    t.expiry = 100;
    assert_eq!(check_validity(t.clone(), 101).unwrap_err(), ApiError::ExpiredKey);
    assert_eq!(check_validity(t.clone(), 100).unwrap(), t);
}

#[test]
fn expired_token_is_rejected_even_when_authentic() {
    let key = test_key();
    let old = sample_token();
    let mut new = sample_token();
    new.expiry = 1000;
    let issued = token_update(&old, &new, &key).unwrap().unwrap();
    let header = format!("Bearer {issued}");
    let r = authenticate(Some(&header), 2000, &key);
    assert_eq!(r.unwrap_err(), ApiError::ExpiredKey);
}

#[test]
fn basic_credentials_synthesize_a_fresh_record() {
    let key = test_key();
    let contents = encode_std(b"user:pa:ss");
    let header = format!("Basic {contents}");
    let t = authenticate(Some(&header), 1000, &key).unwrap();
    assert_eq!(t.username, "user");
    assert_eq!(t.password, "pa:ss");
    assert_eq!(t.cookie, None);
    assert_eq!(t.expiry, 1000 + 86400000);
    assert_eq!(t.district_url, "md-mcps-psv.edupoint.com");
}

#[test]
fn absent_credential_is_reported_apart() {
    let key = test_key();
    assert_eq!(authenticate(None, 0, &key).unwrap_err(), ApiError::EmptyCredentials);
}

#[test]
fn malformed_credentials_are_invalid() {
    let key = test_key();
    assert_eq!(authenticate(Some("Nonsense"), 0, &key).unwrap_err(), ApiError::InvalidCredentials);
    assert_eq!(
        authenticate(Some("Digest abcd"), 0, &key).unwrap_err(),
        ApiError::InvalidCredentials
    );
    assert_eq!(
        authenticate(Some("Bearer %%%"), 0, &key).unwrap_err(),
        ApiError::InvalidCredentials
    );
    assert_eq!(
        authenticate(Some("Basic %%%"), 0, &key).unwrap_err(),
        ApiError::InvalidCredentials
    );
    let nocolon = encode_std(b"no-colon-here");
    assert_eq!(
        authenticate(Some(&format!("Basic {nocolon}")), 0, &key).unwrap_err(),
        ApiError::InvalidCredentials
    );
}

#[test]
fn bearer_garbage_bytes_fail_the_tag_check() {
    let key = test_key();
    let contents = encode_std(&[7u8; 40]);
    let header = format!("Bearer {contents}");
    let r = authenticate(Some(&header), 0, &key);
    assert_eq!(r.unwrap_err(), ApiError::Crypto(CryptoError::CryptError));
}

#[test]
fn empty_credentials_detected_on_record() {
    let mut t = sample_token();
    t.username = String::new();
    assert!(t.is_empty());
    let mut t2 = sample_token();
    t2.password = String::new();
    assert!(t2.is_empty());
    assert!(!sample_token().is_empty());
}
