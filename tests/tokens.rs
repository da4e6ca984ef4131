use eduflow::bearer::{bearer_token, split_auth_header};
use eduflow::credential::create_credential;
use eduflow::crypt_types::CryptString;
use eduflow::error::AuthError;
use eduflow::store::{StoreError, TokenStore};
use eduflow::token_gen::{charset_byte, generate_token, CHARSET_LEN, TOKEN_LENGTH};

#[test]
fn generated_tokens_are_alphanumeric() {
    let a = generate_token();
    let b = generate_token();
    assert_eq!(a.len(), TOKEN_LENGTH);
    assert!(a.chars().all(|c| c.is_ascii_alphanumeric()));
    assert_ne!(a, b);
}

#[test]
fn charset_order() {
    let all: String = (0..CHARSET_LEN).map(|i| charset_byte(i) as char).collect();
    assert_eq!(all, "ABCDEFGHIJKLMNOPQRSTUVWXYZabcdefghijklmnopqrstuvwxyz1234567890");
}

#[test]
fn bearer_header_parses() {
    let secret = "abcDEF0123456789abcDEF0123456789";
    assert_eq!(
        split_auth_header(&format!("Bearer 12_{}", secret)),
        Ok((12, secret.to_string()))
    );
    assert_eq!(
        split_auth_header(&format!("Bearer 007_{}", secret)),
        Ok((7, secret.to_string()))
    );
    assert_eq!(
        split_auth_header(&format!("Bearer 2147483647_{}", secret)),
        Ok((i32::MAX, secret.to_string()))
    );
}

#[test]
fn bearer_header_rejects_other_forms() {
    let secret = "abcDEF0123456789abcDEF0123456789";
    for h in [
        format!("bearer 12_{}", secret),
        format!("Bearer _{}", secret),
        format!("Bearer 1a_{}", secret),
        format!("Bearer -1_{}", secret),
        format!("Bearer 2147483648_{}", secret),
        format!("Bearer 12_{}", &secret[1..]),
        format!("Bearer 12_{}x", secret),
        format!("Bearer 12_{}_", &secret[1..]),
        format!("Bearer 12-{}", secret),
        "Bearer 12".to_string(),
    ] {
        assert_eq!(split_auth_header(&h), Err(AuthError::InvalidToken), "{}", h);
    }
}

#[test]
fn bearer_token_format() {
    let secret = "Z".repeat(32);
    assert_eq!(bearer_token(0, &secret), format!("0_{}", secret));
    assert_eq!(bearer_token(1234, &secret), format!("1234_{}", secret));
}

#[test]
fn credential_is_a_hash() {
    let h = create_credential(b"pw").expect("hashes");
    assert!(h.starts_with("$argon2id$"));
    assert!(!h.contains("pw$"));
}

#[test]
fn store_refuses_duplicates() {
    let mut s = TokenStore::new();
    assert_eq!(s.new_user("u", "h"), Ok(1));
    assert_eq!(s.new_user("u", "h2"), Err(StoreError::Duplicate));
    assert_eq!(s.new_user("v", "h"), Ok(2));
    assert_eq!(s.get_user_by_username("v").map(|u| u.id), Some(2));
    assert!(s.get_user_by_username("w").is_none());
    assert_eq!(s.new_remote_token("hash", 1, 50), Ok(1));
    assert_eq!(s.new_remote_token("hash", 1, 60), Ok(2));
    s.revoke_session(1);
    assert!(s.get_remote_token(1).is_none());
    assert_eq!(s.get_remote_token(2).map(|t| t.valid_until), Some(60));
}

#[test]
fn store_reports_exhausted_ids() {
    let mut s = TokenStore::new();
    s.next_session_id = i32::MAX;
    assert_eq!(s.new_remote_token("hash", 1, 5), Err(StoreError::Full));
    assert!(s.remote_tokens.is_empty());
}

#[test]
fn store_refuses_wrapped_copy_for_unknown_session() {
    let mut s = TokenStore::new();
    let c = CryptString { data_crypt: vec![1, 2, 3] };
    assert_eq!(s.new_local_token_rtcrypt(1, &c, 1), Err(StoreError::Missing));
    assert_eq!(s.new_remote_token("hash", 1, 5), Ok(1));
    assert_eq!(s.new_local_token_rtcrypt(1, &c, 1), Ok(1));
    assert_eq!(s.new_local_token_rtcrypt(1, &c, 1), Err(StoreError::Duplicate));
}
