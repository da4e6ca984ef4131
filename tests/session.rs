use eduflow::auth_handler::{SessionManager, SESSION_LIFETIME, TOKEN_EXPIRE};
use eduflow::crypt_provider::CryptProviders;
use eduflow::crypt_types::Cryptable;
use eduflow::db::DBObjIdent;
use eduflow::error::AuthError;

fn kind(name: &str) -> DBObjIdent {
    DBObjIdent { db_identifier: name.to_string() }
}

fn manager(kinds: &[&str]) -> SessionManager {
    SessionManager::new(kinds.iter().map(|k| kind(k)).collect(), CryptProviders::SimpleCryptProv)
}

fn is_secret(s: &str) -> bool {
    s.len() == 32 && s.chars().all(|c| c.is_ascii_alphanumeric())
}

fn split(token: &str) -> (i32, String) {
    let (id, secret) = token.split_once('_').expect("token has an underscore");
    (id.parse().expect("decimal id"), secret.to_string())
}

#[test]
fn register_unwrap_logout_scenario() {
    let mut m = manager(&["Course"]);
    let token = m.register_at("alice", "pw1", 1_000).expect("registration succeeds");
    assert!(token.starts_with("1_"));
    let (sid, secret) = split(&token);
    assert_eq!(sid, 1);
    assert!(is_secret(&secret));

    // the local secret generated during provisioning, unwrapped with the password
    let provisioned = m.db.local_tokens[0]
        .token_crypt
        .decrypt("pw1".as_bytes(), &m.crypt_provider)
        .expect("password unwraps the local token");
    assert!(is_secret(&provisioned));

    let key = m
        .decrypt_local_token_for(1, &kind("Course"), sid, &secret)
        .expect("session unwraps the key");
    assert_eq!(key, provisioned);

    let header = format!("Bearer {}", token);
    assert_eq!(m.logout_at(&header, 1_001), Ok(()));
    assert_eq!(m.verify_token_at(&header, 1_002).unwrap_err(), AuthError::InvalidToken);
    assert!(m.db.wrapped_tokens.iter().all(|w| w.decryptable_by_rt_id != sid));
    assert!(m.db.remote_tokens.is_empty());
    assert_eq!(
        m.decrypt_local_token_for(1, &kind("Course"), sid, &secret),
        Err(AuthError::InternalFailure)
    );
}

#[test]
fn login_with_wrong_password_creates_nothing() {
    let mut m = manager(&["Course"]);
    m.register_at("alice", "pw1", 0).expect("registration succeeds");
    let sessions = m.db.remote_tokens.len();
    let wrapped = m.db.wrapped_tokens.len();
    assert_eq!(m.login_at("alice", "wrong", 5), Err(AuthError::InvalidCredentials));
    assert_eq!(m.db.remote_tokens.len(), sessions);
    assert_eq!(m.db.wrapped_tokens.len(), wrapped);
    assert_eq!(m.login_at("nobody", "pw1", 5), Err(AuthError::InvalidCredentials));
    assert_eq!(m.db.remote_tokens.len(), sessions);
    assert_eq!(m.db.wrapped_tokens.len(), wrapped);
}

#[test]
fn expired_token_is_purged() {
    let mut m = manager(&["Course"]);
    let token = m.register_at("carol", "secret", 100).expect("registration succeeds");
    let header = format!("Bearer {}", token);
    let expiry = 100 + SESSION_LIFETIME;
    assert!(m.verify_token_at(&header, expiry - 1).is_ok());
    assert_eq!(m.verify_token_at(&header, expiry).unwrap_err(), AuthError::InvalidToken);
    assert!(m.db.remote_tokens.is_empty());
    assert!(m.db.wrapped_tokens.is_empty());
    // presenting it again fails the same way
    assert_eq!(m.verify_token_at(&header, expiry + 1).unwrap_err(), AuthError::InvalidToken);
    assert_eq!(m.db.local_tokens.len(), 1);
}

#[test]
fn two_logins_are_independent() {
    let mut m = manager(&["Course"]);
    m.register_at("dave", "pw", 0).expect("registration succeeds");
    let t1 = m.login_at("dave", "pw", 10).expect("first login");
    let t2 = m.login_at("dave", "pw", 11).expect("second login");
    assert_ne!(t1, t2);
    let (s1, k1) = split(&t1);
    let (s2, k2) = split(&t2);
    assert_ne!(s1, s2);
    let before = m.decrypt_local_token_for(1, &kind("Course"), s2, &k2).expect("second unwraps");
    assert_eq!(m.decrypt_local_token_for(1, &kind("Course"), s1, &k1).unwrap(), before);
    assert_eq!(m.logout_at(&format!("Bearer {}", t1), 12), Ok(()));
    assert_eq!(m.decrypt_local_token_for(1, &kind("Course"), s2, &k2).unwrap(), before);
    let (user, sid, secret) = m.verify_token_at(&format!("Bearer {}", t2), 13).expect("still valid");
    assert_eq!((user, sid, secret), (1, s2, k2));
}

#[test]
fn username_taken() {
    let mut m = manager(&[]);
    assert!(m.register_at("erin", "a", 0).is_ok());
    let users = m.db.users.len();
    assert_eq!(m.register_at("erin", "b", 0), Err(AuthError::UsernameTaken));
    assert_eq!(m.db.users.len(), users);
}

#[test]
fn provisioning_is_guarded_and_reaches_new_sessions() {
    let mut m = manager(&["Course"]);
    m.register_at("frank", "pw", 0).expect("registration succeeds");
    assert_eq!(
        m.add_new_local_token(1, "pw", &kind("Course")),
        Err(AuthError::InternalFailure)
    );
    assert_eq!(m.db.local_tokens.len(), 1);
    assert_eq!(m.add_new_local_token(1, "pw", &kind("Topic")), Ok(()));
    assert_eq!(m.db.local_tokens.len(), 2);
    let token = m.login_at("frank", "pw", 1).expect("login");
    let (sid, secret) = split(&token);
    let key = m.decrypt_local_token_for(1, &kind("Topic"), sid, &secret).expect("unwraps");
    assert!(is_secret(&key));
    assert_eq!(
        m.decrypt_local_token_for(1, &kind("Exam"), sid, &secret),
        Err(AuthError::InternalFailure)
    );
}

#[test]
fn malformed_or_unknown_tokens_are_invalid() {
    let mut m = manager(&[]);
    let secret = "A".repeat(32);
    assert_eq!(m.verify_token_at("", 0).unwrap_err(), AuthError::InvalidToken);
    assert_eq!(m.verify_token_at(&format!("Token 1_{}", secret), 0).unwrap_err(), AuthError::InvalidToken);
    assert_eq!(m.verify_token_at(&format!("Bearer 1_{}", secret), 0).unwrap_err(), AuthError::InvalidToken);
    assert_eq!(m.logout_at(&format!("Bearer 1_{}", secret), 0), Err(AuthError::InvalidToken));
}

#[test]
fn session_lifetime_is_fourteen_days() {
    assert_eq!(TOKEN_EXPIRE, 14);
    assert_eq!(SESSION_LIFETIME, 14 * 24 * 60 * 60);
}

#[test]
fn clock_entry_points() {
    let mut m = manager(&["Course"]);
    let token = m.register("gina", "pw").expect("registration succeeds");
    let header = format!("Bearer {}", token);
    let (user, sid, secret) = m.verify_token(&header).expect("fresh token verifies");
    assert_eq!(user, 1);
    assert_eq!(format!("{}_{}", sid, secret), token);
    assert_eq!(m.login("gina", "nope"), Err(AuthError::InvalidCredentials));
    assert_eq!(m.logout(&header), Ok(()));
    assert_eq!(m.verify_token(&header).unwrap_err(), AuthError::InvalidToken);
}

#[test]
fn wrong_secret_unwraps_nothing() {
    let mut m = manager(&["Course"]);
    let token = m.register_at("hank", "pw", 0).expect("registration succeeds");
    let (sid, _) = split(&token);
    let other = "B".repeat(32);
    assert_eq!(
        m.decrypt_local_token_for(1, &kind("Course"), sid, &other),
        Err(AuthError::InternalFailure)
    );
    assert_eq!(
        m.verify_token_at(&format!("Bearer {}_{}", sid, other), 1).unwrap_err(),
        AuthError::InvalidToken
    );
    // a wrong secret does not revoke the session
    assert_eq!(m.db.remote_tokens.len(), 1);
}

#[test]
fn registration_provisions_every_category() {
    let mut m = manager(&["CourseDB", "TopicDB"]);
    let token = m.register_at("ivy", "pw", 0).expect("registration succeeds");
    assert!(m.db.users[0].password_hash.starts_with('$'));
    assert_ne!(m.db.users[0].password_hash, "pw");
    assert!(m.db.remote_tokens[0].rt_hash.starts_with('$'));
    let (sid, secret) = split(&token);
    assert_eq!(token, format!("1_{}", secret));
    assert_ne!(m.db.remote_tokens[0].rt_hash, secret);
    assert_eq!(m.db.local_tokens.len(), 2);
    for k in ["CourseDB", "TopicDB"] {
        let key = m.decrypt_local_token_for(1, &kind(k), sid, &secret).expect("unwraps");
        assert!(is_secret(&key));
    }
}
