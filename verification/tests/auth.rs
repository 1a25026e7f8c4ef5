use vellum::auth::crypto::{derive_vault_key, generate_salt, hash_password, verify_password};
use vellum::auth::{get_session, login, logout, now_ts, register, Session, UserStore};

#[test]
fn hashed_password_verifies() {
    let h = hash_password("hunter22").unwrap();
    assert!(h.starts_with("$argon2id$"));
    assert_eq!(verify_password("hunter22", &h), Ok(true));
    assert_eq!(verify_password("hunter23", &h), Ok(false));
}

#[test]
fn malformed_hash_is_an_error() {
    assert!(verify_password("x", "not a hash").is_err());
}

#[test]
fn vault_key_is_deterministic_and_salted() {
    let a = derive_vault_key("password1", b"saltsalt").unwrap();
    let b = derive_vault_key("password1", b"saltsalt").unwrap();
    let c = derive_vault_key("password1", b"saltsalz").unwrap();
    assert_eq!(a, b);
    assert_ne!(a, c);
}

#[test]
fn vault_key_needs_a_salt_of_eight_bytes() {
    assert_eq!(derive_vault_key("password1", b"short"), Err("salt is too short".to_string()));
}

#[test]
fn salts_are_random() {
    assert_ne!(generate_salt(), generate_salt());
}

#[test]
fn now_ts_is_decimal() {
    let ts = now_ts();
    assert!(!ts.is_empty());
    assert!(ts.chars().all(|c| c.is_ascii_digit()));
    assert!(ts.parse::<u64>().unwrap() > 1_600_000_000);
}

#[test]
fn register_rejects_bad_input() {
    let mut store = UserStore { users: vec![] };
    let msg = "Username required, password must be at least 8 characters".to_string();
    assert_eq!(register(&mut store, "   ", "longenough").err(), Some(msg.clone()));
    assert_eq!(register(&mut store, "alice", "short").err(), Some(msg));
    assert!(store.users.is_empty());
}

#[test]
fn register_then_login() {
    let mut store = UserStore { users: vec![] };
    let (info, session) = register(&mut store, "alice", "password123").unwrap();
    assert_eq!(store.users.len(), 1);
    assert_eq!(store.users[0].username, "alice");
    assert_eq!(store.users[0].vault_salt.len(), 16);
    assert_eq!(info.username, "alice");
    assert_eq!(info.user_id, store.users[0].id);
    assert_eq!(info.user_id.len(), 36);
    assert_eq!(session.user_id, info.user_id);
    let (info2, session2) = login(&store, "alice", "password123").unwrap();
    assert_eq!(info2.user_id, info.user_id);
    assert_eq!(session2.vault_key, session.vault_key);
}

#[test]
fn register_refuses_taken_name_and_login_refuses_bad_credentials() {
    let mut store = UserStore { users: vec![] };
    register(&mut store, "bob", "password123").unwrap();
    assert_eq!(
        register(&mut store, "bob", "otherpassword").err(),
        Some("Username already taken".to_string())
    );
    assert_eq!(store.users.len(), 1);
    assert_eq!(login(&store, "bob", "wrongpassword").err(), Some("Invalid credentials".to_string()));
    assert_eq!(login(&store, "carol", "password123").err(), Some("Invalid credentials".to_string()));
}

#[test]
fn session_info_and_logout() {
    let mut session = Some(Session { user_id: "u1".to_string(), username: "dana".to_string(), vault_key: [3u8; 32] });
    let info = get_session(&session).unwrap();
    assert_eq!(info.user_id, "u1");
    assert_eq!(info.username, "dana");
    logout(&mut session);
    assert!(session.is_none());
    assert!(get_session(&session).is_none());
}
