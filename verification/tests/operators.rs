use argon2::password_hash::rand_core::OsRng;
use argon2::password_hash::{PasswordHash, PasswordHasher, SaltString};
use argon2::{Algorithm, Argon2, Params};
use policy_controller::operators::{
    create, hash_is_stale, hash_password, parse_hash, set_password, upgrade, validate_new,
    verify_password, Credentials, Operator, OperatorError, DUMMY_HASH, SESSION_TTL_S,
};

fn account(username: &str, password_hash: &str) -> Credentials {
    Credentials {
        operator: Operator {
            id: 1,
            username: username.to_string(),
            created_at: 0,
            last_login_at: None,
            disabled_at: None,
        },
        password_hash: password_hash.to_string(),
    }
}

fn cheap_hash(password: &[u8]) -> String {
    // Deliberately cheap params so they differ from Argon2::default().
    let cheap = Argon2::new(
        Algorithm::Argon2id,
        argon2::Version::V0x13,
        Params::new(8 * 1024, 1, 1, None).unwrap(),
    );
    let salt = SaltString::generate(&mut OsRng);
    cheap.hash_password(password, &salt).unwrap().to_string()
}

#[test]
fn create_then_verify_roundtrip() {
    let new = create("alice", "correct horse").unwrap();
    assert_eq!(new.username, "alice");

    let found = verify_password(
        Some(account("alice", &new.password_hash)),
        "alice",
        "correct horse",
    )
    .unwrap()
    .unwrap();
    assert_eq!(found.operator.id, 1);
    assert!(found.rehash.is_none());
}

#[test]
fn wrong_password_rejected() {
    let new = create("alice", "correct horse").unwrap();
    assert!(
        verify_password(Some(account("alice", &new.password_hash)), "alice", "wrong")
            .unwrap()
            .is_none()
    );
}

#[test]
fn unknown_user_returns_none() {
    assert!(verify_password(None, "nobody", "anything").unwrap().is_none());
}

#[test]
fn short_password_rejected() {
    assert!(create("alice", "short").is_err());
    assert!(matches!(
        create("alice", "1234567"),
        Err(OperatorError::ShortPassword)
    ));
    assert!(matches!(set_password("short"), Err(OperatorError::ShortPassword)));
    // The length is counted in bytes.
    assert!(validate_new("alice", "ääää").is_ok());
}

#[test]
fn empty_username_rejected() {
    let e = create("   ", "long-enough").err().unwrap();
    assert_eq!(e.to_text(), "username cannot be empty");
    assert_eq!(validate_new("  bob ", "long-enough").unwrap(), "bob");
}

#[test]
fn disabled_account_cannot_log_in() {
    let new = create("alice", "correct horse").unwrap();
    let mut c = account("alice", &new.password_hash);
    c.operator.disabled_at = Some(1);
    assert!(verify_password(Some(c), "alice", "correct horse").unwrap().is_none());
}

#[test]
fn dummy_hash_is_well_formed() {
    PasswordHash::new(DUMMY_HASH).expect("dummy hash must parse");
    assert!(parse_hash(DUMMY_HASH).is_ok());
}

#[test]
fn malformed_hash_is_told() {
    let e = verify_password(Some(account("alice", "garbage")), "alice", "x").err().unwrap();
    assert!(e.to_text().starts_with("malformed stored hash for alice: "));
}

#[test]
fn stale_hash_upgraded_on_successful_verify() {
    let cheap = cheap_hash(b"mypassword");
    let v = verify_password(Some(account("upgtest", &cheap)), "upgtest", "mypassword")
        .unwrap()
        .unwrap();
    let new_hash = v.rehash.expect("stored hash must be upgraded after verify");
    assert_ne!(new_hash, cheap, "stored hash must be upgraded after verify");

    // Upgraded hash must still accept the original password.
    let again = verify_password(Some(account("upgtest", &new_hash)), "upgtest", "mypassword")
        .unwrap()
        .expect("upgraded hash must still verify");
    assert!(again.rehash.is_none());
}

#[test]
fn hash_is_stale_detects_wrong_algorithm() {
    // argon2d is not our preferred algorithm.
    let hash_str = "$argon2d$v=19$m=19456,t=2,p=1$c2FsdHNhbHRzYWx0c2FsdA$rj3iA9hxYsNvz5dXyKMaTQ";
    let parsed = parse_hash(hash_str).unwrap();
    assert!(hash_is_stale(&parsed));
}

#[test]
fn hash_is_stale_detects_low_cost() {
    // m_cost=8192 is well below the argon2 default of 19456.
    let parsed = parse_hash(&cheap_hash(b"x")).unwrap();
    assert_eq!(parsed.params, "m=8192,t=1,p=1");
    assert!(hash_is_stale(&parsed));
}

#[test]
fn hash_is_stale_accepts_current_defaults() {
    let salt = SaltString::generate(&mut OsRng);
    let h = Argon2::default().hash_password(b"x", &salt).unwrap().to_string();
    let parsed = parse_hash(&h).unwrap();
    assert!(!hash_is_stale(&parsed));
    let own = parse_hash(&hash_password("x").unwrap()).unwrap();
    assert_eq!(own.algorithm, "argon2id");
    assert_eq!(own.params, "m=19456,t=2,p=1");
}

#[test]
fn session_lasts_half_a_day() {
    assert_eq!(SESSION_TTL_S, 12 * 3600);
}

#[test]
fn new_hash_is_stored_where_the_old_is_outdated() {
    let made = || Ok("$argon2id$new".to_string());
    assert_eq!(upgrade(true, made()), Some("$argon2id$new".to_string()));
    assert_eq!(upgrade(false, made()), None);
    assert_eq!(upgrade(true, Err(OperatorError::Hash("password is too long".to_string()))), None);
    assert_eq!(upgrade(false, Err(OperatorError::Hash("password is too long".to_string()))), None);
}
