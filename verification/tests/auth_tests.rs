use focuskit::auth::{authenticate, login, register, AuthError, LoginOutcome, RegisterOutcome};
use focuskit::password::{hash_password, verify_password};
use focuskit::store::Db;
use focuskit::TOKEN_LIFETIME_SECS;

fn secret() -> Vec<u8> {
    b"test-signing-secret".to_vec()
}

#[test]
fn hash_then_verify_same_password_succeeds() {
    let hash = hash_password(&b"correct horse".to_vec()).unwrap();
    assert_eq!(verify_password(&b"correct horse".to_vec(), &hash), Ok(true));
}

#[test]
fn hash_then_verify_other_password_fails() {
    let hash = hash_password(&b"correct horse".to_vec()).unwrap();
    assert_eq!(verify_password(&b"battery staple".to_vec(), &hash), Ok(false));
    assert_eq!(verify_password(&b"".to_vec(), &hash), Ok(false));
}

#[test]
fn verify_against_malformed_hash_is_an_error() {
    let bad = String::from("not a real hash");
    assert_eq!(verify_password(&b"p".to_vec(), &bad), Err(()));
}

#[test]
fn two_hashes_of_one_password_differ_by_salt() {
    let h1 = hash_password(&b"p".to_vec()).unwrap();
    let h2 = hash_password(&b"p".to_vec()).unwrap();
    assert_ne!(h1, h2);
    assert_eq!(verify_password(&b"p".to_vec(), &h1), Ok(true));
    assert_eq!(verify_password(&b"p".to_vec(), &h2), Ok(true));
}

#[test]
fn register_creates_user_and_rejects_duplicate_email() {
    let mut db = Db::new();
    let r = register(
        &mut db,
        String::from("a"),
        String::from("a@x.com"),
        b"p".to_vec(),
    );
    let user = match r {
        RegisterOutcome::Created(u) => u,
        _ => panic!("expected a created user"),
    };
    assert_eq!(user.id, 1);
    assert_eq!(user.username, "a");
    assert_eq!(user.email, "a@x.com");
    // the stored credential is a hash, never the plaintext
    assert_ne!(user.password_hash.as_bytes(), b"p");
    assert_eq!(verify_password(&b"p".to_vec(), &user.password_hash), Ok(true));

    let again = register(
        &mut db,
        String::from("b"),
        String::from("a@x.com"),
        b"q".to_vec(),
    );
    assert!(matches!(again, RegisterOutcome::EmailInUse));
    assert_eq!(db.users.len(), 1);
}

#[test]
fn login_with_correct_credentials_issues_a_token() {
    let mut db = Db::new();
    register(
        &mut db,
        String::from("a"),
        String::from("a@x.com"),
        b"p".to_vec(),
    );
    let now: u64 = 1_700_000_000;
    let r = login(&db, &String::from("a@x.com"), &b"p".to_vec(), &secret(), now);
    let token = match r {
        LoginOutcome::LoggedIn(t) => t,
        _ => panic!("expected a token"),
    };
    let mut header = b"Bearer ".to_vec();
    header.extend_from_slice(&token);
    let auth = authenticate(Some(&header), &secret(), now + 60).unwrap();
    assert_eq!(auth.user_id, 1);
    // a fresh user sees an empty task list
    let tasks = focuskit::tasks::get_tasks(&db, auth.user_id);
    assert!(tasks.is_empty());
}

#[test]
fn login_with_wrong_password_or_unknown_email_is_one_rejection() {
    let mut db = Db::new();
    register(
        &mut db,
        String::from("a"),
        String::from("a@x.com"),
        b"p".to_vec(),
    );
    let now: u64 = 1_700_000_000;
    let wrong = login(&db, &String::from("a@x.com"), &b"nope".to_vec(), &secret(), now);
    assert!(matches!(wrong, LoginOutcome::InvalidCredentials));
    let unknown = login(&db, &String::from("b@x.com"), &b"p".to_vec(), &secret(), now);
    assert!(matches!(unknown, LoginOutcome::InvalidCredentials));
}

#[test]
fn middleware_rejects_missing_or_malformed_header() {
    assert_eq!(
        authenticate(None, &secret(), 0).unwrap_err(),
        AuthError::MissingHeader
    );
    let basic = b"Basic abc".to_vec();
    assert_eq!(
        authenticate(Some(&basic), &secret(), 0).unwrap_err(),
        AuthError::MissingHeader
    );
    let garbage = b"Bearer not.a.token".to_vec();
    assert_eq!(
        authenticate(Some(&garbage), &secret(), 0).unwrap_err(),
        AuthError::InvalidToken
    );
}

#[test]
fn middleware_rejects_expired_token() {
    let now: u64 = 1_700_000_000;
    let token = focuskit::jwt::create_token(7, &secret(), now);
    let mut header = b"Bearer ".to_vec();
    header.extend_from_slice(&token);
    let late = now + TOKEN_LIFETIME_SECS;
    assert_eq!(
        authenticate(Some(&header), &secret(), late).unwrap_err(),
        AuthError::InvalidToken
    );
}

#[test]
fn middleware_rejects_a_signed_token_whose_subject_is_not_an_id() {
    // Sign a claims object with a non-numeric subject using the same HMAC
    // primitive the library relies on; the signature verifies, the subject
    // does not parse.
    let now: u64 = 1_700_000_000;
    let header = b"{\"typ\":\"JWT\",\"alg\":\"HS256\"}".to_vec();
    let claims = format!("{{\"sub\":\"abc\",\"exp\":{}}}", now + 1000).into_bytes();
    let mut msg = focuskit::b64::b64_encode(&header);
    msg.push(b'.');
    msg.extend_from_slice(&focuskit::b64::b64_encode(&claims));
    let key = jsonwebtoken::EncodingKey::from_secret(b"test-signing-secret");
    let tag = jsonwebtoken::crypto::sign(&msg, &key, jsonwebtoken::Algorithm::HS256).unwrap();
    let mut token = msg.clone();
    token.push(b'.');
    token.extend_from_slice(tag.as_bytes());
    let mut full = b"Bearer ".to_vec();
    full.extend_from_slice(&token);
    assert_eq!(
        authenticate(Some(&full), &secret(), now).unwrap_err(),
        AuthError::BadSubject
    );
}

#[test]
fn login_against_a_malformed_stored_hash_is_an_internal_error() {
    let mut db = Db::new();
    db.users.push(focuskit::store::User {
        id: 1,
        username: String::from("a"),
        email: String::from("a@x.com"),
        password_hash: String::from("corrupted"),
    });
    db.next_id = 2;
    let r = login(&db, &String::from("a@x.com"), &b"p".to_vec(), &secret(), 1_700_000_000);
    assert!(matches!(r, LoginOutcome::InternalError));
}
