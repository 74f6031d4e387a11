use focuskit::jwt::{create_token, decode_token};
use focuskit::TOKEN_LIFETIME_SECS;

fn secret() -> Vec<u8> {
    b"another-secret".to_vec()
}

#[test]
fn token_has_three_base64url_segments() {
    let token = create_token(42, &secret(), 1_700_000_000);
    let dots = token.iter().filter(|&&b| b == b'.').count();
    assert_eq!(dots, 2);
    for &b in &token {
        assert!(
            b == b'.'
                || b.is_ascii_alphanumeric()
                || b == b'-'
                || b == b'_',
            "unexpected byte {b}"
        );
    }
    // the header segment is the standard fixed object
    let first = token.split(|&b| b == b'.').next().unwrap();
    assert_eq!(first, b"eyJ0eXAiOiJKV1QiLCJhbGciOiJIUzI1NiJ9");
}

#[test]
fn decode_before_expiry_yields_subject_and_expiry() {
    let now: u64 = 1_700_000_000;
    let token = create_token(42, &secret(), now);
    let claims = decode_token(&token, &secret(), now + 1).unwrap();
    assert_eq!(claims.sub, b"42".to_vec());
    assert_eq!(claims.exp, now + TOKEN_LIFETIME_SECS);
    // still valid one second before the deadline
    let claims = decode_token(&token, &secret(), now + TOKEN_LIFETIME_SECS - 1).unwrap();
    assert_eq!(claims.sub, b"42".to_vec());
}

#[test]
fn decode_at_or_after_expiry_is_rejected() {
    let now: u64 = 1_700_000_000;
    let token = create_token(42, &secret(), now);
    assert!(decode_token(&token, &secret(), now + TOKEN_LIFETIME_SECS).is_none());
    assert!(decode_token(&token, &secret(), now + TOKEN_LIFETIME_SECS + 5).is_none());
}

#[test]
fn decode_with_other_secret_is_rejected() {
    let now: u64 = 1_700_000_000;
    let token = create_token(42, &secret(), now);
    assert!(decode_token(&token, &b"different-secret".to_vec(), now + 1).is_none());
}

#[test]
fn tampered_token_is_rejected() {
    let now: u64 = 1_700_000_000;
    let token = create_token(42, &secret(), now);
    // flip one byte of the claims segment
    let mut tampered = token.clone();
    let first_dot = tampered.iter().position(|&b| b == b'.').unwrap();
    let i = first_dot + 2;
    tampered[i] = if tampered[i] == b'A' { b'B' } else { b'A' };
    assert!(decode_token(&tampered, &secret(), now + 1).is_none());
    // truncate the signature
    let mut cut = token.clone();
    cut.pop();
    assert!(decode_token(&cut, &secret(), now + 1).is_none());
}

#[test]
fn tokens_for_different_users_differ() {
    let now: u64 = 1_700_000_000;
    let t1 = create_token(1, &secret(), now);
    let t2 = create_token(2, &secret(), now);
    assert_ne!(t1, t2);
    assert_eq!(decode_token(&t1, &secret(), now).unwrap().sub, b"1".to_vec());
    assert_eq!(decode_token(&t2, &secret(), now).unwrap().sub, b"2".to_vec());
}
