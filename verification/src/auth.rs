//! The auth service and request middleware: registration (email uniqueness, hashing,
//! insert), login (lookup, verify, token issuance — one indistinct failure
//! for a missing account and a wrong password), and the bearer-token
//! middleware that authenticates every resource request.

use vstd::prelude::*;

use crate::digits::{dec_digits, lemma_dec_val_of_dec_digits, parse_u64};
use crate::jwt::{copy_range, create_token, decode_token, hs256_tag, token_bytes};
use crate::password::{fresh_hash_for, hash_password, password_verifies, phc_parses,
    verify_password};
use crate::store::{Db, User};
use crate::TOKEN_LIFETIME_SECS;

verus! {

/// The authenticated caller passed into every resource handler.
#[derive(Debug, Clone, Copy, PartialEq, Eq, Structural)]
pub struct AuthUser {
    pub user_id: u64,
}

/// Why a request was rejected as unauthenticated; each maps to its own message, all 401.
#[derive(Debug, Clone, Copy, PartialEq, Eq, Structural)]
pub enum AuthError {
    /// The `Authorization` header is absent or lacks the bearer scheme.
    MissingHeader,
    /// The token's signature, shape, or expiry failed to verify.
    InvalidToken,
    /// The token verified but its subject is not a user id.
    BadSubject,
}

/// The outcome of a registration.
pub enum RegisterOutcome {
    /// The created identity, with its stored credential.
    Created(User),
    /// A registered identity already uses the email.
    EmailInUse,
    /// The hashing step failed; nothing was stored.
    HashFailure,
}

/// The outcome of a login.
pub enum LoginOutcome {
    /// A fresh session token.
    LoggedIn(Vec<u8>),
    /// Unknown email or wrong password, indistinguishably.
    InvalidCredentials,
    /// The stored credential is malformed.
    InternalError,
}

/// Whether some registered identity uses `email`.
pub open spec fn email_taken(db: Db, email: Seq<char>) -> bool {
    exists|i: int| 0 <= i < db.users@.len() && (#[trigger] db.users@[i]).email@ == email
}

/// Registers an identity: rejected when the email is in use; otherwise the
/// password is hashed (fresh salt, one-way) and the row is stored.
pub fn register(db: &mut Db, username: String, email: String, password: Vec<u8>) -> (r:
    RegisterOutcome)
    requires
        old(db).wf(),
        old(db).next_id < u64::MAX,
    ensures
        final(db).wf(),
        final(db).tasks == old(db).tasks,
        final(db).goals == old(db).goals,
        final(db).habits == old(db).habits,
        final(db).completions == old(db).completions,
        final(db).sessions == old(db).sessions,
        match r {
            RegisterOutcome::EmailInUse => *final(db) == *old(db) && email_taken(*old(db), email@),
            RegisterOutcome::HashFailure => *final(db) == *old(db) && !email_taken(
                *old(db),
                email@,
            ),
            RegisterOutcome::Created(u) => {
                &&& !email_taken(*old(db), email@)
                &&& u.id == old(db).next_id
                &&& u.username == username
                &&& u.email == email
                &&& fresh_hash_for(password@, u.password_hash@)
                &&& final(db).users@ == old(db).users@.push(u)
                &&& final(db).next_id == old(db).next_id + 1
            },
        },
{
    let n = db.users.len();
    let mut i: usize = 0;
    while i < n
        invariant
            old(db).wf(),
            0 <= i <= n,
            n == db.users@.len(),
            *db == *old(db),
            forall|k: int| 0 <= k < i ==> (#[trigger] db.users@[k]).email@ != email@,
        decreases n - i,
    {
        if db.users[i].email == email {
            proof {
                assert(email_taken(*old(db), email@)) by {
                    assert((old(db).users@[i as int]).email@ == email@);
                }
            }
            return RegisterOutcome::EmailInUse;
        }
        i += 1;
    }
    let hash = match hash_password(&password) {
        Ok(h) => h,
        Err(_) => {
            return RegisterOutcome::HashFailure;
        },
    };
    let u = User { id: db.next_id, username, email, password_hash: hash };
    let out = u.clone();
    db.next_id = db.next_id + 1;
    db.users.push(u);
    proof {
        assert forall|a: int, b: int|
            0 <= a < b < db.users@.len() implies (#[trigger] db.users@[a]).id
            != (#[trigger] db.users@[b]).id && db.users@[a].email@ != db.users@[b].email@ by {
            if b < db.users@.len() - 1 {
                assert(db.users@[a] == old(db).users@[a]);
                assert(db.users@[b] == old(db).users@[b]);
            } else {
                assert(db.users@[a] == old(db).users@[a]);
                assert(db.users@[b] == out);
            }
        }
    }
    RegisterOutcome::Created(out)
}

/// Logs an identity in: the same rejection for an unknown email and a wrong
/// password, an internal error for a malformed stored credential, and a token
/// good for `TOKEN_LIFETIME_SECS` past `now` on success.
pub fn login(db: &Db, email: &String, password: &Vec<u8>, secret: &Vec<u8>, now: u64) -> (r:
    LoginOutcome)
    requires
        db.wf(),
        now + TOKEN_LIFETIME_SECS <= u64::MAX,
    ensures
        match r {
            LoginOutcome::InvalidCredentials => !email_taken(*db, email@) || exists|i: int|
                0 <= i < db.users@.len() && (#[trigger] db.users@[i]).email@ == email@
                    && phc_parses(db.users@[i].password_hash@) && !password_verifies(
                    password@,
                    db.users@[i].password_hash@,
                ),
            LoginOutcome::InternalError => exists|i: int|
                0 <= i < db.users@.len() && (#[trigger] db.users@[i]).email@ == email@
                    && !phc_parses(db.users@[i].password_hash@),
            LoginOutcome::LoggedIn(tok) => exists|i: int|
                0 <= i < db.users@.len() && (#[trigger] db.users@[i]).email@ == email@
                    && password_verifies(password@, db.users@[i].password_hash@) && tok@
                    == token_bytes(
                    db.users@[i].id,
                    (now + TOKEN_LIFETIME_SECS) as u64,
                    secret@,
                ),
        },
{
    let n = db.users.len();
    let mut i: usize = 0;
    while i < n
        invariant
            db.wf(),
            now + TOKEN_LIFETIME_SECS <= u64::MAX,
            0 <= i <= n,
            n == db.users@.len(),
            forall|k: int| 0 <= k < i ==> (#[trigger] db.users@[k]).email@ != email@,
        decreases n - i,
    {
        if db.users[i].email == *email {
            match verify_password(password, &db.users[i].password_hash) {
                Err(_) => {
                    proof {
                        assert((db.users@[i as int]).email@ == email@ && !phc_parses(
                            db.users@[i as int].password_hash@,
                        ));
                    }
                    return LoginOutcome::InternalError;
                },
                Ok(false) => {
                    proof {
                        assert((db.users@[i as int]).email@ == email@ && phc_parses(
                            db.users@[i as int].password_hash@,
                        ) && !password_verifies(password@, db.users@[i as int].password_hash@));
                    }
                    return LoginOutcome::InvalidCredentials;
                },
                Ok(true) => {
                    let tok = create_token(db.users[i].id, secret, now);
                    proof {
                        assert((db.users@[i as int]).email@ == email@ && password_verifies(
                            password@,
                            db.users@[i as int].password_hash@,
                        ) && tok@ == token_bytes(
                            db.users@[i as int].id,
                            (now + TOKEN_LIFETIME_SECS) as u64,
                            secret@,
                        ));
                    }
                    return LoginOutcome::LoggedIn(tok);
                },
            }
        }
        i += 1;
    }
    proof {
        assert(!email_taken(*db, email@));
    }
    LoginOutcome::InvalidCredentials
}

/// The bytes of `Bearer ` (with the trailing space).
pub open spec fn bearer_prefix() -> Seq<u8> {
    seq![66u8, 101, 97, 114, 101, 114, 32]
}

/// Whether a header value carries the bearer scheme.
pub open spec fn has_bearer(h: Seq<u8>) -> bool {
    h.len() >= 7 && h.subrange(0, 7) == bearer_prefix()
}

/// The token carried after the bearer scheme.
pub open spec fn bearer_rest(h: Seq<u8>) -> Seq<u8> {
    h.skip(7)
}

/// Authenticates a request from its `Authorization` header at time `now`:
/// requires the bearer scheme, verifies the token under `secret`, and parses
/// the subject into a user id. No store lookup happens here: the token's
/// signature alone is trusted.
pub fn authenticate(header: Option<&Vec<u8>>, secret: &Vec<u8>, now: u64) -> (r: Result<
    AuthUser,
    AuthError,
>)
    ensures
        (match r {
            Err(AuthError::MissingHeader) => (match header {
                None => true,
                Some(h) => !has_bearer(h@),
            }),
            Err(AuthError::InvalidToken) => header matches Some(h) && has_bearer(h@),
            Err(AuthError::BadSubject) => header matches Some(h) && has_bearer(h@),
            Ok(u) => header matches Some(h) && has_bearer(h@) && exists|m: Seq<u8>|
                bearer_rest(h@) == m + seq![46u8] + #[trigger] hs256_tag(m, secret@),
        }),
        forall|uid: u64, exp: u64|
            (match header {
                Some(h) => h@ == bearer_prefix() + #[trigger] token_bytes(uid, exp, secret@),
                None => false,
            }) ==> (if exp > now {
                r matches Ok(u) && u.user_id == uid
            } else {
                r matches Err(e) && e == AuthError::InvalidToken
            }),
{
    let h = match header {
        Some(h) => h,
        None => {
            return Err(AuthError::MissingHeader);
        },
    };
    if h.len() < 7 || h[0] != 66 || h[1] != 101 || h[2] != 97 || h[3] != 114 || h[4] != 101 || h[5]
        != 114 || h[6] != 32 {
        proof {
            assert(!has_bearer(h@)) by {
                if has_bearer(h@) {
                    assert(h@.subrange(0, 7)[0] == 66 && h@.subrange(0, 7)[1] == 101
                        && h@.subrange(0, 7)[2] == 97 && h@.subrange(0, 7)[3] == 114
                        && h@.subrange(0, 7)[4] == 101 && h@.subrange(0, 7)[5] == 114
                        && h@.subrange(0, 7)[6] == 32);
                }
            }
            assert forall|uid: u64, exp: u64|
                !(h@ == bearer_prefix() + #[trigger] token_bytes(uid, exp, secret@)) by {
                if h@ == bearer_prefix() + token_bytes(uid, exp, secret@) {
                    assert(h@.subrange(0, 7) =~= bearer_prefix());
                }
            }
        }
        return Err(AuthError::MissingHeader);
    }
    proof {
        assert(has_bearer(h@)) by {
            assert(h@.subrange(0, 7) =~= bearer_prefix());
        }
    }
    let token = copy_range(h, 7, h.len());
    proof {
        assert(token@ == bearer_rest(h@)) by {
            assert(h@.subrange(7, h@.len() as int) =~= h@.skip(7));
        }
        assert forall|uid: u64, exp: u64|
            h@ == bearer_prefix() + #[trigger] token_bytes(uid, exp, secret@) implies token@
            == token_bytes(uid, exp, secret@) by {
            assert(token@ =~= token_bytes(uid, exp, secret@));
        }
    }
    let claims = match decode_token(&token, secret, now) {
        Some(c) => c,
        None => {
            return Err(AuthError::InvalidToken);
        },
    };
    proof {
        assert forall|uid: u64, exp: u64|
            (h@ == bearer_prefix() + #[trigger] token_bytes(uid, exp, secret@) && exp
                > now) implies (claims.sub@ == dec_digits(uid as nat) && claims.exp == exp) by {}
    }
    match parse_u64(&claims.sub) {
        Some(uid) => {
            proof {
                assert forall|uid2: u64, exp: u64|
                    (h@ == bearer_prefix() + #[trigger] token_bytes(uid2, exp, secret@) && exp
                        > now) implies uid == uid2 by {
                    crate::digits::lemma_dec_digits_are_digits(uid2 as nat);
                    lemma_dec_val_of_dec_digits(uid2 as nat);
                }
            }
            Ok(AuthUser { user_id: uid })
        },
        None => {
            proof {
                assert forall|uid2: u64, exp: u64|
                    !(h@ == bearer_prefix() + #[trigger] token_bytes(uid2, exp, secret@) && exp
                        > now) by {
                    if h@ == bearer_prefix() + token_bytes(uid2, exp, secret@) && exp > now {
                        crate::digits::lemma_dec_digits_are_digits(uid2 as nat);
                        lemma_dec_val_of_dec_digits(uid2 as nat);
                    }
                }
            }
            Err(AuthError::BadSubject)
        },
    }
}

} // verus!
