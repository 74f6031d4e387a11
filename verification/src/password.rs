//! Credential handling: one-way, salted password hashing. The derived hash
//! string is self-describing (algorithm parameters, salt and digest in one
//! string); verification re-derives the digest from the embedded salt.

use argon2::{PasswordHasher, PasswordVerifier};
use vstd::prelude::*;

verus! {

/// Whether `password` verifies against the stored hash string `hash`.
pub uninterp spec fn password_verifies(password: Seq<u8>, hash: Seq<char>) -> bool;

/// Whether `hash` parses as a well-formed self-describing hash string.
pub uninterp spec fn phc_parses(hash: Seq<char>) -> bool;

/// What a freshly derived hash promises: it is well formed and verifies its
/// own plaintext and no other.
pub open spec fn fresh_hash_for(password: Seq<u8>, hash: Seq<char>) -> bool {
    &&& phc_parses(hash)
    &&& password_verifies(password, hash)
    &&& forall|other: Seq<u8>| other != password ==> !password_verifies(other, hash)
}

/// Relies on argon2's `Argon2::hash_password` with a salt drawn fresh from
/// the system generator: whatever salt was drawn, the returned hash string is
/// well formed, verifies the hashed plaintext, and verifies no other
/// plaintext.
#[verifier::external_body]
pub fn hash_password(password: &Vec<u8>) -> (r: Result<String, ()>)
    ensures
        r matches Ok(h) ==> fresh_hash_for(password@, h@),
{
    let salt = argon2::password_hash::SaltString::generate(
        &mut argon2::password_hash::rand_core::OsRng,
    );
    match argon2::Argon2::default().hash_password(password.as_slice(), &salt) {
        Ok(h) => Ok(h.to_string()),
        Err(_) => Err(()),
    }
}

/// Relies on argon2's `PasswordHash::new` (parsing is a function of the hash
/// string alone) and `Argon2::verify_password` (the outcome is a function of
/// plaintext and hash string alone). A malformed stored hash is an error
/// distinct from a mismatch.
#[verifier::external_body]
pub fn verify_password(password: &Vec<u8>, hash: &String) -> (r: Result<bool, ()>)
    ensures
        r matches Ok(b) ==> phc_parses(hash@) && b == password_verifies(password@, hash@),
        r is Err ==> !phc_parses(hash@),
{
    match argon2::PasswordHash::new(hash.as_str()) {
        Ok(parsed) => Ok(
            argon2::Argon2::default().verify_password(password.as_slice(), &parsed).is_ok(),
        ),
        Err(_) => Err(()),
    }
}

/// Law: a stored credential freshly derived from a plaintext verifies that
/// plaintext, and any different plaintext fails against it.
pub proof fn lemma_credential_round_trip(password: Seq<u8>, other: Seq<u8>, hash: Seq<char>)
    requires
        fresh_hash_for(password, hash),
    ensures
        password_verifies(password, hash),
        other != password ==> !password_verifies(other, hash),
{
}

} // verus!
