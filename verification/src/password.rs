//! Salted one-way password hashing and constant-time verification.
use vstd::prelude::*;

verus! {

/// A catastrophic hashing failure (randomness unavailable) or a digest not
/// produced by this hasher. Callers must treat both as "verification
/// failed" and leak nothing about which occurred.
#[derive(Clone, Copy, PartialEq, Eq, Structural, Debug)]
pub struct HashingError;

/// What checking `password` against `digest` yields: `None` when the digest
/// is not shaped like a salted hash, otherwise whether the password matches.
/// A function of the two arguments alone.
pub uninterp spec fn bcrypt_check(password: Seq<u8>, digest: Seq<u8>) -> Option<bool>;

/// Hashes a password under a fresh random salt, embedding the salt in the
/// digest, so that checking the same password against the digest succeeds.
///
/// Relies on bcrypt::hash with cost 10: the digest it returns carries its
/// salt and verifies against the hashed password; the call fails only when
/// the system randomness source does.
#[verifier::external_body]
pub fn encrypt(pass: &Vec<u8>) -> (r: Result<Vec<u8>, HashingError>)
    ensures
        r matches Ok(d) ==> bcrypt_check(pass@, d@) == Some(true),
{
    match bcrypt::hash(pass.as_slice(), 10) {
        Ok(s) => Ok(s.into_bytes()),
        Err(_) => Err(HashingError),
    }
}

/// Recomputes the digest from the salt embedded in `encoded` and compares in
/// constant time.
///
/// Relies on bcrypt::verify: the outcome is a function of the password and
/// digest alone, and the call errs exactly on byte strings not shaped like
/// a bcrypt digest.
#[verifier::external_body]
pub fn compare(pass: &Vec<u8>, encoded: &Vec<u8>) -> (r: Result<bool, HashingError>)
    ensures
        match r {
            Ok(b) => bcrypt_check(pass@, encoded@) == Some(b),
            Err(_) => bcrypt_check(pass@, encoded@) is None,
        },
{
    let digest = match std::str::from_utf8(encoded.as_slice()) {
        Ok(d) => d,
        Err(_) => return Err(HashingError),
    };
    match bcrypt::verify(pass.as_slice(), digest) {
        Ok(b) => Ok(b),
        Err(_) => Err(HashingError),
    }
}

} // verus!
