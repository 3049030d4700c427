//! Authentication core of a note-keeping backend: salted password hashing,
//! issuance and verification of signed, time-bounded session tokens, bearer
//! header extraction, and the authorization gate every protected request
//! passes through.
use vstd::prelude::*;

pub mod b64url;
pub mod bytes;
pub mod claims;
pub mod health;
pub mod ids;
pub mod password;
pub mod payload;
pub mod request;
pub mod textenc;
pub mod token;
pub mod users;

verus! {

} // verus!
