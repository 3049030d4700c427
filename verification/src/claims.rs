//! The identity and timing payload carried inside a session token.
use vstd::prelude::*;

verus! {

/// Claims carried by a token: who the subject is and when the token was
/// issued and expires (seconds since the epoch). The expiry field is the
/// sole authority for the token's lifetime.
#[derive(Debug, PartialEq, Eq)]
pub struct Claims {
    pub username: Vec<u8>,
    pub userid: Vec<u8>,
    pub email: Option<Vec<u8>>,
    pub iat: u64,
    pub exp: u64,
}

/// The mathematical shape of a claims value.
pub ghost struct ClaimsV {
    pub username: Seq<u8>,
    pub userid: Seq<u8>,
    pub email: Option<Seq<u8>>,
    pub iat: u64,
    pub exp: u64,
}

impl View for Claims {
    type V = ClaimsV;

    open spec fn view(&self) -> ClaimsV {
        ClaimsV {
            username: self.username@,
            userid: self.userid@,
            email: match self.email {
                Some(e) => Some(e@),
                None => None,
            },
            iat: self.iat,
            exp: self.exp,
        }
    }
}

/// A claims value is well formed when it does not expire before it was
/// issued.
pub open spec fn claims_wf(c: ClaimsV) -> bool {
    c.iat <= c.exp
}

} // verus!
