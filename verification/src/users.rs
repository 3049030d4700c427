//! Account flows around the credential store: the registration and login
//! decisions, given what the store returned, with hashing and token
//! issuance done here.
use vstd::prelude::*;
use crate::bytes::sub_vec;
use crate::ids::{random_id, id_byte_ok};
use crate::password::{encrypt, compare, bcrypt_check};
use crate::token::{create_jwt, token_of, issued_claims, TOKEN_TTL_SECONDS};

verus! {

/// A stored credential record: the digest, never the plaintext.
pub struct User {
    pub user_id: Vec<u8>,
    pub username: Vec<u8>,
    pub password: Vec<u8>,
    pub email: Option<Vec<u8>>,
    pub ip: Option<Vec<u8>>,
}

/// An identity lookup request.
pub struct CheckUser {
    pub username: Vec<u8>,
    pub email: Option<Vec<u8>>,
}

/// A registration request.
pub struct CreateUser {
    pub username: Vec<u8>,
    pub password: Vec<u8>,
    pub email: Option<Vec<u8>>,
}

/// A login request.
pub struct LogUser {
    pub username: Vec<u8>,
    pub password: Vec<u8>,
}

/// How the account flows fail, for the boundary to map onto statuses.
#[derive(Clone, Copy, PartialEq, Eq, Structural, Debug)]
pub enum HandlerError {
    NotFound,
    Unauthorized,
    Internal,
    Conflict,
}

pub open spec fn opt_view(e: Option<Vec<u8>>) -> Option<Seq<u8>> {
    match e {
        Some(v) => Some(v@),
        None => None,
    }
}

fn copy_bytes(v: &Vec<u8>) -> (r: Vec<u8>)
    ensures
        r@ == v@,
{
    let r = sub_vec(v, 0, v.len());
    proof {
        assert(v@.subrange(0, v@.len() as int) =~= v@);
    }
    r
}

fn copy_email(e: &Option<Vec<u8>>) -> (r: Option<Vec<u8>>)
    ensures
        opt_view(r) == opt_view(*e),
{
    match e {
        Some(v) => Some(copy_bytes(v)),
        None => None,
    }
}

/// The login decision on what the store returned for the requested name: no
/// record is not found, a failed check is unauthorized, a digest the hasher
/// cannot read is an internal fault, and a successful check issues a fresh
/// token for the stored identity.
pub fn log_in(req: &LogUser, stored: Option<&User>, secret: &Vec<u8>, now: u64) -> (r: Result<
    Vec<u8>,
    HandlerError,
>)
    requires
        now + TOKEN_TTL_SECONDS <= u64::MAX,
    ensures
        match stored {
            None => r == Err::<Vec<u8>, HandlerError>(HandlerError::NotFound),
            Some(u) => match bcrypt_check(req.password@, u.password@) {
                None => r == Err::<Vec<u8>, HandlerError>(HandlerError::Internal),
                Some(false) => r == Err::<Vec<u8>, HandlerError>(HandlerError::Unauthorized),
                Some(true) => r matches Ok(t) && t@ == token_of(
                    issued_claims(req.username@, u.user_id@, opt_view(u.email), now),
                    secret@,
                ),
            },
        },
{
    let u = match stored {
        Some(u) => u,
        None => {
            return Err(HandlerError::NotFound);
        },
    };
    let authenticated = match compare(&req.password, &u.password) {
        Ok(b) => b,
        Err(_) => {
            return Err(HandlerError::Internal);
        },
    };
    if !authenticated {
        return Err(HandlerError::Unauthorized);
    }
    let token = create_jwt(
        copy_bytes(&req.username),
        copy_bytes(&u.user_id),
        copy_email(&u.email),
        secret,
        now,
    );
    Ok(token)
}

/// The registration decision once the store has said whether the name is
/// taken: a taken name is a conflict; otherwise the password is hashed, a
/// fresh identifier drawn, and the record to insert is returned with a
/// token for it. Only a hashing fault fails past the conflict check.
pub fn create_user(req: &CreateUser, user_exists: bool, secret: &Vec<u8>, now: u64) -> (r: Result<
    (User, Vec<u8>),
    HandlerError,
>)
    requires
        now + TOKEN_TTL_SECONDS <= u64::MAX,
    ensures
        user_exists ==> r == Err::<(User, Vec<u8>), HandlerError>(HandlerError::Conflict),
        match r {
            Ok((u, t)) => !user_exists && u.username@ == req.username@ && bcrypt_check(
                req.password@,
                u.password@,
            ) == Some(true) && u.user_id@.len() == 24 && (forall|i: int|
                0 <= i < 24 ==> id_byte_ok(#[trigger] u.user_id@[i])) && opt_view(u.email)
                == opt_view(req.email) && u.ip is None && t@ == token_of(
                issued_claims(req.username@, u.user_id@, opt_view(req.email), now),
                secret@,
            ),
            Err(e) => (user_exists && e == HandlerError::Conflict) || (!user_exists && e
                == HandlerError::Internal),
        },
{
    if user_exists {
        return Err(HandlerError::Conflict);
    }
    let digest = match encrypt(&req.password) {
        Ok(d) => d,
        Err(_) => {
            return Err(HandlerError::Internal);
        },
    };
    let userid = random_id();
    let email = copy_email(&req.email);
    let token = create_jwt(
        copy_bytes(&req.username),
        copy_bytes(&userid),
        copy_email(&req.email),
        secret,
        now,
    );
    let u = User {
        user_id: userid,
        username: copy_bytes(&req.username),
        password: digest,
        email,
        ip: None,
    };
    Ok((u, token))
}

} // verus!
