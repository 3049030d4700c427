//! Issuance and verification of signed, time-bounded session tokens: the
//! compact form is `header.payload.signature`, each segment unpadded
//! base64url, the signature an HMAC tag over the first two segments under
//! the process secret.
use vstd::prelude::*;
use crate::b64url::{
    b64_encode, b64_decode, b64url_encode, b64url_decode, is_b64_byte, lemma_encode_alphabet,
    lemma_encode_decode, lemma_b64_byte_shape,
};
use crate::bytes::{bytes_eq, sub_vec};
use crate::claims::{Claims, ClaimsV, claims_wf};
use crate::payload::{claims_json, parse_claims_bytes, claims_to_json, parse_claims, push_bytes};

verus! {

/// Fixed issuance policy: a token lives this many seconds past its
/// issuance instant.
pub const TOKEN_TTL_SECONDS: u64 = 3600;

/// How a token's verification can fail. The kinds are internal: callers at
/// the request boundary collapse them into one unauthenticated outcome.
#[derive(Clone, Copy, PartialEq, Eq, Structural, Debug)]
pub enum VerifyError {
    InvalidSignature,
    Expired,
    Malformed,
}

/// The fixed token header: `{"alg":"HS256","typ":"JWT"}`.
pub open spec fn header_json() -> Seq<u8> {
    seq![
        123u8, 34u8, 97u8, 108u8, 103u8, 34u8, 58u8, 34u8, 72u8, 83u8, 50u8, 53u8, 54u8, 34u8,
        44u8, 34u8, 116u8, 121u8, 112u8, 34u8, 58u8, 34u8, 74u8, 87u8, 84u8, 34u8, 125u8,
    ]
}

pub open spec fn header_b64() -> Seq<u8> {
    b64_encode(header_json())
}

/// The base64url HMAC-SHA256 tag of `msg` under `secret`, as the signing
/// call returns it.
pub uninterp spec fn mac_sig_of(msg: Seq<u8>, secret: Seq<u8>) -> Seq<u8>;

/// Relies on jsonwebtoken::crypto::sign with the HS256 algorithm: the
/// returned signature is the unpadded base64url form of the HMAC-SHA256 tag,
/// a function of the message and secret alone, and for the HMAC algorithms
/// the call never fails. A 32-byte tag yields 43 alphabet bytes.
#[verifier::external_body]
fn sign_bytes(msg: &Vec<u8>, secret: &Vec<u8>) -> (r: Vec<u8>)
    ensures
        r@ == mac_sig_of(msg@, secret@),
        r@.len() == 43,
        forall|i: int| 0 <= i < r@.len() ==> is_b64_byte(#[trigger] r@[i]),
{
    let key = jsonwebtoken::EncodingKey::from_secret(secret.as_slice());
    match jsonwebtoken::crypto::sign(msg.as_slice(), &key, jsonwebtoken::Algorithm::HS256) {
        Ok(s) => s.into_bytes(),
        Err(_) => Vec::new(),
    }
}

/// The two signed segments of a token for given claims.
pub open spec fn signing_input(c: ClaimsV) -> Seq<u8> {
    header_b64() + seq![46u8] + b64_encode(claims_json(c))
}

/// The full compact token for given claims under a secret.
pub open spec fn token_of(c: ClaimsV, secret: Seq<u8>) -> Seq<u8> {
    signing_input(c) + seq![46u8] + mac_sig_of(signing_input(c), secret)
}

/// The claims a fresh token carries: issued now, expiring one TTL later.
pub open spec fn issued_claims(
    username: Seq<u8>,
    userid: Seq<u8>,
    email: Option<Seq<u8>>,
    now: u64,
) -> ClaimsV {
    ClaimsV {
        username,
        userid,
        email,
        iat: now,
        exp: (now + TOKEN_TTL_SECONDS) as u64,
    }
}

/// The first position of `b` in `s`.
pub open spec fn find_byte(s: Seq<u8>, b: u8) -> Option<int>
    decreases s.len(),
{
    if s.len() == 0 {
        None
    } else if s[0] == b {
        Some(0)
    } else {
        match find_byte(s.skip(1), b) {
            Some(i) => Some(i + 1),
            None => None,
        }
    }
}

pub proof fn lemma_find_byte_at(s: Seq<u8>, b: u8, j: int)
    requires
        0 <= j < s.len(),
        s[j] == b,
        forall|k: int| 0 <= k < j ==> s[k] != b,
    ensures
        find_byte(s, b) == Some(j),
    decreases j,
{
    if j == 0 {
    } else {
        assert(forall|k: int| 0 <= k < j - 1 ==> s.skip(1)[k] == s[k + 1]);
        lemma_find_byte_at(s.skip(1), b, j - 1);
    }
}

pub proof fn lemma_find_byte_none(s: Seq<u8>, b: u8)
    requires
        forall|k: int| 0 <= k < s.len() ==> s[k] != b,
    ensures
        find_byte(s, b) == None::<int>,
    decreases s.len(),
{
    if s.len() > 0 {
        assert(forall|k: int| 0 <= k < s.skip(1).len() ==> s.skip(1)[k] == s[k + 1]);
        lemma_find_byte_none(s.skip(1), b);
    }
}

/// What verifying a byte string as a token yields: the claims exactly when
/// the string is a well-signed, well-formed, unexpired token under the
/// secret, and the failure kind otherwise. Pure in the token, the secret
/// and the given instant.
pub open spec fn spec_verify_token(t: Seq<u8>, secret: Seq<u8>, now: u64) -> Result<
    ClaimsV,
    VerifyError,
> {
    match find_byte(t, 46) {
        None => Err(VerifyError::Malformed),
        Some(d1) => match find_byte(t.skip(d1 + 1), 46) {
            None => Err(VerifyError::Malformed),
            Some(rel) => {
                let d2 = d1 + 1 + rel;
                if t.take(d1) != header_b64() {
                    Err(VerifyError::Malformed)
                } else if t.skip(d2 + 1) != mac_sig_of(t.take(d2), secret) {
                    Err(VerifyError::InvalidSignature)
                } else {
                    match b64_decode(t.subrange(d1 + 1, d2)) {
                        None => Err(VerifyError::Malformed),
                        Some(p) => match parse_claims_bytes(p) {
                            None => Err(VerifyError::Malformed),
                            Some(c) => if c.iat > c.exp {
                                Err(VerifyError::Malformed)
                            } else if now > c.exp {
                                Err(VerifyError::Expired)
                            } else {
                                Ok(c)
                            },
                        },
                    }
                }
            },
        },
    }
}

fn header_json_vec() -> (r: Vec<u8>)
    ensures
        r@ == header_json(),
{
    let mut v: Vec<u8> = Vec::new();
    v.push(123);
    v.push(34);
    v.push(97);
    v.push(108);
    v.push(103);
    v.push(34);
    v.push(58);
    v.push(34);
    v.push(72);
    v.push(83);
    v.push(50);
    v.push(53);
    v.push(54);
    v.push(34);
    v.push(44);
    v.push(34);
    v.push(116);
    v.push(121);
    v.push(112);
    v.push(34);
    v.push(58);
    v.push(34);
    v.push(74);
    v.push(87);
    v.push(84);
    v.push(34);
    v.push(125);
    proof {
        assert(v@ =~= header_json());
    }
    v
}

/// Issues a signed token for the given identity: issued at `now`, expiring
/// one TTL later, signed under `secret`.
pub fn create_jwt(
    user: Vec<u8>,
    id: Vec<u8>,
    email: Option<Vec<u8>>,
    secret: &Vec<u8>,
    now: u64,
) -> (r: Vec<u8>)
    requires
        now + TOKEN_TTL_SECONDS <= u64::MAX,
    ensures
        r@ == token_of(
            issued_claims(
                user@,
                id@,
                match email {
                    Some(e) => Some(e@),
                    None => None,
                },
                now,
            ),
            secret@,
        ),
{
    let ghost cv = issued_claims(
        user@,
        id@,
        match email {
            Some(ref e) => Some(e@),
            None => None,
        },
        now,
    );
    let exp = now + TOKEN_TTL_SECONDS;
    let c = Claims { username: user, userid: id, email, iat: now, exp };
    proof {
        assert(c@ == cv);
    }
    let payload = claims_to_json(&c);
    let p64 = b64url_encode(&payload);
    let hj = header_json_vec();
    let mut msg = b64url_encode(&hj);
    msg.push(46);
    push_bytes(&mut msg, &p64);
    proof {
        assert(msg@ =~= signing_input(cv));
    }
    let sig = sign_bytes(&msg, secret);
    let mut tok = msg;
    tok.push(46);
    push_bytes(&mut tok, &sig);
    proof {
        assert(tok@ =~= token_of(cv, secret@));
    }
    tok
}

/// Finds the first `b` at or after `from`, with the spec-level meaning on
/// the remaining suffix.
fn find_byte_from(v: &Vec<u8>, from: usize, b: u8) -> (r: Option<usize>)
    requires
        from <= v@.len(),
    ensures
        match r {
            Some(j) => from <= j < v@.len() && find_byte(v@.skip(from as int), b) == Some(
                j - from as int,
            ),
            None => find_byte(v@.skip(from as int), b) == None::<int>,
        },
{
    let n = v.len();
    let mut k: usize = from;
    while k < n
        invariant
            from <= k <= n,
            n == v@.len(),
            forall|t: int| from <= t < k ==> v@[t] != b,
        decreases n - k,
    {
        if v[k] == b {
            proof {
                let s = v@.skip(from as int);
                assert(s[k - from as int] == b);
                assert(forall|t: int| 0 <= t < k - from as int ==> s[t] != b);
                lemma_find_byte_at(s, b, k - from as int);
            }
            return Some(k);
        }
        k += 1;
    }
    proof {
        let s = v@.skip(from as int);
        assert(forall|t: int| 0 <= t < s.len() ==> s[t] != b);
        lemma_find_byte_none(s, b);
    }
    None
}

/// Verifies a compact token under `secret` at instant `now` and yields its
/// claims, exactly as the verification function on byte strings says.
pub fn compare_jwt(token: &Vec<u8>, secret: &Vec<u8>, now: u64) -> (r: Result<Claims, VerifyError>)
    ensures
        match r {
            Ok(c) => spec_verify_token(token@, secret@, now) == Ok::<ClaimsV, VerifyError>(c@),
            Err(e) => spec_verify_token(token@, secret@, now) == Err::<ClaimsV, VerifyError>(e),
        },
{
    let n = token.len();
    proof {
        assert(token@.skip(0) =~= token@);
    }
    let d1 = match find_byte_from(token, 0, 46) {
        Some(j) => j,
        None => {
            return Err(VerifyError::Malformed);
        },
    };
    let d2 = match find_byte_from(token, d1 + 1, 46) {
        Some(j) => j,
        None => {
            return Err(VerifyError::Malformed);
        },
    };
    let header = sub_vec(token, 0, d1);
    proof {
        assert(header@ =~= token@.take(d1 as int));
    }
    let hj = header_json_vec();
    let h64 = b64url_encode(&hj);
    if !bytes_eq(&header, &h64) {
        return Err(VerifyError::Malformed);
    }
    let msg = sub_vec(token, 0, d2);
    proof {
        assert(msg@ =~= token@.take(d2 as int));
    }
    let sig = sub_vec(token, d2 + 1, n);
    proof {
        assert(sig@ =~= token@.skip(d2 as int + 1));
    }
    let computed = sign_bytes(&msg, secret);
    if !bytes_eq(&sig, &computed) {
        return Err(VerifyError::InvalidSignature);
    }
    let p64 = sub_vec(token, d1 + 1, d2);
    let payload = match b64url_decode(&p64) {
        Some(p) => p,
        None => {
            return Err(VerifyError::Malformed);
        },
    };
    let c = match parse_claims(&payload) {
        Some(c) => c,
        None => {
            return Err(VerifyError::Malformed);
        },
    };
    if c.iat > c.exp {
        return Err(VerifyError::Malformed);
    }
    if now > c.exp {
        return Err(VerifyError::Expired);
    }
    Ok(c)
}

proof fn lemma_verify_token_of(c: ClaimsV, secret: Seq<u8>, now: u64)
    requires
        claims_wf(c),
    ensures
        spec_verify_token(token_of(c, secret), secret, now) == (if now > c.exp {
            Err::<ClaimsV, VerifyError>(VerifyError::Expired)
        } else {
            Ok::<ClaimsV, VerifyError>(c)
        }),
{
    let hb = header_b64();
    let p64 = b64_encode(claims_json(c));
    let si = signing_input(c);
    let sig = mac_sig_of(si, secret);
    let t = token_of(c, secret);
    lemma_encode_alphabet(header_json());
    lemma_encode_alphabet(claims_json(c));
    assert(forall|k: int| 0 <= k < hb.len() ==> hb[k] != 46) by {
        assert forall|k: int| 0 <= k < hb.len() implies hb[k] != 46 by {
            lemma_b64_byte_shape(hb[k]);
        }
    }
    assert(forall|k: int| 0 <= k < p64.len() ==> p64[k] != 46) by {
        assert forall|k: int| 0 <= k < p64.len() implies p64[k] != 46 by {
            lemma_b64_byte_shape(p64[k]);
        }
    }
    let d1 = hb.len() as int;
    assert(t[d1] == 46 && forall|k: int| 0 <= k < d1 ==> t[k] == hb[k]);
    lemma_find_byte_at(t, 46, d1);
    let s2 = t.skip(d1 + 1);
    assert(s2 =~= p64 + seq![46u8] + sig);
    assert(s2[p64.len() as int] == 46 && forall|k: int| 0 <= k < p64.len() ==> s2[k] == p64[k]);
    lemma_find_byte_at(s2, 46, p64.len() as int);
    let d2 = d1 + 1 + p64.len() as int;
    assert(t.take(d1) =~= hb);
    assert(t.take(d2) =~= si);
    assert(t.skip(d2 + 1) =~= sig);
    assert(t.subrange(d1 + 1, d2) =~= p64);
    lemma_encode_decode(claims_json(c));
    crate::payload::lemma_parse_claims_json(c);
}

/// Verifying a token before its expiry yields exactly the claims it was
/// issued with: the issue/verify round trip.
pub proof fn lemma_verify_before_expiry(c: ClaimsV, secret: Seq<u8>, now: u64)
    requires
        claims_wf(c),
        now <= c.exp,
    ensures
        spec_verify_token(token_of(c, secret), secret, now) == Ok::<ClaimsV, VerifyError>(c),
{
    lemma_verify_token_of(c, secret, now);
}

/// Verifying a token at any instant past its expiry fails with the expiry
/// error, whatever the claims were.
pub proof fn lemma_verify_after_expiry(c: ClaimsV, secret: Seq<u8>, now: u64)
    requires
        claims_wf(c),
        now > c.exp,
    ensures
        spec_verify_token(token_of(c, secret), secret, now) == Err::<ClaimsV, VerifyError>(
            VerifyError::Expired,
        ),
{
    lemma_verify_token_of(c, secret, now);
}

} // verus!
