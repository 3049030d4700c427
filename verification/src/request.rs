//! Bearer credential extraction and the authorization gate every protected
//! request passes through.
use vstd::prelude::*;
use crate::bytes::sub_vec;
use crate::claims::{Claims, ClaimsV};
use crate::token::{spec_verify_token, compare_jwt};

verus! {

/// How reading the credential header can fail: absent, not bearer-shaped,
/// or bearer-shaped with nothing after the scheme.
#[derive(Clone, Copy, PartialEq, Eq, Structural, Debug)]
pub enum ExtractError {
    MissingHeader,
    MalformedScheme,
    EmptyToken,
}

/// The one outward split of authentication failures: header-shape problems
/// are a bad request, everything about the token itself is unauthorized.
#[derive(Clone, Copy, PartialEq, Eq, Structural, Debug)]
pub enum AuthError {
    BadRequest,
    Unauthorized,
}

pub open spec fn is_blank(b: u8) -> bool {
    b == 32 || b == 9
}

pub open spec fn lower_byte(b: u8) -> u8 {
    if 65 <= b <= 90 {
        (b + 32) as u8
    } else {
        b
    }
}

/// The header value starts, case-insensitively, with the bearer scheme.
pub open spec fn scheme_ok(v: Seq<u8>) -> bool {
    v.len() >= 6 && lower_byte(v[0]) == 98 && lower_byte(v[1]) == 101 && lower_byte(v[2]) == 97
        && lower_byte(v[3]) == 114 && lower_byte(v[4]) == 101 && lower_byte(v[5]) == 114
}

pub open spec fn trim_front(s: Seq<u8>) -> Seq<u8>
    decreases s.len(),
{
    if s.len() > 0 && is_blank(s[0]) {
        trim_front(s.skip(1))
    } else {
        s
    }
}

pub open spec fn trim_back(s: Seq<u8>) -> Seq<u8>
    decreases s.len(),
{
    if s.len() > 0 && is_blank(s.last()) {
        trim_back(s.drop_last())
    } else {
        s
    }
}

pub open spec fn trim(s: Seq<u8>) -> Seq<u8> {
    trim_back(trim_front(s))
}

/// What extracting the raw token from an optional credential header yields:
/// the trimmed remainder after a case-insensitive, space-delimited bearer
/// scheme, or the exact failure kind.
pub open spec fn spec_extract(h: Option<Seq<u8>>) -> Result<Seq<u8>, ExtractError> {
    match h {
        None => Err(ExtractError::MissingHeader),
        Some(v) => {
            if !scheme_ok(v) {
                Err(ExtractError::MalformedScheme)
            } else if v.len() > 6 && !is_blank(v[6]) {
                Err(ExtractError::MalformedScheme)
            } else {
                let t = trim(v.skip(6));
                if t.len() == 0 {
                    Err(ExtractError::EmptyToken)
                } else {
                    Ok(t)
                }
            }
        },
    }
}

pub open spec fn opt_bytes(h: Option<&Vec<u8>>) -> Option<Seq<u8>> {
    match h {
        None => None,
        Some(v) => Some(v@),
    }
}

proof fn lemma_trim_front_skips(s: Seq<u8>, k: int)
    requires
        0 <= k <= s.len(),
        forall|j: int| 0 <= j < k ==> is_blank(#[trigger] s[j]),
        k < s.len() ==> !is_blank(s[k]),
    ensures
        trim_front(s) == s.skip(k),
    decreases k,
{
    if k == 0 {
        if s.len() > 0 {
            assert(!is_blank(s[0]));
        }
        assert(s.skip(0) =~= s);
    } else {
        assert(is_blank(s[0]));
        assert(forall|j: int| 0 <= j < k - 1 ==> s.skip(1)[j] == s[j + 1]);
        assert(k - 1 < s.skip(1).len() ==> s.skip(1)[k - 1] == s[k]);
        lemma_trim_front_skips(s.skip(1), k - 1);
        assert(s.skip(1).skip(k - 1) =~= s.skip(k));
    }
}

proof fn lemma_trim_back_takes(s: Seq<u8>, e: int)
    requires
        0 <= e <= s.len(),
        forall|j: int| e <= j < s.len() ==> is_blank(#[trigger] s[j]),
        e > 0 ==> !is_blank(s[e - 1]),
    ensures
        trim_back(s) == s.take(e),
    decreases s.len(),
{
    if e == s.len() {
        if s.len() == 0 {
            assert(s.take(e) =~= s);
        } else {
            assert(!is_blank(s.last()));
            assert(s.take(e) =~= s);
        }
    } else {
        assert(is_blank(s.last()));
        lemma_trim_back_takes(s.drop_last(), e);
        assert(s.drop_last().take(e) =~= s.take(e));
    }
}

fn lower_of(b: u8) -> (r: u8)
    ensures
        r == lower_byte(b),
{
    if 65 <= b && b <= 90 {
        b + 32
    } else {
        b
    }
}

fn is_blank_of(b: u8) -> (r: bool)
    ensures
        r == is_blank(b),
{
    b == 32 || b == 9
}

/// Extracts the raw token from an optional credential header value: the
/// value must start, case-insensitively, with the bearer scheme, delimited
/// by blank space; the trimmed remainder is the token.
pub fn extract(header: Option<&Vec<u8>>) -> (r: Result<Vec<u8>, ExtractError>)
    ensures
        match r {
            Ok(t) => spec_extract(opt_bytes(header)) == Ok::<Seq<u8>, ExtractError>(t@),
            Err(e) => spec_extract(opt_bytes(header)) == Err::<Seq<u8>, ExtractError>(e),
        },
{
    let v = match header {
        Some(v) => v,
        None => {
            return Err(ExtractError::MissingHeader);
        },
    };
    let n = v.len();
    if n < 6 {
        return Err(ExtractError::MalformedScheme);
    }
    let ok = lower_of(v[0]) == 98 && lower_of(v[1]) == 101 && lower_of(v[2]) == 97 && lower_of(
        v[3],
    ) == 114 && lower_of(v[4]) == 101 && lower_of(v[5]) == 114;
    if !ok {
        return Err(ExtractError::MalformedScheme);
    }
    if n > 6 && !is_blank_of(v[6]) {
        return Err(ExtractError::MalformedScheme);
    }
    let mut start: usize = 6;
    while start < n && is_blank_of(v[start])
        invariant
            6 <= start <= n,
            n == v@.len(),
            forall|j: int| 6 <= j < start ==> is_blank(#[trigger] v@[j]),
        decreases n - start,
    {
        start += 1;
    }
    let mut end: usize = n;
    while end > start && is_blank_of(v[end - 1])
        invariant
            start <= end <= n,
            n == v@.len(),
            forall|j: int| end <= j < n ==> is_blank(#[trigger] v@[j]),
        decreases end,
    {
        end -= 1;
    }
    proof {
        let s = v@.skip(6);
        assert(forall|j: int| 0 <= j < start - 6 ==> s[j] == v@[j + 6]);
        assert(start < n ==> s[start - 6] == v@[start as int]);
        lemma_trim_front_skips(s, start - 6);
        let s2 = s.skip(start - 6);
        assert(s2 =~= v@.skip(start as int));
        assert(forall|j: int| end - start <= j < s2.len() ==> s2[j] == v@[j + start]);
        assert(end > start ==> s2[end - start - 1] == v@[end - 1]);
        lemma_trim_back_takes(s2, end - start);
        assert(s2.take(end - start) =~= v@.subrange(start as int, end as int));
        assert(trim(s) == v@.subrange(start as int, end as int));
    }
    let t = sub_vec(v, start, end);
    if t.len() == 0 {
        Err(ExtractError::EmptyToken)
    } else {
        Ok(t)
    }
}

/// What the authorization gate yields for a request: the verified claims,
/// or a bad request for header-shape failures, or unauthorized for
/// everything about the token itself.
pub open spec fn spec_require_auth(h: Option<Seq<u8>>, secret: Seq<u8>, now: u64) -> Result<
    ClaimsV,
    AuthError,
> {
    match spec_extract(h) {
        Err(_) => Err(AuthError::BadRequest),
        Ok(t) => match spec_verify_token(t, secret, now) {
            Err(_) => Err(AuthError::Unauthorized),
            Ok(c) => Ok(c),
        },
    }
}

/// The single entry point of every protected operation: extracts the bearer
/// token and verifies it, collapsing all internal failure detail into the
/// two outward kinds. A request with no credential header is always a bad
/// request, never merely unauthorized.
pub fn require_auth(header: Option<&Vec<u8>>, secret: &Vec<u8>, now: u64) -> (r: Result<
    Claims,
    AuthError,
>)
    ensures
        match r {
            Ok(c) => spec_require_auth(opt_bytes(header), secret@, now) == Ok::<ClaimsV, AuthError>(
                c@,
            ),
            Err(e) => spec_require_auth(opt_bytes(header), secret@, now) == Err::<
                ClaimsV,
                AuthError,
            >(e),
        },
        header is None ==> r == Err::<Claims, AuthError>(AuthError::BadRequest),
{
    let token = match extract(header) {
        Ok(t) => t,
        Err(_) => {
            return Err(AuthError::BadRequest);
        },
    };
    match compare_jwt(&token, secret, now) {
        Ok(c) => Ok(c),
        Err(_) => Err(AuthError::Unauthorized),
    }
}

/// A bearer header carrying `t`: the scheme, one space, the token.
pub open spec fn bearer_header(t: Seq<u8>) -> Seq<u8> {
    seq![66u8, 101u8, 97u8, 114u8, 101u8, 114u8, 32u8] + t
}

/// Any byte string that verifies as a token, presented as a bearer
/// credential, is accepted by `require_auth` with exactly the verified
/// claims, provided its ends are not blank (token segments never are).
pub proof fn lemma_gate_accepts_token(t: Seq<u8>, secret: Seq<u8>, now: u64, c: ClaimsV)
    requires
        spec_verify_token(t, secret, now) == Ok::<ClaimsV, crate::token::VerifyError>(c),
        t.len() > 0,
        !is_blank(t[0]),
        !is_blank(t.last()),
    ensures
        spec_require_auth(Some(bearer_header(t)), secret, now) == Ok::<ClaimsV, AuthError>(c),
{
    let v = bearer_header(t);
    assert(lower_byte(v[0]) == 98 && lower_byte(v[1]) == 101 && lower_byte(v[2]) == 97
        && lower_byte(v[3]) == 114 && lower_byte(v[4]) == 101 && lower_byte(v[5]) == 114);
    assert(is_blank(v[6]));
    let s = v.skip(6);
    assert(s =~= seq![32u8] + t);
    assert(forall|j: int| 0 <= j < 1 ==> is_blank(#[trigger] s[j]));
    assert(s[1] == t[0]);
    lemma_trim_front_skips(s, 1);
    assert(s.skip(1) =~= t);
    lemma_trim_back_takes(t, t.len() as int);
    assert(t.take(t.len() as int) =~= t);
    assert(spec_extract(Some(v)) == Ok::<Seq<u8>, ExtractError>(t));
}

} // verus!
