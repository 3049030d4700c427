//! The token payload: a claims mapping written as one fixed-shape object
//! with the fields `username`, `userid`, `email` (nullable), `iat` and
//! `exp`, and its strict reader, with a proved round trip.
use vstd::prelude::*;
use crate::claims::{Claims, ClaimsV};
use crate::textenc::{
    esc, parse_string_body, dec_digits, parse_dec, is_digit, lemma_parse_esc, lemma_parse_dec,
    push_escaped, push_dec, parse_string_at, parse_dec_at,
};

verus! {

/// `{"username":"`
pub open spec fn lit_user() -> Seq<u8> {
    seq![123u8, 34u8, 117u8, 115u8, 101u8, 114u8, 110u8, 97u8, 109u8, 101u8, 34u8, 58u8, 34u8]
}

/// `,"userid":"`
pub open spec fn lit_userid() -> Seq<u8> {
    seq![44u8, 34u8, 117u8, 115u8, 101u8, 114u8, 105u8, 100u8, 34u8, 58u8, 34u8]
}

/// `,"email":`
pub open spec fn lit_email() -> Seq<u8> {
    seq![44u8, 34u8, 101u8, 109u8, 97u8, 105u8, 108u8, 34u8, 58u8]
}

/// `null`
pub open spec fn lit_null() -> Seq<u8> {
    seq![110u8, 117u8, 108u8, 108u8]
}

/// `,"iat":`
pub open spec fn lit_iat() -> Seq<u8> {
    seq![44u8, 34u8, 105u8, 97u8, 116u8, 34u8, 58u8]
}

/// `,"exp":`
pub open spec fn lit_exp() -> Seq<u8> {
    seq![44u8, 34u8, 101u8, 120u8, 112u8, 34u8, 58u8]
}

/// Consumes an expected literal from the head of `s`.
pub open spec fn expect_lit(s: Seq<u8>, lit: Seq<u8>) -> Option<Seq<u8>> {
    if lit.len() <= s.len() && s.take(lit.len() as int) == lit {
        Some(s.skip(lit.len() as int))
    } else {
        None
    }
}

pub proof fn lemma_expect_lit(lit: Seq<u8>, rest: Seq<u8>)
    ensures
        expect_lit(lit + rest, lit) == Some(rest),
{
    let s = lit + rest;
    assert(s.take(lit.len() as int) =~= lit);
    assert(s.skip(lit.len() as int) =~= rest);
}

/// How the optional email field is written: `null` or a quoted string.
pub open spec fn email_json(e: Option<Seq<u8>>) -> Seq<u8> {
    match e {
        None => lit_null(),
        Some(s) => seq![34u8] + esc(s) + seq![34u8],
    }
}

/// The payload bytes of a claims value.
pub open spec fn claims_json(c: ClaimsV) -> Seq<u8> {
    lit_user() + esc(c.username) + seq![34u8] + lit_userid() + esc(c.userid) + seq![34u8]
        + lit_email() + email_json(c.email) + lit_iat() + dec_digits(c.iat as nat) + lit_exp()
        + dec_digits(c.exp as nat) + seq![125u8]
}

/// Reads the email field: a quoted string or the `null` literal.
pub open spec fn parse_email(s: Seq<u8>) -> Option<(Option<Seq<u8>>, Seq<u8>)> {
    if s.len() >= 1 && s[0] == 34 {
        match parse_string_body(s.skip(1)) {
            Some((e, r)) => Some((Some(e), r)),
            None => None,
        }
    } else {
        match expect_lit(s, lit_null()) {
            Some(r) => Some((Option::<Seq<u8>>::None, r)),
            None => None,
        }
    }
}

/// Reads a whole payload strictly: the exact field order the writer uses,
/// nothing before the opening brace and nothing after the closing one.
pub open spec fn parse_claims_bytes(p: Seq<u8>) -> Option<ClaimsV> {
    match expect_lit(p, lit_user()) {
        None => None,
        Some(s1) => match parse_string_body(s1) {
            None => None,
            Some((username, s2)) => match expect_lit(s2, lit_userid()) {
                None => None,
                Some(s3) => match parse_string_body(s3) {
                    None => None,
                    Some((userid, s4)) => match expect_lit(s4, lit_email()) {
                        None => None,
                        Some(s5) => match parse_email(s5) {
                            None => None,
                            Some((email, s6)) => match expect_lit(s6, lit_iat()) {
                                None => None,
                                Some(s7) => match parse_dec(s7) {
                                    None => None,
                                    Some((iat, s8)) => match expect_lit(s8, lit_exp()) {
                                        None => None,
                                        Some(s9) => match parse_dec(s9) {
                                            None => None,
                                            Some((exp, s10)) => if s10 == seq![125u8] {
                                                Some(ClaimsV { username, userid, email, iat, exp })
                                            } else {
                                                None
                                            },
                                        },
                                    },
                                },
                            },
                        },
                    },
                },
            },
        },
    }
}

/// Reading back a written payload yields exactly the claims it was written
/// from.
#[verifier::rlimit(100)]
pub proof fn lemma_parse_claims_json(c: ClaimsV)
    ensures
        parse_claims_bytes(claims_json(c)) == Some(c),
{
    let t_end = seq![125u8];
    let t9 = dec_digits(c.exp as nat) + t_end;
    let t8 = lit_exp() + t9;
    let t7 = dec_digits(c.iat as nat) + t8;
    let t6 = lit_iat() + t7;
    let t5 = email_json(c.email) + t6;
    let t4 = lit_email() + t5;
    let t3 = (esc(c.userid) + seq![34u8]) + t4;
    let t2 = lit_userid() + t3;
    let t1 = (esc(c.username) + seq![34u8]) + t2;
    let p = claims_json(c);
    assert(p =~= lit_user() + t1);
    lemma_expect_lit(lit_user(), t1);
    assert(t1 =~= esc(c.username) + seq![34u8] + t2);
    lemma_parse_esc(c.username, t2);
    lemma_expect_lit(lit_userid(), t3);
    assert(t3 =~= esc(c.userid) + seq![34u8] + t4);
    lemma_parse_esc(c.userid, t4);
    lemma_expect_lit(lit_email(), t5);
    match c.email {
        None => {
            assert(t5 =~= lit_null() + t6);
            assert(t5[0] == 110);
            lemma_expect_lit(lit_null(), t6);
            assert(parse_email(t5) == Some((Option::<Seq<u8>>::None, t6)));
        },
        Some(e) => {
            assert(t5 =~= seq![34u8] + ((esc(e) + seq![34u8]) + t6));
            assert(t5[0] == 34);
            assert(t5.skip(1) =~= esc(e) + seq![34u8] + t6);
            lemma_parse_esc(e, t6);
            assert(parse_email(t5) == Some((Some(e), t6)));
        },
    }
    lemma_expect_lit(lit_iat(), t7);
    assert(t7 =~= dec_digits(c.iat as nat) + t8);
    assert(!is_digit(t8[0]));
    lemma_parse_dec(c.iat, t8);
    lemma_expect_lit(lit_exp(), t9);
    assert(t9 =~= dec_digits(c.exp as nat) + t_end);
    assert(!is_digit(t_end[0]));
    lemma_parse_dec(c.exp, t_end);
}

/// Writes the payload bytes of a claims value.
/// Appends a copy of `src` to `out`.
pub fn push_bytes(out: &mut Vec<u8>, src: &Vec<u8>)
    ensures
        final(out)@ == old(out)@ + src@,
{
    let mut k: usize = 0;
    while k < src.len()
        invariant
            k <= src@.len(),
            out@ == old(out)@ + src@.take(k as int),
        decreases src@.len() - k,
    {
        out.push(src[k]);
        proof {
            assert(src@.take(k as int + 1) =~= src@.take(k as int) + seq![src@[k as int]]);
            assert(out@ =~= old(out)@ + src@.take(k as int + 1));
        }
        k += 1;
    }
    proof {
        assert(src@.take(src@.len() as int) =~= src@);
    }
}

#[verifier::rlimit(100)]
pub fn claims_to_json(c: &Claims) -> (r: Vec<u8>)
    ensures
        r@ == claims_json(c@),
{
    let mut out: Vec<u8> = Vec::new();
    push_bytes(&mut out, &lit_user_vec());
    proof {
        assert(out@ =~= lit_user());
    }
    push_escaped(&mut out, &c.username);
    out.push(34);
    let ghost g1 = out@;
    proof {
        assert(g1 =~= lit_user() + esc(c@.username) + seq![34u8]);
    }
    push_bytes(&mut out, &lit_userid_vec());
    push_escaped(&mut out, &c.userid);
    out.push(34);
    let ghost g2 = out@;
    proof {
        assert(g2 =~= g1 + lit_userid() + esc(c@.userid) + seq![34u8]);
    }
    push_bytes(&mut out, &lit_email_vec());
    match &c.email {
        None => {
            push_bytes(&mut out, &lit_null_vec());
            proof {
                assert(out@ =~= g2 + lit_email() + email_json(c@.email));
            }
        },
        Some(e) => {
            out.push(34);
            push_escaped(&mut out, e);
            out.push(34);
            proof {
                assert(email_json(c@.email) =~= seq![34u8] + esc(e@) + seq![34u8]);
                assert(out@ =~= g2 + lit_email() + email_json(c@.email));
            }
        },
    }
    let ghost g3 = out@;
    push_bytes(&mut out, &lit_iat_vec());
    push_dec(&mut out, c.iat);
    let ghost g4 = out@;
    proof {
        assert(g4 =~= g3 + lit_iat() + dec_digits(c@.iat as nat));
    }
    push_bytes(&mut out, &lit_exp_vec());
    push_dec(&mut out, c.exp);
    out.push(125);
    proof {
        assert(out@ =~= g4 + lit_exp() + dec_digits(c@.exp as nat) + seq![125u8]);
        assert(out@ =~= claims_json(c@));
    }
    out
}

fn expect_at(v: &Vec<u8>, i: usize, lit: &Vec<u8>) -> (r: Option<usize>)
    requires
        i <= v@.len(),
    ensures
        match r {
            Some(j) => i <= j <= v@.len() && expect_lit(v@.skip(i as int), lit@) == Some(
                v@.skip(j as int),
            ),
            None => expect_lit(v@.skip(i as int), lit@) is None,
        },
{
    let n = v.len();
    let m = lit.len();
    if n - i < m {
        proof {
            assert(v@.skip(i as int).len() < lit@.len());
        }
        return None;
    }
    let mut k: usize = 0;
    while k < m
        invariant
            i <= v@.len(),
            n == v@.len(),
            m == lit@.len(),
            m <= n - i,
            k <= m,
            forall|t: int| 0 <= t < k ==> v@[i + t] == lit@[t],
        decreases m - k,
    {
        if v[i + k] != lit[k] {
            proof {
                let s = v@.skip(i as int);
                assert(s.take(m as int)[k as int] == v@[i + k]);
                assert(s.take(m as int) != lit@);
            }
            return None;
        }
        k += 1;
    }
    proof {
        let s = v@.skip(i as int);
        assert(s.take(m as int) =~= lit@);
    }
    Some(i + m)
}

fn lit_userid_vec() -> (r: Vec<u8>)
    ensures
        r@ == lit_userid(),
{
    let mut v: Vec<u8> = Vec::new();
    v.push(44);
    v.push(34);
    v.push(117);
    v.push(115);
    v.push(101);
    v.push(114);
    v.push(105);
    v.push(100);
    v.push(34);
    v.push(58);
    v.push(34);
    proof {
        assert(v@ =~= lit_userid());
    }
    v
}

fn lit_user_vec() -> (r: Vec<u8>)
    ensures
        r@ == lit_user(),
{
    let mut v: Vec<u8> = Vec::new();
    v.push(123);
    v.push(34);
    v.push(117);
    v.push(115);
    v.push(101);
    v.push(114);
    v.push(110);
    v.push(97);
    v.push(109);
    v.push(101);
    v.push(34);
    v.push(58);
    v.push(34);
    proof {
        assert(v@ =~= lit_user());
    }
    v
}

fn lit_email_vec() -> (r: Vec<u8>)
    ensures
        r@ == lit_email(),
{
    let mut v: Vec<u8> = Vec::new();
    v.push(44);
    v.push(34);
    v.push(101);
    v.push(109);
    v.push(97);
    v.push(105);
    v.push(108);
    v.push(34);
    v.push(58);
    proof {
        assert(v@ =~= lit_email());
    }
    v
}

fn lit_null_vec() -> (r: Vec<u8>)
    ensures
        r@ == lit_null(),
{
    let mut v: Vec<u8> = Vec::new();
    v.push(110);
    v.push(117);
    v.push(108);
    v.push(108);
    proof {
        assert(v@ =~= lit_null());
    }
    v
}

fn lit_iat_vec() -> (r: Vec<u8>)
    ensures
        r@ == lit_iat(),
{
    let mut v: Vec<u8> = Vec::new();
    v.push(44);
    v.push(34);
    v.push(105);
    v.push(97);
    v.push(116);
    v.push(34);
    v.push(58);
    proof {
        assert(v@ =~= lit_iat());
    }
    v
}

fn lit_exp_vec() -> (r: Vec<u8>)
    ensures
        r@ == lit_exp(),
{
    let mut v: Vec<u8> = Vec::new();
    v.push(44);
    v.push(34);
    v.push(101);
    v.push(120);
    v.push(112);
    v.push(34);
    v.push(58);
    proof {
        assert(v@ =~= lit_exp());
    }
    v
}

/// Reads a whole payload strictly; yields the claims exactly when the bytes
/// are a written claims mapping.
pub fn parse_claims(p: &Vec<u8>) -> (r: Option<Claims>)
    ensures
        match r {
            Some(c) => parse_claims_bytes(p@) == Some(c@),
            None => parse_claims_bytes(p@) is None,
        },
{
    let n = p.len();
    proof {
        assert(p@.skip(0) =~= p@);
    }
    let i1 = match expect_at(p, 0, &lit_user_vec()) {
        Some(j) => j,
        None => {
            return None;
        },
    };
    let (username, i2) = match parse_string_at(p, i1) {
        Some(t) => t,
        None => {
            return None;
        },
    };
    let i3 = match expect_at(p, i2, &lit_userid_vec()) {
        Some(j) => j,
        None => {
            return None;
        },
    };
    let (userid, i4) = match parse_string_at(p, i3) {
        Some(t) => t,
        None => {
            return None;
        },
    };
    let i5 = match expect_at(p, i4, &lit_email_vec()) {
        Some(j) => j,
        None => {
            return None;
        },
    };
    let ghost s5 = p@.skip(i5 as int);
    let (email, i6): (Option<Vec<u8>>, usize) = if i5 < n && p[i5] == 34 {
        proof {
            assert(s5[0] == 34 && s5.len() >= 1);
            assert(s5.skip(1) =~= p@.skip(i5 as int + 1));
        }
        match parse_string_at(p, i5 + 1) {
            Some((e, j)) => (Some(e), j),
            None => {
                return None;
            },
        }
    } else {
        proof {
            if i5 < n {
                assert(s5[0] != 34);
            } else {
                assert(s5.len() == 0);
            }
        }
        match expect_at(p, i5, &lit_null_vec()) {
            Some(j) => (None, j),
            None => {
                return None;
            },
        }
    };
    let ghost email_v: Option<Seq<u8>> = match email {
        Some(ref e) => Some(e@),
        None => None,
    };
    proof {
        assert(parse_email(s5) == Some((email_v, p@.skip(i6 as int))));
    }
    let i7 = match expect_at(p, i6, &lit_iat_vec()) {
        Some(j) => j,
        None => {
            return None;
        },
    };
    let (iat, i8) = match parse_dec_at(p, i7) {
        Some(t) => t,
        None => {
            return None;
        },
    };
    let i9 = match expect_at(p, i8, &lit_exp_vec()) {
        Some(j) => j,
        None => {
            return None;
        },
    };
    let (exp, i10) = match parse_dec_at(p, i9) {
        Some(t) => t,
        None => {
            return None;
        },
    };
    if i10 < n && p[i10] == 125 && i10 + 1 == n {
        proof {
            assert(p@.skip(i10 as int) =~= seq![125u8]);
        }
        Some(Claims { username, userid, email, iat, exp })
    } else {
        proof {
            let s10 = p@.skip(i10 as int);
            if i10 == n {
                assert(s10.len() == 0);
                assert(s10 != seq![125u8]);
            } else if p@[i10 as int] != 125 {
                assert(s10[0] != 125);
                assert(s10 != seq![125u8]);
            } else {
                assert(s10.len() >= 2);
                assert(s10 != seq![125u8]);
            }
        }
        None
    }
}

} // verus!
