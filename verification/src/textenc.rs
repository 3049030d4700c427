//! Scalar codings used inside the token payload: escaped string bodies and
//! decimal numerals, each with a proved round trip.
use vstd::prelude::*;
use vstd::arithmetic::div_mod::lemma_fundamental_div_mod;

verus! {

pub open spec fn hex_digit(x: u8) -> u8 {
    if x < 10 {
        (48 + x) as u8
    } else {
        (97 + (x - 10)) as u8
    }
}

pub open spec fn hex_val(c: u8) -> Option<u8> {
    if 48 <= c <= 57 {
        Some((c - 48) as u8)
    } else if 97 <= c <= 102 {
        Some((c - 97 + 10) as u8)
    } else {
        None
    }
}

/// How one byte of a string is written inside a quoted payload field:
/// quote and backslash get a two-byte escape, control bytes a `\u00xx`
/// escape, everything else stands as itself.
pub open spec fn esc_byte(b: u8) -> Seq<u8> {
    if b == 34 {
        seq![92u8, 34u8]
    } else if b == 92 {
        seq![92u8, 92u8]
    } else if b < 32 {
        seq![92u8, 117u8, 48u8, 48u8, hex_digit(b >> 4), hex_digit(b & 15)]
    } else {
        seq![b]
    }
}

/// The escaped body of a quoted string field.
pub open spec fn esc(s: Seq<u8>) -> Seq<u8>
    decreases s.len(),
{
    if s.len() == 0 {
        Seq::<u8>::empty()
    } else {
        esc_byte(s[0]) + esc(s.skip(1))
    }
}

pub proof fn lemma_esc_append(a: Seq<u8>, b: Seq<u8>)
    ensures
        esc(a + b) == esc(a) + esc(b),
    decreases a.len(),
{
    if a.len() == 0 {
        assert(a + b =~= b);
        assert(esc(a) + esc(b) =~= esc(b));
    } else {
        let ab = a + b;
        assert(ab[0] == a[0]);
        assert(ab.skip(1) =~= a.skip(1) + b);
        lemma_esc_append(a.skip(1), b);
        assert(esc(ab) =~= esc(a) + esc(b));
    }
}

/// Reads an escaped string body up to and including its closing quote.
/// Yields the unescaped content and what follows the quote.
pub open spec fn parse_string_body(s: Seq<u8>) -> Option<(Seq<u8>, Seq<u8>)>
    decreases s.len(),
{
    if s.len() == 0 {
        None
    } else if s[0] == 34 {
        Some((Seq::<u8>::empty(), s.skip(1)))
    } else if s[0] == 92 {
        if s.len() < 2 {
            None
        } else if s[1] == 34 || s[1] == 92 {
            match parse_string_body(s.skip(2)) {
                Some((t, r)) => Some((seq![s[1]] + t, r)),
                None => None,
            }
        } else if s[1] == 117 {
            if s.len() < 6 {
                None
            } else if s[2] == 48 && s[3] == 48 {
                match (hex_val(s[4]), hex_val(s[5])) {
                    (Some(h), Some(l)) => {
                        if ((h << 4) | l) < 32 {
                            match parse_string_body(s.skip(6)) {
                                Some((t, r)) => Some((seq![(h << 4) | l] + t, r)),
                                None => None,
                            }
                        } else {
                            None
                        }
                    },
                    _ => None,
                }
            } else {
                None
            }
        } else {
            None
        }
    } else if s[0] < 32 {
        None
    } else {
        match parse_string_body(s.skip(1)) {
            Some((t, r)) => Some((seq![s[0]] + t, r)),
            None => None,
        }
    }
}

pub proof fn lemma_hex_val_digit(x: u8)
    requires
        x < 16,
    ensures
        hex_val(hex_digit(x)) == Some(x),
{
}

/// Reading an escaped body followed by its closing quote gives back exactly
/// the original string and the trailing remainder.
pub proof fn lemma_parse_esc(u: Seq<u8>, rest: Seq<u8>)
    ensures
        parse_string_body(esc(u) + seq![34u8] + rest) == Some((u, rest)),
    decreases u.len(),
{
    if u.len() == 0 {
        let s = esc(u) + seq![34u8] + rest;
        assert(s =~= seq![34u8] + rest);
        assert(s[0] == 34);
        assert(s.skip(1) =~= rest);
        assert(Seq::<u8>::empty() =~= u);
    } else {
        let b = u[0];
        let tail = esc(u.skip(1)) + seq![34u8] + rest;
        let s = esc(u) + seq![34u8] + rest;
        assert(s =~= esc_byte(b) + tail);
        lemma_parse_esc(u.skip(1), rest);
        if b == 34 {
            assert(s[0] == 92 && s[1] == 34);
            assert(s.skip(2) =~= tail);
            assert(seq![s[1]] + u.skip(1) =~= u);
        } else if b == 92 {
            assert(s[0] == 92 && s[1] == 92);
            assert(s.skip(2) =~= tail);
            assert(seq![s[1]] + u.skip(1) =~= u);
        } else if b < 32 {
            let h = b >> 4;
            let l = b & 15;
            assert(h < 16 && l < 16 && ((h << 4) | l) == b) by (bit_vector)
                requires
                    b < 32 && h == b >> 4 && l == b & 15,
            ;
            lemma_hex_val_digit(h);
            lemma_hex_val_digit(l);
            assert(s[0] == 92 && s[1] == 117 && s[2] == 48 && s[3] == 48 && s[4] == hex_digit(h)
                && s[5] == hex_digit(l));
            assert(s.len() >= 6);
            assert(s.skip(6) =~= tail);
            assert(seq![b] + u.skip(1) =~= u);
        } else {
            assert(s[0] == b && b != 34 && b != 92 && b >= 32);
            assert(s.skip(1) =~= tail);
            assert(seq![b] + u.skip(1) =~= u);
        }
    }
}

pub open spec fn is_digit(c: u8) -> bool {
    48 <= c <= 57
}

/// The canonical decimal numeral of a number, most significant digit first.
pub open spec fn dec_digits(n: nat) -> Seq<u8>
    decreases n,
{
    if n < 10 {
        seq![(48 + n) as u8]
    } else {
        dec_digits(n / 10) + seq![(48 + n % 10) as u8]
    }
}

/// The number a digit string denotes.
pub open spec fn dec_value(s: Seq<u8>) -> nat
    decreases s.len(),
{
    if s.len() == 0 {
        0
    } else {
        dec_value(s.drop_last()) * 10 + (s.last() - 48) as nat
    }
}

pub open spec fn all_digits(s: Seq<u8>) -> bool {
    forall|i: int| 0 <= i < s.len() ==> is_digit(#[trigger] s[i])
}

pub proof fn lemma_dec_digits(n: nat)
    ensures
        dec_digits(n).len() >= 1,
        all_digits(dec_digits(n)),
        dec_value(dec_digits(n)) == n,
        n > 0 ==> dec_digits(n)[0] != 48,
        n == 0 ==> dec_digits(n) == seq![48u8],
    decreases n,
{
    if n < 10 {
        let d = dec_digits(n);
        assert(d =~= seq![(48 + n) as u8]);
        assert(d.drop_last() =~= Seq::<u8>::empty());
        assert(dec_value(Seq::<u8>::empty()) == 0);
        assert(dec_value(d) == n);
    } else {
        lemma_dec_digits(n / 10);
        lemma_fundamental_div_mod(n as int, 10);
        let d = dec_digits(n);
        let hi = dec_digits(n / 10);
        assert(d =~= hi + seq![(48 + n % 10) as u8]);
        assert(d.drop_last() =~= hi);
        assert(d.last() == (48 + n % 10) as u8);
        assert(dec_value(d) == dec_value(hi) * 10 + n % 10);
        assert(n / 10 >= 1);
        assert(d[0] == hi[0]);
        if n / 10 == 0 {
            assert(false);
        }
    }
}

pub open spec fn pow10(n: nat) -> nat
    decreases n,
{
    if n == 0 {
        1
    } else {
        10 * pow10((n - 1) as nat)
    }
}

pub proof fn lemma_dec_value_concat(a: Seq<u8>, b: Seq<u8>)
    ensures
        dec_value(a + b) == dec_value(a) * pow10(b.len()) + dec_value(b),
    decreases b.len(),
{
    if b.len() == 0 {
        assert(a + b =~= a);
        assert(pow10(0) == 1);
    } else {
        let c = b.drop_last();
        lemma_dec_value_concat(a, c);
        let ab = a + b;
        assert(ab.drop_last() =~= a + c);
        assert(ab.last() == b.last());
        assert(dec_value(ab) == dec_value(a + c) * 10 + (b.last() - 48) as nat);
        assert(dec_value(b) == dec_value(c) * 10 + (b.last() - 48) as nat);
        assert((dec_value(a) * pow10(c.len()) + dec_value(c)) * 10 == dec_value(a) * (pow10(
            c.len(),
        ) * 10) + dec_value(c) * 10) by (nonlinear_arith);
        assert(pow10(b.len()) == 10 * pow10(c.len()));
        assert(dec_value(a) * (pow10(c.len()) * 10) == dec_value(a) * pow10(b.len()))
            by (nonlinear_arith)
            requires
                pow10(b.len()) == 10 * pow10(c.len()),
        ;
    }
}

pub proof fn lemma_pow10_pos(n: nat)
    ensures
        pow10(n) >= 1,
    decreases n,
{
    if n > 0 {
        lemma_pow10_pos((n - 1) as nat);
    }
}

/// A digit string extends only upward: its value never drops when more
/// digits follow.
pub proof fn lemma_dec_value_prefix(a: Seq<u8>, b: Seq<u8>)
    ensures
        dec_value(a + b) >= dec_value(a),
{
    lemma_dec_value_concat(a, b);
    lemma_pow10_pos(b.len());
    assert(dec_value(a) * pow10(b.len()) >= dec_value(a)) by (nonlinear_arith)
        requires
            pow10(b.len()) >= 1,
    ;
}

/// The maximal digit run at the head of a byte string.
pub open spec fn digit_prefix(s: Seq<u8>) -> Seq<u8>
    decreases s.len(),
{
    if s.len() == 0 || !is_digit(s[0]) {
        Seq::<u8>::empty()
    } else {
        seq![s[0]] + digit_prefix(s.skip(1))
    }
}

pub proof fn lemma_digit_prefix_of_digits(d: Seq<u8>, rest: Seq<u8>)
    requires
        all_digits(d),
        rest.len() == 0 || !is_digit(rest[0]),
    ensures
        digit_prefix(d + rest) == d,
    decreases d.len(),
{
    if d.len() == 0 {
        assert(d + rest =~= rest);
        if rest.len() > 0 {
            assert(!is_digit(rest[0]));
        }
        assert(digit_prefix(rest) =~= Seq::<u8>::empty());
        assert(Seq::<u8>::empty() =~= d);
    } else {
        let s = d + rest;
        assert(s[0] == d[0] && is_digit(s[0]));
        assert(s.skip(1) =~= d.skip(1) + rest);
        assert(all_digits(d.skip(1))) by {
            assert(forall|i: int| 0 <= i < d.skip(1).len() ==> d.skip(1)[i] == d[i + 1]);
        }
        lemma_digit_prefix_of_digits(d.skip(1), rest);
        assert(digit_prefix(s) =~= seq![d[0]] + d.skip(1));
        assert(seq![d[0]] + d.skip(1) =~= d);
    }
}

/// Reads a canonical decimal numeral that fits the timestamp type: at least
/// one digit, no leading zero, value within range. Yields the value and the
/// remainder.
pub open spec fn parse_dec(s: Seq<u8>) -> Option<(u64, Seq<u8>)> {
    let d = digit_prefix(s);
    if d.len() == 0 {
        None
    } else if d[0] == 48 && d.len() > 1 {
        None
    } else if dec_value(d) > u64::MAX {
        None
    } else {
        Some((dec_value(d) as u64, s.skip(d.len() as int)))
    }
}

/// Reading back a written numeral gives the number and the remainder.
pub proof fn lemma_parse_dec(n: u64, rest: Seq<u8>)
    requires
        rest.len() == 0 || !is_digit(rest[0]),
    ensures
        parse_dec(dec_digits(n as nat) + rest) == Some((n, rest)),
{
    lemma_dec_digits(n as nat);
    let d = dec_digits(n as nat);
    lemma_digit_prefix_of_digits(d, rest);
    let s = d + rest;
    assert(digit_prefix(s) == d);
    if d[0] == 48 && d.len() > 1 {
        assert(n as nat > 0 ==> d[0] != 48);
        assert(n as nat == 0 ==> d.len() == 1);
        assert(false);
    }
    assert(dec_value(d) == n as nat);
    assert(s.skip(d.len() as int) =~= rest);
}

fn hex_digit_of(x: u8) -> (r: u8)
    requires
        x < 16,
    ensures
        r == hex_digit(x),
{
    if x < 10 {
        48 + x
    } else {
        97 + (x - 10)
    }
}

fn hex_val_of(c: u8) -> (r: Option<u8>)
    ensures
        r == hex_val(c),
{
    if 48 <= c && c <= 57 {
        Some(c - 48)
    } else if 97 <= c && c <= 102 {
        Some(c - 97 + 10)
    } else {
        None
    }
}

/// Appends the escaped form of `s` to `out`.
pub fn push_escaped(out: &mut Vec<u8>, s: &Vec<u8>)
    ensures
        final(out)@ == old(out)@ + esc(s@),
{
    let mut k: usize = 0;
    while k < s.len()
        invariant
            k <= s@.len(),
            out@ == old(out)@ + esc(s@.take(k as int)),
        decreases s@.len() - k,
    {
        let b = s[k];
        if b == 34 {
            out.push(92);
            out.push(34);
        } else if b == 92 {
            out.push(92);
            out.push(92);
        } else if b < 32 {
            proof {
                assert(b >> 4 < 16 && b & 15 < 16) by (bit_vector);
            }
            out.push(92);
            out.push(117);
            out.push(48);
            out.push(48);
            out.push(hex_digit_of(b >> 4));
            out.push(hex_digit_of(b & 15));
        } else {
            out.push(b);
        }
        proof {
            let prev = s@.take(k as int);
            assert(s@.take(k as int + 1) =~= prev + seq![b]);
            lemma_esc_append(prev, seq![b]);
            assert(seq![b].skip(1) =~= Seq::<u8>::empty());
            assert(esc(Seq::<u8>::empty()) =~= Seq::<u8>::empty());
            assert(esc(seq![b]) =~= esc_byte(b));
            assert(out@ =~= old(out)@ + esc(s@.take(k as int + 1)));
        }
        k += 1;
    }
    proof {
        assert(s@.take(s@.len() as int) =~= s@);
    }
}

/// Appends the decimal numeral of `n` to `out`.
pub fn push_dec(out: &mut Vec<u8>, n: u64)
    ensures
        final(out)@ == old(out)@ + dec_digits(n as nat),
    decreases n,
{
    if n < 10 {
        out.push(48 + n as u8);
        proof {
            assert(out@ =~= old(out)@ + dec_digits(n as nat));
        }
    } else {
        push_dec(out, n / 10);
        out.push(48 + (n % 10) as u8);
        proof {
            assert(out@ =~= old(out)@ + dec_digits(n as nat));
        }
    }
}

spec fn psb_cont(s: Seq<u8>, acc: Seq<u8>) -> Option<(Seq<u8>, Seq<u8>)> {
    match parse_string_body(s) {
        Some((t, r)) => Some((acc + t, r)),
        None => None,
    }
}

/// Reads an escaped string body starting at `i`, up to and including the
/// closing quote; yields the content and the index just past the quote.
pub fn parse_string_at(v: &Vec<u8>, i: usize) -> (r: Option<(Vec<u8>, usize)>)
    requires
        i <= v@.len(),
    ensures
        match r {
            Some((t, j)) => i <= j <= v@.len() && parse_string_body(v@.skip(i as int)) == Some(
                (t@, v@.skip(j as int)),
            ),
            None => parse_string_body(v@.skip(i as int)) is None,
        },
{
    let n = v.len();
    let mut cur: usize = i;
    let mut out: Vec<u8> = Vec::new();
    loop
        invariant
            i <= cur <= n,
            n == v@.len(),
            psb_cont(v@.skip(cur as int), out@) == parse_string_body(v@.skip(i as int)),
        decreases n - cur,
    {
        proof {
            let s = v@.skip(cur as int);
            assert(s.len() == n - cur);
        }
        if cur == n {
            return None;
        }
        let b = v[cur];
        proof {
            assert(v@.skip(cur as int)[0] == b);
        }
        if b == 34 {
            proof {
                let s = v@.skip(cur as int);
                assert(s.skip(1) =~= v@.skip(cur as int + 1));
                assert(parse_string_body(s) == Some(
                    (Seq::<u8>::empty(), v@.skip(cur as int + 1)),
                ));
                assert(out@ + Seq::<u8>::empty() =~= out@);
            }
            return Some((out, cur + 1));
        } else if b == 92 {
            if n - cur < 2 {
                proof {
                    let s = v@.skip(cur as int);
                    assert(s.len() < 2);
                    assert(parse_string_body(s) is None);
                }
                return None;
            }
            let e = v[cur + 1];
            proof {
                assert(v@.skip(cur as int)[1] == e);
            }
            if e == 34 || e == 92 {
                out.push(e);
                proof {
                    let s = v@.skip(cur as int);
                    assert(s.skip(2) =~= v@.skip(cur as int + 2));
                    assert(forall|t: Seq<u8>, acc: Seq<u8>|
                        (acc + seq![e]) + t =~= acc + (seq![e] + t));
                }
                cur += 2;
            } else if e == 117 {
                if n - cur < 6 {
                    proof {
                        let s = v@.skip(cur as int);
                        assert(s.len() < 6);
                        assert(parse_string_body(s) is None);
                    }
                    return None;
                }
                let z0 = v[cur + 2];
                let z1 = v[cur + 3];
                proof {
                    assert(v@.skip(cur as int)[2] == z0 && v@.skip(cur as int)[3] == z1);
                }
                if z0 != 48 || z1 != 48 {
                    return None;
                }
                let h = hex_val_of(v[cur + 4]);
                let l = hex_val_of(v[cur + 5]);
                proof {
                    assert(v@.skip(cur as int)[4] == v@[cur as int + 4] && v@.skip(cur as int)[5]
                        == v@[cur as int + 5]);
                }
                match (h, l) {
                    (Some(h), Some(l)) => {
                        let val = (h << 4) | l;
                        if val < 32 {
                            out.push(val);
                            proof {
                                let s = v@.skip(cur as int);
                                assert(s.skip(6) =~= v@.skip(cur as int + 6));
                                assert(forall|t: Seq<u8>, acc: Seq<u8>|
                                    (acc + seq![val]) + t =~= acc + (seq![val] + t));
                            }
                            cur += 6;
                        } else {
                            return None;
                        }
                    },
                    _ => {
                        return None;
                    },
                }
            } else {
                return None;
            }
        } else if b < 32 {
            return None;
        } else {
            out.push(b);
            proof {
                let s = v@.skip(cur as int);
                assert(s.skip(1) =~= v@.skip(cur as int + 1));
                assert(forall|t: Seq<u8>, acc: Seq<u8>| (acc + seq![b]) + t =~= acc + (seq![b] + t));
            }
            cur += 1;
        }
    }
}

/// Reads a canonical in-range decimal numeral starting at `i`; yields the
/// value and the index just past its last digit.
#[verifier::loop_isolation(false)]
pub fn parse_dec_at(v: &Vec<u8>, i: usize) -> (r: Option<(u64, usize)>)
    requires
        i <= v@.len(),
    ensures
        match r {
            Some((x, j)) => i <= j <= v@.len() && parse_dec(v@.skip(i as int)) == Some(
                (x, v@.skip(j as int)),
            ),
            None => parse_dec(v@.skip(i as int)) is None,
        },
{
    let n = v.len();
    // find the end of the digit run
    let mut e: usize = i;
    while e < n && v[e] >= 48 && v[e] <= 57
        invariant
            i <= e <= n,
            n == v@.len(),
            forall|k: int| i <= k < e ==> is_digit(#[trigger] v@[k]),
        decreases n - e,
    {
        e += 1;
    }
    proof {
        let s = v@.skip(i as int);
        let d = v@.subrange(i as int, e as int);
        let rest = v@.skip(e as int);
        assert(s =~= d + rest);
        assert(all_digits(d));
        assert(rest.len() == 0 || !is_digit(rest[0])) by {
            if e < n {
                assert(rest[0] == v@[e as int]);
            }
        }
        lemma_digit_prefix_of_digits(d, rest);
        assert(digit_prefix(s) == d);
    }
    if e == i {
        return None;
    }
    if v[i] == 48 && e - i > 1 {
        return None;
    }
    let mut acc: u64 = 0;
    let mut k: usize = i;
    while k < e
        invariant
            i <= k <= e <= n,
            n == v@.len(),
            forall|t: int| i <= t < e ==> is_digit(#[trigger] v@[t]),
            acc as nat == dec_value(v@.subrange(i as int, k as int)),
        decreases e - k,
    {
        let d = v[k] - 48;
        proof {
            let cur = v@.subrange(i as int, k as int);
            let nxt = v@.subrange(i as int, k as int + 1);
            assert(nxt.drop_last() =~= cur);
            assert(nxt.last() == v@[k as int]);
            assert(dec_value(nxt) == dec_value(cur) * 10 + d);
        }
        if acc > (u64::MAX - d as u64) / 10 {
            proof {
                let full = v@.subrange(i as int, e as int);
                let nxt = v@.subrange(i as int, k as int + 1);
                let tail = v@.subrange(k as int + 1, e as int);
                assert(full =~= nxt + tail);
                lemma_dec_value_prefix(nxt, tail);
                assert(dec_value(nxt) == acc as nat * 10 + d);
                assert(acc as nat * 10 + d > u64::MAX) by (nonlinear_arith)
                    requires
                        acc > (u64::MAX - d as u64) / 10 && d < 10 && acc <= u64::MAX,
                ;
                assert(dec_value(full) > u64::MAX);
            }
            return None;
        }
        proof {
            assert(acc as nat * 10 + d <= u64::MAX) by (nonlinear_arith)
                requires
                    acc <= (u64::MAX - d as u64) / 10 && d < 10,
            ;
        }
        acc = acc * 10 + d as u64;
        k += 1;
    }
    proof {
        let d = v@.subrange(i as int, e as int);
        assert(dec_value(d) == acc as nat);
        assert(d[0] == v@[i as int]);
        assert(d.len() > 1 ==> d[0] != 48);
    }
    Some((acc, e))
}

} // verus!
