//! Unpadded base64url coding of byte strings: the segment alphabet of the
//! compact token form, with a proved encode/decode round trip.
use vstd::prelude::*;

verus! {

/// The base64url alphabet, by sextet value.
pub open spec fn b64_char(x: u8) -> u8 {
    if x < 26 {
        (65 + x) as u8
    } else if x < 52 {
        (97 + (x - 26)) as u8
    } else if x < 62 {
        (48 + (x - 52)) as u8
    } else if x == 62 {
        45u8
    } else {
        95u8
    }
}

/// The sextet value of an alphabet byte, `None` outside the alphabet.
pub open spec fn b64_val(c: u8) -> Option<u8> {
    if 65 <= c <= 90 {
        Some((c - 65) as u8)
    } else if 97 <= c <= 122 {
        Some((c - 97 + 26) as u8)
    } else if 48 <= c <= 57 {
        Some((c - 48 + 52) as u8)
    } else if c == 45 {
        Some(62u8)
    } else if c == 95 {
        Some(63u8)
    } else {
        None
    }
}

pub open spec fn is_b64_byte(c: u8) -> bool {
    b64_val(c) is Some
}

pub open spec fn sx0(b0: u8) -> u8 {
    b0 >> 2
}

pub open spec fn sx1(b0: u8, b1: u8) -> u8 {
    ((b0 & 3) << 4) | (b1 >> 4)
}

pub open spec fn sx2(b1: u8, b2: u8) -> u8 {
    ((b1 & 15) << 2) | (b2 >> 6)
}

pub open spec fn sx3(b2: u8) -> u8 {
    b2 & 63
}

pub open spec fn db0(v0: u8, v1: u8) -> u8 {
    (v0 << 2) | (v1 >> 4)
}

pub open spec fn db1(v1: u8, v2: u8) -> u8 {
    ((v1 & 15) << 4) | (v2 >> 2)
}

pub open spec fn db2(v2: u8, v3: u8) -> u8 {
    ((v2 & 3) << 6) | v3
}

/// Unpadded base64url encoding of a byte string.
pub open spec fn b64_encode(s: Seq<u8>) -> Seq<u8>
    decreases s.len(),
{
    if s.len() == 0 {
        Seq::<u8>::empty()
    } else if s.len() == 1 {
        seq![b64_char(sx0(s[0])), b64_char(sx1(s[0], 0))]
    } else if s.len() == 2 {
        seq![b64_char(sx0(s[0])), b64_char(sx1(s[0], s[1])), b64_char(sx2(s[1], 0))]
    } else {
        seq![
            b64_char(sx0(s[0])),
            b64_char(sx1(s[0], s[1])),
            b64_char(sx2(s[1], s[2])),
            b64_char(sx3(s[2])),
        ] + b64_encode(s.skip(3))
    }
}

/// Strict unpadded base64url decoding: rejects non-alphabet bytes, a trailing
/// group of one byte, and non-zero padding bits.
pub open spec fn b64_decode(s: Seq<u8>) -> Option<Seq<u8>>
    decreases s.len(),
{
    if s.len() == 0 {
        Some(Seq::<u8>::empty())
    } else if s.len() == 1 {
        None
    } else if s.len() == 2 {
        match (b64_val(s[0]), b64_val(s[1])) {
            (Some(v0), Some(v1)) => if v1 & 15 == 0 {
                Some(seq![db0(v0, v1)])
            } else {
                None
            },
            _ => None,
        }
    } else if s.len() == 3 {
        match (b64_val(s[0]), b64_val(s[1]), b64_val(s[2])) {
            (Some(v0), Some(v1), Some(v2)) => if v2 & 3 == 0 {
                Some(seq![db0(v0, v1), db1(v1, v2)])
            } else {
                None
            },
            _ => None,
        }
    } else {
        match (b64_val(s[0]), b64_val(s[1]), b64_val(s[2]), b64_val(s[3])) {
            (Some(v0), Some(v1), Some(v2), Some(v3)) => match b64_decode(s.skip(4)) {
                Some(rest) => Some(seq![db0(v0, v1), db1(v1, v2), db2(v2, v3)] + rest),
                None => None,
            },
            _ => None,
        }
    }
}

pub proof fn lemma_b64_val_char(x: u8)
    requires
        x < 64,
    ensures
        b64_val(b64_char(x)) == Some(x),
{
}

/// Alphabet bytes are never a separator dot nor blank.
pub proof fn lemma_b64_byte_shape(c: u8)
    requires
        is_b64_byte(c),
    ensures
        c != 46,
        c != 32,
        c != 9,
{
}

proof fn lemma_group_bits(b0: u8, b1: u8, b2: u8)
    ensures
        sx0(b0) < 64,
        sx1(b0, b1) < 64,
        sx2(b1, b2) < 64,
        sx3(b2) < 64,
        db0(sx0(b0), sx1(b0, b1)) == b0,
        db1(sx1(b0, b1), sx2(b1, b2)) == b1,
        db2(sx2(b1, b2), sx3(b2)) == b2,
        b1 == 0 ==> sx1(b0, b1) & 15 == 0,
        b2 == 0 ==> sx2(b1, b2) & 3 == 0,
{
    assert(b0 >> 2 < 64 && (((b0 & 3) << 4) | (b1 >> 4)) < 64 && (((b1 & 15) << 2) | (b2 >> 6))
        < 64 && b2 & 63 < 64) by (bit_vector);
    assert((((b0 >> 2) << 2) | ((((b0 & 3) << 4) | (b1 >> 4)) >> 4)) == b0) by (bit_vector);
    assert((((((b0 & 3) << 4) | (b1 >> 4)) & 15) << 4) | (((((b1 & 15) << 2) | (b2 >> 6))) >> 2)
        == b1) by (bit_vector);
    assert((((((b1 & 15) << 2) | (b2 >> 6)) & 3) << 6) | (b2 & 63) == b2) by (bit_vector);
    assert(b1 == 0 ==> (((b0 & 3) << 4) | (b1 >> 4)) & 15 == 0) by (bit_vector);
    assert(b2 == 0 ==> (((b1 & 15) << 2) | (b2 >> 6)) & 3 == 0) by (bit_vector);
}

/// Every byte of an encoding lies in the base64url alphabet.
pub proof fn lemma_encode_alphabet(s: Seq<u8>)
    ensures
        forall|i: int| 0 <= i < b64_encode(s).len() ==> is_b64_byte(#[trigger] b64_encode(s)[i]),
    decreases s.len(),
{
    if s.len() == 0 {
    } else if s.len() == 1 {
        lemma_group_bits(s[0], 0, 0);
        lemma_b64_val_char(sx0(s[0]));
        lemma_b64_val_char(sx1(s[0], 0));
    } else if s.len() == 2 {
        lemma_group_bits(s[0], s[1], 0);
        lemma_b64_val_char(sx0(s[0]));
        lemma_b64_val_char(sx1(s[0], s[1]));
        lemma_b64_val_char(sx2(s[1], 0));
    } else {
        lemma_group_bits(s[0], s[1], s[2]);
        lemma_b64_val_char(sx0(s[0]));
        lemma_b64_val_char(sx1(s[0], s[1]));
        lemma_b64_val_char(sx2(s[1], s[2]));
        lemma_b64_val_char(sx3(s[2]));
        lemma_encode_alphabet(s.skip(3));
        assert forall|i: int| 0 <= i < b64_encode(s).len() implies is_b64_byte(
            #[trigger] b64_encode(s)[i],
        ) by {
            if i >= 4 {
                assert(b64_encode(s)[i] == b64_encode(s.skip(3))[i - 4]);
            }
        }
    }
}

/// Encoding distributes over concatenation at a whole-group boundary.
pub proof fn lemma_encode_append(a: Seq<u8>, b: Seq<u8>)
    requires
        a.len() % 3 == 0,
    ensures
        b64_encode(a + b) == b64_encode(a) + b64_encode(b),
    decreases a.len(),
{
    if a.len() == 0 {
        assert(a + b =~= b);
        assert(b64_encode(a) + b64_encode(b) =~= b64_encode(b));
    } else {
        assert(a.len() >= 3);
        let ab = a + b;
        assert(ab.skip(3) =~= a.skip(3) + b);
        lemma_encode_append(a.skip(3), b);
        assert(ab[0] == a[0] && ab[1] == a[1] && ab[2] == a[2]);
        if a.len() == 3 {
            assert(a.skip(3) =~= Seq::<u8>::empty());
            assert(b64_encode(a.skip(3)) =~= Seq::<u8>::empty());
            assert(b64_encode(a) =~= seq![
                b64_char(sx0(a[0])),
                b64_char(sx1(a[0], a[1])),
                b64_char(sx2(a[1], a[2])),
                b64_char(sx3(a[2])),
            ]);
        }
        assert(b64_encode(ab) =~= b64_encode(a) + b64_encode(b));
    }
}

/// Decoding a valid whole-group prefix splits off from the remainder.
pub proof fn lemma_decode_append(a: Seq<u8>, b: Seq<u8>)
    requires
        a.len() % 4 == 0,
    ensures
        b64_decode(a + b) == (if b64_decode(a) is Some && b64_decode(b) is Some {
            Some(b64_decode(a).unwrap() + b64_decode(b).unwrap())
        } else {
            Option::<Seq<u8>>::None
        }),
    decreases a.len(),
{
    if a.len() == 0 {
        assert(a + b =~= b);
        assert(b64_decode(a) == Some(Seq::<u8>::empty()));
        if b64_decode(b) is Some {
            assert(b64_decode(a).unwrap() + b64_decode(b).unwrap() =~= b64_decode(b).unwrap());
        }
    } else {
        assert(a.len() >= 4);
        let ab = a + b;
        assert(ab.len() >= 4);
        assert(ab[0] == a[0] && ab[1] == a[1] && ab[2] == a[2] && ab[3] == a[3]);
        assert(ab.skip(4) =~= a.skip(4) + b);
        lemma_decode_append(a.skip(4), b);
        if a.len() == 4 {
            assert(a.skip(4) =~= Seq::<u8>::empty());
        }
        match (b64_val(a[0]), b64_val(a[1]), b64_val(a[2]), b64_val(a[3])) {
            (Some(v0), Some(v1), Some(v2), Some(v3)) => {
                match (b64_decode(a.skip(4)), b64_decode(b)) {
                    (Some(ra), Some(rb)) => {
                        assert(b64_decode(a).unwrap() =~= seq![
                            db0(v0, v1),
                            db1(v1, v2),
                            db2(v2, v3),
                        ] + ra);
                        assert(b64_decode(ab).unwrap() =~= b64_decode(a).unwrap() + rb);
                    },
                    _ => {},
                }
            },
            _ => {},
        }
    }
}

/// Decoding inverts encoding: the round trip of the segment coding.
pub proof fn lemma_encode_decode(s: Seq<u8>)
    ensures
        b64_decode(b64_encode(s)) == Some(s),
    decreases s.len(),
{
    if s.len() == 0 {
        assert(b64_encode(s) =~= Seq::<u8>::empty());
        assert(Some(Seq::<u8>::empty()) == Some(s)) by {
            assert(Seq::<u8>::empty() =~= s);
        }
    } else if s.len() == 1 {
        lemma_group_bits(s[0], 0, 0);
        lemma_b64_val_char(sx0(s[0]));
        lemma_b64_val_char(sx1(s[0], 0));
        let e = b64_encode(s);
        assert(e.len() == 2);
        assert(b64_decode(e) == Some(seq![db0(sx0(s[0]), sx1(s[0], 0))]));
        assert(seq![db0(sx0(s[0]), sx1(s[0], 0))] =~= s);
    } else if s.len() == 2 {
        lemma_group_bits(s[0], s[1], 0);
        lemma_b64_val_char(sx0(s[0]));
        lemma_b64_val_char(sx1(s[0], s[1]));
        lemma_b64_val_char(sx2(s[1], 0));
        let e = b64_encode(s);
        assert(e.len() == 3);
        assert(b64_decode(e) == Some(seq![
            db0(sx0(s[0]), sx1(s[0], s[1])),
            db1(sx1(s[0], s[1]), sx2(s[1], 0)),
        ]));
        assert(seq![db0(sx0(s[0]), sx1(s[0], s[1])), db1(sx1(s[0], s[1]), sx2(s[1], 0))] =~= s);
    } else {
        lemma_group_bits(s[0], s[1], s[2]);
        lemma_b64_val_char(sx0(s[0]));
        lemma_b64_val_char(sx1(s[0], s[1]));
        lemma_b64_val_char(sx2(s[1], s[2]));
        lemma_b64_val_char(sx3(s[2]));
        lemma_encode_decode(s.skip(3));
        let grp = seq![
            b64_char(sx0(s[0])),
            b64_char(sx1(s[0], s[1])),
            b64_char(sx2(s[1], s[2])),
            b64_char(sx3(s[2])),
        ];
        let e = b64_encode(s);
        assert(e =~= grp + b64_encode(s.skip(3)));
        assert(e.len() >= 4);
        assert(e[0] == grp[0] && e[1] == grp[1] && e[2] == grp[2] && e[3] == grp[3]);
        assert(e.skip(4) =~= b64_encode(s.skip(3)));
        assert(b64_decode(e.skip(4)) == Some(s.skip(3)));
        assert(b64_decode(e) == Some(seq![
            db0(sx0(s[0]), sx1(s[0], s[1])),
            db1(sx1(s[0], s[1]), sx2(s[1], s[2])),
            db2(sx2(s[1], s[2]), sx3(s[2])),
        ] + s.skip(3)));
        assert(seq![s[0], s[1], s[2]] + s.skip(3) =~= s);
    }
}

fn b64_char_of(x: u8) -> (r: u8)
    requires
        x < 64,
    ensures
        r == b64_char(x),
{
    if x < 26 {
        65 + x
    } else if x < 52 {
        97 + (x - 26)
    } else if x < 62 {
        48 + (x - 52)
    } else if x == 62 {
        45
    } else {
        95
    }
}

fn b64_val_of(c: u8) -> (r: Option<u8>)
    ensures
        r == b64_val(c),
{
    if 65 <= c && c <= 90 {
        Some(c - 65)
    } else if 97 <= c && c <= 122 {
        Some(c - 97 + 26)
    } else if 48 <= c && c <= 57 {
        Some(c - 48 + 52)
    } else if c == 45 {
        Some(62)
    } else if c == 95 {
        Some(63)
    } else {
        None
    }
}

/// Encodes a byte string as unpadded base64url.
pub fn b64url_encode(s: &Vec<u8>) -> (r: Vec<u8>)
    ensures
        r@ == b64_encode(s@),
{
    let n = s.len();
    let mut out: Vec<u8> = Vec::new();
    let mut i: usize = 0;
    while n - i >= 3
        invariant
            n == s@.len(),
            i <= n,
            i % 3 == 0,
            out@ == b64_encode(s@.take(i as int)),
        decreases n - i,
    {
        let b0 = s[i];
        let b1 = s[i + 1];
        let b2 = s[i + 2];
        proof {
            lemma_group_bits(b0, b1, b2);
        }
        out.push(b64_char_of(b0 >> 2));
        out.push(b64_char_of(((b0 & 3) << 4) | (b1 >> 4)));
        out.push(b64_char_of(((b1 & 15) << 2) | (b2 >> 6)));
        out.push(b64_char_of(b2 & 63));
        proof {
            let prev = s@.take(i as int);
            let grp = seq![b0, b1, b2];
            assert(s@.take((i + 3) as int) =~= prev + grp);
            lemma_encode_append(prev, grp);
            assert(grp.skip(3) =~= Seq::<u8>::empty());
            assert(b64_encode(grp.skip(3)) =~= Seq::<u8>::empty());
            assert(b64_encode(grp) =~= seq![
                b64_char(sx0(b0)),
                b64_char(sx1(b0, b1)),
                b64_char(sx2(b1, b2)),
                b64_char(sx3(b2)),
            ]);
            assert(out@ =~= b64_encode(s@.take((i + 3) as int)));
        }
        i += 3;
    }
    proof {
        lemma_encode_append(s@.take(i as int), s@.skip(i as int));
        assert(s@.take(i as int) + s@.skip(i as int) =~= s@);
    }
    if i < n {
        let b0 = s[i];
        if i + 1 < n {
            let b1 = s[i + 1];
            proof {
                lemma_group_bits(b0, b1, 0);
                assert(s@.skip(i as int) =~= seq![b0, b1]);
            }
            out.push(b64_char_of(b0 >> 2));
            out.push(b64_char_of(((b0 & 3) << 4) | (b1 >> 4)));
            out.push(b64_char_of(((b1 & 15) << 2) | (0u8 >> 6)));
            proof {
                assert(out@ =~= b64_encode(s@.take(i as int)) + b64_encode(s@.skip(i as int)));
            }
        } else {
            proof {
                lemma_group_bits(b0, 0, 0);
                assert(s@.skip(i as int) =~= seq![b0]);
            }
            out.push(b64_char_of(b0 >> 2));
            out.push(b64_char_of(((b0 & 3) << 4) | (0u8 >> 4)));
            proof {
                assert(out@ =~= b64_encode(s@.take(i as int)) + b64_encode(s@.skip(i as int)));
            }
        }
    } else {
        proof {
            assert(s@.skip(i as int) =~= Seq::<u8>::empty());
            assert(out@ =~= b64_encode(s@.take(i as int)) + b64_encode(s@.skip(i as int)));
        }
    }
    out
}

/// Decodes unpadded base64url, strictly.
pub fn b64url_decode(s: &Vec<u8>) -> (r: Option<Vec<u8>>)
    ensures
        match r {
            Some(v) => b64_decode(s@) == Some(v@),
            None => b64_decode(s@) is None,
        },
{
    let n = s.len();
    if n % 4 == 1 {
        proof {
            lemma_decode_rejects_lone_tail(s@);
        }
        return None;
    }
    let mut out: Vec<u8> = Vec::new();
    let mut i: usize = 0;
    while n - i >= 4
        invariant
            n == s@.len(),
            n % 4 != 1,
            i <= n,
            i % 4 == 0,
            b64_decode(s@.take(i as int)) == Some(out@),
        decreases n - i,
    {
        proof {
            lemma_decode_append(s@.take(i as int), s@.skip(i as int));
            assert(s@.take(i as int) + s@.skip(i as int) =~= s@);
        }
        let v0 = b64_val_of(s[i]);
        let v1 = b64_val_of(s[i + 1]);
        let v2 = b64_val_of(s[i + 2]);
        let v3 = b64_val_of(s[i + 3]);
        proof {
            let rest = s@.skip(i as int);
            assert(rest.len() >= 4);
            assert(rest[0] == s@[i as int] && rest[1] == s@[i as int + 1] && rest[2] == s@[i as int
                + 2] && rest[3] == s@[i as int + 3]);
        }
        match (v0, v1, v2, v3) {
            (Some(v0), Some(v1), Some(v2), Some(v3)) => {
                out.push((v0 << 2) | (v1 >> 4));
                out.push(((v1 & 15) << 4) | (v2 >> 2));
                out.push(((v2 & 3) << 6) | v3);
                proof {
                    let prev = s@.take(i as int);
                    let grp = seq![s@[i as int], s@[i as int + 1], s@[i as int + 2], s@[i as int + 3]];
                    assert(s@.take((i + 4) as int) =~= prev + grp);
                    lemma_decode_append(prev, grp);
                    assert(grp.skip(4) =~= Seq::<u8>::empty());
                    assert(b64_decode(grp.skip(4)) == Some(Seq::<u8>::empty()));
                    assert(b64_decode(grp) == Some(seq![db0(v0, v1), db1(v1, v2), db2(v2, v3)]
                        + Seq::<u8>::empty()));
                    assert(out@ =~= b64_decode(prev).unwrap() + b64_decode(grp).unwrap());
                    assert(b64_decode(s@.take((i + 4) as int)) == Some(out@));
                }
            },
            _ => {
                proof {
                    let rest = s@.skip(i as int);
                    assert(b64_decode(rest) is None);
                }
                return None;
            },
        }
        i += 4;
    }
    proof {
        lemma_decode_append(s@.take(i as int), s@.skip(i as int));
        assert(s@.take(i as int) + s@.skip(i as int) =~= s@);
    }
    let rem = n - i;
    if rem == 0 {
        proof {
            assert(s@.skip(i as int) =~= Seq::<u8>::empty());
        }
        Some(out)
    } else if rem == 2 {
        proof {
            assert(s@.skip(i as int) =~= seq![s@[i as int], s@[i as int + 1]]);
        }
        match (b64_val_of(s[i]), b64_val_of(s[i + 1])) {
            (Some(v0), Some(v1)) => {
                if v1 & 15 == 0 {
                    out.push((v0 << 2) | (v1 >> 4));
                    proof {
                        assert(b64_decode(s@.skip(i as int)) == Some(seq![db0(v0, v1)]));
                        assert(out@ =~= b64_decode(s@.take(i as int)).unwrap() + seq![db0(v0, v1)]);
                    }
                    Some(out)
                } else {
                    None
                }
            },
            _ => None,
        }
    } else {
        proof {
            assert(rem == 3);
            assert(s@.skip(i as int) =~= seq![s@[i as int], s@[i as int + 1], s@[i as int + 2]]);
        }
        match (b64_val_of(s[i]), b64_val_of(s[i + 1]), b64_val_of(s[i + 2])) {
            (Some(v0), Some(v1), Some(v2)) => {
                if v2 & 3 == 0 {
                    out.push((v0 << 2) | (v1 >> 4));
                    out.push(((v1 & 15) << 4) | (v2 >> 2));
                    proof {
                        assert(b64_decode(s@.skip(i as int)) == Some(seq![db0(v0, v1), db1(v1, v2)]));
                        assert(out@ =~= b64_decode(s@.take(i as int)).unwrap() + seq![
                            db0(v0, v1),
                            db1(v1, v2),
                        ]);
                    }
                    Some(out)
                } else {
                    None
                }
            },
            _ => None,
        }
    }
}

/// A byte string whose length leaves a single trailing byte never decodes.
proof fn lemma_decode_rejects_lone_tail(s: Seq<u8>)
    requires
        s.len() % 4 == 1,
    ensures
        b64_decode(s) is None,
    decreases s.len(),
{
    if s.len() == 1 {
    } else {
        assert(s.len() >= 5);
        lemma_decode_rejects_lone_tail(s.skip(4));
    }
}

} // verus!
