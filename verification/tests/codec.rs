use note4keep::b64url::{b64url_decode, b64url_encode};
use note4keep::claims::Claims;
use note4keep::health::mongo_query_error;
use note4keep::ids::random_id;
use note4keep::payload::{claims_to_json, parse_claims};

fn enc(s: &[u8]) -> Vec<u8> {
    b64url_encode(&s.to_vec())
}

#[test]
fn base64url_known_vectors() {
    assert_eq!(enc(b""), b"".to_vec());
    assert_eq!(enc(b"f"), b"Zg".to_vec());
    assert_eq!(enc(b"fo"), b"Zm8".to_vec());
    assert_eq!(enc(b"foo"), b"Zm9v".to_vec());
    assert_eq!(enc(b"foob"), b"Zm9vYg".to_vec());
    assert_eq!(enc(b"fooba"), b"Zm9vYmE".to_vec());
    assert_eq!(enc(b"foobar"), b"Zm9vYmFy".to_vec());
}

#[test]
fn base64url_round_trip() {
    let cases: Vec<Vec<u8>> = vec![
        b"".to_vec(),
        b"a".to_vec(),
        b"ab".to_vec(),
        b"abc".to_vec(),
        b"hello world, hello world".to_vec(),
        vec![0, 255, 128, 63, 62, 1, 2, 3],
    ];
    for c in cases {
        let e = b64url_encode(&c);
        assert_eq!(b64url_decode(&e), Some(c));
    }
}

#[test]
fn base64url_decode_rejects_bad_input() {
    // padding characters are not part of the unpadded alphabet
    assert_eq!(b64url_decode(&b"Zg==".to_vec()), None);
    // a lone trailing byte can never arise from encoding
    assert_eq!(b64url_decode(&b"ZZZZZ".to_vec()), None);
    // non-canonical padding bits
    assert_eq!(b64url_decode(&b"Zh".to_vec()), None);
    // bytes outside the alphabet
    assert_eq!(b64url_decode(&b"Zm.v".to_vec()), None);
    assert_eq!(b64url_decode(&b"Zm+v".to_vec()), None);
}

#[test]
fn payload_round_trip_plain() {
    let c = Claims {
        username: b"alice".to_vec(),
        userid: b"u123".to_vec(),
        email: Some(b"a@example.com".to_vec()),
        iat: 1000,
        exp: 4600,
    };
    let j = claims_to_json(&c);
    assert_eq!(
        j,
        b"{\"username\":\"alice\",\"userid\":\"u123\",\"email\":\"a@example.com\",\"iat\":1000,\"exp\":4600}".to_vec()
    );
    let back = parse_claims(&j).expect("written payload must read back");
    assert_eq!(back.username, c.username);
    assert_eq!(back.userid, c.userid);
    assert_eq!(back.email, c.email);
    assert_eq!(back.iat, c.iat);
    assert_eq!(back.exp, c.exp);
}

#[test]
fn payload_round_trip_escapes_and_null_email() {
    let mut name = b"we\"ird\\name".to_vec();
    name.push(0x01);
    name.push(0x1f);
    let c = Claims {
        username: name.clone(),
        userid: b"id".to_vec(),
        email: None,
        iat: 0,
        exp: u64::MAX,
    };
    let j = claims_to_json(&c);
    let back = parse_claims(&j).expect("escaped payload must read back");
    assert_eq!(back.username, name);
    assert_eq!(back.email, None);
    assert_eq!(back.iat, 0);
    assert_eq!(back.exp, u64::MAX);
}

#[test]
fn payload_rejects_malformed() {
    assert!(parse_claims(&b"".to_vec()).is_none());
    assert!(parse_claims(&b"{}".to_vec()).is_none());
    // wrong field order
    assert!(parse_claims(
        &b"{\"userid\":\"u\",\"username\":\"a\",\"email\":null,\"iat\":1,\"exp\":2}".to_vec()
    )
    .is_none());
    // trailing garbage
    assert!(parse_claims(
        &b"{\"username\":\"a\",\"userid\":\"u\",\"email\":null,\"iat\":1,\"exp\":2} ".to_vec()
    )
    .is_none());
    // non-canonical number
    assert!(parse_claims(
        &b"{\"username\":\"a\",\"userid\":\"u\",\"email\":null,\"iat\":01,\"exp\":2}".to_vec()
    )
    .is_none());
    // out-of-range number
    assert!(parse_claims(
        &b"{\"username\":\"a\",\"userid\":\"u\",\"email\":null,\"iat\":1,\"exp\":18446744073709551616}"
            .to_vec()
    )
    .is_none());
}

#[test]
fn query_guard_flags_special_bytes() {
    assert!(!mongo_query_error(&b"a quiet phrase".to_vec()));
    assert!(!mongo_query_error(&b"".to_vec()));
    for s in [
        b"star*here".to_vec(),
        b"slash/here".to_vec(),
        b"bang!here".to_vec(),
        b"dash-here".to_vec(),
        b"comma,here".to_vec(),
        b"tick`here".to_vec(),
        b"bracket[here".to_vec(),
    ] {
        assert!(mongo_query_error(&s));
    }
}

#[test]
fn random_id_shape() {
    for _ in 0..8 {
        let id = random_id();
        assert_eq!(id.len(), 24);
        for b in id {
            assert!(b.is_ascii_lowercase() || b.is_ascii_digit());
        }
    }
}
