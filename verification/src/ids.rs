//! Fresh record identifiers: 24 bytes drawn from lowercase letters and
//! digits.
use vstd::prelude::*;

verus! {

/// Relies on rand::Rng::gen_range over the thread-local generator: the
/// result lies below the given bound.
#[verifier::external_body]
fn random_below(n: u64) -> (r: u64)
    requires
        n > 0,
    ensures
        r < n,
{
    rand::Rng::gen_range(&mut rand::thread_rng(), 0..n)
}

/// Bytes an identifier may hold: a lowercase letter or a digit.
pub open spec fn id_byte_ok(b: u8) -> bool {
    (97 <= b <= 122) || (48 <= b <= 57)
}

/// Draws a fresh 24-byte identifier over lowercase letters and digits, each
/// position a letter or a digit by a coin flip.
pub fn random_id() -> (r: Vec<u8>)
    ensures
        r@.len() == 24,
        forall|i: int| 0 <= i < 24 ==> id_byte_ok(#[trigger] r@[i]),
{
    let mut out: Vec<u8> = Vec::new();
    let mut k: usize = 0;
    while k < 24
        invariant
            k <= 24,
            out@.len() == k,
            forall|i: int| 0 <= i < k ==> id_byte_ok(#[trigger] out@[i]),
        decreases 24 - k,
    {
        let coin = random_below(2);
        if coin == 0 {
            let x = random_below(26);
            out.push(97 + x as u8);
        } else {
            let x = random_below(10);
            out.push(48 + x as u8);
        }
        k += 1;
    }
    out
}

} // verus!
