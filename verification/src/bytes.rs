//! Small byte-string helpers shared by the token codec.
use vstd::prelude::*;

verus! {

/// Whole-value equality of two byte strings.
pub fn bytes_eq(a: &Vec<u8>, b: &Vec<u8>) -> (r: bool)
    ensures
        r == (a@ == b@),
{
    if a.len() != b.len() {
        return false;
    }
    let mut k: usize = 0;
    while k < a.len()
        invariant
            a@.len() == b@.len(),
            k <= a@.len(),
            forall|t: int| 0 <= t < k ==> a@[t] == b@[t],
        decreases a@.len() - k,
    {
        if a[k] != b[k] {
            return false;
        }
        k += 1;
    }
    proof {
        assert(a@ =~= b@);
    }
    true
}

/// Copies the bytes of `v` between `i` and `j`.
pub fn sub_vec(v: &Vec<u8>, i: usize, j: usize) -> (r: Vec<u8>)
    requires
        i <= j <= v@.len(),
    ensures
        r@ == v@.subrange(i as int, j as int),
{
    let mut out: Vec<u8> = Vec::new();
    let mut k: usize = i;
    while k < j
        invariant
            i <= k <= j <= v@.len(),
            out@ == v@.subrange(i as int, k as int),
        decreases j - k,
    {
        out.push(v[k]);
        proof {
            assert(v@.subrange(i as int, k as int + 1) =~= v@.subrange(i as int, k as int)
                + seq![v@[k as int]]);
        }
        k += 1;
    }
    out
}

} // verus!
