//! Guard against query strings that would be misread as query operators.
use vstd::prelude::*;

verus! {

/// Bytes that must not appear in a free-text search phrase handed to the
/// store: each would change the meaning of the query.
pub open spec fn special_query_bytes() -> Seq<u8> {
    seq![42u8, 47u8, 33u8, 45u8, 44u8, 96u8, 91u8]
}

/// True when `input` holds at least one byte a query must not contain.
pub open spec fn has_special_query_byte(input: Seq<u8>) -> bool {
    exists|i: int| 0 <= i < input.len() && special_query_bytes().contains(input[i])
}

fn is_special_query_byte(b: u8) -> (r: bool)
    ensures
        r == special_query_bytes().contains(b),
{
    let r = b == 42 || b == 47 || b == 33 || b == 45 || b == 44 || b == 96 || b == 91;
    assert(r == special_query_bytes().contains(b)) by {
        if r {
            if b == 42 {
                assert(special_query_bytes()[0] == b);
            } else if b == 47 {
                assert(special_query_bytes()[1] == b);
            } else if b == 33 {
                assert(special_query_bytes()[2] == b);
            } else if b == 45 {
                assert(special_query_bytes()[3] == b);
            } else if b == 44 {
                assert(special_query_bytes()[4] == b);
            } else {
                assert(special_query_bytes()[5] == b || special_query_bytes()[6] == b);
            }
        }
    }
    r
}

/// Reports whether a search phrase contains a byte that would corrupt the
/// query it is spliced into.
pub fn mongo_query_error(input: &Vec<u8>) -> (r: bool)
    ensures
        r == has_special_query_byte(input@),
{
    let mut i: usize = 0;
    while i < input.len()
        invariant
            0 <= i <= input@.len(),
            forall|k: int| 0 <= k < i ==> !special_query_bytes().contains(input@[k]),
        decreases input@.len() - i,
    {
        if is_special_query_byte(input[i]) {
            return true;
        }
        i += 1;
    }
    false
}

} // verus!
