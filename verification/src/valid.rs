//! The syntactic validity pre-check for color notations.

use vstd::prelude::*;
use vstd::string::StringSliceAdditionalSpecFns;
use crate::hex::spec_is_hex_digit;
use crate::names::named_color_hex;
use crate::names::spec_name_hex;

verus! {

/// Whether the bytes start with the given prefix.
pub open spec fn spec_starts_with(bs: Seq<u8>, prefix: Seq<u8>) -> bool {
    bs.len() >= prefix.len() && bs.take(prefix.len() as int) == prefix
}

pub fn starts_with(bs: &[u8], prefix: &[u8]) -> (r: bool)
    ensures
        r == spec_starts_with(bs@, prefix@),
{
    if bs.len() < prefix.len() {
        proof {
            assert(!spec_starts_with(bs@, prefix@));
        }
        return false;
    }
    let mut i: usize = 0;
    while i < prefix.len()
        invariant
            i <= prefix@.len() <= bs@.len(),
            forall|k: int| 0 <= k < i ==> bs@[k] == prefix@[k],
        decreases prefix@.len() - i,
    {
        if bs[i] != prefix[i] {
            proof {
                assert(bs@.take(prefix@.len() as int)[i as int] != prefix@[i as int]);
            }
            return false;
        }
        i = i + 1;
    }
    proof {
        assert(bs@.take(prefix@.len() as int) =~= prefix@);
    }
    true
}

/// What it means for a notation string to pass the validity pre-check.
///
/// A `#` string must have total length 4 or 7 with only hexadecimal
/// digits after the mark; a string starting with one of the recognized
/// space prefixes passes without any inspection of its components; any
/// other string passes exactly when it is a known color name.  Note
/// that the nine-character hexadecimal form, though parseable, does not
/// pass this pre-check, and that names are matched case-sensitively
/// here.
pub open spec fn spec_valid(bs: Seq<u8>) -> bool {
    if bs.len() > 0 && bs[0] == 35 {
        (bs.len() == 4 || bs.len() == 7) && (forall|i: int|
            1 <= i < bs.len() ==> spec_is_hex_digit(#[trigger] bs[i]))
    } else if spec_starts_with(bs, seq![114u8, 103u8, 98u8, 97u8]) {
        true
    } else if spec_starts_with(bs, seq![114u8, 103u8, 98u8]) {
        true
    } else if spec_starts_with(bs, seq![108u8, 97u8, 98u8]) {
        true
    } else if spec_starts_with(bs, seq![104u8, 115u8, 108u8]) {
        true
    } else if spec_starts_with(bs, seq![104u8, 115u8, 118u8]) {
        true
    } else if spec_starts_with(bs, seq![99u8, 109u8, 121u8, 107u8]) {
        true
    } else {
        spec_name_hex(bs) is Some
    }
}

/// Check whether a string can be accepted as a color notation, without
/// parsing its components.
#[verifier::loop_isolation(false)]
pub fn valid(s: &str) -> (r: bool)
    ensures
        r == spec_valid(s.spec_bytes()),
{
    let bs = s.as_bytes();
    proof {
        assert(seq![114u8, 103u8, 98u8, 97u8] =~= [114u8, 103u8, 98u8, 97u8]@);
        assert(seq![114u8, 103u8, 98u8] =~= [114u8, 103u8, 98u8]@);
        assert(seq![108u8, 97u8, 98u8] =~= [108u8, 97u8, 98u8]@);
        assert(seq![104u8, 115u8, 108u8] =~= [104u8, 115u8, 108u8]@);
        assert(seq![104u8, 115u8, 118u8] =~= [104u8, 115u8, 118u8]@);
        assert(seq![99u8, 109u8, 121u8, 107u8] =~= [99u8, 109u8, 121u8, 107u8]@);
    }
    if bs.len() > 0 && bs[0] == 35 {
        if bs.len() != 4 && bs.len() != 7 {
            return false;
        }
        let mut i: usize = 1;
        while i < bs.len()
            invariant
                1 <= i <= bs@.len(),
                forall|k: int| 1 <= k < i ==> spec_is_hex_digit(#[trigger] bs@[k]),
            decreases bs@.len() - i,
        {
            let b = bs[i];
            if !((48 <= b && b <= 57) || (97 <= b && b <= 102) || (65 <= b && b <= 70)) {
                proof {
                    assert(!spec_is_hex_digit(bs@[i as int]));
                }
                return false;
            }
            i = i + 1;
        }
        true
    } else if starts_with(bs, &[114u8, 103u8, 98u8, 97u8]) {
        true
    } else if starts_with(bs, &[114u8, 103u8, 98u8]) {
        true
    } else if starts_with(bs, &[108u8, 97u8, 98u8]) {
        true
    } else if starts_with(bs, &[104u8, 115u8, 108u8]) {
        true
    } else if starts_with(bs, &[104u8, 115u8, 118u8]) {
        true
    } else if starts_with(bs, &[99u8, 109u8, 121u8, 107u8]) {
        true
    } else {
        named_color_hex(s).is_some()
    }
}

} // verus!
