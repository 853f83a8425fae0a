//! The hexadecimal notation: `#rgb`, `#rrggbb` and `#rrggbbaa`.

use vstd::prelude::*;
use vstd::string::StringSliceAdditionalSpecFns;
use vstd::string::StringExecFns;
use crate::error::ChromaError;
use crate::kernels::B255_BITS;
use crate::kernels::spec_round2;
use crate::kernels::spec_unit_channel;
use crate::kernels::round2_bits;
use crate::kernels::unit_channel_bits;
use crate::softfloat::ONE_BITS;
use crate::softfloat::sf_div;
use crate::softfloat::sf_from_int;
use crate::softfloat::sf_num_eq;
use crate::softfloat::spec_div;
use crate::softfloat::spec_from_int;
use crate::softfloat::spec_num_eq;

verus! {

/// Whether a byte is an ASCII hexadecimal digit, either case.
pub open spec fn spec_is_hex_digit(b: u8) -> bool {
    (48 <= b <= 57) || (97 <= b <= 102) || (65 <= b <= 70)
}

/// The value of a hexadecimal digit byte.
pub open spec fn spec_hex_val(b: u8) -> nat {
    if 48 <= b <= 57 {
        (b - 48) as nat
    } else if 97 <= b <= 102 {
        (b - 87) as nat
    } else if 65 <= b <= 70 {
        (b - 55) as nat
    } else {
        0
    }
}

fn is_hex_digit(b: u8) -> (r: bool)
    ensures
        r == spec_is_hex_digit(b),
{
    (48 <= b && b <= 57) || (97 <= b && b <= 102) || (65 <= b && b <= 70)
}

fn hex_val(b: u8) -> (r: u8)
    requires
        spec_is_hex_digit(b),
    ensures
        r == spec_hex_val(b),
        r < 16,
{
    if 48 <= b && b <= 57 {
        b - 48
    } else if 97 <= b && b <= 102 {
        b - 87
    } else {
        b - 55
    }
}

/// The parse of a hexadecimal notation from its bytes.
///
/// A four-byte `#rgb` form duplicates each nibble; a seven-byte
/// `#rrggbb` form is opaque; a nine-byte `#rrggbbaa` form carries an
/// alpha byte, scaled to `[0, 1]` and rounded to two decimals.  Any
/// other length, a missing `#`, or a non-hexadecimal digit fails.
pub open spec fn spec_hex2rgb(bs: Seq<u8>) -> Result<(u8, u8, u8, u64), ChromaError> {
    if bs.len() != 4 && bs.len() != 7 && bs.len() != 9 {
        Err(ChromaError::UnknownColor)
    } else if bs[0] != 35 {
        Err(ChromaError::UnknownColor)
    } else if !(forall|i: int| 1 <= i < bs.len() ==> spec_is_hex_digit(#[trigger] bs[i])) {
        Err(ChromaError::BadNumber)
    } else if bs.len() == 4 {
        Ok(
            (
                (spec_hex_val(bs[1]) * 17) as u8,
                (spec_hex_val(bs[2]) * 17) as u8,
                (spec_hex_val(bs[3]) * 17) as u8,
                ONE_BITS,
            ),
        )
    } else {
        let r = (spec_hex_val(bs[1]) * 16 + spec_hex_val(bs[2])) as u8;
        let g = (spec_hex_val(bs[3]) * 16 + spec_hex_val(bs[4])) as u8;
        let b = (spec_hex_val(bs[5]) * 16 + spec_hex_val(bs[6])) as u8;
        if bs.len() == 7 {
            Ok((r, g, b, ONE_BITS))
        } else {
            let ab = (spec_hex_val(bs[7]) * 16 + spec_hex_val(bs[8])) as u8;
            Ok((r, g, b, spec_round2(spec_div(spec_from_int(ab as nat), B255_BITS))))
        }
    }
}

/// Parse a hexadecimal notation string into RGB bytes and an alpha bit
/// pattern.
pub fn hex2rgb(s: &str) -> (r: Result<(u8, u8, u8, u64), ChromaError>)
    ensures
        r == spec_hex2rgb(s.spec_bytes()),
{
    hex2rgb_bytes(s.as_bytes())
}

/// Parse the bytes of a hexadecimal notation.
#[verifier::loop_isolation(false)]
pub fn hex2rgb_bytes(bs: &[u8]) -> (r: Result<(u8, u8, u8, u64), ChromaError>)
    ensures
        r == spec_hex2rgb(bs@),
{
    let n = bs.len();
    if n != 4 && n != 7 && n != 9 {
        return Err(ChromaError::UnknownColor);
    }
    if bs[0] != 35 {
        return Err(ChromaError::UnknownColor);
    }
    let mut i: usize = 1;
    while i < n
        invariant
            1 <= i <= n == bs@.len(),
            forall|k: int| 1 <= k < i ==> spec_is_hex_digit(#[trigger] bs@[k]),
        decreases n - i,
    {
        if !is_hex_digit(bs[i]) {
            proof {
                assert(!(forall|k: int|
                    1 <= k < bs@.len() ==> spec_is_hex_digit(#[trigger] bs@[k]))) by {
                    assert(!spec_is_hex_digit(bs@[i as int]));
                }
            }
            return Err(ChromaError::BadNumber);
        }
        i = i + 1;
    }
    if n == 4 {
        let r = hex_val(bs[1]) * 17;
        let g = hex_val(bs[2]) * 17;
        let b = hex_val(bs[3]) * 17;
        Ok((r, g, b, ONE_BITS))
    } else {
        let r = hex_val(bs[1]) * 16 + hex_val(bs[2]);
        let g = hex_val(bs[3]) * 16 + hex_val(bs[4]);
        let b = hex_val(bs[5]) * 16 + hex_val(bs[6]);
        if n == 7 {
            Ok((r, g, b, ONE_BITS))
        } else {
            let ab = hex_val(bs[7]) * 16 + hex_val(bs[8]);
            let fa = sf_from_int(ab as u64);
            let scaled = sf_div(fa, B255_BITS);
            Ok((r, g, b, round2_bits(scaled)))
        }
    }
}

/// The lowercase hexadecimal digit for a value below 16, as a byte.
pub open spec fn spec_hex_digit(n: nat) -> u8 {
    if n < 10 {
        (48 + n) as u8
    } else {
        (87 + n) as u8
    }
}

/// The rendering of a color as hexadecimal text, one character per
/// element: `#` and six lowercase digits, plus two more for the alpha
/// byte `round(alpha * 255)` whenever alpha is not numerically 1.
pub open spec fn spec_rgb2hex(color: (u8, u8, u8, u64)) -> Seq<char> {
    let base = seq![
        '#',
        spec_hex_digit((color.0 / 16) as nat) as char,
        spec_hex_digit((color.0 % 16) as nat) as char,
        spec_hex_digit((color.1 / 16) as nat) as char,
        spec_hex_digit((color.1 % 16) as nat) as char,
        spec_hex_digit((color.2 / 16) as nat) as char,
        spec_hex_digit((color.2 % 16) as nat) as char,
    ];
    if spec_num_eq(color.3, ONE_BITS) {
        base
    } else {
        let ab = spec_unit_channel(color.3);
        base + seq![
            spec_hex_digit((ab / 16) as nat) as char,
            spec_hex_digit((ab % 16) as nat) as char,
        ]
    }
}

/// One lowercase hexadecimal digit as a borrowed string.
pub fn hex_digit_str(n: u8) -> (r: &'static str)
    requires
        n < 16,
    ensures
        r@ =~= seq![spec_hex_digit(n as nat) as char],
{
    proof {
        reveal_strlit("0");
        reveal_strlit("1");
        reveal_strlit("2");
        reveal_strlit("3");
        reveal_strlit("4");
        reveal_strlit("5");
        reveal_strlit("6");
        reveal_strlit("7");
        reveal_strlit("8");
        reveal_strlit("9");
        reveal_strlit("a");
        reveal_strlit("b");
        reveal_strlit("c");
        reveal_strlit("d");
        reveal_strlit("e");
        reveal_strlit("f");
    }
    match n {
        0 => "0",
        1 => "1",
        2 => "2",
        3 => "3",
        4 => "4",
        5 => "5",
        6 => "6",
        7 => "7",
        8 => "8",
        9 => "9",
        10 => "a",
        11 => "b",
        12 => "c",
        13 => "d",
        14 => "e",
        _ => "f",
    }
}

/// Render a color as its hexadecimal notation.
pub fn rgb2hex(color: (u8, u8, u8, u64)) -> (out: String)
    ensures
        out@ == spec_rgb2hex(color),
{
    let (r, g, b, a) = color;
    let mut out = String::new();
    proof {
        reveal_strlit("#");
    }
    out.append("#");
    out.append(hex_digit_str(r / 16));
    out.append(hex_digit_str(r % 16));
    out.append(hex_digit_str(g / 16));
    out.append(hex_digit_str(g % 16));
    out.append(hex_digit_str(b / 16));
    out.append(hex_digit_str(b % 16));
    if !sf_num_eq(a, ONE_BITS) {
        let ab = unit_channel_bits(a);
        out.append(hex_digit_str(ab / 16));
        out.append(hex_digit_str(ab % 16));
        proof {
            assert(out@ =~= spec_rgb2hex(color));
        }
        out
    } else {
        proof {
            assert(out@ =~= spec_rgb2hex(color));
        }
        out
    }
}

} // verus!
