//! Random color generation: six random hexadecimal digits handed to
//! the ordinary notation parser, which owns all conversion logic.

use vstd::prelude::*;
use vstd::string::StringSliceAdditionalSpecFns;
use vstd::string::StringExecFns;
use vstd::utf8::encode_utf8;
use vstd::utf8::is_ascii_chars;
use vstd::utf8::is_ascii_chars_encode_utf8;
use crate::color::Color;
use crate::color::spec_parse_color;
use crate::color::spec_lower_byte;
use crate::hex::hex_digit_str;
use crate::hex::spec_hex_digit;
use crate::hex::spec_is_hex_digit;
use crate::hex::spec_hex2rgb;
use crate::softfloat::ONE_BITS;
use crate::rng::draw_usize;

verus! {

/// A lowercase hexadecimal digit character.
pub open spec fn spec_is_hex_digit_char(c: char) -> bool {
    exists|n: nat| n < 16 && c == spec_hex_digit(n) as char
}

/// Generate a random color: an opaque color whose six hexadecimal
/// digits are drawn independently.  Whatever digits come back, the
/// built notation always parses.
pub fn random() -> (c: Color)
    ensures
        c.spec_alpha() == ONE_BITS,
{
    let mut code = String::new();
    proof {
        reveal_strlit("#");
    }
    code.append("#");
    let mut i: usize = 0;
    while i < 6
        invariant
            i <= 6,
            code@.len() == 1 + i,
            code@[0] == '#',
            forall|k: int| 1 <= k < code@.len() ==> spec_is_hex_digit_char(#[trigger] code@[k]),
        decreases 6 - i,
    {
        let n = draw_usize();
        let d = (n % 16) as u8;
        let ds = hex_digit_str(d);
        code.append(ds);
        proof {
            assert(spec_is_hex_digit_char(spec_hex_digit(d as nat) as char)) by {
                assert((d as nat) < 16 && spec_hex_digit(d as nat) as char == spec_hex_digit(
                    d as nat,
                ) as char);
            }
        }
        i = i + 1;
    }
    proof {
        lemma_random_code_parses(code@);
    }
    match Color::parse(code.as_str()) {
        Ok(c) => c,
        Err(_) => {
            proof {
                assert(false);
            }
            Color::new(0, 0, 0, ONE_BITS)
        },
    }
}

/// A `#` followed by six hexadecimal digit characters always parses,
/// to an opaque color.
proof fn lemma_random_code_parses(cs: Seq<char>)
    requires
        cs.len() == 7,
        cs[0] == '#',
        forall|k: int| 1 <= k < cs.len() ==> spec_is_hex_digit_char(#[trigger] cs[k]),
    ensures
        spec_parse_color(encode_utf8(cs)) matches Ok(t) && t.3 == ONE_BITS,
{
    assert(is_ascii_chars(cs)) by {
        assert forall|k: int| 0 <= k < cs.len() implies '\0' <= #[trigger] cs[k] <= '\u{7f}' by {
            if k == 0 {
            } else {
                let n = choose|n: nat| n < 16 && cs[k] == spec_hex_digit(n) as char;
                assert(spec_hex_digit(n) < 128);
            }
        }
    }
    is_ascii_chars_encode_utf8(cs);
    let bs = encode_utf8(cs);
    assert(bs.len() == 7);
    assert(bs[0] == '#' as u8);
    assert forall|k: int| 1 <= k < 7 implies spec_is_hex_digit(#[trigger] bs[k]) && !(65
        <= bs[k] <= 90) by {
        let n = choose|n: nat| n < 16 && cs[k] == spec_hex_digit(n) as char;
        assert(bs[k] == cs[k] as u8);
        assert(cs[k] as u8 == spec_hex_digit(n));
    }
    let low = bs.map_values(|b: u8| spec_lower_byte(b));
    assert(low =~= bs);
    assert(low.len() > 0 && low[0] == 35);
    assert(spec_hex2rgb(low) matches Ok(t) && t.3 == ONE_BITS);
}

} // verus!
