//! The crate's stated laws, proved once and for all inputs.

use vstd::prelude::*;
use vstd::string::StringSliceAdditionalSpecFns;
use vstd::utf8::encode_utf8;
use vstd::utf8::is_ascii_chars;
use vstd::utf8::is_ascii_chars_encode_utf8;
use crate::hex::spec_hex2rgb;
use crate::hex::spec_hex_digit;
use crate::hex::spec_hex_val;
use crate::hex::spec_is_hex_digit;
use crate::hex::spec_rgb2hex;
use crate::color::Color;
use crate::color::Space;
use crate::color::spec_mode;
use crate::color::spec_vec_mode2color;
use crate::distance::spec_distance;
use crate::distance::spec_sumsq;
use crate::chroma::spec_mix_in;
use crate::chroma::spec_mix_seq;
use crate::softfloat::spec_round;
use crate::softfloat::spec_sqrt;
use crate::softfloat::spec_to_u8;
use crate::kernels::B255_BITS;
use crate::kernels::spec_channel_unit;
use crate::kernels::spec_rgb2hsl;
use crate::kernels::spec_rgb2hsv;
use crate::softfloat::NAN_BITS;
use crate::softfloat::NEG_ZERO;
use crate::softfloat::ONE_BITS;
use crate::softfloat::POS_ZERO;
use crate::softfloat::bitlen;
use crate::softfloat::lemma_bitlen_bounds;
use crate::softfloat::lemma_bitlen_ge;
use crate::softfloat::lemma_bitlen_le;
use crate::softfloat::lemma_div_pow2_lt;
use crate::softfloat::lemma_mul_pow2_lt;
use crate::softfloat::lemma_neg_fields;
use crate::softfloat::lemma_pack_finite;
use crate::softfloat::lemma_pack_neg;
use crate::softfloat::lemma_pack_small_int;
use crate::softfloat::lemma_sub_self;
use crate::softfloat::sf_efield;
use crate::softfloat::sf_exp;
use crate::softfloat::sf_ffield;
use crate::softfloat::sf_is_finite;
use crate::softfloat::sf_is_inf;
use crate::softfloat::sf_is_nan;
use crate::softfloat::sf_is_zero;
use crate::softfloat::sf_mant;
use crate::softfloat::sf_signbit;
use crate::softfloat::spec_add;
use crate::softfloat::spec_div;
use crate::softfloat::spec_from_int;
use crate::softfloat::spec_max;
use crate::softfloat::spec_min;
use crate::softfloat::spec_mul;
use crate::softfloat::spec_neg;
use crate::softfloat::spec_num_eq;
use crate::softfloat::spec_pack_mag;
use crate::softfloat::spec_round_pack;
use crate::softfloat::spec_sub;
use vstd::arithmetic::power2::pow2;
use vstd::arithmetic::power2::lemma_pow2_adds;
use vstd::arithmetic::power2::lemma_pow2_strictly_increases;
use vstd::arithmetic::power2::lemma2_to64;
use vstd::arithmetic::power2::lemma2_to64_rest;

verus! {

/// Rendering an opaque color as hexadecimal text and parsing it back
/// returns exactly the original channels, with full opacity: the
/// round trip of the hexadecimal notation loses nothing.
pub proof fn lemma_hex_round_trip(r: u8, g: u8, b: u8)
    ensures
        spec_hex2rgb(encode_utf8(spec_rgb2hex((r, g, b, ONE_BITS)))) == Ok::<_, crate::error::ChromaError>(
            (r, g, b, ONE_BITS),
        ),
{
    let cs = spec_rgb2hex((r, g, b, ONE_BITS));
    assert(cs.len() == 7);
    assert(is_ascii_chars(cs)) by {
        assert forall|k: int| 0 <= k < cs.len() implies '\0' <= #[trigger] cs[k] <= '\u{7f}' by {
            if k != 0 {
                lemma_hex_digit_char_ascii(cs[k]);
            }
        }
    }
    is_ascii_chars_encode_utf8(cs);
    let bs = encode_utf8(cs);
    assert(bs.len() == 7);
    assert(bs[0] == '#' as u8);
    assert(bs[0] == 35);
    assert forall|k: int| 1 <= k < 7 implies spec_is_hex_digit(#[trigger] bs[k]) by {
        assert(bs[k] == cs[k] as u8);
    }
    lemma_hex_digit_val((r / 16) as nat);
    lemma_hex_digit_val((r % 16) as nat);
    lemma_hex_digit_val((g / 16) as nat);
    lemma_hex_digit_val((g % 16) as nat);
    lemma_hex_digit_val((b / 16) as nat);
    lemma_hex_digit_val((b % 16) as nat);
    assert(bs[1] == spec_hex_digit((r / 16) as nat));
    assert(spec_hex_val(bs[1]) * 16 + spec_hex_val(bs[2]) == r);
    assert(spec_hex_val(bs[3]) * 16 + spec_hex_val(bs[4]) == g);
    assert(spec_hex_val(bs[5]) * 16 + spec_hex_val(bs[6]) == b);
}

/// Each hexadecimal digit character is ASCII.
proof fn lemma_hex_digit_char_ascii(c: char)
    requires
        exists|n: nat| n < 16 && c == spec_hex_digit(n) as char,
    ensures
        '\0' <= c <= '\u{7f}',
{
    let n = choose|n: nat| n < 16 && c == spec_hex_digit(n) as char;
    assert(spec_hex_digit(n) < 128);
}

/// Reading a rendered digit back gives the digit's value.
proof fn lemma_hex_digit_val(n: nat)
    requires
        n < 16,
    ensures
        spec_is_hex_digit(spec_hex_digit(n)),
        spec_hex_val(spec_hex_digit(n)) == n,
{
}

// ---------------------------------------------------------------------
// Achromatic colors.
// ---------------------------------------------------------------------

/// A unit-scaled channel is a finite, positively signed value.
proof fn lemma_channel_unit_finite(v: u8)
    ensures
        sf_is_finite(spec_channel_unit(v)),
{
    reveal(spec_div);
    let a = spec_from_int(v as nat);
    let b = B255_BITS;
    assert(sf_efield(b) == 1030 && sf_ffield(b) == 0xFE00000000000);
    assert(!sf_is_nan(b) && !sf_is_inf(b) && !sf_is_zero(b));
    if v == 0 {
        assert(a == POS_ZERO) by {
            reveal(spec_pack_mag);
        }
        assert(sf_is_zero(a) && !sf_is_nan(a) && !sf_is_inf(a));
        assert(!sf_signbit(a));
        assert(spec_div(a, b) == POS_ZERO);
    } else {
        lemma_pack_small_int(v as nat);
        let nbv = bitlen(v as nat);
        assert(nbv <= 8) by {
            lemma2_to64();
            lemma_bitlen_le(v as nat, 8);
        }
        assert(!sf_is_nan(a) && !sf_is_inf(a) && !sf_is_zero(a));
        let ma = sf_mant(a);
        assert(ma == (v as nat) * pow2((53 - nbv) as nat));
        assert(pow2(52) <= ma < pow2(53)) by {
            lemma2_to64();
            lemma2_to64_rest();
            lemma_bitlen_bounds(v as nat);
            vstd::arithmetic::mul::lemma_mul_inequality(
                pow2((nbv - 1) as nat) as int,
                v as int,
                pow2((53 - nbv) as nat) as int,
            );
            lemma_pow2_adds((nbv - 1) as nat, (53 - nbv) as nat);
            lemma_mul_pow2_lt(v as nat, nbv, (53 - nbv) as nat);
        }
        assert(bitlen(ma) == 53) by {
            lemma_bitlen_ge(ma, 52);
            lemma_bitlen_le(ma, 53);
        }
        let sh = (110 - bitlen(ma)) as nat;
        assert(sh == 57);
        let big = ma * pow2(sh);
        let mb = sf_mant(b);
        assert(mb == 0xFE00000000000 + 0x10000000000000);
        let q = big / mb;
        assert(big < pow2(110)) by {
            lemma_mul_pow2_lt(ma, 53, 57);
        }
        assert(q < pow2(58)) by {
            lemma2_to64_rest();
            vstd::arithmetic::div_mod::lemma_div_is_ordered_by_denominator(
                big as int,
                pow2(52) as int,
                mb as int,
            );
            lemma_div_pow2_lt(big, 58, 52);
        }
        assert(bitlen(q) <= 58) by {
            lemma_bitlen_le(q, 58);
        }
        let e = sf_exp(a) - sh - sf_exp(b);
        assert(sf_exp(a) == nbv - 53);
        assert(sf_exp(b) == -45);
        assert(e == nbv - 65);
        assert(q < pow2(118)) by {
            lemma_pow2_strictly_increases(58, 118);
        }
        lemma_pack_finite(false, q, e, big % mb != 0);
    }
}

/// A gray color, with all three channels equal, has hue and
/// saturation exactly zero in both the HSL and the HSV view.
pub proof fn lemma_gray_achromatic(v: u8)
    ensures
        spec_rgb2hsl((v, v, v)).0 == POS_ZERO,
        spec_rgb2hsl((v, v, v)).1 == POS_ZERO,
        spec_rgb2hsv((v, v, v)).0 == POS_ZERO,
        spec_rgb2hsv((v, v, v)).1 == POS_ZERO,
{
    reveal(spec_rgb2hsl);
    reveal(spec_rgb2hsv);
    let x = spec_channel_unit(v);
    lemma_channel_unit_finite(v);
    assert(spec_max(x, x) == x);
    assert(spec_min(x, x) == x);
    lemma_sub_self(x);
    assert(spec_num_eq(spec_sub(x, x), POS_ZERO));
}

// ---------------------------------------------------------------------
// Distance.
// ---------------------------------------------------------------------

/// Swapping the operands of a difference and squaring gives the same
/// pattern: the distance terms do not depend on operand order.
proof fn lemma_sub_swap_square(a: u64, b: u64)
    ensures
        spec_mul(spec_sub(a, b), spec_sub(a, b)) == spec_mul(spec_sub(b, a), spec_sub(b, a)),
{
    let d1 = spec_sub(a, b);
    let d2 = spec_sub(b, a);
    lemma_sub_swap(a, b);
    if d1 == d2 {
    } else {
        assert(d1 == spec_neg(d2));
        lemma_mul_self_neg(d2);
    }
}

/// A difference and its operand swap are either the same pattern or
/// exact negations.
proof fn lemma_sub_swap(a: u64, b: u64)
    ensures
        spec_sub(a, b) == spec_sub(b, a) || spec_sub(a, b) == spec_neg(spec_sub(b, a)),
{
    reveal(spec_sub);
    reveal(spec_add);
    lemma_neg_fields(a);
    lemma_neg_fields(b);
    let na = spec_neg(a);
    let nb = spec_neg(b);
    if sf_is_nan(a) || sf_is_nan(b) {
        assert(spec_add(a, nb) == NAN_BITS && spec_add(b, na) == NAN_BITS);
    } else if sf_is_inf(a) || sf_is_inf(b) {
        lemma_neg_involution(a);
        lemma_neg_involution(b);
    } else if sf_is_zero(a) && sf_is_zero(b) {
        lemma_neg_involution(a);
        lemma_neg_involution(b);
    } else if sf_is_zero(a) {
        lemma_neg_involution(b);
    } else if sf_is_zero(b) {
        lemma_neg_involution(a);
    } else {
        let swap1 = sf_exp(a) < sf_exp(nb);
        let swap2 = sf_exp(b) < sf_exp(na);
        lemma2_to64();
        if sf_exp(a) == sf_exp(b) {
            assert(!swap1 && !swap2);
        }
        assert(pow2(0) == 1);
        let d = if swap1 {
            sf_exp(b) - sf_exp(a)
        } else {
            sf_exp(a) - sf_exp(b)
        };
        if d <= 64 {
            lemma_pack_neg_both(a, b);
        } else {
            lemma_pack_neg_both(a, b);
        }
    }
}

/// In the aligned addition paths, the two operand orders package the
/// same magnitude under opposite signs.
#[verifier::rlimit(100)]
proof fn lemma_pack_neg_both(a: u64, b: u64)
    requires
        sf_is_finite(a),
        sf_is_finite(b),
        !sf_is_zero(a),
        !sf_is_zero(b),
        !sf_is_nan(a),
        !sf_is_nan(b),
    ensures
        spec_sub(a, b) == spec_sub(b, a) || spec_sub(a, b) == spec_neg(spec_sub(b, a)),
{
    reveal(spec_sub);
    reveal(spec_add);
    lemma_neg_fields(a);
    lemma_neg_fields(b);
    let na = spec_neg(a);
    let nb = spec_neg(b);
    lemma2_to64();
    lemma2_to64_rest();
    assert(pow2(53) == 0x20000000000000);
    assert(sf_mant(a) < pow2(53) && sf_mant(b) < pow2(53));
    assert(-1074 <= sf_exp(a) <= 971 && -1074 <= sf_exp(b) <= 971);
    let swap1 = sf_exp(a) < sf_exp(nb);
    // After ordering, both calls work on the same pair of magnitudes
    // with mirrored signs, so each rounding call mirrors too.
    if swap1 {
        let d = sf_exp(b) - sf_exp(a);
        if d <= 64 {
            let big = sf_mant(b) * pow2(d as nat);
            assert(big < pow2(117)) by {
                lemma_mul_pow2_lt(sf_mant(b), 53, d as nat);
                if 53 + d < 117 {
                    lemma_pow2_strictly_increases((53 + d) as nat, 117);
                }
            }
            assert(big + sf_mant(a) < pow2(118) && pow2(117) < pow2(118) && pow2(53) < pow2(118))
                by {
                lemma_pow2_adds(117, 1);
                lemma_pow2_strictly_increases(53, 117);
                lemma_pow2_strictly_increases(117, 118);
            }
            if sf_signbit(nb) == sf_signbit(a) {
                lemma_pack_neg(sf_signbit(nb), big + sf_mant(a), sf_exp(a), false);
            } else if big > sf_mant(a) {
                lemma_pack_neg(sf_signbit(nb), (big - sf_mant(a)) as nat, sf_exp(a), false);
            } else if big < sf_mant(a) {
                lemma_pack_neg(sf_signbit(a), (sf_mant(a) - big) as nat, sf_exp(a), false);
            }
        } else {
            let big = sf_mant(b) * 0x800;
            assert(big < pow2(118)) by {
                lemma_pow2_adds(53, 11);
                lemma_mul_pow2_lt(sf_mant(b), 53, 11);
                lemma_pow2_strictly_increases(64, 118);
            }
            if sf_signbit(nb) == sf_signbit(a) {
                lemma_pack_neg(sf_signbit(nb), big, sf_exp(b) - 11, true);
            } else {
                lemma_pack_neg(sf_signbit(nb), (big - 1) as nat, sf_exp(b) - 11, true);
            }
        }
    } else {
        let d = sf_exp(a) - sf_exp(b);
        if d <= 64 {
            let big = sf_mant(a) * pow2(d as nat);
            assert(big < pow2(117)) by {
                lemma_mul_pow2_lt(sf_mant(a), 53, d as nat);
                if 53 + d < 117 {
                    lemma_pow2_strictly_increases((53 + d) as nat, 117);
                }
            }
            assert(big + sf_mant(b) < pow2(118) && pow2(117) < pow2(118) && pow2(53) < pow2(118))
                by {
                lemma_pow2_adds(117, 1);
                lemma_pow2_strictly_increases(53, 117);
                lemma_pow2_strictly_increases(117, 118);
            }
            let big2 = if sf_exp(a) == sf_exp(b) {
                sf_mant(b) * pow2(0)
            } else {
                sf_mant(a) * pow2(d as nat)
            };
            if sf_exp(a) == sf_exp(b) {
                assert(big == sf_mant(a) && big2 == sf_mant(b)) by {
                    vstd::arithmetic::mul::lemma_mul_basics(sf_mant(a) as int);
                    vstd::arithmetic::mul::lemma_mul_basics(sf_mant(b) as int);
                    assert(pow2(0) == 1);
                }
            }
            if sf_signbit(a) == sf_signbit(nb) {
                assert(spec_add(a, nb) == spec_round_pack(
                    sf_signbit(a),
                    big + sf_mant(b),
                    sf_exp(b),
                    false,
                ));
                if sf_exp(a) == sf_exp(b) {
                    assert(spec_add(b, na) == spec_round_pack(
                        sf_signbit(b),
                        big2 + sf_mant(a),
                        sf_exp(a),
                        false,
                    ));
                    assert(big == sf_mant(a) && big2 == sf_mant(b)) by {
                        vstd::arithmetic::mul::lemma_mul_basics(sf_mant(a) as int);
                        vstd::arithmetic::mul::lemma_mul_basics(sf_mant(b) as int);
                        assert(pow2(0) == 1);
                    }
                    assert(big2 + sf_mant(a) == big + sf_mant(b));
                } else {
                    assert(spec_add(b, na) == spec_round_pack(
                        !sf_signbit(a),
                        big2 + sf_mant(b),
                        sf_exp(b),
                        false,
                    ));
                    assert(big2 == big);
                }
                lemma_pack_neg(sf_signbit(a), big + sf_mant(b), sf_exp(b), false);
            } else if big > sf_mant(b) {
                lemma_pack_neg(sf_signbit(a), (big - sf_mant(b)) as nat, sf_exp(b), false);
            } else if big < sf_mant(b) {
                lemma_pack_neg(sf_signbit(nb), (sf_mant(b) - big) as nat, sf_exp(b), false);
            }
        } else {
            let big = sf_mant(a) * 0x800;
            assert(big < pow2(118)) by {
                lemma_pow2_adds(53, 11);
                lemma_mul_pow2_lt(sf_mant(a), 53, 11);
                lemma_pow2_strictly_increases(64, 118);
            }
            if sf_signbit(a) == sf_signbit(nb) {
                lemma_pack_neg(sf_signbit(a), big, sf_exp(a) - 11, true);
            } else {
                lemma_pack_neg(sf_signbit(a), (big - 1) as nat, sf_exp(a) - 11, true);
            }
        }
    }
    let d1 = spec_sub(a, b);
    let d2 = spec_sub(b, a);
    if d2 == spec_neg(d1) {
        lemma_neg_involution(d1);
    }
}

/// Negating twice gives the pattern back.
proof fn lemma_neg_involution(x: u64)
    ensures
        spec_neg(spec_neg(x)) == x,
{
}

/// Squaring ignores the sign of the pattern.
proof fn lemma_mul_self_neg(x: u64)
    ensures
        spec_mul(spec_neg(x), spec_neg(x)) == spec_mul(x, x),
{
    reveal(spec_mul);
    lemma_neg_fields(x);
}

/// The accumulated squared differences are symmetric in the two
/// vectors.
proof fn lemma_sumsq_symmetric(a: Seq<u64>, b: Seq<u64>, n: int)
    ensures
        spec_sumsq(a, b, n) == spec_sumsq(b, a, n),
    decreases n,
{
    if n > 0 {
        lemma_sumsq_symmetric(a, b, n - 1);
        lemma_sub_swap_square(a[n - 1], b[n - 1]);
    }
}

/// Distance is symmetric: in every space, measuring from the first
/// color to the second gives the very same pattern as the reverse, and
/// the unsupported Lab space is refused the same way in both orders.
pub proof fn lemma_distance_symmetric(c1: Color, c2: Color, space: Space)
    ensures
        spec_distance(c1, c2, space) == spec_distance(c2, c1, space),
{
    match (spec_mode(c1, space), spec_mode(c2, space)) {
        (Some(a), Some(b)) => {
            assert(a.len() == b.len());
            lemma_sumsq_symmetric(a, b, a.len() as int);
        },
        _ => {},
    }
}

/// A small whole number's pattern is finite with a nonpositive
/// exponent and no sign.
proof fn lemma_from_int_small(n: nat)
    requires
        n <= 255,
    ensures
        sf_is_finite(spec_from_int(n)),
        !sf_signbit(spec_from_int(n)),
        sf_exp(spec_from_int(n)) <= 0,
{
    if n == 0 {
        assert(spec_from_int(0nat) == POS_ZERO) by {
            reveal(spec_pack_mag);
        }
    } else {
        lemma_pack_small_int(n);
        lemma2_to64();
        lemma_bitlen_le(n, 8);
    }
}

/// A canonical alpha pattern is finite with a nonpositive exponent
/// and no sign.
proof fn lemma_alpha_small(a: u64)
    requires
        a <= ONE_BITS,
    ensures
        sf_is_finite(a),
        !sf_signbit(a),
        sf_exp(a) <= 0,
{
    assert(sf_efield(a) <= 0x3FF) by {
        assert(a / 0x10000000000000 <= 0x3FF);
        vstd::arithmetic::div_mod::lemma_small_mod((a / 0x10000000000000) as nat, 0x800);
    }
}

/// The product of anything zero-valued with a finite value is a zero.
proof fn lemma_mul_zero_right(d: u64)
    requires
        !sf_is_nan(d),
        !sf_is_inf(d),
    ensures
        spec_mul(d, POS_ZERO) == POS_ZERO || spec_mul(d, POS_ZERO) == NEG_ZERO,
{
    reveal(spec_mul);
}

/// Adding a zero of either sign to an unsigned finite pattern gives it
/// back unchanged.
proof fn lemma_add_zero_right(x: u64, z: u64)
    requires
        sf_is_finite(x),
        !sf_signbit(x),
        z == POS_ZERO || z == NEG_ZERO,
    ensures
        spec_add(x, z) == x,
{
    reveal(spec_add);
    if sf_is_zero(x) {
        assert(x == POS_ZERO) by {
            assert(x % 0x10000000000000 == 0 && (x / 0x10000000000000) % 0x800 == 0 && x
                / 0x8000000000000000 == 0);
            vstd::arithmetic::div_mod::lemma_fundamental_div_mod(x as int, 0x8000000000000000);
            vstd::arithmetic::div_mod::lemma_fundamental_div_mod(x as int, 0x10000000000000);
        }
    }
}

/// The difference of two finite values with nonpositive exponents is
/// finite and a number.
proof fn lemma_sub_small(x: u64, y: u64)
    requires
        sf_is_finite(x),
        sf_is_finite(y),
        sf_exp(x) <= 0,
        sf_exp(y) <= 0,
    ensures
        !sf_is_nan(spec_sub(x, y)),
        !sf_is_inf(spec_sub(x, y)),
{
    reveal(spec_sub);
    reveal(spec_add);
    lemma_neg_fields(y);
    let ny = spec_neg(y);
    lemma2_to64();
    lemma2_to64_rest();
    if sf_is_nan(x) || sf_is_nan(ny) || sf_is_inf(x) || sf_is_inf(ny) {
        assert(false);
    } else if sf_is_zero(x) && sf_is_zero(ny) {
    } else if sf_is_zero(x) {
    } else if sf_is_zero(ny) {
    } else {
        let swap = sf_exp(x) < sf_exp(ny);
        let ma = if swap {
            sf_mant(ny)
        } else {
            sf_mant(x)
        };
        let mb = if swap {
            sf_mant(x)
        } else {
            sf_mant(ny)
        };
        let ea = if swap {
            sf_exp(ny)
        } else {
            sf_exp(x)
        };
        let eb = if swap {
            sf_exp(x)
        } else {
            sf_exp(ny)
        };
        let d = ea - eb;
        assert(ma < pow2(53) && mb < pow2(53));
        if d <= 64 {
            let big = ma * pow2(d as nat);
            assert(big < pow2(117)) by {
                lemma_mul_pow2_lt(ma, 53, d as nat);
                if 53 + d < 117 {
                    lemma_pow2_strictly_increases((53 + d) as nat, 117);
                }
            }
            assert(big + mb < pow2(118) && pow2(53) < pow2(118) && pow2(117) < pow2(118)) by {
                lemma_pow2_adds(117, 1);
                lemma_pow2_strictly_increases(53, 117);
                lemma_pow2_strictly_increases(117, 118);
            }
            assert(bitlen(big + mb) <= 118) by {
                lemma_bitlen_le(big + mb, 118);
            }
            if sf_signbit(x) != sf_signbit(ny) {
                if big > mb {
                    assert(bitlen((big - mb) as nat) <= 118) by {
                        lemma_bitlen_le((big - mb) as nat, 118);
                    }
                    lemma_pack_finite(
                        if swap {
                            sf_signbit(ny)
                        } else {
                            sf_signbit(x)
                        },
                        (big - mb) as nat,
                        eb,
                        false,
                    );
                } else if big < mb {
                    assert(bitlen((mb - big) as nat) <= 118) by {
                        lemma_bitlen_le((mb - big) as nat, 118);
                    }
                    lemma_pack_finite(
                        if swap {
                            sf_signbit(x)
                        } else {
                            sf_signbit(ny)
                        },
                        (mb - big) as nat,
                        eb,
                        false,
                    );
                }
            } else {
                lemma_pack_finite(sf_signbit(x), big + mb, eb, false);
            }
        } else {
            let big = ma * 0x800;
            assert(big < pow2(64)) by {
                lemma_pow2_adds(53, 11);
                lemma_mul_pow2_lt(ma, 53, 11);
            }
            assert(bitlen(big) <= 64 && bitlen((big - 1) as nat) <= 64) by {
                lemma_bitlen_le(big, 64);
                lemma_bitlen_le((big - 1) as nat, 64);
            }
            assert(pow2(64) < pow2(118)) by {
                lemma_pow2_strictly_increases(64, 118);
            }
            if sf_signbit(x) == sf_signbit(ny) {
                lemma_pack_finite(
                    if swap {
                        sf_signbit(ny)
                    } else {
                        sf_signbit(x)
                    },
                    big,
                    ea - 11,
                    true,
                );
            } else {
                lemma_pack_finite(
                    if swap {
                        sf_signbit(ny)
                    } else {
                        sf_signbit(x)
                    },
                    (big - 1) as nat,
                    ea - 11,
                    true,
                );
            }
        }
    }
}

/// The accumulated squared differences of a vector with itself, over
/// finite components, is the positive zero.
proof fn lemma_sumsq_self_zero(v: Seq<u64>, n: int)
    requires
        forall|i: int| 0 <= i < n ==> sf_is_finite(#[trigger] v[i]),
    ensures
        spec_sumsq(v, v, n) == POS_ZERO,
    decreases n,
{
    if n > 0 {
        lemma_sumsq_self_zero(v, n - 1);
        lemma_sub_self(v[n - 1]);
        assert(spec_mul(POS_ZERO, POS_ZERO) == POS_ZERO) by {
            reveal(spec_mul);
        }
        assert(spec_add(POS_ZERO, POS_ZERO) == POS_ZERO) by {
            reveal(spec_add);
        }
    }
}

/// In any space whose view is served here, the distance between a
/// color and itself is exactly zero as soon as every component of the
/// view is a finite pattern: all the squared differences vanish.
pub proof fn lemma_distance_self_zero_of_finite(c: Color, space: Space)
    requires
        spec_mode(c, space) is Some,
        forall|i: int|
            0 <= i < spec_mode(c, space).unwrap().len() ==> sf_is_finite(
                #[trigger] spec_mode(c, space).unwrap()[i],
            ),
    ensures
        spec_distance(c, c, space) == Ok::<u64, crate::error::ChromaError>(POS_ZERO),
{
    let v = spec_mode(c, space).unwrap();
    lemma_sumsq_self_zero(v, v.len() as int);
    assert(spec_sqrt(POS_ZERO) == POS_ZERO) by {
        reveal(spec_sqrt);
    }
}

/// The distance between a color and itself is exactly zero, in the
/// plain RGB view and in the RGBA view with its alpha, whose
/// components are finite outright.
pub proof fn lemma_distance_self_zero(c: Color, space: Space)
    requires
        c.wf(),
        space == Space::Rgb || space == Space::Rgba,
    ensures
        spec_distance(c, c, space) == Ok::<u64, crate::error::ChromaError>(POS_ZERO),
{
    crate::color::lemma_wf_alpha(c);
    lemma_from_int_small(c.spec_rgb().0 as nat);
    lemma_from_int_small(c.spec_rgb().1 as nat);
    lemma_from_int_small(c.spec_rgb().2 as nat);
    lemma_alpha_small(c.spec_alpha());
    let a = spec_mode(c, space).unwrap();
    assert(forall|i: int| 0 <= i < a.len() ==> sf_is_finite(#[trigger] a[i]));
    lemma_distance_self_zero_of_finite(c, space);
}

/// In any space whose view is served here, mixing at ratio zero is
/// exactly the rebuild of the first color's own view: every
/// interpolation term vanishes, so only the space's round trip
/// remains.  The components must be finite, unsigned patterns of at
/// most unit scale, which the RGB and RGBA views satisfy outright.
pub proof fn lemma_mix_zero_rebuilds_first(c1: Color, c2: Color, space: Space)
    requires
        spec_mode(c1, space) is Some,
        spec_mode(c2, space) is Some,
        forall|i: int|
            0 <= i < spec_mode(c1, space).unwrap().len() ==> {
                let x = #[trigger] spec_mode(c1, space).unwrap()[i];
                sf_is_finite(x) && !sf_signbit(x) && sf_exp(x) <= 0
            },
        forall|i: int|
            0 <= i < spec_mode(c2, space).unwrap().len() ==> {
                let y = #[trigger] spec_mode(c2, space).unwrap()[i];
                sf_is_finite(y) && sf_exp(y) <= 0
            },
    ensures
        spec_mix_in(c1, c2, space, POS_ZERO) == spec_vec_mode2color(
            spec_mode(c1, space).unwrap(),
            space,
        ),
{
    let a = spec_mode(c1, space).unwrap();
    let b = spec_mode(c2, space).unwrap();
    assert(a.len() == b.len());
    let mixed = spec_mix_seq(a, b, POS_ZERO);
    assert forall|i: int| 0 <= i < a.len() implies #[trigger] mixed[i] == a[i] by {
        let x = a[i];
        let y = b[i];
        lemma_sub_small(y, x);
        lemma_mul_zero_right(spec_sub(y, x));
        lemma_add_zero_right(x, spec_mul(spec_sub(y, x), POS_ZERO));
    }
    assert(mixed =~= a);
}

/// Mixing at ratio zero gives the first color back exactly, channel
/// for channel and alpha bit for bit, in the default RGBA space.
pub proof fn lemma_mix_zero_is_first(c1: Color, c2: Color)
    requires
        c1.wf(),
        c2.wf(),
    ensures
        spec_mix_in(c1, c2, Space::Rgba, POS_ZERO) == Ok::<_, crate::error::ChromaError>(
            (c1.spec_rgb().0, c1.spec_rgb().1, c1.spec_rgb().2, c1.spec_alpha()),
        ),
{
    crate::color::lemma_wf_alpha(c1);
    crate::color::lemma_wf_alpha(c2);
    let a = spec_mode(c1, Space::Rgba).unwrap();
    let b = spec_mode(c2, Space::Rgba).unwrap();
    let mixed = spec_mix_seq(a, b, POS_ZERO);
    assert forall|i: int| 0 <= i < 4 implies #[trigger] mixed[i] == a[i] by {
        lemma_component_small(c1, i);
        lemma_component_small(c2, i);
        let x = a[i];
        let y = b[i];
        lemma_sub_small(y, x);
        lemma_mul_zero_right(spec_sub(y, x));
        lemma_add_zero_right(x, spec_mul(spec_sub(y, x), POS_ZERO));
    }
    assert(mixed =~= a);
    lemma_round_to_u8_from_int(c1.spec_rgb().0 as nat);
    lemma_round_to_u8_from_int(c1.spec_rgb().1 as nat);
    lemma_round_to_u8_from_int(c1.spec_rgb().2 as nat);
}

/// Each RGBA component of a well-formed color is finite, unsigned and
/// at most one in magnitude scale.
proof fn lemma_component_small(c: Color, i: int)
    requires
        c.wf(),
        0 <= i < 4,
    ensures
        sf_is_finite(spec_mode(c, Space::Rgba).unwrap()[i]),
        !sf_signbit(spec_mode(c, Space::Rgba).unwrap()[i]),
        sf_exp(spec_mode(c, Space::Rgba).unwrap()[i]) <= 0,
{
    crate::color::lemma_wf_alpha(c);
    lemma_from_int_small(c.spec_rgb().0 as nat);
    lemma_from_int_small(c.spec_rgb().1 as nat);
    lemma_from_int_small(c.spec_rgb().2 as nat);
    lemma_alpha_small(c.spec_alpha());
}

/// Rounding and byte truncation undo the injection of a byte into a
/// floating-point pattern.
proof fn lemma_round_to_u8_from_int(n: nat)
    requires
        n <= 255,
    ensures
        spec_round(spec_from_int(n)) == spec_from_int(n),
        spec_to_u8(spec_from_int(n)) == n,
{
    reveal(spec_round);
    reveal(spec_to_u8);
    lemma2_to64();
    lemma2_to64_rest();
    if n == 0 {
        assert(spec_from_int(0nat) == POS_ZERO) by {
            reveal(spec_pack_mag);
        }
        vstd::arithmetic::power2::lemma_pow2_pos(1074);
        vstd::arithmetic::div_mod::lemma_basic_div(0, pow2(1074) as int);
    } else {
        lemma_pack_small_int(n);
        let v = spec_from_int(n);
        let nb = bitlen(n);
        lemma_bitlen_le(n, 8);
        lemma_bitlen_bounds(n);
        vstd::arithmetic::power2::lemma_pow2_pos((53 - nb) as nat);
        assert(sf_mant(v) == n * pow2((53 - nb) as nat));
        assert(sf_exp(v) == nb - 53);
        let k = (53 - nb) as nat;
        assert(sf_mant(v) / pow2(k) == n && sf_mant(v) % pow2(k) == 0) by {
            vstd::arithmetic::power2::lemma_pow2_pos(k);
            vstd::arithmetic::div_mod::lemma_fundamental_div_mod_converse(
                sf_mant(v) as int,
                pow2(k) as int,
                n as int,
                0,
            );
        }
        assert(sf_mant(v) % pow2(k) < pow2((k - 1) as nat)) by {
            vstd::arithmetic::power2::lemma_pow2_pos((k - 1) as nat);
        }
        assert(spec_round(v) == spec_round_pack(false, n, 0, false));
    }
}

} // verus!
