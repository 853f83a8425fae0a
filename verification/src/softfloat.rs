//! Exact integer arithmetic on IEEE-754 binary64 bit patterns.
//!
//! The color kernels in this crate work on real numbers that the rest of
//! the world exchanges as 64-bit floating-point values.  Here such a value
//! is carried as its bit pattern, a plain `u64`, and every operation the
//! kernels need (addition, subtraction, multiplication, division,
//! remainder, square root, rounding, comparisons and casts) is computed
//! exactly with integer arithmetic, following the binary64 encoding:
//! round to nearest, ties to even, with gradual underflow.
//!
//! Each executable operation is proved equal to a spec-level mirror
//! written over `nat`/`int`, so callers can reason about results as pure
//! mathematical functions of the input bit patterns.

use vstd::prelude::*;
use vstd::arithmetic::power2::pow2;
use vstd::arithmetic::power2::lemma_pow2_adds;
use vstd::arithmetic::power2::lemma_pow2_pos;
use vstd::arithmetic::power2::lemma_pow2_strictly_increases;
use vstd::arithmetic::power2::lemma2_to64;
use vstd::arithmetic::power2::lemma2_to64_rest;

verus! {

/// Bit pattern of positive zero.
pub const POS_ZERO: u64 = 0;

/// Bit pattern of negative zero.
pub const NEG_ZERO: u64 = 0x8000000000000000;

/// Bit pattern of 1.0.
pub const ONE_BITS: u64 = 0x3FF0000000000000;

/// Bit pattern of positive infinity.
pub const INF_BITS: u64 = 0x7FF0000000000000;

/// The quiet not-a-number pattern this module produces.
pub const NAN_BITS: u64 = 0x7FF8000000000000;

/// Number of binary digits of `n`: zero for zero, otherwise the unique
/// `k` with `pow2(k - 1) <= n < pow2(k)`.
pub open spec fn bitlen(n: nat) -> nat
    decreases n,
{
    if n == 0 {
        0
    } else {
        1 + bitlen(n / 2)
    }
}

pub proof fn lemma_bitlen_bounds(n: nat)
    requires
        n > 0,
    ensures
        pow2((bitlen(n) - 1) as nat) <= n < pow2(bitlen(n)),
    decreases n,
{
    if n == 1 {
        lemma2_to64();
        assert(bitlen(1nat) == 1 + bitlen(0nat));
    } else {
        lemma_bitlen_bounds(n / 2);
        let k = bitlen(n / 2);
        assert(pow2((k - 1) as nat) <= n / 2 < pow2(k));
        lemma_pow2_adds((k - 1) as nat, 1);
        lemma_pow2_adds(k, 1);
        lemma2_to64();
        assert(pow2(k) == pow2((k - 1) as nat) * 2);
        assert(pow2((k + 1) as nat) == pow2(k) * 2);
    }
}

pub proof fn lemma_bitlen_le(n: nat, k: nat)
    requires
        n < pow2(k),
    ensures
        bitlen(n) <= k,
{
    if n > 0 {
        lemma_bitlen_bounds(n);
        if bitlen(n) > k {
            if k <= bitlen(n) - 1 {
                if k < bitlen(n) - 1 {
                    lemma_pow2_strictly_increases(k, (bitlen(n) - 1) as nat);
                }
                assert(pow2(k) <= pow2((bitlen(n) - 1) as nat));
            }
        }
    }
}

pub proof fn lemma_bitlen_ge(n: nat, k: nat)
    requires
        pow2(k) <= n,
    ensures
        bitlen(n) >= k + 1,
{
    lemma_pow2_pos(k);
    lemma_bitlen_bounds(n);
    if bitlen(n) < k + 1 {
        if bitlen(n) < k {
            lemma_pow2_strictly_increases(bitlen(n), k);
        }
        assert(pow2(bitlen(n)) <= pow2(k));
    }
}

/// Executable binary digit count of a `u128`.
pub fn bitlen128(m: u128) -> (nb: u32)
    ensures
        nb == bitlen(m as nat),
        nb <= 128,
{
    let mut t: u128 = m;
    let mut c: u32 = 0;
    proof {
        lemma_pow2_adds(64, 64);
        lemma2_to64_rest();
        assert(u128::MAX < pow2(128));
        lemma_bitlen_le(m as nat, 128);
    }
    while t > 0
        invariant
            c + bitlen(t as nat) == bitlen(m as nat),
            bitlen(m as nat) <= 128,
        decreases t,
    {
        t = t / 2;
        c = c + 1;
    }
    c
}

/// Executable `pow2` on `u128`.
pub fn pow2_128(k: u32) -> (r: u128)
    requires
        k <= 127,
    ensures
        r == pow2(k as nat),
{
    let mut r: u128 = 1;
    let mut i: u32 = 0;
    proof {
        lemma2_to64();
        lemma2_to64_rest();
        lemma_pow2_adds(64, 63);
        lemma_pow2_adds(64, 64);
        assert(pow2(127) < pow2(128));
    }
    while i < k
        invariant
            i <= k <= 127,
            r == pow2(i as nat),
            pow2(127) < pow2(128) == u128::MAX + 1,
        decreases k - i,
    {
        proof {
            if (i as nat) + 1 < 128 {
                lemma_pow2_strictly_increases((i + 1) as nat, 128);
            }
            lemma_pow2_adds(i as nat, 1);
            lemma2_to64();
        }
        r = r * 2;
        i = i + 1;
    }
    r
}

/// Executable `pow2` on `u64`.
pub fn pow2_64(k: u32) -> (r: u64)
    requires
        k <= 63,
    ensures
        r == pow2(k as nat),
{
    let mut r: u64 = 1;
    let mut i: u32 = 0;
    proof {
        lemma2_to64();
        lemma2_to64_rest();
    }
    while i < k
        invariant
            i <= k <= 63,
            r == pow2(i as nat),
            pow2(64) == u64::MAX + 1,
        decreases k - i,
    {
        proof {
            if (i as nat) + 1 < 64 {
                lemma_pow2_strictly_increases((i + 1) as nat, 64);
            }
            lemma_pow2_adds(i as nat, 1);
            lemma2_to64();
        }
        r = r * 2;
        i = i + 1;
    }
    r
}

// ---------------------------------------------------------------------
// Decoding a bit pattern.
// ---------------------------------------------------------------------

/// Sign bit of a pattern.
pub open spec fn sf_signbit(b: u64) -> bool {
    b / 0x8000000000000000 == 1
}

/// Biased exponent field (11 bits).
pub open spec fn sf_efield(b: u64) -> nat {
    ((b / 0x10000000000000) % 0x800) as nat
}

/// Fraction field (52 bits).
pub open spec fn sf_ffield(b: u64) -> nat {
    (b % 0x10000000000000) as nat
}

pub open spec fn sf_is_nan(b: u64) -> bool {
    sf_efield(b) == 0x7FF && sf_ffield(b) != 0
}

pub open spec fn sf_is_inf(b: u64) -> bool {
    sf_efield(b) == 0x7FF && sf_ffield(b) == 0
}

pub open spec fn sf_is_zero(b: u64) -> bool {
    sf_efield(b) == 0 && sf_ffield(b) == 0
}

pub open spec fn sf_is_finite(b: u64) -> bool {
    sf_efield(b) != 0x7FF
}

/// Integer significand of a finite pattern: the represented magnitude is
/// `sf_mant(b) * 2^sf_exp(b)`.
pub open spec fn sf_mant(b: u64) -> nat {
    if sf_efield(b) == 0 {
        sf_ffield(b)
    } else {
        sf_ffield(b) + 0x10000000000000
    }
}

/// Binary exponent paired with `sf_mant`.
pub open spec fn sf_exp(b: u64) -> int {
    if sf_efield(b) == 0 {
        -1074
    } else {
        sf_efield(b) - 1075
    }
}

/// Executable decode: sign, significand, exponent of a finite pattern.
pub fn sf_decode(b: u64) -> (r: (bool, u64, i64))
    ensures
        r.0 == sf_signbit(b),
        r.1 == sf_mant(b),
        r.2 == sf_exp(b),
{
    let s = b / 0x8000000000000000 == 1;
    let e = (b / 0x10000000000000) % 0x800;
    let f = b % 0x10000000000000;
    if e == 0 {
        (s, f, -1074)
    } else {
        (s, f + 0x10000000000000, (e as i64) - 1075)
    }
}

// ---------------------------------------------------------------------
// Rounding and packing.
// ---------------------------------------------------------------------

/// Round a magnitude to the nearest representable binary64 value, ties
/// to even, and pack it with the given sign.
///
/// The magnitude being rounded is `m * 2^e` when `sticky` is false, and
/// otherwise lies strictly between `m * 2^e` and `(m + 1) * 2^e`.  For
/// the tie decisions to be exact in the sticky case, callers keep at
/// least 55 significant bits in `m`.
pub open spec fn spec_round_pack(s: bool, m: nat, e: int, sticky: bool) -> u64 {
    if s {
        (0x8000000000000000 + spec_pack_mag(m, e, sticky)) as u64
    } else {
        spec_pack_mag(m, e, sticky)
    }
}

/// The magnitude part of `spec_round_pack`: the packed pattern without
/// its sign bit.
#[verifier::opaque]
pub open spec fn spec_pack_mag(m: nat, e: int, sticky: bool) -> u64 {
    if m == 0 {
        0
    } else {
        let nb = bitlen(m) as int;
        let shift: int = if e + nb + 1022 <= 0 {
            -1074 - e
        } else {
            nb - 53
        };
        let keep0: nat = if shift <= 0 {
            m * pow2((-shift) as nat)
        } else {
            m / pow2(shift as nat)
        };
        let lost: nat = if shift <= 0 {
            0
        } else {
            m % pow2(shift as nat)
        };
        let halfpoint: nat = if shift >= 1 {
            pow2((shift - 1) as nat)
        } else {
            1
        };
        let up: bool = shift >= 1 && (lost > halfpoint || (lost == halfpoint && (sticky || keep0
            % 2 == 1)));
        let keep1: nat = if up {
            keep0 + 1
        } else {
            keep0
        };
        let e2: int = e + shift;
        let keep: nat = if keep1 == 0x20000000000000 {
            0x10000000000000
        } else {
            keep1
        };
        let e3: int = if keep1 == 0x20000000000000 {
            e2 + 1
        } else {
            e2
        };
        if keep < 0x10000000000000 {
            keep as u64
        } else {
            let ebiased: int = e3 + 1075;
            if ebiased >= 2047 {
                0x7FF0000000000000
            } else {
                (ebiased * 0x10000000000000 + (keep - 0x10000000000000)) as u64
            }
        }
    }
}

pub proof fn lemma_mul_pow2_lt(m: nat, a: nat, b: nat)
    requires
        m < pow2(a),
    ensures
        m * pow2(b) < pow2(a + b),
{
    lemma_pow2_adds(a, b);
    lemma_pow2_pos(b);
    vstd::arithmetic::mul::lemma_mul_strict_inequality(m as int, pow2(a) as int, pow2(b) as int);
}

pub proof fn lemma_div_pow2_lt(m: nat, a: nat, b: nat)
    requires
        m < pow2(a + b),
    ensures
        m / pow2(b) < pow2(a),
{
    lemma_pow2_adds(a, b);
    lemma_pow2_pos(b);
    vstd::arithmetic::div_mod::lemma_multiply_divide_lt(m as int, pow2(b) as int, pow2(a) as int);
}

/// Executable form of `spec_round_pack`.
pub fn round_pack(s: bool, m: u128, e: i64, sticky: bool) -> (r: u64)
    requires
        m < pow2(118),
        -5000 <= e <= 5000,
        sticky ==> bitlen(m as nat) >= 55,
    ensures
        r == spec_round_pack(s, m as nat, e as int, sticky),
{
    proof {
        reveal(spec_pack_mag);
    }
    let sbit: u64 = if s {
        0x8000000000000000
    } else {
        0
    };
    if m == 0 {
        return sbit;
    }
    let nb: u32 = bitlen128(m);
    proof {
        lemma_bitlen_bounds(m as nat);
        lemma_bitlen_le(m as nat, 118);
    }
    let shift: i64 = if e + (nb as i64) + 1022 <= 0 {
        -1074 - e
    } else {
        (nb as i64) - 53
    };
    if shift >= 119 {
        // Everything is shifted out and the lost part stays below the
        // half point, so the magnitude rounds to zero.
        proof {
            let sh = shift as nat;
            lemma_pow2_pos(sh);
            assert(m < pow2(sh)) by {
                if sh > 118 {
                    lemma_pow2_strictly_increases(118, sh);
                }
            }
            vstd::arithmetic::div_mod::lemma_basic_div(m as int, pow2(sh) as int);
            vstd::arithmetic::div_mod::lemma_small_mod(m as nat, pow2(sh));
            assert(m < pow2((sh - 1) as nat)) by {
                if 118 < sh - 1 {
                    lemma_pow2_strictly_increases(118, (sh - 1) as nat);
                }
            }
        }
        return sbit;
    }
    let (keep0, lost): (u128, u128) = if shift <= 0 {
        proof {
            let k = (-shift) as nat;
            let nbn = bitlen(m as nat);
            // In the normal branch shift = nb - 53, so nb + k == 53; in
            // the subnormal branch e + nb + 1022 <= 0 and k = 1074 + e,
            // so nb + k <= 52.  Either way the product stays below 2^53.
            assert(nbn + k <= 53);
            lemma_mul_pow2_lt(m as nat, nbn, k);
            if nbn + k < 53 {
                lemma_pow2_strictly_increases(nbn + k, 53);
            }
            lemma_pow2_strictly_increases(53, 118);
            lemma2_to64();
            lemma2_to64_rest();
            assert(pow2(118) == pow2(64) * pow2(54)) by {
                lemma_pow2_adds(64, 54);
            }
        }
        (m * pow2_128((-shift) as u32), 0)
    } else {
        let p = pow2_128(shift as u32);
        proof {
            lemma_pow2_pos(shift as nat);
        }
        (m / p, m % p)
    };
    let up: bool = shift >= 1 && {
        let halfpoint = pow2_128((shift - 1) as u32);
        lost > halfpoint || (lost == halfpoint && (sticky || keep0 % 2 == 1))
    };
    proof {
        let nbn = bitlen(m as nat);
        if shift > 0 {
            let sh = shift as nat;
            lemma_pow2_pos(sh);
            // keep0 = m / 2^shift < 2^53 because m < 2^nb <= 2^(53 + shift)
            assert(nbn <= 53 + sh);
            if nbn < 53 + sh {
                lemma_pow2_strictly_increases(nbn, 53 + sh);
            }
            lemma_div_pow2_lt(m as nat, 53, sh);
        } else {
            assert(keep0 < pow2(53));
        }
        lemma2_to64();
        lemma2_to64_rest();
        assert(pow2(53) == 0x20000000000000);
    }
    let keep1: u128 = if up {
        keep0 + 1
    } else {
        keep0
    };
    let (keep, e2): (u128, i64) = if keep1 == 0x20000000000000 {
        (0x10000000000000, e + shift + 1)
    } else {
        (keep1, e + shift)
    };
    if keep < 0x10000000000000 {
        sbit + (keep as u64)
    } else {
        let ebiased: i64 = e2 + 1075;
        if ebiased >= 2047 {
            sbit + 0x7FF0000000000000
        } else {
            proof {
                assert(keep < 0x20000000000000);
                assert(ebiased >= 1);
            }
            sbit + (ebiased as u64) * 0x10000000000000 + ((keep as u64) - 0x10000000000000)
        }
    }
}

// ---------------------------------------------------------------------
// Sign operations.
// ---------------------------------------------------------------------

/// The pattern with the opposite sign bit.
pub open spec fn spec_neg(a: u64) -> u64 {
    if a >= 0x8000000000000000 {
        (a - 0x8000000000000000) as u64
    } else {
        (a + 0x8000000000000000) as u64
    }
}

/// Negation: flips the sign bit.
pub fn sf_neg(a: u64) -> (r: u64)
    ensures
        r == spec_neg(a),
{
    if a >= 0x8000000000000000 {
        a - 0x8000000000000000
    } else {
        a + 0x8000000000000000
    }
}

/// The pattern with the sign bit cleared.
pub open spec fn spec_abs(a: u64) -> u64 {
    if a >= 0x8000000000000000 {
        (a - 0x8000000000000000) as u64
    } else {
        a
    }
}

/// Absolute value: clears the sign bit.
pub fn sf_abs(a: u64) -> (r: u64)
    ensures
        r == spec_abs(a),
{
    if a >= 0x8000000000000000 {
        a - 0x8000000000000000
    } else {
        a
    }
}

// ---------------------------------------------------------------------
// Addition and subtraction.
// ---------------------------------------------------------------------

/// Sum of two patterns, rounded to nearest, ties to even.
///
/// Special values follow the usual rules: any not-a-number operand (and
/// the indeterminate sum of two infinities of opposite sign) gives the
/// canonical not-a-number; infinities dominate; the sum of two zeros
/// keeps the sign only when both agree.
#[verifier::opaque]
pub open spec fn spec_add(a: u64, b: u64) -> u64 {
    if sf_is_nan(a) || sf_is_nan(b) {
        NAN_BITS
    } else if sf_is_inf(a) {
        if sf_is_inf(b) && sf_signbit(a) != sf_signbit(b) {
            NAN_BITS
        } else {
            a
        }
    } else if sf_is_inf(b) {
        b
    } else if sf_is_zero(a) && sf_is_zero(b) {
        if sf_signbit(a) == sf_signbit(b) {
            a
        } else {
            POS_ZERO
        }
    } else if sf_is_zero(a) {
        b
    } else if sf_is_zero(b) {
        a
    } else {
        let swap = sf_exp(a) < sf_exp(b);
        let sa = if swap {
            sf_signbit(b)
        } else {
            sf_signbit(a)
        };
        let sb = if swap {
            sf_signbit(a)
        } else {
            sf_signbit(b)
        };
        let ma = if swap {
            sf_mant(b)
        } else {
            sf_mant(a)
        };
        let mb = if swap {
            sf_mant(a)
        } else {
            sf_mant(b)
        };
        let ea = if swap {
            sf_exp(b)
        } else {
            sf_exp(a)
        };
        let eb = if swap {
            sf_exp(a)
        } else {
            sf_exp(b)
        };
        let d = ea - eb;
        if d <= 64 {
            let big = ma * pow2(d as nat);
            if sa == sb {
                spec_round_pack(sa, big + mb, eb, false)
            } else if big > mb {
                spec_round_pack(sa, (big - mb) as nat, eb, false)
            } else if big < mb {
                spec_round_pack(sb, (mb - big) as nat, eb, false)
            } else {
                POS_ZERO
            }
        } else {
            // The smaller operand only matters as a sticky tail.
            let big = ma * 0x800;
            if sa == sb {
                spec_round_pack(sa, big, ea - 11, true)
            } else {
                spec_round_pack(sa, (big - 1) as nat, ea - 11, true)
            }
        }
    }
}

/// Executable addition on bit patterns.
pub fn sf_add(a: u64, b: u64) -> (r: u64)
    ensures
        r == spec_add(a, b),
{
    proof {
        reveal(spec_add);
    }
    let (a_s, a_m, a_e) = sf_decode(a);
    let (b_s, b_m, b_e) = sf_decode(b);
    let a_ef = (a / 0x10000000000000) % 0x800;
    let b_ef = (b / 0x10000000000000) % 0x800;
    let a_ff = a % 0x10000000000000;
    let b_ff = b % 0x10000000000000;
    if (a_ef == 0x7FF && a_ff != 0) || (b_ef == 0x7FF && b_ff != 0) {
        return NAN_BITS;
    }
    if a_ef == 0x7FF {
        if b_ef == 0x7FF && a_s != b_s {
            return NAN_BITS;
        }
        return a;
    }
    if b_ef == 0x7FF {
        return b;
    }
    if a_ef == 0 && a_ff == 0 && b_ef == 0 && b_ff == 0 {
        if a_s == b_s {
            return a;
        }
        return POS_ZERO;
    }
    if a_ef == 0 && a_ff == 0 {
        return b;
    }
    if b_ef == 0 && b_ff == 0 {
        return a;
    }
    let swap = a_e < b_e;
    let (sa, ma, ea, sb, mb, eb) = if swap {
        (b_s, b_m, b_e, a_s, a_m, a_e)
    } else {
        (a_s, a_m, a_e, b_s, b_m, b_e)
    };
    let d = ea - eb;
    proof {
        lemma2_to64();
        lemma2_to64_rest();
        lemma_pow2_adds(53, 64);
        lemma_pow2_adds(53, 11);
        lemma_pow2_strictly_increases(117, 118);
        lemma_pow2_strictly_increases(64, 118);
        assert(ma < pow2(53) && mb < pow2(53));
    }
    if d <= 64 {
        proof {
            lemma_mul_pow2_lt(ma as nat, 53, d as nat);
            if d < 64 {
                lemma_pow2_strictly_increases((53 + d) as nat, 117);
            }
            lemma_pow2_adds(117, 1);
            assert(ma * pow2(d as nat) < pow2(117));
            lemma_pow2_strictly_increases(53, 117);
            assert(ma * pow2(d as nat) + mb < pow2(118));
        }
        let big: u128 = (ma as u128) * pow2_128(d as u32);
        if sa == sb {
            round_pack(sa, big + (mb as u128), eb, false)
        } else if big > mb as u128 {
            round_pack(sa, big - (mb as u128), eb, false)
        } else if big < mb as u128 {
            round_pack(sb, (mb as u128) - big, eb, false)
        } else {
            POS_ZERO
        }
    } else {
        // ea >= eb + 65 >= -1074 + 65, so the larger operand is normal.
        proof {
            assert(ea >= -1009);
            assert(ma >= 0x10000000000000);
            lemma_bitlen_ge((ma * 0x800 - 1) as nat, 62);
            lemma_bitlen_ge((ma * 0x800) as nat, 62);
            assert(ma * 0x800 < pow2(118)) by {
                lemma_mul_pow2_lt(ma as nat, 53, 11);
                lemma_pow2_strictly_increases(64, 118);
            }
            assert(pow2(62) <= ma * 0x800 - 1) by {
                assert(ma * 0x800 >= 0x10000000000000 * 0x800) by {
                    vstd::arithmetic::mul::lemma_mul_inequality(
                        0x10000000000000,
                        ma as int,
                        0x800,
                    );
                }
            }
        }
        let big: u128 = (ma as u128) * 0x800;
        if sa == sb {
            round_pack(sa, big, ea - 11, true)
        } else {
            round_pack(sa, big - 1, ea - 11, true)
        }
    }
}

/// Difference of two patterns: `a + (-b)` exactly.
#[verifier::opaque]
pub open spec fn spec_sub(a: u64, b: u64) -> u64 {
    spec_add(a, spec_neg(b))
}

/// Executable subtraction on bit patterns.
pub fn sf_sub(a: u64, b: u64) -> (r: u64)
    ensures
        r == spec_sub(a, b),
{
    proof {
        reveal(spec_sub);
    }
    let nb = sf_neg(b);
    sf_add(a, nb)
}

// ---------------------------------------------------------------------
// Multiplication and division.
// ---------------------------------------------------------------------

/// Product of two patterns, rounded to nearest, ties to even.  The sign
/// is the exclusive or of the operand signs; an infinity times a zero
/// is the canonical not-a-number.
#[verifier::opaque]
pub open spec fn spec_mul(a: u64, b: u64) -> u64 {
    let s = sf_signbit(a) != sf_signbit(b);
    let sbit: u64 = if s {
        0x8000000000000000
    } else {
        0
    };
    if sf_is_nan(a) || sf_is_nan(b) {
        NAN_BITS
    } else if sf_is_inf(a) || sf_is_inf(b) {
        if sf_is_zero(a) || sf_is_zero(b) {
            NAN_BITS
        } else {
            (sbit + INF_BITS) as u64
        }
    } else if sf_is_zero(a) || sf_is_zero(b) {
        sbit
    } else {
        spec_round_pack(s, sf_mant(a) * sf_mant(b), sf_exp(a) + sf_exp(b), false)
    }
}

/// Executable multiplication on bit patterns.
pub fn sf_mul(a: u64, b: u64) -> (r: u64)
    ensures
        r == spec_mul(a, b),
{
    proof {
        reveal(spec_mul);
    }
    let (a_s, a_m, a_e) = sf_decode(a);
    let (b_s, b_m, b_e) = sf_decode(b);
    let a_ef = (a / 0x10000000000000) % 0x800;
    let b_ef = (b / 0x10000000000000) % 0x800;
    let a_ff = a % 0x10000000000000;
    let b_ff = b % 0x10000000000000;
    let s = a_s != b_s;
    let sbit: u64 = if s {
        0x8000000000000000
    } else {
        0
    };
    if (a_ef == 0x7FF && a_ff != 0) || (b_ef == 0x7FF && b_ff != 0) {
        return NAN_BITS;
    }
    if a_ef == 0x7FF || b_ef == 0x7FF {
        if (a_ef == 0 && a_ff == 0) || (b_ef == 0 && b_ff == 0) {
            return NAN_BITS;
        }
        return sbit + INF_BITS;
    }
    if (a_ef == 0 && a_ff == 0) || (b_ef == 0 && b_ff == 0) {
        return sbit;
    }
    proof {
        lemma2_to64();
        lemma2_to64_rest();
        assert(a_m < pow2(53) && b_m < pow2(53));
        lemma_pow2_adds(53, 53);
        lemma_pow2_strictly_increases(106, 118);
        vstd::arithmetic::mul::lemma_mul_strict_upper_bound(
            a_m as int,
            pow2(53) as int,
            b_m as int,
            pow2(53) as int,
        );
    }
    round_pack(s, (a_m as u128) * (b_m as u128), a_e + b_e, false)
}

/// Quotient of two patterns, rounded to nearest, ties to even, with the
/// usual special cases: division by zero of a nonzero finite value gives
/// a signed infinity, and zero over zero or infinity over infinity gives
/// the canonical not-a-number.
#[verifier::opaque]
pub open spec fn spec_div(a: u64, b: u64) -> u64 {
    let s = sf_signbit(a) != sf_signbit(b);
    let sbit: u64 = if s {
        0x8000000000000000
    } else {
        0
    };
    if sf_is_nan(a) || sf_is_nan(b) {
        NAN_BITS
    } else if sf_is_inf(a) {
        if sf_is_inf(b) {
            NAN_BITS
        } else {
            (sbit + INF_BITS) as u64
        }
    } else if sf_is_inf(b) {
        sbit
    } else if sf_is_zero(b) {
        if sf_is_zero(a) {
            NAN_BITS
        } else {
            (sbit + INF_BITS) as u64
        }
    } else if sf_is_zero(a) {
        sbit
    } else {
        let sh = (110 - bitlen(sf_mant(a))) as nat;
        let big = sf_mant(a) * pow2(sh);
        let q = big / sf_mant(b);
        let exact = big % sf_mant(b) == 0;
        spec_round_pack(s, q, sf_exp(a) - sh - sf_exp(b), !exact)
    }
}

/// Executable division on bit patterns.
pub fn sf_div(a: u64, b: u64) -> (r: u64)
    ensures
        r == spec_div(a, b),
{
    proof {
        reveal(spec_div);
    }
    let (a_s, a_m, a_e) = sf_decode(a);
    let (b_s, b_m, b_e) = sf_decode(b);
    let a_ef = (a / 0x10000000000000) % 0x800;
    let b_ef = (b / 0x10000000000000) % 0x800;
    let a_ff = a % 0x10000000000000;
    let b_ff = b % 0x10000000000000;
    let s = a_s != b_s;
    let sbit: u64 = if s {
        0x8000000000000000
    } else {
        0
    };
    if (a_ef == 0x7FF && a_ff != 0) || (b_ef == 0x7FF && b_ff != 0) {
        return NAN_BITS;
    }
    if a_ef == 0x7FF {
        if b_ef == 0x7FF {
            return NAN_BITS;
        }
        return sbit + INF_BITS;
    }
    if b_ef == 0x7FF {
        return sbit;
    }
    if b_ef == 0 && b_ff == 0 {
        if a_ef == 0 && a_ff == 0 {
            return NAN_BITS;
        }
        return sbit + INF_BITS;
    }
    if a_ef == 0 && a_ff == 0 {
        return sbit;
    }
    let nba = bitlen128(a_m as u128);
    proof {
        lemma2_to64();
        lemma2_to64_rest();
        assert(a_m < pow2(53) && b_m < pow2(53));
        lemma_bitlen_le(a_m as nat, 53);
        assert(a_m >= 1);
        lemma_bitlen_ge(a_m as nat, 0);
        lemma_bitlen_bounds(a_m as nat);
    }
    let sh: u32 = 110 - nba;
    proof {
        lemma_pow2_adds(64, 64);
        lemma_pow2_strictly_increases(110, 128);
        assert(u128::MAX + 1 == pow2(128));
        lemma_mul_pow2_lt(a_m as nat, nba as nat, sh as nat);
        assert(nba + sh == 110);
        lemma_pow2_strictly_increases(110, 118);
        // The quotient keeps at least 56 significant bits.
        lemma_bitlen_bounds(a_m as nat);
        lemma_pow2_adds((nba - 1) as nat, sh as nat);
        vstd::arithmetic::mul::lemma_mul_inequality(
            pow2((nba - 1) as nat) as int,
            a_m as int,
            pow2(sh as nat) as int,
        );
        assert(pow2(109) <= a_m * pow2(sh as nat));
    }
    let big: u128 = (a_m as u128) * pow2_128(sh);
    let q: u128 = big / (b_m as u128);
    let rem: u128 = big % (b_m as u128);
    proof {
        let bigs = (a_m as nat) * pow2(sh as nat);
        // q >= big / 2^53 >= 2^56
        lemma_pow2_adds(56, 53);
        vstd::arithmetic::div_mod::lemma_div_is_ordered_by_denominator(
            bigs as int,
            b_m as int,
            pow2(53) as int,
        );
        vstd::arithmetic::div_mod::lemma_multiply_divide_le(
            pow2(109) as int,
            pow2(53) as int,
            pow2(56) as int,
        );
        assert(pow2(109) / pow2(53) >= pow2(56)) by {
            lemma_pow2_adds(56, 53);
            vstd::arithmetic::div_mod::lemma_div_multiples_vanish(
                pow2(56) as int,
                pow2(53) as int,
            );
        }
        vstd::arithmetic::div_mod::lemma_div_is_ordered(
            pow2(109) as int,
            bigs as int,
            b_m as int,
        );
        vstd::arithmetic::div_mod::lemma_div_is_ordered_by_denominator(
            pow2(109) as int,
            b_m as int,
            pow2(53) as int,
        );
        assert(q >= pow2(56));
        lemma_bitlen_ge(q as nat, 56);
        // q <= big < 2^110
        vstd::arithmetic::div_mod::lemma_div_is_ordered_by_denominator(
            bigs as int,
            1,
            b_m as int,
        );
        assert(q <= bigs < pow2(110));
        lemma_pow2_strictly_increases(110, 118);
    }
    round_pack(s, q, a_e - (sh as i64) - b_e, rem != 0)
}

// ---------------------------------------------------------------------
// Remainder.
// ---------------------------------------------------------------------

/// Whether the magnitude of finite nonzero `a` is at least that of
/// finite nonzero `n`.
pub open spec fn spec_mag_ge(a: u64, n: u64) -> bool {
    if sf_exp(a) >= sf_exp(n) {
        sf_mant(a) * pow2((sf_exp(a) - sf_exp(n)) as nat) >= sf_mant(n)
    } else {
        sf_mant(a) >= sf_mant(n) * pow2((sf_exp(n) - sf_exp(a)) as nat)
    }
}

/// Remainder of `a` by `n`, truncated toward zero, as the `%` operator
/// computes it: the result has the sign of `a` and magnitude
/// `|a| - k|n|` for the largest whole `k` with `k|n| <= |a|`.  The
/// remainder of two finite values is always exact.
#[verifier::opaque]
pub open spec fn spec_fmod(a: u64, n: u64) -> u64 {
    if sf_is_nan(a) || sf_is_nan(n) || sf_is_inf(a) || sf_is_zero(n) {
        NAN_BITS
    } else if sf_is_zero(a) || sf_is_inf(n) {
        a
    } else if !spec_mag_ge(a, n) {
        a
    } else if sf_exp(a) >= sf_exp(n) {
        let r = (sf_mant(a) * pow2((sf_exp(a) - sf_exp(n)) as nat)) % sf_mant(n);
        spec_round_pack(sf_signbit(a), r, sf_exp(n), false)
    } else {
        let r = sf_mant(a) % (sf_mant(n) * pow2((sf_exp(n) - sf_exp(a)) as nat));
        spec_round_pack(sf_signbit(a), r, sf_exp(a), false)
    }
}

/// `pow2(d) % m` by repeated doubling.
fn pow2_mod(d: u64, m: u64) -> (r: u64)
    requires
        1 <= m < 0x20000000000000,
    ensures
        r == pow2(d as nat) % (m as nat),
        r < m,
{
    let mut r: u64 = 1 % m;
    let mut i: u64 = 0;
    proof {
        lemma2_to64();
    }
    while i < d
        invariant
            i <= d,
            1 <= m < 0x20000000000000,
            r == pow2(i as nat) % (m as nat),
            r < m,
        decreases d - i,
    {
        proof {
            lemma_pow2_adds(i as nat, 1);
            lemma2_to64();
            vstd::arithmetic::div_mod::lemma_mul_mod_noop_left(
                pow2(i as nat) as int,
                2,
                m as int,
            );
        }
        r = (r * 2) % m;
        i = i + 1;
    }
    r
}

/// Executable remainder on bit patterns.
pub fn sf_fmod(a: u64, n: u64) -> (r: u64)
    ensures
        r == spec_fmod(a, n),
{
    proof {
        reveal(spec_fmod);
    }
    let (a_s, a_m, a_e) = sf_decode(a);
    let (n_s, n_m, n_e) = sf_decode(n);
    let a_ef = (a / 0x10000000000000) % 0x800;
    let n_ef = (n / 0x10000000000000) % 0x800;
    let a_ff = a % 0x10000000000000;
    let n_ff = n % 0x10000000000000;
    if (a_ef == 0x7FF && a_ff != 0) || (n_ef == 0x7FF && n_ff != 0) {
        return NAN_BITS;
    }
    if a_ef == 0x7FF || (n_ef == 0 && n_ff == 0) {
        return NAN_BITS;
    }
    if (a_ef == 0 && a_ff == 0) || n_ef == 0x7FF {
        return a;
    }
    proof {
        lemma2_to64();
        lemma2_to64_rest();
        assert(a_m < pow2(53) && n_m < pow2(53));
        assert(a_m >= 1 && n_m >= 1);
    }
    if a_e >= n_e {
        let d = (a_e - n_e) as u64;
        // For d >= 53 the shifted magnitude certainly dominates.
        let ge = if d >= 53 {
            proof {
                if d > 53 {
                    lemma_pow2_strictly_increases(53, d as nat);
                }
                assert(a_m * pow2(d as nat) >= n_m) by (nonlinear_arith)
                    requires
                        a_m >= 1,
                        pow2(d as nat) >= pow2(53),
                        n_m < pow2(53),
                ;
            }
            true
        } else {
            proof {
                lemma_mul_pow2_lt(a_m as nat, 53, d as nat);
                lemma_pow2_adds(53, d as nat);
                lemma_pow2_adds(64, 42);
                lemma_pow2_strictly_increases((53 + d) as nat, 106);
                lemma_pow2_strictly_increases(106, 128);
                lemma_pow2_adds(64, 64);
                assert(u128::MAX + 1 == pow2(128));
            }
            (a_m as u128) * pow2_128(d as u32) >= n_m as u128
        };
        if !ge {
            return a;
        }
        let p = pow2_mod(d, n_m);
        proof {
            assert(p < pow2(53));
            vstd::arithmetic::div_mod::lemma_mul_mod_noop_left(
                pow2(d as nat) as int,
                a_m as int,
                n_m as int,
            );
            vstd::arithmetic::mul::lemma_mul_is_commutative(pow2(d as nat) as int, a_m as int);
            assert((p as nat) * (a_m as nat) < pow2(53) * pow2(53)) by (nonlinear_arith)
                requires
                    (p as nat) < pow2(53),
                    (a_m as nat) < pow2(53),
            ;
            lemma_pow2_adds(53, 53);
            vstd::arithmetic::div_mod::lemma_mod_bound(
                (p * a_m) as int,
                n_m as int,
            );
            lemma_pow2_strictly_increases(53, 118);
        }
        let rem: u128 = ((p as u128) * (a_m as u128)) % (n_m as u128);
        round_pack(a_s, rem, n_e, false)
    } else {
        let d = (n_e - a_e) as u64;
        if d >= 53 {
            proof {
                if d > 53 {
                    lemma_pow2_strictly_increases(53, d as nat);
                }
                assert(n_m * pow2(d as nat) > a_m) by (nonlinear_arith)
                    requires
                        n_m >= 1,
                        pow2(d as nat) >= pow2(53),
                        a_m < pow2(53),
                ;
            }
            return a;
        }
        proof {
            lemma_mul_pow2_lt(n_m as nat, 53, d as nat);
            lemma_pow2_adds(53, d as nat);
            lemma_pow2_strictly_increases((53 + d) as nat, 106);
            lemma_pow2_adds(53, 53);
            lemma_pow2_strictly_increases(106, 128);
            lemma_pow2_adds(64, 64);
            assert(u128::MAX + 1 == pow2(128));
        }
        let modulus: u128 = (n_m as u128) * pow2_128(d as u32);
        if (a_m as u128) < modulus {
            return a;
        }
        proof {
            lemma_pow2_pos(d as nat);
            assert(modulus >= 1) by (nonlinear_arith)
                requires
                    n_m >= 1,
                    pow2(d as nat) >= 1,
                    modulus == n_m * pow2(d as nat),
            ;
            vstd::arithmetic::div_mod::lemma_mod_bound(a_m as int, modulus as int);
            lemma_pow2_strictly_increases(53, 118);
        }
        let rem: u128 = (a_m as u128) % modulus;
        round_pack(a_s, rem, a_e, false)
    }
}

// ---------------------------------------------------------------------
// Rounding to a whole number, ties away from zero.
// ---------------------------------------------------------------------

/// The nearest whole number, ties away from zero, itself encoded as a
/// bit pattern, exactly as `f64::round` behaves.
#[verifier::opaque]
pub open spec fn spec_round(a: u64) -> u64 {
    if !sf_is_finite(a) || sf_is_zero(a) {
        a
    } else if sf_exp(a) >= 0 {
        a
    } else {
        let k = (-sf_exp(a)) as nat;
        if k >= 54 {
            if sf_signbit(a) {
                NEG_ZERO
            } else {
                POS_ZERO
            }
        } else {
            let whole = sf_mant(a) / pow2(k);
            let n = if sf_mant(a) % pow2(k) >= pow2((k - 1) as nat) {
                whole + 1
            } else {
                whole
            };
            spec_round_pack(sf_signbit(a), n, 0, false)
        }
    }
}

/// Executable rounding to a whole number, ties away from zero.
pub fn sf_round(a: u64) -> (r: u64)
    ensures
        r == spec_round(a),
{
    proof {
        reveal(spec_round);
    }
    let (a_s, a_m, a_e) = sf_decode(a);
    let a_ef = (a / 0x10000000000000) % 0x800;
    let a_ff = a % 0x10000000000000;
    if a_ef == 0x7FF || (a_ef == 0 && a_ff == 0) {
        return a;
    }
    if a_e >= 0 {
        return a;
    }
    let k = (-a_e) as u64;
    if k >= 54 {
        if a_s {
            return NEG_ZERO;
        }
        return POS_ZERO;
    }
    let pk = pow2_64(k as u32);
    let ph = pow2_64((k - 1) as u32);
    proof {
        lemma_pow2_pos(k as nat);
    }
    let whole = a_m / pk;
    let n: u64 = if a_m % pk >= ph {
        whole + 1
    } else {
        whole
    };
    proof {
        lemma2_to64();
        lemma2_to64_rest();
        assert(a_m < pow2(53));
        lemma_pow2_pos(k as nat);
        vstd::arithmetic::div_mod::lemma_div_is_ordered_by_denominator(
            a_m as int,
            1,
            pk as int,
        );
        lemma_pow2_strictly_increases(53, 118);
    }
    round_pack(a_s, n as u128, 0, false)
}

// ---------------------------------------------------------------------
// Square root.
// ---------------------------------------------------------------------

/// The whole part of the square root of `n`.
pub open spec fn spec_isqrt(n: nat) -> nat {
    choose|r: nat| #[trigger] (r * r) <= n < (r + 1) * (r + 1)
}

pub proof fn lemma_isqrt_unique(n: nat, r: nat)
    requires
        r * r <= n < (r + 1) * (r + 1),
    ensures
        spec_isqrt(n) == r,
{
    assert(exists|x: nat| #[trigger] (x * x) <= n < (x + 1) * (x + 1)) by {
        assert(r * r <= n < (r + 1) * (r + 1));
    }
    let c = spec_isqrt(n);
    assert(c * c <= n < (c + 1) * (c + 1));
    if c < r {
        assert((c + 1) * (c + 1) <= r * r) by (nonlinear_arith)
            requires
                c + 1 <= r,
        ;
    }
    if r < c {
        assert((r + 1) * (r + 1) <= c * c) by (nonlinear_arith)
            requires
                r + 1 <= c,
        ;
    }
}

/// Executable whole square root of a `u128`, by binary search on bits.
pub fn isqrt128(n: u128) -> (r: u64)
    ensures
        r * r <= n < (r + 1) * (r + 1),
        r == spec_isqrt(n as nat),
{
    let mut r: u64 = 0;
    let mut i: u32 = 64;
    proof {
        lemma_pow2_adds(64, 64);
        lemma2_to64_rest();
        assert((0 + pow2(64)) * (0 + pow2(64)) == pow2(128)) by {
            vstd::arithmetic::mul::lemma_mul_is_commutative(pow2(64) as int, pow2(64) as int);
        }
        assert(n < pow2(128));
        assert(n < (0 + pow2(64)) * (0 + pow2(64)));
        lemma2_to64();
        assert(pow2(0) == 1);
        assert(0 + pow2(64) <= pow2(64));
    }
    while i > 0
        invariant
            i <= 64,
            r + pow2(i as nat) <= pow2(64),
            r * r <= n,
            n < (r + pow2(i as nat)) * (r + pow2(i as nat)),
        decreases i,
    {
        i = i - 1;
        let p = pow2_64(i);
        proof {
            lemma2_to64();
            lemma2_to64_rest();
            lemma_pow2_pos(i as nat);
            // r + 2^(i+1) <= 2^64, so r + 2^i stays below 2^64
            assert(pow2((i + 1) as nat) == pow2(i as nat) + pow2(i as nat)) by {
                lemma_pow2_adds(i as nat, 1);
            }
        }
        let cand: u64 = r + p;
        let c128 = cand as u128;
        proof {
            assert(c128 * c128 <= u128::MAX) by (nonlinear_arith)
                requires
                    c128 <= 0xFFFFFFFFFFFFFFFFu128,
            ;
        }
        if c128 * c128 <= n {
            proof {
                assert(n < (cand + pow2(i as nat)) * (cand + pow2(i as nat))) by {
                    assert(r + pow2((i + 1) as nat) == cand + pow2(i as nat)) by {
                        lemma_pow2_adds(i as nat, 1);
                        lemma2_to64();
                    }
                }
                assert(cand + pow2(i as nat) <= pow2(64));
            }
            r = cand;
        } else {
            proof {
                assert(n < (r + pow2(i as nat)) * (r + pow2(i as nat)));
            }
        }
    }
    proof {
        lemma2_to64();
        lemma_isqrt_unique(n as nat, r as nat);
    }
    r
}

/// Square root of a pattern, rounded to nearest, ties to even.  The
/// root of a strictly negative value is the canonical not-a-number; the
/// roots of both zeros are themselves.
#[verifier::opaque]
pub open spec fn spec_sqrt(a: u64) -> u64 {
    if sf_is_nan(a) {
        NAN_BITS
    } else if sf_is_zero(a) {
        a
    } else if sf_signbit(a) {
        NAN_BITS
    } else if sf_is_inf(a) {
        a
    } else {
        let nb = bitlen(sf_mant(a)) as int;
        let j0 = 111 - nb;
        let j = if (sf_exp(a) - j0) % 2 == 0 {
            j0
        } else {
            j0 + 1
        };
        let big = sf_mant(a) * pow2(j as nat);
        let q = spec_isqrt(big);
        spec_round_pack(false, q, (sf_exp(a) - j) / 2, q * q != big)
    }
}

/// Executable square root on bit patterns.
#[verifier::rlimit(50)]
pub fn sf_sqrt(a: u64) -> (r: u64)
    ensures
        r == spec_sqrt(a),
{
    proof {
        reveal(spec_sqrt);
    }
    let (a_s, a_m, a_e) = sf_decode(a);
    let a_ef = (a / 0x10000000000000) % 0x800;
    let a_ff = a % 0x10000000000000;
    if a_ef == 0x7FF && a_ff != 0 {
        return NAN_BITS;
    }
    if a_ef == 0 && a_ff == 0 {
        return a;
    }
    if a_s {
        return NAN_BITS;
    }
    if a_ef == 0x7FF {
        return a;
    }
    let nb = bitlen128(a_m as u128);
    proof {
        lemma2_to64();
        lemma2_to64_rest();
        assert(a_m >= 1);
        lemma_bitlen_ge(a_m as nat, 0);
        assert(a_m < pow2(53));
        lemma_bitlen_le(a_m as nat, 53);
        lemma_bitlen_bounds(a_m as nat);
    }
    let j0: u32 = 111 - nb;
    let j: u32 = if (a_e - (j0 as i64)) % 2 == 0 {
        j0
    } else {
        j0 + 1
    };
    proof {
        lemma_mul_pow2_lt(a_m as nat, nb as nat, j as nat);
        assert(nb + j <= 112);
        if nb + j < 112 {
            lemma_pow2_strictly_increases((nb + j) as nat, 112);
        }
        lemma_pow2_strictly_increases(112, 128);
        lemma_pow2_adds(64, 64);
        assert(u128::MAX + 1 == pow2(128));
    }
    let big: u128 = (a_m as u128) * pow2_128(j);
    let q = isqrt128(big);
    proof {
        // q has at least 55 significant bits: big >= 2^110.
        lemma_pow2_adds((nb - 1) as nat, j as nat);
        vstd::arithmetic::mul::lemma_mul_inequality(
            pow2((nb - 1) as nat) as int,
            a_m as int,
            pow2(j as nat) as int,
        );
        assert(pow2((nb + j - 1) as nat) <= big);
        assert(nb + j - 1 >= 110);
        if 110 < nb + j - 1 {
            lemma_pow2_strictly_increases(110, (nb + j - 1) as nat);
        }
        assert(pow2(110) <= big);
        assert(q >= pow2(55)) by {
            if q < pow2(55) {
                assert(q + 1 <= pow2(55));
                assert((q + 1) * (q + 1) <= pow2(55) * pow2(55)) by (nonlinear_arith)
                    requires
                        q + 1 <= pow2(55),
                ;
                lemma_pow2_adds(55, 55);
            }
        }
        lemma_bitlen_ge(q as nat, 55);
        assert(q < pow2(118)) by {
            assert(q * q <= big);
            assert(q <= q * q) by (nonlinear_arith)
                requires
                    q >= 1,
            ;
            assert(big < pow2(112));
            lemma_pow2_strictly_increases(112, 118);
        }
    }
    let exact = (q as u128) * (q as u128) == big;
    round_pack(false, q as u128, (a_e - (j as i64)) / 2, !exact)
}

// ---------------------------------------------------------------------
// Facts about the encoding, used by the crate's laws.
// ---------------------------------------------------------------------

/// The three fields of a directly assembled pattern.
pub proof fn lemma_encode_fields(s: bool, eb: nat, f: nat)
    requires
        eb < 2048,
        f < 0x10000000000000,
    ensures
        ({
            let v = ((if s {
                0x8000000000000000nat
            } else {
                0nat
            }) + eb * 0x10000000000000 + f) as u64;
            sf_efield(v) == eb && sf_ffield(v) == f && sf_signbit(v) == s
        }),
{
    let sv: nat = if s {
        0x8000000000000000
    } else {
        0
    };
    let sq: nat = if s {
        2048
    } else {
        0
    };
    assert(sv + eb * 0x10000000000000 + f < 0x10000000000000000) by (nonlinear_arith)
        requires
            eb < 2048,
            f < 0x10000000000000,
            sv <= 0x8000000000000000,
    ;
    let v = (sv + eb * 0x10000000000000 + f) as u64;
    assert(v == (sq + eb) * 0x10000000000000 + f) by (nonlinear_arith)
        requires
            v == sv + eb * 0x10000000000000 + f,
            sv == sq * 0x10000000000000,
    ;
    vstd::arithmetic::div_mod::lemma_fundamental_div_mod_converse(
        v as int,
        0x10000000000000,
        (sq + eb) as int,
        f as int,
    );
    assert(v / 0x10000000000000 == sq + eb);
    assert((sq + eb) % 0x800 == eb) by {
        if s {
            vstd::arithmetic::div_mod::lemma_mod_add_multiples_vanish(eb as int, 0x800);
        }
        vstd::arithmetic::div_mod::lemma_small_mod(eb as nat, 0x800);
    }
    assert(v / 0x8000000000000000 == (if s {
        1int
    } else {
        0int
    })) by {
        vstd::arithmetic::div_mod::lemma_fundamental_div_mod_converse(
            v as int,
            0x8000000000000000,
            if s {
                1int
            } else {
                0int
            },
            (eb * 0x10000000000000 + f) as int,
        );
    }
}

/// The shape of a packed magnitude: its fields stay in range, so it
/// is never a not-a-number pattern, and it stays below the sign bit.
#[verifier::rlimit(100)]
proof fn lemma_pack_mag_core(m: nat, e: int, sticky: bool)
    requires
        m < pow2(118),
        -5000 <= e <= 5000,
    ensures
        spec_pack_mag(m, e, sticky) < 0x8000000000000000,
        !sf_is_nan(spec_pack_mag(m, e, sticky)),
        !sf_signbit(spec_pack_mag(m, e, sticky)),
        e + bitlen(m) <= 1000 ==> sf_is_finite(spec_pack_mag(m, e, sticky)),
{
    reveal(spec_pack_mag);
    assert(!sf_is_nan(0u64) && !sf_signbit(0u64) && sf_is_finite(0u64));
    assert(!sf_is_nan(0x7FF0000000000000u64) && !sf_signbit(0x7FF0000000000000u64));
    if m != 0 {
        let nb = bitlen(m) as int;
        let shift: int = if e + nb + 1022 <= 0 {
            -1074 - e
        } else {
            nb - 53
        };
        let keep0: nat = if shift <= 0 {
            m * pow2((-shift) as nat)
        } else {
            m / pow2(shift as nat)
        };
        let lost: nat = if shift <= 0 {
            0
        } else {
            m % pow2(shift as nat)
        };
        let halfpoint: nat = if shift >= 1 {
            pow2((shift - 1) as nat)
        } else {
            1
        };
        let up: bool = shift >= 1 && (lost > halfpoint || (lost == halfpoint && (sticky || keep0
            % 2 == 1)));
        let keep1: nat = if up {
            keep0 + 1
        } else {
            keep0
        };
        lemma2_to64();
        lemma2_to64_rest();
        assert(pow2(52) == 0x10000000000000 && pow2(53) == 0x20000000000000);
        lemma_bitlen_bounds(m);
        if shift > 0 {
            let sh = shift as nat;
            assert(nb <= 53 + sh);
            assert(m < pow2(53 + sh)) by {
                if nb < 53 + sh {
                    lemma_pow2_strictly_increases(nb as nat, (53 + sh) as nat);
                }
                assert(m < pow2(nb as nat));
            }
            lemma_div_pow2_lt(m, 53, sh);
            assert(keep0 < pow2(53));
            assert(keep0 < 0x20000000000000);
            assert(keep1 <= 0x20000000000000) by (nonlinear_arith)
                requires
                    keep0 < 0x20000000000000,
                    keep1 == keep0 + 1 || keep1 == keep0,
            ;
        } else {
            assert(nb + (-shift) <= 53);
            lemma_mul_pow2_lt(m, nb as nat, (-shift) as nat);
            assert(keep0 < pow2(((nb + (-shift))) as nat)) by {
                assert(keep0 == m * pow2((-shift) as nat));
                assert(nb as nat + (-shift) as nat == (nb + (-shift)) as nat);
            }
            if nb + (-shift) < 53 {
                lemma_pow2_strictly_increases((nb + (-shift)) as nat, 53);
            }
            assert(keep0 < pow2(53));
            assert(keep0 < 0x20000000000000);
            assert(keep1 <= 0x20000000000000) by (nonlinear_arith)
                requires
                    keep0 < 0x20000000000000,
                    keep1 == keep0 + 1 || keep1 == keep0,
            ;
        }
        let keep: nat = if keep1 == 0x20000000000000 {
            0x10000000000000
        } else {
            keep1
        };
        let e3: int = if keep1 == 0x20000000000000 {
            e + shift + 1
        } else {
            e + shift
        };
        if keep < 0x10000000000000 {
            lemma_encode_fields(false, 0, keep);
            assert(keep as u64 == (0nat + 0 * 0x10000000000000 + keep) as u64);
        } else {
            let ebiased: int = e3 + 1075;
            assert(0 <= ebiased) by {
                if e + nb + 1022 <= 0 {
                    assert(e + shift == -1074);
                }
            }
            if e + bitlen(m) <= 1000 {
                assert(ebiased < 2047) by {
                    if e + nb + 1022 <= 0 {
                        assert(e + shift == -1074);
                    } else {
                        assert(shift == nb - 53);
                    }
                }
            }
            if ebiased < 2047 {
                lemma_encode_fields(false, ebiased as nat, (keep - 0x10000000000000) as nat);
                assert((ebiased * 0x10000000000000 + (keep - 0x10000000000000)) as u64 == (0nat
                    + (ebiased as nat) * 0x10000000000000 + ((keep - 0x10000000000000) as nat))
                    as u64);
                assert((ebiased as nat) * 0x10000000000000 + (keep - 0x10000000000000)
                    < 0x8000000000000000) by (nonlinear_arith)
                    requires
                        0 <= ebiased <= 2046,
                        0x10000000000000 <= keep < 0x20000000000000,
                ;
            }
        }
    }
}

/// Rounding never produces a not-a-number pattern.
pub proof fn lemma_pack_no_nan(s: bool, m: nat, e: int, sticky: bool)
    requires
        m < pow2(118),
        -5000 <= e <= 5000,
    ensures
        !sf_is_nan(spec_round_pack(s, m, e, sticky)),
{
    lemma_pack_mag_core(m, e, sticky);
    if s {
        lemma_split_fields(spec_pack_mag(m, e, sticky));
    }
}

/// With a modest exponent the rounded pattern is finite: the infinity
/// branch cannot be reached.
pub proof fn lemma_pack_finite(s: bool, m: nat, e: int, sticky: bool)
    requires
        m < pow2(118),
        e + bitlen(m) <= 1000,
        -5000 <= e <= 5000,
    ensures
        sf_is_finite(spec_round_pack(s, m, e, sticky)),
        sf_signbit(spec_round_pack(s, m, e, sticky)) == s,
{
    lemma_pack_mag_core(m, e, sticky);
    if s {
        lemma_split_fields(spec_pack_mag(m, e, sticky));
    }
}

/// The decoded fields of the pattern of a small whole number.
pub proof fn lemma_pack_small_int(n: nat)
    requires
        1 <= n < 0x20000000000000,
    ensures
        ({
            let v = spec_round_pack(false, n, 0, false);
            let nb = bitlen(n);
            !sf_signbit(v) && sf_efield(v) == nb + 1022 && sf_mant(v) == n * pow2(
                (53 - nb) as nat,
            ) && sf_exp(v) == nb - 53 && sf_is_finite(v) && !sf_is_zero(v)
        }),
{
    reveal(spec_pack_mag);
    lemma2_to64();
    lemma2_to64_rest();
    assert(pow2(52) == 0x10000000000000 && pow2(53) == 0x20000000000000);
    let nb = bitlen(n);
    lemma_bitlen_le(n, 53);
    lemma_bitlen_bounds(n);
    let keep0: nat = n * pow2((53 - nb) as nat);
    assert(keep0 >= pow2(52)) by {
        vstd::arithmetic::mul::lemma_mul_inequality(
            pow2((nb - 1) as nat) as int,
            n as int,
            pow2((53 - nb) as nat) as int,
        );
        lemma_pow2_adds((nb - 1) as nat, (53 - nb) as nat);
        lemma_pow2_pos((53 - nb) as nat);
    }
    assert(keep0 < pow2(53)) by {
        lemma_mul_pow2_lt(n, nb, (53 - nb) as nat);
    }
    lemma2_to64();
    lemma2_to64_rest();
    assert(pow2(52) == 0x10000000000000 && pow2(53) == 0x20000000000000);
    let ebiased: int = (nb + 1022) as int;
    assert(ebiased < 2047);
    lemma_encode_fields(false, ebiased as nat, (keep0 - 0x10000000000000) as nat);
    assert(spec_pack_mag(n, 0, false) == ((ebiased as nat) * 0x10000000000000 + ((keep0
        - 0x10000000000000) as nat)) as u64);
    assert(spec_pack_mag(n, 0, false) == (0nat + (ebiased as nat) * 0x10000000000000 + ((keep0
        - 0x10000000000000) as nat)) as u64);
}

/// Negation flips only the sign: the exponent and fraction fields are
/// unchanged.
pub proof fn lemma_neg_fields(x: u64)
    ensures
        sf_efield(spec_neg(x)) == sf_efield(x),
        sf_ffield(spec_neg(x)) == sf_ffield(x),
        sf_signbit(spec_neg(x)) == !sf_signbit(x),
        sf_mant(spec_neg(x)) == sf_mant(x),
        sf_exp(spec_neg(x)) == sf_exp(x),
{
    let y = spec_neg(x);
    if x >= 0x8000000000000000 {
        assert(x == 0x8000000000000000 + (x - 0x8000000000000000));
        lemma_split_fields((x - 0x8000000000000000) as u64);
    } else {
        lemma_split_fields(x);
    }
}

/// Removing or adding the sign bit leaves the exponent and fraction
/// fields alone.
proof fn lemma_split_fields(low: u64)
    requires
        low < 0x8000000000000000,
    ensures
        sf_efield((low + 0x8000000000000000) as u64) == sf_efield(low),
        sf_ffield((low + 0x8000000000000000) as u64) == sf_ffield(low),
        sf_signbit((low + 0x8000000000000000) as u64),
        !sf_signbit(low),
{
    let hi = (low + 0x8000000000000000) as u64;
    let q = low / 0x10000000000000;
    let f = low % 0x10000000000000;
    vstd::arithmetic::div_mod::lemma_fundamental_div_mod(low as int, 0x10000000000000);
    assert(q < 0x800);
    vstd::arithmetic::div_mod::lemma_fundamental_div_mod_converse(
        hi as int,
        0x10000000000000,
        (q + 0x800) as int,
        f as int,
    );
    assert(hi / 0x10000000000000 == q + 0x800);
    vstd::arithmetic::div_mod::lemma_mod_add_multiples_vanish(q as int, 0x800);
    vstd::arithmetic::div_mod::lemma_small_mod(q as nat, 0x800);
    vstd::arithmetic::div_mod::lemma_fundamental_div_mod_converse(
        hi as int,
        0x8000000000000000,
        1,
        low as int,
    );
    vstd::arithmetic::div_mod::lemma_fundamental_div_mod_converse(
        low as int,
        0x8000000000000000,
        0,
        low as int,
    );
}

/// Rounding with the opposite sign gives the negated pattern: the
/// magnitude computation does not look at the sign.
pub proof fn lemma_pack_neg(s: bool, m: nat, e: int, sticky: bool)
    requires
        m < pow2(118),
        -5000 <= e <= 5000,
    ensures
        spec_round_pack(!s, m, e, sticky) == spec_neg(spec_round_pack(s, m, e, sticky)),
{
    lemma_pack_mag_core(m, e, sticky);
}

/// Subtracting any finite pattern from itself gives the positive zero
/// exactly.
pub proof fn lemma_sub_self(x: u64)
    requires
        sf_is_finite(x),
    ensures
        spec_sub(x, x) == POS_ZERO,
{
    reveal(spec_sub);
    reveal(spec_add);
    let y = spec_neg(x);
    lemma_neg_fields(x);
    if sf_is_zero(x) {
        assert(spec_add(x, y) == POS_ZERO);
    } else {
        lemma2_to64();
        assert(pow2(0) == 1);
        assert(sf_mant(x) * pow2(0) == sf_mant(x)) by {
            vstd::arithmetic::mul::lemma_mul_basics(sf_mant(x) as int);
        }
        assert(spec_add(x, y) == POS_ZERO);
    }
}

// ---------------------------------------------------------------------
// Comparisons.
// ---------------------------------------------------------------------

/// Signed magnitude key: orders all non-NaN patterns by numeric value,
/// with both zeros mapping to zero.
pub open spec fn sf_key(b: u64) -> int {
    if sf_signbit(b) {
        -((b - 0x8000000000000000) as int)
    } else {
        b as int
    }
}

/// Strictly-less comparison; false whenever either side is not a number.
pub open spec fn spec_lt(a: u64, b: u64) -> bool {
    !sf_is_nan(a) && !sf_is_nan(b) && sf_key(a) < sf_key(b)
}

/// Numeric equality; false whenever either side is not a number, true
/// for a positive and a negative zero.
pub open spec fn spec_num_eq(a: u64, b: u64) -> bool {
    !sf_is_nan(a) && !sf_is_nan(b) && sf_key(a) == sf_key(b)
}

pub open spec fn spec_le(a: u64, b: u64) -> bool {
    spec_lt(a, b) || spec_num_eq(a, b)
}

/// Executable strictly-less comparison.
pub fn sf_lt(a: u64, b: u64) -> (r: bool)
    ensures
        r == spec_lt(a, b),
{
    let a_ef = (a / 0x10000000000000) % 0x800;
    let b_ef = (b / 0x10000000000000) % 0x800;
    let a_ff = a % 0x10000000000000;
    let b_ff = b % 0x10000000000000;
    if (a_ef == 0x7FF && a_ff != 0) || (b_ef == 0x7FF && b_ff != 0) {
        return false;
    }
    let a_neg = a >= 0x8000000000000000;
    let b_neg = b >= 0x8000000000000000;
    let a_mag = if a_neg {
        a - 0x8000000000000000
    } else {
        a
    };
    let b_mag = if b_neg {
        b - 0x8000000000000000
    } else {
        b
    };
    proof {
        assert(a_neg == sf_signbit(a)) by (bit_vector)
            requires
                a_neg == (a >= 0x8000000000000000),
        ;
        assert(b_neg == sf_signbit(b)) by (bit_vector)
            requires
                b_neg == (b >= 0x8000000000000000),
        ;
    }
    if a_neg {
        if b_neg {
            b_mag < a_mag
        } else {
            a_mag > 0 || b_mag > 0
        }
    } else {
        if b_neg {
            false
        } else {
            a_mag < b_mag
        }
    }
}

/// Executable numeric equality.
pub fn sf_num_eq(a: u64, b: u64) -> (r: bool)
    ensures
        r == spec_num_eq(a, b),
{
    let a_ef = (a / 0x10000000000000) % 0x800;
    let b_ef = (b / 0x10000000000000) % 0x800;
    let a_ff = a % 0x10000000000000;
    let b_ff = b % 0x10000000000000;
    if (a_ef == 0x7FF && a_ff != 0) || (b_ef == 0x7FF && b_ff != 0) {
        return false;
    }
    let a_neg = a >= 0x8000000000000000;
    let b_neg = b >= 0x8000000000000000;
    let a_mag = if a_neg {
        a - 0x8000000000000000
    } else {
        a
    };
    let b_mag = if b_neg {
        b - 0x8000000000000000
    } else {
        b
    };
    proof {
        assert(a_neg == sf_signbit(a)) by (bit_vector)
            requires
                a_neg == (a >= 0x8000000000000000),
        ;
        assert(b_neg == sf_signbit(b)) by (bit_vector)
            requires
                b_neg == (b >= 0x8000000000000000),
        ;
    }
    if a_neg == b_neg {
        a_mag == b_mag
    } else {
        a_mag == 0 && b_mag == 0
    }
}

/// Executable not-greater comparison.
pub fn sf_le(a: u64, b: u64) -> (r: bool)
    ensures
        r == spec_le(a, b),
{
    let lt = sf_lt(a, b);
    let eq = sf_num_eq(a, b);
    lt || eq
}

// ---------------------------------------------------------------------
// Maximum and minimum.
// ---------------------------------------------------------------------

/// The greater operand, ignoring a not-a-number side, as `f64::max`
/// behaves; on numerically equal operands the first is kept.
pub open spec fn spec_max(a: u64, b: u64) -> u64 {
    if sf_is_nan(a) {
        b
    } else if sf_is_nan(b) {
        a
    } else if spec_lt(a, b) {
        b
    } else {
        a
    }
}

/// The smaller operand, ignoring a not-a-number side, as `f64::min`
/// behaves; on numerically equal operands the first is kept.
pub open spec fn spec_min(a: u64, b: u64) -> u64 {
    if sf_is_nan(a) {
        b
    } else if sf_is_nan(b) {
        a
    } else if spec_lt(b, a) {
        b
    } else {
        a
    }
}

/// Executable maximum.
pub fn sf_max(a: u64, b: u64) -> (r: u64)
    ensures
        r == spec_max(a, b),
{
    let a_ef = (a / 0x10000000000000) % 0x800;
    let b_ef = (b / 0x10000000000000) % 0x800;
    let a_ff = a % 0x10000000000000;
    let b_ff = b % 0x10000000000000;
    if a_ef == 0x7FF && a_ff != 0 {
        return b;
    }
    if b_ef == 0x7FF && b_ff != 0 {
        return a;
    }
    if sf_lt(a, b) {
        b
    } else {
        a
    }
}

/// Executable minimum.
pub fn sf_min(a: u64, b: u64) -> (r: u64)
    ensures
        r == spec_min(a, b),
{
    let a_ef = (a / 0x10000000000000) % 0x800;
    let b_ef = (b / 0x10000000000000) % 0x800;
    let a_ff = a % 0x10000000000000;
    let b_ff = b % 0x10000000000000;
    if a_ef == 0x7FF && a_ff != 0 {
        return b;
    }
    if b_ef == 0x7FF && b_ff != 0 {
        return a;
    }
    if sf_lt(b, a) {
        b
    } else {
        a
    }
}

// ---------------------------------------------------------------------
// Conversions with integers.
// ---------------------------------------------------------------------

/// The pattern of a small whole number; exact for anything below
/// `2^53`, which covers every conversion this crate performs.
pub open spec fn spec_from_int(n: nat) -> u64 {
    spec_round_pack(false, n, 0, false)
}

/// Executable conversion of a whole number to its pattern.
pub fn sf_from_int(n: u64) -> (r: u64)
    requires
        n < 0x20000000000000,
    ensures
        r == spec_from_int(n as nat),
{
    proof {
        lemma2_to64();
        lemma2_to64_rest();
        lemma_pow2_strictly_increases(53, 118);
    }
    round_pack(false, n as u128, 0, false)
}

/// Truncation of a pattern to a byte with saturation, exactly as a
/// float-to-`u8` `as` cast behaves: not-a-number gives 0, anything at
/// or below zero gives 0, anything at or above 255 gives 255.
#[verifier::opaque]
pub open spec fn spec_to_u8(a: u64) -> u8 {
    if sf_is_nan(a) {
        0
    } else if sf_signbit(a) {
        0
    } else if sf_is_inf(a) {
        255
    } else if sf_exp(a) >= 0 {
        255
    } else {
        let v = sf_mant(a) / pow2((-sf_exp(a)) as nat);
        if v > 255 {
            255
        } else {
            v as u8
        }
    }
}

/// Executable saturating truncation to a byte.
pub fn sf_to_u8(a: u64) -> (r: u8)
    ensures
        r == spec_to_u8(a),
{
    proof {
        reveal(spec_to_u8);
    }
    let (a_s, a_m, a_e) = sf_decode(a);
    let a_ef = (a / 0x10000000000000) % 0x800;
    let a_ff = a % 0x10000000000000;
    if a_ef == 0x7FF && a_ff != 0 {
        return 0;
    }
    if a_s {
        return 0;
    }
    if a_ef == 0x7FF {
        return 255;
    }
    if a_e >= 0 {
        // A finite value with a nonnegative exponent is normal, so its
        // magnitude is at least 2^52.
        return 255;
    }
    let k = -a_e;
    if k >= 64 {
        proof {
            lemma2_to64();
            lemma2_to64_rest();
            assert(a_m < pow2(53));
            lemma_pow2_strictly_increases(53, k as nat);
            vstd::arithmetic::div_mod::lemma_basic_div(a_m as int, pow2(k as nat) as int);
        }
        return 0;
    }
    let pk = pow2_64(k as u32);
    proof {
        lemma_pow2_pos(k as nat);
    }
    let v = a_m / pk;
    if v > 255 {
        255
    } else {
        v as u8
    }
}

} // verus!
