//! Textual notation parsing.
//!
//! All parsing works on the raw bytes of the input, and every contract
//! speaks of the input's byte sequence.  A numeric component is a plain
//! decimal with an optional sign, an optional fractional part and an
//! optional trailing percent sign; its exact floating-point value is
//! computed by integer division of the digit string's mantissa, so it
//! agrees bit for bit with a correctly rounded decimal conversion.
//! Components may carry at most nineteen significant digits and
//! nineteen fractional digits.

use vstd::prelude::*;
use vstd::string::StringSliceAdditionalSpecFns;
use vstd::arithmetic::power2::pow2;
use vstd::arithmetic::power2::lemma_pow2_adds;
use vstd::arithmetic::power2::lemma_pow2_pos;
use vstd::arithmetic::power2::lemma_pow2_strictly_increases;
use vstd::arithmetic::power2::lemma2_to64;
use vstd::arithmetic::power2::lemma2_to64_rest;
use crate::error::ChromaError;
use crate::softfloat::POS_ZERO;
use crate::softfloat::bitlen;
use crate::softfloat::bitlen128;
use crate::softfloat::lemma_bitlen_bounds;
use crate::softfloat::lemma_bitlen_ge;
use crate::softfloat::lemma_bitlen_le;
use crate::softfloat::lemma_div_pow2_lt;
use crate::softfloat::lemma_mul_pow2_lt;
use crate::softfloat::pow2_128;
use crate::softfloat::round_pack;
use crate::softfloat::sf_div;
use crate::softfloat::sf_neg;
use crate::softfloat::sf_round;
use crate::softfloat::sf_to_u8;
use crate::softfloat::spec_round;
use crate::softfloat::spec_to_u8;
use crate::softfloat::spec_div;
use crate::softfloat::spec_neg;
use crate::softfloat::spec_round_pack;
use crate::kernels::HUNDRED_BITS;

verus! {

// ---------------------------------------------------------------------
// Powers of ten.
// ---------------------------------------------------------------------

pub open spec fn pow10(n: nat) -> nat
    decreases n,
{
    if n == 0 {
        1
    } else {
        10 * pow10((n - 1) as nat)
    }
}

proof fn lemma_pow10_bound(n: nat)
    requires
        n <= 19,
    ensures
        1 <= pow10(n) < pow2(64),
    decreases n,
{
    lemma_pow2_adds(32, 32);
    lemma2_to64_rest();
    lemma_pow10_pos(n);
    // 10^19 = 10_000_000_000_000_000_000 < 2^64
    reveal_with_fuel(pow10, 20);
    assert(pow10(19nat) == 10000000000000000000);
    lemma_pow10_increases(n, 19);
}

proof fn lemma_pow10_increases(a: nat, b: nat)
    requires
        a <= b,
    ensures
        pow10(a) <= pow10(b),
    decreases b,
{
    if a < b {
        lemma_pow10_increases(a, (b - 1) as nat);
        assert(pow10(b) == 10 * pow10((b - 1) as nat));
        assert(pow10((b - 1) as nat) >= 1) by {
            lemma_pow10_pos((b - 1) as nat);
        }
    }
}

proof fn lemma_pow10_pos(n: nat)
    ensures
        pow10(n) >= 1,
    decreases n,
{
    if n > 0 {
        lemma_pow10_pos((n - 1) as nat);
    }
}

/// Executable power of ten.
fn pow10_64(n: u32) -> (r: u64)
    requires
        n <= 19,
    ensures
        r == pow10(n as nat),
{
    let mut r: u64 = 1;
    let mut i: u32 = 0;
    proof {
        lemma_pow10_bound(n as nat);
    }
    while i < n
        invariant
            i <= n <= 19,
            r == pow10(i as nat),
            pow10(n as nat) < pow2(64),
        decreases n - i,
    {
        proof {
            lemma_pow10_increases((i + 1) as nat, n as nat);
            assert(pow10((i + 1) as nat) == 10 * pow10(i as nat));
            lemma_pow2_adds(32, 32);
            lemma2_to64_rest();
            assert(u64::MAX + 1 == pow2(64));
        }
        r = r * 10;
        i = i + 1;
    }
    r
}

// ---------------------------------------------------------------------
// Exact decimal-to-binary conversion.
// ---------------------------------------------------------------------

/// The bit pattern of `mant / 10^scale`, correctly rounded to nearest,
/// ties to even: the single rounding a decimal literal receives.
pub open spec fn spec_decimal_bits(mant: nat, scale: nat) -> u64 {
    if mant == 0 {
        POS_ZERO
    } else {
        let den = pow10(scale);
        let sh: nat = if 56 + bitlen(den) > bitlen(mant) {
            (56 + bitlen(den) - bitlen(mant)) as nat
        } else {
            0
        };
        let q = (mant * pow2(sh)) / den;
        let exact = (mant * pow2(sh)) % den == 0;
        spec_round_pack(false, q, -(sh as int), !exact)
    }
}

/// Executable decimal-to-binary conversion.
#[verifier::rlimit(30)]
pub fn decimal_bits(mant: u64, scale: u32) -> (r: u64)
    requires
        scale <= 19,
    ensures
        r == spec_decimal_bits(mant as nat, scale as nat),
{
    if mant == 0 {
        return POS_ZERO;
    }
    let den = pow10_64(scale);
    let nbm = bitlen128(mant as u128);
    let nbd = bitlen128(den as u128);
    proof {
        lemma2_to64();
        lemma2_to64_rest();
        lemma_pow2_adds(64, 64);
        assert(u128::MAX + 1 == pow2(128));
        lemma_pow10_bound(scale as nat);
        lemma_bitlen_le(den as nat, 64);
        lemma_bitlen_le(mant as nat, 64);
        lemma_bitlen_ge(mant as nat, 0);
        lemma_bitlen_ge(den as nat, 0);
        lemma_bitlen_bounds(mant as nat);
        lemma_bitlen_bounds(den as nat);
    }
    let sh: u32 = if 56 + nbd > nbm {
        56 + nbd - nbm
    } else {
        0
    };
    proof {
        lemma_mul_pow2_lt(mant as nat, nbm as nat, sh as nat);
        assert(nbm + sh <= 120);
        if nbm + sh < 128 {
            lemma_pow2_strictly_increases((nbm + sh) as nat, 128);
        }
    }
    let big: u128 = (mant as u128) * pow2_128(sh);
    let q: u128 = big / (den as u128);
    let rem: u128 = big % (den as u128);
    proof {
        let bigs = (mant as nat) * pow2(sh as nat);
        let dn = den as nat;
        // Upper bound: q < 2^118.
        assert(pow2((nbd - 1) as nat) <= dn);
        if sh > 0 {
            vstd::arithmetic::div_mod::lemma_div_is_ordered_by_denominator(
                bigs as int,
                pow2((nbd - 1) as nat) as int,
                dn as int,
            );
            assert(nbm + sh == 56 + nbd);
            lemma_pow2_adds(58, (nbd - 1) as nat);
            lemma_pow2_strictly_increases((nbm + sh) as nat, (58 + nbd - 1) as nat);
            lemma_div_pow2_lt(bigs, 58, (nbd - 1) as nat);
            assert(bigs / pow2((nbd - 1) as nat) < pow2(58));
            assert(q < pow2(58));
            lemma_pow2_strictly_increases(58, 118);
        } else {
            assert(pow2(sh as nat) == 1) by {
                lemma2_to64();
            }
            assert(bigs == (mant as nat) * 1);
            vstd::arithmetic::mul::lemma_mul_basics(mant as int);
            assert(bigs == mant);
            vstd::arithmetic::div_mod::lemma_div_is_ordered_by_denominator(
                bigs as int,
                1,
                dn as int,
            );
            vstd::arithmetic::div_mod::lemma_div_basics_1(bigs as int);
            assert(q <= bigs);
            lemma_pow2_strictly_increases(64, 118);
        }
        // Lower bound: q >= 2^55, so a sticky tail is safe.
        assert(pow2((nbm - 1) as nat) <= mant as nat);
        vstd::arithmetic::mul::lemma_mul_inequality(
            pow2((nbm - 1) as nat) as int,
            mant as int,
            pow2(sh as nat) as int,
        );
        lemma_pow2_adds((nbm - 1) as nat, sh as nat);
        assert(pow2((nbm + sh - 1) as nat) <= bigs);
        assert(nbm + sh - 1 >= 55 + nbd);
        if 55 + nbd < nbm + sh - 1 {
            lemma_pow2_strictly_increases((55 + nbd) as nat, (nbm + sh - 1) as nat);
        }
        lemma_pow2_adds(55, nbd as nat);
        vstd::arithmetic::div_mod::lemma_div_is_ordered(
            pow2((55 + nbd) as nat) as int,
            bigs as int,
            dn as int,
        );
        assert(dn < pow2(nbd as nat));
        vstd::arithmetic::div_mod::lemma_div_is_ordered_by_denominator(
            pow2((55 + nbd) as nat) as int,
            dn as int,
            pow2(nbd as nat) as int,
        );
        assert(pow2((55 + nbd) as nat) / pow2(nbd as nat) == pow2(55)) by {
            lemma_pow2_adds(55, nbd as nat);
            lemma_pow2_pos(nbd as nat);
            vstd::arithmetic::div_mod::lemma_div_multiples_vanish(
                pow2(55) as int,
                pow2(nbd as nat) as int,
            );
        }
        assert(q >= pow2(55));
        lemma_bitlen_ge(q as nat, 55);
    }
    round_pack(false, q, 0 - (sh as i64), rem != 0)
}

// ---------------------------------------------------------------------
// Numeric components.
// ---------------------------------------------------------------------

/// One parsed numeric component: the value is
/// `(-1)^neg * mant / 10^scale`, divided by 100 once more when
/// `percent` is set.
#[derive(Clone, Copy, Debug, PartialEq, Eq, Structural)]
pub struct Number {
    pub neg: bool,
    pub mant: u64,
    pub scale: u32,
    pub percent: bool,
}

pub open spec fn digit_val(b: u8) -> nat {
    (b - 48) as nat
}

pub open spec fn is_digit(b: u8) -> bool {
    48 <= b <= 57
}

/// The grammar of one component, as a recursive scan: sign, whole
/// digits, an optional point with fractional digits, an optional
/// trailing percent.  `None` for anything else, for an empty digit
/// string, or for more digits than the mantissa bound admits.
pub open spec fn spec_scan_digits(bs: Seq<u8>, i: int, mant: nat, scale: nat, seen_point: bool, seen_digit: bool) -> Option<(nat, nat, bool)>
    decreases bs.len() - i,
{
    if i < 0 || i >= bs.len() {
        if seen_digit {
            Some((mant, scale, false))
        } else {
            None
        }
    } else if is_digit(bs[i]) {
        if mant > 1844674407370955160 || (seen_point && scale >= 19) {
            None
        } else {
            spec_scan_digits(bs, i + 1, mant * 10 + digit_val(bs[i]), if seen_point {
                scale + 1
            } else {
                scale
            }, seen_point, true)
        }
    } else if bs[i] == 46 && !seen_point {
        spec_scan_digits(bs, i + 1, mant, scale, true, seen_digit)
    } else if bs[i] == 37 && i == bs.len() - 1 && seen_digit {
        Some((mant, scale, true))
    } else {
        None
    }
}

/// The parse of one whole component byte string.
pub open spec fn spec_parse_number(bs: Seq<u8>) -> Option<Number> {
    let neg = bs.len() > 0 && bs[0] == 45;
    let body = if bs.len() > 0 && (bs[0] == 45 || bs[0] == 43) {
        bs.skip(1)
    } else {
        bs
    };
    match spec_scan_digits(body, 0, 0, 0, false, false) {
        Some((mant, scale, percent)) => Some(
            Number { neg, mant: mant as u64, scale: scale as u32, percent },
        ),
        None => None,
    }
}

/// Parse the bytes of one numeric component.
#[verifier::loop_isolation(false)]
pub fn parse_number(bs: &[u8], from: usize, to: usize) -> (r: Option<Number>)
    requires
        from <= to <= bs@.len(),
    ensures
        r == spec_parse_number(bs@.subrange(from as int, to as int)),
        r matches Some(n) ==> n.scale <= 19,
{
    let ghost whole = bs@.subrange(from as int, to as int);
    let mut start = from;
    let mut neg = false;
    if to > from && (bs[from] == 45 || bs[from] == 43) {
        neg = bs[from] == 45;
        start = from + 1;
    }
    let ghost body = bs@.subrange(start as int, to as int);
    proof {
        if whole.len() > 0 && (whole[0] == 45 || whole[0] == 43) {
            assert(body =~= whole.skip(1));
        } else {
            assert(body =~= whole);
        }
        assert(neg == (whole.len() > 0 && whole[0] == 45));
    }
    let mut i = start;
    let mut mant: u64 = 0;
    let mut scale: u32 = 0;
    let mut seen_point = false;
    let mut seen_digit = false;
    let mut percent = false;
    while i < to
        invariant
            start <= i <= to <= bs@.len(),
            body == bs@.subrange(start as int, to as int),
            body.len() == to - start,
            percent ==> i == to && seen_digit && spec_scan_digits(body, 0, 0, 0, false, false)
                == Some((mant as nat, scale as nat, true)),
            !percent ==> spec_scan_digits(body, 0, 0, 0, false, false) == spec_scan_digits(
                body,
                i - start,
                mant as nat,
                scale as nat,
                seen_point,
                seen_digit,
            ),
            scale <= 19,
        decreases to - i,
    {
        let b = bs[i];
        proof {
            assert(body[i - start] == bs@[i as int]);
        }
        if b >= 48 && b <= 57 {
            if mant > 1844674407370955160 || (seen_point && scale >= 19) {
                proof {
                    assert(spec_scan_digits(body, i - start, mant as nat, scale as nat,
                        seen_point, seen_digit) == None::<(nat, nat, bool)>);
                }
                return None;
            }
            mant = mant * 10 + ((b - 48) as u64);
            if seen_point {
                scale = scale + 1;
            }
            seen_digit = true;
        } else if b == 46 && !seen_point {
            seen_point = true;
        } else if b == 37 && i + 1 == to && seen_digit {
            percent = true;
            proof {
                assert(spec_scan_digits(body, i - start, mant as nat, scale as nat, seen_point,
                    seen_digit) == Some((mant as nat, scale as nat, true)));
            }
        } else {
            proof {
                assert(spec_scan_digits(body, i - start, mant as nat, scale as nat, seen_point,
                    seen_digit) == None::<(nat, nat, bool)>);
            }
            return None;
        }
        i = i + 1;
    }
    proof {
        if !percent {
            assert(spec_scan_digits(body, to - start, mant as nat, scale as nat, seen_point,
                seen_digit) matches Some(t) ==> seen_digit);
        }
    }
    if !seen_digit {
        return None;
    }
    Some(Number { neg, mant, scale, percent })
}

/// The bit pattern a component denotes: its decimal value, divided by
/// 100 once when marked as a percentage, with the sign applied last, so
/// a signed zero keeps its sign exactly as a decimal literal would.
pub open spec fn spec_number_bits(n: Number) -> u64 {
    let base = spec_decimal_bits(n.mant as nat, n.scale as nat);
    let scaled = if n.percent {
        spec_div(base, HUNDRED_BITS)
    } else {
        base
    };
    if n.neg {
        spec_neg(scaled)
    } else {
        scaled
    }
}

/// Evaluate a parsed component to its bit pattern.
pub fn number_bits(n: &Number) -> (r: u64)
    requires
        n.scale <= 19,
    ensures
        r == spec_number_bits(*n),
{
    let base = decimal_bits(n.mant, n.scale);
    let scaled = if n.percent {
        sf_div(base, HUNDRED_BITS)
    } else {
        base
    };
    if n.neg {
        sf_neg(scaled)
    } else {
        scaled
    }
}

// ---------------------------------------------------------------------
// Cleaning and splitting a notation string.
// ---------------------------------------------------------------------

/// Which bytes are dropped before parsing: ASCII whitespace always,
/// and the two bytes of a degree sign when `deg` is set.
pub open spec fn spec_dropped(b: u8, deg: bool) -> bool {
    b == 32 || b == 9 || b == 10 || b == 13 || (deg && (b == 194 || b == 176))
}

/// The input with all dropped bytes removed.
pub open spec fn spec_clean(bs: Seq<u8>, deg: bool) -> Seq<u8> {
    bs.filter(|b: u8| !spec_dropped(b, deg))
}

/// Remove whitespace (and degree signs when `deg`) from the bytes.
#[verifier::loop_isolation(false)]
pub fn clean_bytes(bs: &[u8], deg: bool) -> (v: Vec<u8>)
    ensures
        v@ == spec_clean(bs@, deg),
{
    let mut v: Vec<u8> = Vec::new();
    let mut i: usize = 0;
    proof {
        assert(bs@.take(0int) =~= Seq::<u8>::empty());
        reveal(Seq::filter);
    }
    while i < bs.len()
        invariant
            i <= bs@.len(),
            v@ == bs@.take(i as int).filter(|b: u8| !spec_dropped(b, deg)),
        decreases bs@.len() - i,
    {
        let b = bs[i];
        let keep = !(b == 32 || b == 9 || b == 10 || b == 13 || (deg && (b == 194 || b == 176)));
        if keep {
            v.push(b);
        }
        proof {
            reveal(Seq::filter);
            assert(bs@.take(i + 1).drop_last() =~= bs@.take(i as int));
            assert(bs@.take(i + 1).last() == b);
        }
        i = i + 1;
    }
    proof {
        assert(bs@.take(bs@.len() as int) =~= bs@);
    }
    v
}

/// Index of the first comma, or the length when there is none.
pub open spec fn first_comma_idx(bs: Seq<u8>) -> nat
    decreases bs.len(),
{
    if bs.len() == 0 {
        0
    } else if bs[0] == 44 {
        0
    } else {
        1 + first_comma_idx(bs.drop_first())
    }
}

proof fn lemma_first_comma_char(bs: Seq<u8>, k: nat)
    requires
        k <= bs.len(),
        forall|m: int| 0 <= m < k ==> bs[m] != 44,
        k < bs.len() ==> bs[k as int] == 44,
    ensures
        first_comma_idx(bs) == k,
    decreases k,
{
    if bs.len() == 0 {
    } else if k == 0 {
    } else {
        lemma_first_comma_char(bs.drop_first(), (k - 1) as nat);
    }
}

/// The components of the cleaned interior: each comma-separated piece
/// parsed as a number, in order; `None` as soon as one piece fails.
proof fn lemma_first_comma_le(bs: Seq<u8>)
    ensures
        first_comma_idx(bs) <= bs.len(),
    decreases bs.len(),
{
    if bs.len() > 0 && bs[0] != 44 {
        lemma_first_comma_le(bs.drop_first());
    }
}

pub open spec fn spec_components(bs: Seq<u8>) -> Option<Seq<Number>>
    decreases bs.len() via check_spec_components_decreases
{
    let j = first_comma_idx(bs);
    match spec_parse_number(bs.take(j as int)) {
        None => None,
        Some(n) => if j == bs.len() {
            Some(seq![n])
        } else {
            match spec_components(bs.skip(j + 1int)) {
                None => None,
                Some(rest) => Some(seq![n] + rest),
            }
        },
    }
}

#[via_fn]
proof fn check_spec_components_decreases(bs: Seq<u8>) {
    lemma_first_comma_le(bs);
}

/// Parse all comma-separated components between `from` and `to`.
#[verifier::loop_isolation(false)]
pub fn components_from(v: &Vec<u8>, from: usize, to: usize) -> (r: Option<Vec<Number>>)
    requires
        from <= to <= v@.len(),
    ensures
        match r {
            Some(nums) => Some(nums@) == spec_components(v@.subrange(from as int, to as int)),
            None => spec_components(v@.subrange(from as int, to as int)) is None,
        },
        r matches Some(nums) ==> forall|i: int|
            0 <= i < nums@.len() ==> #[trigger] nums@[i].scale <= 19,
    decreases v@.len() - from,
{
    let ghost tail = v@.subrange(from as int, to as int);
    let mut j = from;
    while j < to && v[j] != 44
        invariant
            from <= j <= to,
            forall|m: int| from <= m < j ==> v@[m] != 44,
        decreases to - j,
    {
        j = j + 1;
    }
    proof {
        assert(forall|m: int| 0 <= m < j - from ==> tail[m] == v@[from + m] && v@[from + m] != 44);
        if j < to {
            assert(tail[j - from] == v@[j as int]);
        }
        lemma_first_comma_char(tail, (j - from) as nat);
        assert(tail.take(j - from) =~= v@.subrange(from as int, j as int));
    }
    let head = parse_number(v.as_slice(), from, j);
    match head {
        None => None,
        Some(n) => {
            if j == to {
                let mut out: Vec<Number> = Vec::new();
                out.push(n);
                proof {
                    assert(out@ =~= seq![n]);
                }
                Some(out)
            } else {
                proof {
                    assert(tail.skip(j - from + 1) =~= v@.subrange(j + 1, to as int));
                }
                match components_from(v, j + 1, to) {
                    None => None,
                    Some(rest) => {
                        let mut out: Vec<Number> = Vec::new();
                        out.push(n);
                        let mut k: usize = 0;
                        while k < rest.len()
                            invariant
                                k <= rest@.len(),
                                out@ == seq![n] + rest@.take(k as int),
                                forall|i: int|
                                    0 <= i < rest@.len() ==> #[trigger] rest@[i].scale <= 19,
                                n.scale <= 19,
                            decreases rest@.len() - k,
                        {
                            out.push(rest[k]);
                            proof {
                                assert(rest@.take(k + 1) =~= rest@.take(k as int).push(rest@[k as int]));
                                assert(out@ =~= seq![n] + rest@.take(k + 1));
                            }
                            k = k + 1;
                        }
                        proof {
                            assert(rest@.take(rest@.len() as int) =~= rest@);
                        }
                        Some(out)
                    },
                }
            }
        },
    }
}

// ---------------------------------------------------------------------
// Notation parsers.
// ---------------------------------------------------------------------

/// The interior of a prefixed, parenthesized notation: present exactly
/// when the cleaned bytes start with the prefix and end with `)`.
pub open spec fn spec_strip(bs: Seq<u8>, prefix: Seq<u8>) -> Option<Seq<u8>> {
    if bs.len() >= prefix.len() + 1 && bs.take(prefix.len() as int) == prefix && bs.last() == 41 {
        Some(bs.subrange(prefix.len() as int, bs.len() - 1))
    } else {
        None
    }
}

/// Check the prefix and trailing parenthesis and return the interior
/// bounds.
#[verifier::loop_isolation(false)]
fn strip_notation(v: &Vec<u8>, prefix: &[u8]) -> (r: Option<(usize, usize)>)
    ensures
        match r {
            Some(b) => b.0 == prefix@.len() && b.1 + 1 == v@.len() && b.0 <= b.1 && spec_strip(
                v@,
                prefix@,
            ) == Some(v@.subrange(b.0 as int, b.1 as int)),
            None => spec_strip(v@, prefix@) is None,
        },
{
    if v.len() <= prefix.len() {
        return None;
    }
    let mut i: usize = 0;
    while i < prefix.len()
        invariant
            i <= prefix@.len(),
            prefix@.len() + 1 <= v@.len(),
            forall|m: int| 0 <= m < i ==> v@[m] == prefix@[m],
        decreases prefix@.len() - i,
    {
        if v[i] != prefix[i] {
            proof {
                assert(v@.take(prefix@.len() as int)[i as int] != prefix@[i as int]);
            }
            return None;
        }
        i = i + 1;
    }
    if v[v.len() - 1] != 41 {
        return None;
    }
    proof {
        assert(v@.take(prefix@.len() as int) =~= prefix@);
    }
    Some((prefix.len(), v.len() - 1))
}

/// A component evaluated and rounded to a byte channel, saturating.
pub open spec fn spec_channel_byte(n: Number) -> u8 {
    spec_to_u8(spec_round(spec_number_bits(n)))
}

fn channel_byte(n: &Number) -> (r: u8)
    requires
        n.scale <= 19,
    ensures
        r == spec_channel_byte(*n),
{
    let b = number_bits(n);
    let rd = sf_round(b);
    sf_to_u8(rd)
}

/// The shared shape of all parenthesized notations: clean, strip the
/// prefix and closing parenthesis, split into numbers.
pub open spec fn spec_notation(bs: Seq<u8>, prefix: Seq<u8>, deg: bool) -> Result<
    Seq<Number>,
    ChromaError,
> {
    let cl = spec_clean(bs, deg);
    match spec_strip(cl, prefix) {
        None => Err(ChromaError::UnknownColor),
        Some(inner) => match spec_components(inner) {
            None => Err(ChromaError::BadNumber),
            Some(nums) => Ok(nums),
        },
    }
}

fn notation(bytes: &[u8], prefix: &[u8], deg: bool) -> (r: Result<Vec<Number>, ChromaError>)
    ensures
        match r {
            Ok(nums) => spec_notation(bytes@, prefix@, deg) == Ok::<
                Seq<Number>,
                ChromaError,
            >(nums@),
            Err(e) => spec_notation(bytes@, prefix@, deg) == Err::<
                Seq<Number>,
                ChromaError,
            >(e),
        },
        r matches Ok(nums) ==> forall|i: int|
            0 <= i < nums@.len() ==> #[trigger] nums@[i].scale <= 19,
{
    let v = clean_bytes(bytes, deg);
    match strip_notation(&v, prefix) {
        None => Err(ChromaError::UnknownColor),
        Some((a, b)) => {
            match components_from(&v, a, b) {
                None => Err(ChromaError::BadNumber),
                Some(nums) => Ok(nums),
            }
        },
    }
}

/// The parse of an `rgb(...)` notation: exactly three plain
/// components, each rounded to a byte, and full opacity.  Any other
/// component count is a wrong arity; a percent mark on a channel is a
/// malformed number here.
pub open spec fn spec_parse_rgb(bs: Seq<u8>) -> Result<(u8, u8, u8, u64), ChromaError> {
    match spec_notation(bs, seq![114u8, 103u8, 98u8, 40u8], false) {
        Err(e) => Err(e),
        Ok(nums) => if nums.len() != 3 {
            Err(ChromaError::WrongArity)
        } else if nums[0].percent || nums[1].percent || nums[2].percent {
            Err(ChromaError::BadNumber)
        } else {
            Ok(
                (
                    spec_channel_byte(nums[0]),
                    spec_channel_byte(nums[1]),
                    spec_channel_byte(nums[2]),
                    crate::softfloat::ONE_BITS,
                ),
            )
        },
    }
}

/// Parse a string in the `rgb(r, g, b)` notation; exactly three
/// components are required.
pub fn parse_rgb_str(s: &str) -> (r: Result<(u8, u8, u8, u64), ChromaError>)
    ensures
        r == spec_parse_rgb(s.spec_bytes()),
{
    parse_rgb_bytes(s.as_bytes())
}

/// Parse the bytes of an `rgb(r, g, b)` notation.
pub fn parse_rgb_bytes(bs: &[u8]) -> (r: Result<(u8, u8, u8, u64), ChromaError>)
    ensures
        r == spec_parse_rgb(bs@),
{
    match notation(bs, &[114u8, 103u8, 98u8, 40u8], false) {
        Err(e) => {
            proof {
                assert(seq![114u8, 103u8, 98u8, 40u8] =~= [114u8, 103u8, 98u8, 40u8]@);
            }
            Err(e)
        },
        Ok(nums) => {
            proof {
                assert(seq![114u8, 103u8, 98u8, 40u8] =~= [114u8, 103u8, 98u8, 40u8]@);
            }
            if nums.len() != 3 {
                Err(ChromaError::WrongArity)
            } else if nums[0].percent || nums[1].percent || nums[2].percent {
                Err(ChromaError::BadNumber)
            } else {
                Ok(
                    (
                        channel_byte(&nums[0]),
                        channel_byte(&nums[1]),
                        channel_byte(&nums[2]),
                        crate::softfloat::ONE_BITS,
                    ),
                )
            }
        },
    }
}

/// The parse of an `rgba(...)` notation: exactly three byte channels
/// and a plain alpha component, kept as it was written.  Any other
/// component count is a wrong arity.
pub open spec fn spec_parse_rgba(bs: Seq<u8>) -> Result<(u8, u8, u8, u64), ChromaError> {
    match spec_notation(bs, seq![114u8, 103u8, 98u8, 97u8, 40u8], false) {
        Err(e) => Err(e),
        Ok(nums) => if nums.len() != 4 {
            Err(ChromaError::WrongArity)
        } else if nums[0].percent || nums[1].percent || nums[2].percent || nums[3].percent {
            Err(ChromaError::BadNumber)
        } else {
            Ok(
                (
                    spec_channel_byte(nums[0]),
                    spec_channel_byte(nums[1]),
                    spec_channel_byte(nums[2]),
                    spec_number_bits(nums[3]),
                ),
            )
        },
    }
}

/// Parse a string in the `rgba(r, g, b, a)` notation.
pub fn parse_rgba_str(s: &str) -> (r: Result<(u8, u8, u8, u64), ChromaError>)
    ensures
        r == spec_parse_rgba(s.spec_bytes()),
{
    parse_rgba_bytes(s.as_bytes())
}

/// Parse the bytes of an `rgba(r, g, b, a)` notation.
pub fn parse_rgba_bytes(bs: &[u8]) -> (r: Result<(u8, u8, u8, u64), ChromaError>)
    ensures
        r == spec_parse_rgba(bs@),
{
    match notation(bs, &[114u8, 103u8, 98u8, 97u8, 40u8], false) {
        Err(e) => {
            proof {
                assert(seq![114u8, 103u8, 98u8, 97u8, 40u8] =~= [114u8, 103u8, 98u8, 97u8, 40u8]@);
            }
            Err(e)
        },
        Ok(nums) => {
            proof {
                assert(seq![114u8, 103u8, 98u8, 97u8, 40u8] =~= [114u8, 103u8, 98u8, 97u8, 40u8]@);
            }
            if nums.len() != 4 {
                Err(ChromaError::WrongArity)
            } else if nums[0].percent || nums[1].percent || nums[2].percent || nums[3].percent {
                Err(ChromaError::BadNumber)
            } else {
                Ok(
                    (
                        channel_byte(&nums[0]),
                        channel_byte(&nums[1]),
                        channel_byte(&nums[2]),
                        number_bits(&nums[3]),
                    ),
                )
            }
        },
    }
}

/// The parse of a three-component angle/ratio notation (`hsl(` or
/// `hsv(`): degree signs are dropped, percent marks divide by 100, and
/// any component count other than three is a wrong arity.
pub open spec fn spec_parse_triple(bs: Seq<u8>, prefix: Seq<u8>) -> Result<
    (u64, u64, u64),
    ChromaError,
> {
    match spec_notation(bs, prefix, true) {
        Err(e) => Err(e),
        Ok(nums) => if nums.len() != 3 {
            Err(ChromaError::WrongArity)
        } else {
            Ok((spec_number_bits(nums[0]), spec_number_bits(nums[1]), spec_number_bits(nums[2])))
        },
    }
}

pub fn parse_triple_bytes(bs: &[u8], prefix: &[u8]) -> (r: Result<(u64, u64, u64), ChromaError>)
    ensures
        r == spec_parse_triple(bs@, prefix@),
{
    match notation(bs, prefix, true) {
        Err(e) => Err(e),
        Ok(nums) => {
            if nums.len() != 3 {
                Err(ChromaError::WrongArity)
            } else {
                Ok((number_bits(&nums[0]), number_bits(&nums[1]), number_bits(&nums[2])))
            }
        },
    }
}

/// Parse a string in the `hsl(h, s, l)` notation; `s` and `l` may be
/// percentages.
pub fn parse_hsl_str(s: &str) -> (r: Result<(u64, u64, u64), ChromaError>)
    ensures
        r == spec_parse_triple(s.spec_bytes(), seq![104u8, 115u8, 108u8, 40u8]),
{
    let r = parse_triple_bytes(s.as_bytes(), &[104u8, 115u8, 108u8, 40u8]);
    proof {
        assert(seq![104u8, 115u8, 108u8, 40u8] =~= [104u8, 115u8, 108u8, 40u8]@);
    }
    r
}

/// Parse a string in the `hsv(h, s, v)` notation; `s` and `v` may be
/// percentages.
pub fn parse_hsv_str(s: &str) -> (r: Result<(u64, u64, u64), ChromaError>)
    ensures
        r == spec_parse_triple(s.spec_bytes(), seq![104u8, 115u8, 118u8, 40u8]),
{
    let r = parse_triple_bytes(s.as_bytes(), &[104u8, 115u8, 118u8, 40u8]);
    proof {
        assert(seq![104u8, 115u8, 118u8, 40u8] =~= [104u8, 115u8, 118u8, 40u8]@);
    }
    r
}

/// The parse of a `lab(...)` notation: exactly three plain
/// components; any other count is a wrong arity, and a percent mark
/// is a malformed number here.
pub open spec fn spec_parse_lab(bs: Seq<u8>) -> Result<(u64, u64, u64), ChromaError> {
    match spec_notation(bs, seq![108u8, 97u8, 98u8, 40u8], false) {
        Err(e) => Err(e),
        Ok(nums) => if nums.len() != 3 {
            Err(ChromaError::WrongArity)
        } else if nums[0].percent || nums[1].percent || nums[2].percent {
            Err(ChromaError::BadNumber)
        } else {
            Ok((spec_number_bits(nums[0]), spec_number_bits(nums[1]), spec_number_bits(nums[2])))
        },
    }
}

/// Parse a string in the `lab(l, a, b)` notation.
pub fn parse_lab_str(s: &str) -> (r: Result<(u64, u64, u64), ChromaError>)
    ensures
        r == spec_parse_lab(s.spec_bytes()),
{
    parse_lab_bytes(s.as_bytes())
}

/// Parse the bytes of a `lab(l, a, b)` notation.
pub fn parse_lab_bytes(bs: &[u8]) -> (r: Result<(u64, u64, u64), ChromaError>)
    ensures
        r == spec_parse_lab(bs@),
{
    match notation(bs, &[108u8, 97u8, 98u8, 40u8], false) {
        Err(e) => {
            proof {
                assert(seq![108u8, 97u8, 98u8, 40u8] =~= [108u8, 97u8, 98u8, 40u8]@);
            }
            Err(e)
        },
        Ok(nums) => {
            proof {
                assert(seq![108u8, 97u8, 98u8, 40u8] =~= [108u8, 97u8, 98u8, 40u8]@);
            }
            if nums.len() != 3 {
                Err(ChromaError::WrongArity)
            } else if nums[0].percent || nums[1].percent || nums[2].percent {
                Err(ChromaError::BadNumber)
            } else {
                Ok((number_bits(&nums[0]), number_bits(&nums[1]), number_bits(&nums[2])))
            }
        },
    }
}

/// The parse of a `cmyk(...)` notation: exactly four components, each
/// possibly a percentage; any other count is a wrong arity.
pub open spec fn spec_parse_cmyk(bs: Seq<u8>) -> Result<(u64, u64, u64, u64), ChromaError> {
    match spec_notation(bs, seq![99u8, 109u8, 121u8, 107u8, 40u8], false) {
        Err(e) => Err(e),
        Ok(nums) => if nums.len() != 4 {
            Err(ChromaError::WrongArity)
        } else {
            Ok(
                (
                    spec_number_bits(nums[0]),
                    spec_number_bits(nums[1]),
                    spec_number_bits(nums[2]),
                    spec_number_bits(nums[3]),
                ),
            )
        },
    }
}

/// Parse a string in the `cmyk(c, m, y, k)` notation.
pub fn parse_cmyk_str(s: &str) -> (r: Result<(u64, u64, u64, u64), ChromaError>)
    ensures
        r == spec_parse_cmyk(s.spec_bytes()),
{
    parse_cmyk_bytes(s.as_bytes())
}

/// Parse the bytes of a `cmyk(c, m, y, k)` notation.
pub fn parse_cmyk_bytes(bs: &[u8]) -> (r: Result<(u64, u64, u64, u64), ChromaError>)
    ensures
        r == spec_parse_cmyk(bs@),
{
    match notation(bs, &[99u8, 109u8, 121u8, 107u8, 40u8], false) {
        Err(e) => {
            proof {
                assert(seq![99u8, 109u8, 121u8, 107u8, 40u8] =~= [99u8, 109u8, 121u8, 107u8,
                    40u8]@);
            }
            Err(e)
        },
        Ok(nums) => {
            proof {
                assert(seq![99u8, 109u8, 121u8, 107u8, 40u8] =~= [99u8, 109u8, 121u8, 107u8,
                    40u8]@);
            }
            if nums.len() != 4 {
                Err(ChromaError::WrongArity)
            } else {
                Ok(
                    (
                        number_bits(&nums[0]),
                        number_bits(&nums[1]),
                        number_bits(&nums[2]),
                        number_bits(&nums[3]),
                    ),
                )
            }
        },
    }
}

} // verus!
