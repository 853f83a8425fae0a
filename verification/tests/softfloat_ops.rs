//! The integer bit-pattern arithmetic must agree with the machine's
//! own double-precision arithmetic, bit for bit.

use chroma::softfloat::{
    sf_abs, sf_add, sf_div, sf_fmod, sf_le, sf_lt, sf_max, sf_min, sf_mul, sf_neg, sf_num_eq,
    sf_round, sf_sqrt, sf_sub, sf_to_u8,
};

fn next(state: &mut u64) -> u64 {
    *state = state.wrapping_mul(6364136223846793005).wrapping_add(1442695040888963407);
    *state
}

fn same(a: u64, b: u64) -> bool {
    let (fa, fb) = (f64::from_bits(a), f64::from_bits(b));
    (fa.is_nan() && fb.is_nan()) || a == b
}

fn interesting() -> Vec<u64> {
    let vals: [f64; 24] = [
        0.0, -0.0, 1.0, -1.0, 0.5, 2.0, 255.0, 1.0 / 255.0, 60.0, 360.0, 6.0, 1e300, -1e300,
        1e-300, 5e-324, -5e-324, 0.1, 0.2, 0.3, 0.5 / 255.0, f64::INFINITY, f64::NEG_INFINITY,
        f64::NAN, 127.5 / 255.0,
    ];
    vals.iter().map(|v| v.to_bits()).collect()
}

#[test]
fn test_ops_match_hardware_on_edge_values() {
    let cases = interesting();
    for &a in &cases {
        for &bb in &cases {
            let (fa, fb) = (f64::from_bits(a), f64::from_bits(bb));
            assert!(same(sf_add(a, bb), (fa + fb).to_bits()));
            assert!(same(sf_sub(a, bb), (fa - fb).to_bits()));
            assert!(same(sf_mul(a, bb), (fa * fb).to_bits()));
            assert!(same(sf_div(a, bb), (fa / fb).to_bits()));
            assert!(same(sf_fmod(a, bb), (fa % fb).to_bits()));
            assert_eq!(sf_lt(a, bb), fa < fb);
            assert_eq!(sf_le(a, bb), fa <= fb);
            assert_eq!(sf_num_eq(a, bb), fa == fb);
            assert!(same(sf_max(a, bb), fa.max(fb).to_bits()));
            assert!(same(sf_min(a, bb), fa.min(fb).to_bits()));
        }
        assert!(same(sf_round(a), fa_round(a)));
        assert!(same(sf_neg(a), (-f64::from_bits(a)).to_bits()));
        assert!(same(sf_abs(a), f64::from_bits(a).abs().to_bits()));
        assert!(same(sf_sqrt(a), f64::from_bits(a).sqrt().to_bits()));
        assert_eq!(sf_to_u8(a), f64::from_bits(a) as u8);
    }
}

fn fa_round(a: u64) -> u64 {
    f64::from_bits(a).round().to_bits()
}

#[test]
fn test_ops_match_hardware_on_random_values() {
    let mut st: u64 = 0x1234_5678_9ABC_DEF0;
    for i in 0..40000 {
        let a = if i % 3 == 0 {
            next(&mut st)
        } else {
            // a value in a plausible color-arithmetic range
            let x = (next(&mut st) % 720_000) as f64 / 1000.0 - 30.0;
            x.to_bits()
        };
        let b = if i % 5 == 0 {
            next(&mut st)
        } else {
            let x = (next(&mut st) % 2_000_000) as f64 / 1_000_000.0;
            x.to_bits()
        };
        let (fa, fb) = (f64::from_bits(a), f64::from_bits(b));
        assert!(same(sf_add(a, b), (fa + fb).to_bits()));
        assert!(same(sf_sub(a, b), (fa - fb).to_bits()));
        assert!(same(sf_mul(a, b), (fa * fb).to_bits()));
        assert!(same(sf_div(a, b), (fa / fb).to_bits()));
        assert!(same(sf_fmod(a, b), (fa % fb).to_bits()));
        assert!(same(sf_round(a), fa.round().to_bits()));
        assert!(same(sf_sqrt(a), fa.sqrt().to_bits()));
        assert_eq!(sf_lt(a, b), fa < fb);
        assert_eq!(sf_to_u8(a), fa as u8);
    }
}
