//! Tests for the numeric conversion kernels.

use chroma::hex::{hex2rgb, rgb2hex};
use chroma::kernels::{cmyk2rgb, hsl2rgb, hsv2rgb, rgb2cmyk, rgb2hsl, rgb2hsv};
use chroma::{num2rgb, rgb2num};

fn b(x: f64) -> u64 {
    x.to_bits()
}

fn f(x: u64) -> f64 {
    f64::from_bits(x)
}

#[test]
fn test_num2rgb() {
    let (r, g, b) = num2rgb(0x7760BF);
    assert_eq!(r, 0x77);
    assert_eq!(g, 0x60);
    assert_eq!(b, 0xBF);
}

#[test]
fn test_rgb2num() {
    let num = rgb2num((0x77, 0x60, 0xBF));
    assert_eq!(num, 0x7760BF);
}

#[test]
fn test_rgb2hex() {
    let color = (255, 255, 255, b(1.));
    assert_eq!(rgb2hex(color), "#ffffff");

    let color = (255, 255, 255, b(0.5));
    assert_eq!(rgb2hex(color), "#ffffff80");
}

#[test]
fn test_hex2rgb() {
    let hex = "#ffffff";
    let (r, g, bl, a) = hex2rgb(hex).unwrap();
    assert_eq!((r, g, bl, f(a)), (255, 255, 255, 1.));

    let hex = "#fff";
    let (r, g, bl, a) = hex2rgb(hex).unwrap();
    assert_eq!((r, g, bl, f(a)), (255, 255, 255, 1.));

    let hex = "#ffffff80";
    let (r, g, bl, a) = hex2rgb(hex).unwrap();
    assert_eq!((r, g, bl, f(a)), (255, 255, 255, 0.5));
}

#[test]
fn test_rgb2hsl() {
    let color = (65, 164, 221);
    let hsl = rgb2hsl(color);
    assert!(f(hsl.0) - 202.0 < 0.01);
    assert!(f(hsl.1) - 0.70 < 0.01);
    assert!(f(hsl.2) - 0.56 < 0.01);

    let color = (0, 128, 0);
    let hsl = rgb2hsl(color);
    assert!(f(hsl.0) - 120.0 < 0.01);
    assert!(f(hsl.1) - 1.0 < 0.01);
    assert!(f(hsl.2) - 0.25 < 0.01);
}

#[test]
fn test_hsl2rgb() {
    let color = (b(202.0), b(0.70), b(0.56));
    let rgb = hsl2rgb(color).unwrap();
    assert_eq!(rgb, (64, 164, 221));

    let color = (b(0.0), b(0.0), b(0.0));
    let rgb = hsl2rgb(color).unwrap();
    assert_eq!(rgb, (0, 0, 0));
}

#[test]
fn test_rgb2hsv() {
    let cv = |t: (u64, u64, u64)| (f(t.0), f(t.1), f(t.2));
    assert_eq!(cv(rgb2hsv((255, 0, 0))), (0.0, 1.0, 1.0));
    assert_eq!(cv(rgb2hsv((0, 255, 0))), (120.0, 1.0, 1.0));
    assert_eq!(cv(rgb2hsv((0, 0, 255))), (240.0, 1.0, 1.0));
    assert_eq!(cv(rgb2hsv((255, 255, 255))), (0.0, 0.0, 1.0));
    assert_eq!(cv(rgb2hsv((0, 0, 0))), (0.0, 0.0, 0.0));
    assert_eq!(cv(rgb2hsv((255, 255, 0))), (60.0, 1.0, 1.0));
    assert_eq!(cv(rgb2hsv((255, 0, 255))), (300.0, 1.0, 1.0));
    assert_eq!(cv(rgb2hsv((0, 255, 255))), (180.0, 1.0, 1.0));
    let (h, s, v) = cv(rgb2hsv((128, 128, 128)));
    assert_eq!(h, 0.0);
    assert_eq!(s, 0.0);
    assert_eq!(v - 0.5 < 0.1, true);
    let (h, s, v) = cv(rgb2hsv((255, 127, 0)));
    assert_eq!(h - 30.0 < 0.1, true);
    assert_eq!(s, 1.0);
    assert_eq!(v, 1.0);
}

#[test]
fn test_hsv2rgb() {
    let hv = |h: f64, s: f64, v: f64| hsv2rgb((b(h), b(s), b(v))).unwrap();
    assert_eq!(hv(0.0, 1.0, 1.0), (255, 0, 0));
    assert_eq!(hv(120.0, 1.0, 1.0), (0, 255, 0));
    assert_eq!(hv(240.0, 1.0, 1.0), (0, 0, 255));
    assert_eq!(hv(0.0, 0.0, 1.0), (255, 255, 255));
    assert_eq!(hv(0.0, 0.0, 0.0), (0, 0, 0));
    assert_eq!(hv(60.0, 1.0, 1.0), (255, 255, 0));
    assert_eq!(hv(300.0, 1.0, 1.0), (255, 0, 255));
    assert_eq!(hv(180.0, 1.0, 1.0), (0, 255, 255));
    let (r, g, bl) = hv(0.0, 0.0, 0.5);
    assert_eq!(r, 128);
    assert_eq!(g, 128);
    assert_eq!(bl, 128);
    let (r, g, bl) = hv(30.0, 1.0, 1.0);
    assert_eq!(r, 255);
    assert_eq!(g, 128);
    assert_eq!(bl, 0);
}

#[test]
fn test_rgb2cmyk() {
    let cv = |t: (u64, u64, u64, u64)| (f(t.0), f(t.1), f(t.2), f(t.3));
    let color = (255, 255, 255);
    assert_eq!(cv(rgb2cmyk(color)), (0.0, 0.0, 0.0, 0.0));

    let color = (0, 0, 0);
    assert_eq!(cv(rgb2cmyk(color)), (0.0, 0.0, 0.0, 1.0));

    let color = (255, 0, 0);
    assert_eq!(cv(rgb2cmyk(color)), (0.0, 1.0, 1.0, 0.0));

    let color = (0, 255, 0);
    assert_eq!(cv(rgb2cmyk(color)), (1.0, 0.0, 1.0, 0.0));

    let color = (0, 0, 255);
    assert_eq!(cv(rgb2cmyk(color)), (1.0, 1.0, 0.0, 0.0));

    let color = (255, 255, 0);
    assert_eq!(cv(rgb2cmyk(color)), (0.0, 0.0, 1.0, 0.0));
}

#[test]
fn test_cmyk2rgb() {
    let cm = |c: f64, m: f64, y: f64, k: f64| cmyk2rgb((b(c), b(m), b(y), b(k)));
    assert_eq!(cm(0.0, 0.0, 0.0, 1.0), (0, 0, 0));
    assert_eq!(cm(0.0, 0.0, 0.0, 0.0), (255, 255, 255));
    assert_eq!(cm(0.0, 1.0, 1.0, 0.0), (255, 0, 0));
    assert_eq!(cm(1.0, 0.0, 1.0, 0.0), (0, 255, 0));
    assert_eq!(cm(1.0, 1.0, 0.0, 0.0), (0, 0, 255));
    assert_eq!(cm(0.0, 0.0, 1.0, 0.0), (255, 255, 0));
    assert_eq!(cm(0.0, 0.0, 0.0, 0.5), (128, 128, 128));
    assert_eq!(cm(0.0, 0.0, 0.0, 0.75), (64, 64, 64));
    assert_eq!(cm(0.0, 0.0, 0.0, 0.25), (191, 191, 191));
}

#[test]
fn test_hex_round_trip_every_channel() {
    for v in [0u8, 1, 15, 16, 127, 128, 254, 255] {
        let s = rgb2hex((v, 255 - v, v ^ 0x5A, (1.0f64).to_bits()));
        let (r, g, bl, a) = hex2rgb(s.as_str()).unwrap();
        assert_eq!((r, g, bl), (v, 255 - v, v ^ 0x5A));
        assert_eq!(f(a), 1.0);
    }
}

#[test]
fn test_hex2rgb_rejects() {
    assert!(hex2rgb("#abcde").is_err());
    assert!(hex2rgb("abcdef").is_err());
    assert!(hex2rgb("#abcdeg").is_err());
    assert!(hex2rgb("").is_err());
}

#[test]
fn test_achromatic_gray_is_hue_and_saturation_zero() {
    for v in [0u8, 1, 77, 128, 200, 255] {
        let (h, s, _l) = rgb2hsl((v, v, v));
        assert_eq!(f(h), 0.0);
        assert_eq!(f(s), 0.0);
        let (h, s, _v) = rgb2hsv((v, v, v));
        assert_eq!(f(h), 0.0);
        assert_eq!(f(s), 0.0);
    }
}

#[test]
fn test_hsl_hue_is_normalized() {
    // a bluish red has a negative sector hue; the HSL view wraps it
    // into [0, 360), and the inverse then accepts it again
    let (h, s, l) = rgb2hsl((255, 0, 1));
    assert_eq!(f(h), 359.7647058823529);
    assert!(f(h) >= 0.0 && f(h) < 360.0);
    assert_eq!(hsl2rgb((h, s, l)).unwrap(), (255, 0, 1));

    let (h, s, l) = rgb2hsl((255, 105, 180));
    assert_eq!(f(h), 330.0);
    assert_eq!(hsl2rgb((h, s, l)).unwrap(), (255, 105, 180));
}

#[test]
fn test_hue_360_is_rejected() {
    assert!(hsl2rgb((b(360.0), b(1.0), b(0.5))).is_none());
    assert!(hsv2rgb((b(360.0), b(1.0), b(1.0))).is_none());
    assert!(hsl2rgb((b(-0.5), b(1.0), b(0.5))).is_none());
}
