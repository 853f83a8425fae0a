//! Tests for the color value, its accessors and the derived
//! operations.

use chroma::error::ChromaError;
use chroma::{distance, Chroma, Color, Space};

fn b(x: f64) -> u64 {
    x.to_bits()
}

fn f(x: u64) -> f64 {
    f64::from_bits(x)
}

fn rgba_of(c: &Color) -> (u8, u8, u8, f64) {
    let (r, g, bl, a) = c.rgba();
    (r, g, bl, f(a))
}

#[test]
fn test_color_from_hex_str() {
    let hex_color = Color::parse("#ff0000").unwrap();
    assert_eq!(rgba_of(&hex_color), (255, 0, 0, 1.0));

    let hex_color = Color::parse("#abcdef").unwrap();
    assert_eq!(hex_color.hex(), "#abcdef");
}

#[test]
fn test_color_from_rgb_str() {
    let rgb_color = Color::parse("rgb(255, 255, 255)").unwrap();
    assert_eq!(rgba_of(&rgb_color), (255, 255, 255, 1.));

    let rgba_color = Color::parse("rgba(255, 255, 255, 0.6)").unwrap();
    assert_eq!(rgba_of(&rgba_color), (255, 255, 255, 0.6));
}

#[test]
fn test_color_from_name_str() {
    let name_color = Color::parse("mediumspringgreen").unwrap();
    assert_eq!(rgba_of(&name_color), (0, 250, 154, 1.));
}

#[test]
fn test_color_from_hsl_str() {
    let hsl_color = Color::parse("hsl(0, 100%, 50%)").unwrap();
    assert_eq!(rgba_of(&hsl_color), (255, 0, 0, 1.));

    let hsl_color = Color::parse("hsl(120, 100%, 50%)").unwrap();
    assert_eq!(rgba_of(&hsl_color), (0, 255, 0, 1.));

    let hsl_color = Color::parse("hsl(240, 100%, 50%)").unwrap();
    assert_eq!(rgba_of(&hsl_color), (0, 0, 255, 1.));
}

#[test]
fn test_color_from_hsv_str() {
    let hsv_color = Color::parse("hsv(0°, 0%, 75%)").unwrap();
    assert_eq!(rgba_of(&hsv_color), (191, 191, 191, 1.));

    let hsv_color = Color::parse("hsv(120, 100%, 100%)").unwrap();
    assert_eq!(rgba_of(&hsv_color), (0, 255, 0, 1.));

    let hsv_color = Color::parse("hsv(240, 100%, 100%)").unwrap();
    assert_eq!(rgba_of(&hsv_color), (0, 0, 255, 1.));
}

#[test]
fn test_color_from_num() {
    let num_color = Color::from_num(0xff0000);
    assert_eq!(rgba_of(&num_color), (255, 0, 0, 1.));

    let num_color = Color::from_num(0xffff00);
    assert_eq!(rgba_of(&num_color), (255, 255, 0, 1.));

    let num_color = Color::from_num(0x00ff00);
    assert_eq!(rgba_of(&num_color), (0, 255, 0, 1.));

    let num_color = Color::from_num(11259375);
    assert_eq!(num_color.hex(), "#abcdef");
}

#[test]
fn test_color_from_cmyk_str() {
    let cmyk_color = Color::parse("cmyk(0, 100%, 100%, 0)").unwrap();
    assert_eq!(cmyk_color.hex(), "#ff0000");

    let cmyk_color = Color::parse("cmyk(100%, 0, 100%, 0)").unwrap();
    assert_eq!(cmyk_color.hex(), "#00ff00");

    let cmyk_color = Color::parse("cmyk(100%, 100%, 0, 0)").unwrap();
    assert_eq!(cmyk_color.hex(), "#0000ff");

    let cmyk_color = Color::parse("cmyk(0, 0, 0, 100%)").unwrap();
    assert_eq!(cmyk_color.hex(), "#000000");

    let cmyk_color = Color::parse("cmyk(0, 0, 0, 0)").unwrap();
    assert_eq!(cmyk_color.hex(), "#ffffff");

    let cmyk_color = Color::parse("cmyk(20%, 80%, 0, 0)").unwrap();
    assert_eq!(cmyk_color.hex(), "#cc33ff");

    let cmyk_color = Color::parse("cmyk(35%, 0, 60%, 0)").unwrap();
    assert_eq!(cmyk_color.hex(), "#a6ff66");
}

#[test]
fn test_hex_scenario_channels() {
    let c = Color::parse("#abcdef").unwrap();
    assert_eq!(rgba_of(&c), (171, 205, 239, 1.0));
}

#[test]
fn test_color_alpha() {
    let color = Color::parse("#abcdef").unwrap();
    assert_eq!(f(color.alpha()), 1.);
}

#[test]
fn test_color_set_alpha() {
    let mut color = Color::parse("#7760BF").unwrap();
    color.set_alpha(b(0.5));
    assert_eq!(f(color.alpha()), 0.5);
}

#[test]
fn test_hex() {
    let color = Color::new(255, 255, 255, b(1.0));
    assert_eq!(color.hex(), "#ffffff");

    let color = Color::new(255, 255, 255, b(0.5));
    assert_eq!(color.hex(), "#ffffff80");
}

#[test]
fn test_rgb() {
    let color = Color::parse("orange").unwrap();
    assert_eq!(color.rgb(), (255, 165, 0));
}

#[test]
fn test_rgba() {
    let color = Color::new(255, 255, 255, b(1.0));
    assert_eq!(rgba_of(&color), (255, 255, 255, 1.0));
}

#[test]
fn test_hsl() {
    let color = Color::parse("cyan").unwrap();
    let (h, s, l) = color.hsl();
    assert_eq!(f(h), 180.0);
    assert_eq!(f(s), 1.0);
    assert_eq!(f(l), 0.5);
}

#[test]
fn test_hsv() {
    let color = Color::parse("cyan").unwrap();
    let (h, s, v) = color.hsv();
    assert_eq!(f(h), 180.0);
    assert_eq!(f(s), 1.0);
    assert_eq!(f(v), 1.0);
}

#[test]
fn test_hsla() {
    let color = Color::new(255, 255, 255, b(1.0));
    let (h, s, l, a) = color.hsla();
    assert_eq!(f(h), 0.0);
    assert_eq!(f(s), 0.0);
    assert_eq!(f(l), 1.0);
    assert_eq!(f(a), 1.0);
}

#[test]
fn test_name() {
    let color = Color::parse("#abcdef").unwrap();
    assert_eq!(color.name(), "#abcdef");

    let color = Color::parse("rgb(0, 250, 154)").unwrap();
    assert_eq!(color.name(), "mediumspringgreen");

    let color = Color::parse("#00fa9a").unwrap();
    assert_eq!(color.name(), "mediumspringgreen");
}

#[test]
fn test_num() {
    let color = Color::parse("#abcdef").unwrap();
    assert_eq!(color.num(), 11259375);

    let color = Color::parse("rgb(255, 128, 44)").unwrap();
    assert_eq!(color.num(), 16744492);
}

#[test]
fn test_cmyk() {
    let color = Color::parse("#cc33ff").unwrap();
    let (c, m, y, k) = color.cmyk();
    assert_eq!((f(c), f(m), f(y), f(k)), (0.2, 0.8, 0., 0.));

    let color = Color::parse("rgb(255, 128, 44)").unwrap();
    let (c, m, y, k) = color.cmyk();
    assert_eq!((f(c), f(m), f(y), f(k)), (0.0, 0.5, 0.83, 0.0));
}

#[test]
fn test_calc_rgb_distance() {
    let c1 = Color::parse("rgb(255, 0, 0)").unwrap();
    let c2 = Color::parse("rgb(0, 255, 0)").unwrap();

    assert_eq!(f(distance(&c1, &c2, Space::Rgb).unwrap()), 360.62445840513925);
}

#[test]
fn test_more_distances() {
    let c1 = Color::parse("#fff").unwrap();
    let c2 = Color::parse("#ff0").unwrap();
    assert_eq!(f(distance(&c1, &c2, Space::Rgb).unwrap()), 255.0);
    assert_eq!(distance(&c1, &c2, Space::Lab).unwrap_err(), ChromaError::Unsupported);
}

#[test]
fn test_distance_symmetry_and_zero() {
    let c1 = Color::parse("hotpink").unwrap();
    let c2 = Color::parse("#112233").unwrap();
    for space in [Space::Rgb, Space::Rgba, Space::Hsl, Space::Hsv, Space::Cmyk] {
        let d12 = distance(&c1, &c2, space).unwrap();
        let d21 = distance(&c2, &c1, space).unwrap();
        assert_eq!(f(d12), f(d21));
        assert_eq!(f(distance(&c1, &c1, space).unwrap()), 0.0);
    }
}

#[test]
fn test_random() {
    let color = chroma::random();

    let (r, g, bl, a) = color.rgba();
    assert!(r >= 0);
    assert!(r <= 255);
    assert!(g >= 0);
    assert!(g <= 255);
    assert!(bl >= 0);
    assert!(bl <= 255);
    assert!(f(a).eq(&1.));
}

#[test]
fn test_mix_rgba_default() {
    let color1 = Color::parse("rgb(255, 0, 0)").unwrap();
    let color2 = Color::parse("rgb(0, 0, 255)").unwrap();
    let color3 = Chroma::mix(&color1, &color2);
    assert_eq!(color3.hex(), "#800080");

    let color1 = Color::parse("red").unwrap();
    let color2 = Color::parse("green").unwrap();
    let color3 = Chroma::mix(&color1, &color2);
    assert_eq!(color3.hex(), "#804000");
}

#[test]
fn test_mix_hsl_mode() {
    let color1 = Color::parse("red").unwrap();
    let color2 = Color::parse("green").unwrap();
    let color3 = Chroma::mix_mode(&color1, &color2, Space::Hsl).unwrap();
    assert_eq!(color3.hex(), "#c0c000");
}

#[test]
fn test_mix_identity_at_the_ends() {
    let c1 = Color::parse("hotpink").unwrap();
    let c2 = Color::parse("#336699").unwrap();
    for space in [Space::Rgb, Space::Rgba] {
        let at0 = Chroma::mix_mode_and_ratio(&c1, &c2, space, b(0.0)).unwrap();
        assert_eq!(at0.rgb(), c1.rgb());
        let at1 = Chroma::mix_mode_and_ratio(&c1, &c2, space, b(1.0)).unwrap();
        assert_eq!(at1.rgb(), c2.rgb());
    }
    // in HSL and HSV the ends go through the space and back, so they
    // hold within the round trip; these colors round-trip exactly,
    // hotpink included now that the HSL hue is normalized
    let c3 = Color::parse("#85e0a3").unwrap();
    for c in [c1, c3] {
        for space in [Space::Hsl, Space::Hsv] {
            let at0 = Chroma::mix_mode_and_ratio(&c, &c2, space, b(0.0)).unwrap();
            assert_eq!(at0.rgb(), c.rgb());
            let at1 = Chroma::mix_mode_and_ratio(&c2, &c, space, b(1.0)).unwrap();
            assert_eq!(at1.rgb(), c.rgb());
        }
    }
}

#[test]
fn test_mix_lab_is_left_to_the_float_layer() {
    let c1 = Color::parse("red").unwrap();
    let c2 = Color::parse("green").unwrap();
    assert_eq!(
        Chroma::mix_mode(&c1, &c2, Space::Lab).unwrap_err(),
        ChromaError::Unsupported
    );
    assert_eq!(Color::parse("lab(100, 0, 0)").unwrap_err(), ChromaError::Unsupported);
}

#[test]
fn test_vec_mode2color_arity() {
    let v: Vec<u64> = vec![b(1.0), b(2.0)];
    assert_eq!(
        Color::vec_mode2color(&v, Space::Rgb).unwrap_err(),
        ChromaError::WrongArity
    );
    let v: Vec<u64> = vec![b(360.0), b(1.0), b(0.5)];
    assert_eq!(
        Color::vec_mode2color(&v, Space::Hsl).unwrap_err(),
        ChromaError::HueRange
    );
}

#[test]
fn test_alpha_is_clamped() {
    let mut c = Color::new(1, 2, 3, b(7.5));
    assert_eq!(f(c.alpha()), 1.0);
    c.set_alpha(b(-0.25));
    assert_eq!(f(c.alpha()), 0.0);
    c.set_alpha(b(0.125));
    assert_eq!(f(c.alpha()), 0.125);
}

#[test]
fn test_hex_alpha_round_trip_all_bytes() {
    // every alpha byte survives the two-decimal rounding and returns
    // through formatting
    for ab in 0u8..=255 {
        let (_r, _g, _bl, a) = chroma::hex::hex2rgb(&format!("#000000{:02x}", ab)).unwrap();
        let expect = ((ab as f64) / 255.0 * 100.0).round() / 100.0;
        assert_eq!(f(a), expect);
    }
}
