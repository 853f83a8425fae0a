//! Tests for the textual parsers and the validity pre-check.

use chroma::error::ChromaError;
use chroma::parse::{
    parse_cmyk_str, parse_hsl_str, parse_hsv_str, parse_lab_str, parse_rgb_str, parse_rgba_str,
};
use chroma::valid;

fn f(x: u64) -> f64 {
    f64::from_bits(x)
}

#[test]
fn test_parse_rgb_str() {
    let (r, g, b, a) = parse_rgb_str("rgb(0, 0, 0)").unwrap();
    assert_eq!((r, g, b, f(a)), (0, 0, 0, 1.));

    let (r, g, b, a) = parse_rgb_str("rgb(255, 255, 255)").unwrap();
    assert_eq!((r, g, b, f(a)), (255, 255, 255, 1.));

    // a fourth component is a wrong argument count and fails the parse
    assert_eq!(
        parse_rgb_str("rgb(254, 255, 255, 0.5)").unwrap_err(),
        ChromaError::WrongArity
    );
}

#[test]
fn test_parse_rgba_str() {
    let (r, g, b, a) = parse_rgba_str("rgba(0, 0, 0, 0)").unwrap();
    assert_eq!((r, g, b, f(a)), (0, 0, 0, 0.));

    let (r, g, b, a) = parse_rgba_str("rgba(255, 255, 255, 1)").unwrap();
    assert_eq!((r, g, b, f(a)), (255, 255, 255, 1.));

    let (r, g, b, a) = parse_rgba_str("rgba(255, 255, 255, 0.5)").unwrap();
    assert_eq!((r, g, b, f(a)), (255, 255, 255, 0.5));
}

#[test]
fn test_parse_hsl_str() {
    let cv = |t: (u64, u64, u64)| (f(t.0), f(t.1), f(t.2));
    assert_eq!(cv(parse_hsl_str("hsl(0, 0%, 0%)").unwrap()), (0., 0., 0.));
    assert_eq!(cv(parse_hsl_str("hsl(0, 0, 0)").unwrap()), (0., 0., 0.));
    assert_eq!(cv(parse_hsl_str("hsl(0, 100%, 100%)").unwrap()), (0., 1., 1.));
    assert_eq!(cv(parse_hsl_str("hsl(0, 100, 100)").unwrap()), (0., 100., 100.));
}

#[test]
fn test_parse_hsv_str() {
    let cv = |t: (u64, u64, u64)| (f(t.0), f(t.1), f(t.2));
    assert_eq!(cv(parse_hsv_str("hsv(0, 0%, 0%)").unwrap()), (0., 0., 0.));
    assert_eq!(cv(parse_hsv_str("hsv(0, 0, 0)").unwrap()), (0., 0., 0.));
    assert_eq!(cv(parse_hsv_str("hsv(300°, 100%, 100%)").unwrap()), (300., 1., 1.));
    assert_eq!(cv(parse_hsv_str("hsv(0, 100, 100)").unwrap()), (0., 100., 100.));
}

#[test]
fn test_parse_lab_str() {
    let cv = |t: (u64, u64, u64)| (f(t.0), f(t.1), f(t.2));
    assert_eq!(cv(parse_lab_str("lab(0, 0, 0)").unwrap()), (0., 0., 0.));
    assert_eq!(cv(parse_lab_str("lab(100, 0, 0)").unwrap()), (100., 0., 0.));
}

#[test]
fn test_parse_cmyk_str() {
    let cv = |t: (u64, u64, u64, u64)| (f(t.0), f(t.1), f(t.2), f(t.3));
    assert_eq!(cv(parse_cmyk_str("cmyk(95%, 80%, 0, 0)").unwrap()), (0.95, 0.8, 0., 0.));
    assert_eq!(cv(parse_cmyk_str("cmyk(0.95, 0.8, 0, 0)").unwrap()), (0.95, 0.8, 0., 0.));
    assert_eq!(cv(parse_cmyk_str("cmyk(0, 0, 0, 0)").unwrap()), (0., 0., 0., 0.));
    assert_eq!(cv(parse_cmyk_str("cmyk(0, 0, 0, 1)").unwrap()), (0., 0., 0., 1.));
}

#[test]
fn test_parse_errors_by_kind() {
    assert_eq!(parse_rgb_str("hsl(1, 2, 3)").unwrap_err(), ChromaError::UnknownColor);
    assert_eq!(parse_rgb_str("rgb(1, 2)").unwrap_err(), ChromaError::WrongArity);
    assert_eq!(parse_rgba_str("rgba(1, 2, 3, 4, 5)").unwrap_err(), ChromaError::WrongArity);
    assert_eq!(parse_hsl_str("hsl(1, 2, 3, 4)").unwrap_err(), ChromaError::WrongArity);
    assert_eq!(parse_hsv_str("hsv(1, 2, 3, 4)").unwrap_err(), ChromaError::WrongArity);
    assert_eq!(parse_lab_str("lab(1, 2, 3, 4)").unwrap_err(), ChromaError::WrongArity);
    assert_eq!(parse_cmyk_str("cmyk(1, 2, 3, 4, 5)").unwrap_err(), ChromaError::WrongArity);
    assert_eq!(parse_rgb_str("rgb(1, 2, x)").unwrap_err(), ChromaError::BadNumber);
    assert_eq!(parse_rgb_str("rgb(1, 2, 3%)").unwrap_err(), ChromaError::BadNumber);
    assert_eq!(parse_rgba_str("rgba(1, 2, 3)").unwrap_err(), ChromaError::WrongArity);
    assert_eq!(parse_lab_str("lab(1, 2%, 3)").unwrap_err(), ChromaError::BadNumber);
    assert_eq!(parse_cmyk_str("cmyk(1, 2, 3)").unwrap_err(), ChromaError::WrongArity);
    assert_eq!(parse_hsl_str("hsl(1, 2, )").unwrap_err(), ChromaError::BadNumber);
}

#[test]
fn test_parse_number_shapes() {
    let (r, g, b, a) = parse_rgba_str("rgba( 12.6 , -3 , +270 , .25 )").unwrap();
    assert_eq!((r, g, b, f(a)), (13, 0, 255, 0.25));

    let t = parse_hsl_str("hsl(0.125, 12.5%, 1.)").unwrap();
    assert_eq!((f(t.0), f(t.1), f(t.2)), (0.125, 0.125, 1.0));
}

#[test]
fn test_valid_hex() {
    assert!(valid("#abcdef"));
}

#[test]
fn test_valid_hex_short() {
    assert!(valid("#abc"));
}

#[test]
fn test_valid_hex_invalid() {
    assert!(!valid("#FOOOOD"));
}

#[test]
fn test_valid_hex_invalid_length() {
    assert!(!valid("#abcde"));
}

#[test]
fn test_valid_rgb() {
    assert!(valid("rgb(255, 255, 255)"));
}

#[test]
fn test_valid_rgba() {
    assert!(valid("rgba(255, 255, 255, 0.6)"));
}

#[test]
fn test_valid_lab() {
    assert!(valid("lab(100, 0, 0)"));
}

#[test]
fn test_valid_name() {
    assert!(valid("mediumspringgreen"));
}

#[test]
fn test_invalid() {
    assert!(!valid("invalid"));
}
