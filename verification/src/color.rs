//! The canonical color value: three byte channels and an alpha bit
//! pattern, from which every other representation is computed.

use vstd::prelude::*;
use vstd::string::StringSliceAdditionalSpecFns;
use crate::error::ChromaError;
use crate::hex::hex2rgb_bytes;
use crate::hex::rgb2hex;
use crate::hex::spec_hex2rgb;
use crate::hex::spec_rgb2hex;
use crate::kernels::cmyk2rgb;
use crate::kernels::hsl2rgb;
use crate::kernels::hsv2rgb;
use crate::kernels::rgb2cmyk;
use crate::kernels::rgb2hsl;
use crate::kernels::rgb2hsv;
use crate::kernels::spec_cmyk2rgb;
use crate::kernels::spec_hsl2rgb;
use crate::kernels::spec_hsv2rgb;
use crate::kernels::spec_rgb2cmyk;
use crate::kernels::spec_rgb2hsl;
use crate::kernels::spec_rgb2hsv;
use crate::names::named_color_hex_bytes;
use crate::names::named_color_of_hex;
use crate::names::spec_hex_name;
use crate::names::spec_name_hex;
use crate::num::num2rgb;
use crate::num::rgb2num;
use crate::parse::parse_cmyk_bytes;
use crate::parse::parse_rgb_bytes;
use crate::parse::parse_rgba_bytes;
use crate::parse::parse_triple_bytes;
use crate::parse::spec_parse_cmyk;
use crate::parse::spec_parse_rgb;
use crate::parse::spec_parse_rgba;
use crate::parse::spec_parse_triple;
use crate::softfloat::ONE_BITS;
use crate::softfloat::POS_ZERO;
use crate::softfloat::sf_is_nan;
use crate::softfloat::sf_from_int;
use crate::softfloat::sf_round;
use crate::softfloat::sf_to_u8;
use crate::softfloat::spec_from_int;
use crate::softfloat::spec_round;
use crate::softfloat::spec_to_u8;
use crate::valid::spec_starts_with;

verus! {

/// Whether an alpha bit pattern is canonical: a nonnegative value no
/// greater than one, which as a pattern is just an upper bound.
pub open spec fn spec_alpha_wf(a: u64) -> bool {
    a <= ONE_BITS
}

/// Alpha clamping, applied on every write: values above one saturate
/// to one, values below zero (and the negative zero) saturate to zero,
/// and a not-a-number is treated as full opacity.
pub open spec fn spec_clamp_alpha(a: u64) -> u64 {
    if sf_is_nan(a) {
        ONE_BITS
    } else if a >= 0x8000000000000000 {
        POS_ZERO
    } else if a > ONE_BITS {
        ONE_BITS
    } else {
        a
    }
}

/// Clamp an alpha bit pattern into `[0, 1]`.
pub fn clamp_alpha(a: u64) -> (r: u64)
    ensures
        r == spec_clamp_alpha(a),
        spec_alpha_wf(r),
{
    let ef = (a / 0x10000000000000) % 0x800;
    let ff = a % 0x10000000000000;
    if ef == 0x7FF && ff != 0 {
        ONE_BITS
    } else if a >= 0x8000000000000000 {
        POS_ZERO
    } else if a > ONE_BITS {
        ONE_BITS
    } else {
        a
    }
}

/// A color: the canonical RGBA form.  The three channels are bytes;
/// alpha is an IEEE-754 binary64 bit pattern kept clamped to `[0, 1]`.
#[derive(Clone, Copy, Debug, PartialEq, Eq, Structural)]
pub struct Color {
    r: u8,
    g: u8,
    b: u8,
    a: u64,
}

/// A color space tag, selecting which view or constructor to use.
///
/// The Lab space belongs to the floating-point layer around this
/// crate: the tag exists so that every supported space can be named,
/// but the dispatchers here refuse it.
#[derive(Clone, Copy, Debug, PartialEq, Eq, Structural)]
pub enum Space {
    Rgb,
    Rgba,
    Hsl,
    Hsv,
    Lab,
    Cmyk,
}

/// A well-formed color's alpha is canonical.
pub proof fn lemma_wf_alpha(c: Color)
    requires
        c.wf(),
    ensures
        spec_alpha_wf(c.spec_alpha()),
{
}

/// Whether a color is matched by a raw channel tuple whose alpha has
/// not been clamped yet.
pub open spec fn spec_color_from(c: Color, t: (u8, u8, u8, u64)) -> bool {
    c.spec_rgb() == (t.0, t.1, t.2) && c.spec_alpha() == spec_clamp_alpha(t.3)
}

impl Color {
    /// The canonical alpha invariant.
    #[verifier::type_invariant]
    pub closed spec fn wf(self) -> bool {
        spec_alpha_wf(self.a)
    }

    /// The three byte channels.
    pub closed spec fn spec_rgb(self) -> (u8, u8, u8) {
        (self.r, self.g, self.b)
    }

    /// The alpha bit pattern.
    pub closed spec fn spec_alpha(self) -> u64 {
        self.a
    }

    /// Build a color from channels and an alpha bit pattern; the alpha
    /// is clamped.
    pub fn new(r: u8, g: u8, b: u8, alpha: u64) -> (c: Color)
        ensures
            c.spec_rgb() == (r, g, b),
            c.spec_alpha() == spec_clamp_alpha(alpha),
    {
        Color { r, g, b, a: clamp_alpha(alpha) }
    }

    /// The alpha component.
    pub fn alpha(&self) -> (a: u64)
        ensures
            a == self.spec_alpha(),
            spec_alpha_wf(a),
    {
        proof {
            use_type_invariant(self);
        }
        self.a
    }

    /// Replace the alpha component, clamping it into `[0, 1]`.
    pub fn set_alpha(&mut self, alpha: u64)
        ensures
            final(self).spec_rgb() == old(self).spec_rgb(),
            final(self).spec_alpha() == spec_clamp_alpha(alpha),
    {
        self.a = clamp_alpha(alpha);
    }

    /// The RGB byte channels.
    pub fn rgb(&self) -> (t: (u8, u8, u8))
        ensures
            t == self.spec_rgb(),
    {
        (self.r, self.g, self.b)
    }

    /// The RGBA channels, alpha as a bit pattern.
    pub fn rgba(&self) -> (t: (u8, u8, u8, u64))
        ensures
            t == (self.spec_rgb().0, self.spec_rgb().1, self.spec_rgb().2, self.spec_alpha()),
            spec_alpha_wf(t.3),
    {
        proof {
            use_type_invariant(self);
        }
        (self.r, self.g, self.b, self.a)
    }

    /// The hexadecimal rendering of this color.
    pub fn hex(&self) -> (out: String)
        ensures
            out@ == spec_rgb2hex(
                (self.spec_rgb().0, self.spec_rgb().1, self.spec_rgb().2, self.spec_alpha()),
            ),
    {
        rgb2hex(self.rgba())
    }

    /// The HSL view.
    pub fn hsl(&self) -> (t: (u64, u64, u64))
        ensures
            t == spec_rgb2hsl(self.spec_rgb()),
    {
        rgb2hsl(self.rgb())
    }

    /// The HSV view.
    pub fn hsv(&self) -> (t: (u64, u64, u64))
        ensures
            t == spec_rgb2hsv(self.spec_rgb()),
    {
        rgb2hsv(self.rgb())
    }

    /// The HSL view together with the alpha component.
    pub fn hsla(&self) -> (t: (u64, u64, u64, u64))
        ensures
            (t.0, t.1, t.2) == spec_rgb2hsl(self.spec_rgb()),
            t.3 == self.spec_alpha(),
    {
        let (h, s, l) = self.hsl();
        (h, s, l, self.alpha())
    }

    /// The CMYK view.
    pub fn cmyk(&self) -> (t: (u64, u64, u64, u64))
        ensures
            t == spec_rgb2cmyk(self.spec_rgb()),
    {
        rgb2cmyk(self.rgb())
    }

    /// The 24-bit packed integer form.
    pub fn num(&self) -> (n: u32)
        ensures
            n <= 0xFFFFFF,
            n / 0x10000 == self.spec_rgb().0,
            (n / 0x100) % 0x100 == self.spec_rgb().1,
            n % 0x100 == self.spec_rgb().2,
    {
        rgb2num(self.rgb())
    }

    /// Build an opaque color from a 24-bit packed integer.
    pub fn from_num(num: u32) -> (c: Color)
        requires
            num <= 0xFFFFFF,
        ensures
            c.spec_rgb().0 == num / 0x10000,
            c.spec_rgb().1 == (num / 0x100) % 0x100,
            c.spec_rgb().2 == num % 0x100,
            c.spec_alpha() == ONE_BITS,
    {
        let (r, g, b) = num2rgb(num);
        Color::new(r, g, b, ONE_BITS)
    }

    /// The name of this color, when its hexadecimal rendering appears
    /// in the named-color table; otherwise the hexadecimal rendering
    /// itself.
    pub fn name(&self) -> (out: String)
        ensures
            ({
                let hs = spec_rgb2hex(
                    (self.spec_rgb().0, self.spec_rgb().1, self.spec_rgb().2, self.spec_alpha()),
                );
                match spec_hex_name(vstd::utf8::encode_utf8(hs)) {
                    Some(n) => out@ == n@,
                    None => out@ == hs,
                }
            }),
    {
        let hex = self.hex();
        match named_color_of_hex(hex.as_str()) {
            Some(n) => n.to_owned(),
            None => hex,
        }
    }
}

/// The raw channel tuple a notation string denotes, before alpha
/// clamping: the full parse grammar of the crate.
///
/// The input is lowercased byte by byte over the ASCII letters, then
/// dispatched on its prefix: `#`, `rgba`, `rgb`, `lab`, `hsl`, `hsv`,
/// `cmyk`, and finally a named-color lookup.  A `lab(...)` string is
/// recognized but refused here: turning Lab components into RGB takes
/// the floating-point layer.
pub open spec fn spec_parse_color(bs: Seq<u8>) -> Result<(u8, u8, u8, u64), ChromaError> {
    let low = bs.map_values(|b: u8| spec_lower_byte(b));
    if low.len() > 0 && low[0] == 35 {
        spec_hex2rgb(low)
    } else if spec_starts_with(low, seq![114u8, 103u8, 98u8, 97u8]) {
        spec_parse_rgba(low)
    } else if spec_starts_with(low, seq![114u8, 103u8, 98u8]) {
        spec_parse_rgb(low)
    } else if spec_starts_with(low, seq![108u8, 97u8, 98u8]) {
        Err(ChromaError::Unsupported)
    } else if spec_starts_with(low, seq![104u8, 115u8, 108u8]) {
        match spec_parse_triple(low, seq![104u8, 115u8, 108u8, 40u8]) {
            Err(e) => Err(e),
            Ok(t) => match spec_hsl2rgb(t) {
                None => Err(ChromaError::HueRange),
                Some(rgb) => Ok((rgb.0, rgb.1, rgb.2, ONE_BITS)),
            },
        }
    } else if spec_starts_with(low, seq![104u8, 115u8, 118u8]) {
        match spec_parse_triple(low, seq![104u8, 115u8, 118u8, 40u8]) {
            Err(e) => Err(e),
            Ok(t) => match spec_hsv2rgb(t) {
                None => Err(ChromaError::HueRange),
                Some(rgb) => Ok((rgb.0, rgb.1, rgb.2, ONE_BITS)),
            },
        }
    } else if spec_starts_with(low, seq![99u8, 109u8, 121u8, 107u8]) {
        match spec_parse_cmyk(low) {
            Err(e) => Err(e),
            Ok(t) => {
                let rgb = spec_cmyk2rgb(t);
                Ok((rgb.0, rgb.1, rgb.2, ONE_BITS))
            },
        }
    } else {
        match spec_name_hex(low) {
            Some(h) => spec_hex2rgb(h.spec_bytes()),
            None => Err(ChromaError::UnknownColor),
        }
    }
}

/// ASCII lowercasing of one byte.
pub open spec fn spec_lower_byte(b: u8) -> u8 {
    if 65 <= b <= 90 {
        (b + 32) as u8
    } else {
        b
    }
}

/// Lowercase the ASCII letters of a byte string.
fn lower_bytes(bs: &[u8]) -> (v: Vec<u8>)
    ensures
        v@ == bs@.map_values(|b: u8| spec_lower_byte(b)),
{
    let mut v: Vec<u8> = Vec::new();
    let mut i: usize = 0;
    while i < bs.len()
        invariant
            i <= bs@.len(),
            v@.len() == i,
            forall|k: int| 0 <= k < i ==> v@[k] == spec_lower_byte(bs@[k]),
        decreases bs@.len() - i,
    {
        let b = bs[i];
        if 65 <= b && b <= 90 {
            v.push(b + 32);
        } else {
            v.push(b);
        }
        i = i + 1;
    }
    proof {
        assert(v@ =~= bs@.map_values(|b: u8| spec_lower_byte(b)));
    }
    v
}

fn starts_with_vec(v: &Vec<u8>, prefix: &[u8]) -> (r: bool)
    ensures
        r == spec_starts_with(v@, prefix@),
{
    crate::valid::starts_with(v.as_slice(), prefix)
}

impl Color {
    /// Parse a notation string into a color.
    ///
    /// Succeeds on exactly the strings whose raw channels
    /// `spec_parse_color` yields; the alpha is then clamped as on
    /// every write.  `lab(...)` strings are refused with
    /// `Unsupported`: their conversion belongs to the floating-point
    /// layer around this crate.
    pub fn parse(s: &str) -> (r: Result<Color, ChromaError>)
        ensures
            match r {
                Ok(c) => spec_parse_color(s.spec_bytes()) matches Ok(t) && spec_color_from(c, t),
                Err(e) => spec_parse_color(s.spec_bytes()) == Err::<(u8, u8, u8, u64), _>(e),
            },
    {
        let low = lower_bytes(s.as_bytes());
        proof {
            assert(seq![114u8, 103u8, 98u8, 97u8] =~= [114u8, 103u8, 98u8, 97u8]@);
            assert(seq![114u8, 103u8, 98u8] =~= [114u8, 103u8, 98u8]@);
            assert(seq![108u8, 97u8, 98u8] =~= [108u8, 97u8, 98u8]@);
            assert(seq![104u8, 115u8, 108u8] =~= [104u8, 115u8, 108u8]@);
            assert(seq![104u8, 115u8, 118u8] =~= [104u8, 115u8, 118u8]@);
            assert(seq![99u8, 109u8, 121u8, 107u8] =~= [99u8, 109u8, 121u8, 107u8]@);
            assert(seq![104u8, 115u8, 108u8, 40u8] =~= [104u8, 115u8, 108u8, 40u8]@);
            assert(seq![104u8, 115u8, 118u8, 40u8] =~= [104u8, 115u8, 118u8, 40u8]@);
        }
        let t: Result<(u8, u8, u8, u64), ChromaError> = if low.len() > 0 && low[0] == 35 {
            hex2rgb_bytes(low.as_slice())
        } else if starts_with_vec(&low, &[114u8, 103u8, 98u8, 97u8]) {
            parse_rgba_bytes(low.as_slice())
        } else if starts_with_vec(&low, &[114u8, 103u8, 98u8]) {
            parse_rgb_bytes(low.as_slice())
        } else if starts_with_vec(&low, &[108u8, 97u8, 98u8]) {
            Err(ChromaError::Unsupported)
        } else if starts_with_vec(&low, &[104u8, 115u8, 108u8]) {
            match parse_triple_bytes(low.as_slice(), &[104u8, 115u8, 108u8, 40u8]) {
                Err(e) => Err(e),
                Ok(t) => match hsl2rgb(t) {
                    None => Err(ChromaError::HueRange),
                    Some(rgb) => Ok((rgb.0, rgb.1, rgb.2, ONE_BITS)),
                },
            }
        } else if starts_with_vec(&low, &[104u8, 115u8, 118u8]) {
            match parse_triple_bytes(low.as_slice(), &[104u8, 115u8, 118u8, 40u8]) {
                Err(e) => Err(e),
                Ok(t) => match hsv2rgb(t) {
                    None => Err(ChromaError::HueRange),
                    Some(rgb) => Ok((rgb.0, rgb.1, rgb.2, ONE_BITS)),
                },
            }
        } else if starts_with_vec(&low, &[99u8, 109u8, 121u8, 107u8]) {
            match parse_cmyk_bytes(low.as_slice()) {
                Err(e) => Err(e),
                Ok(t) => {
                    let rgb = cmyk2rgb(t);
                    Ok((rgb.0, rgb.1, rgb.2, ONE_BITS))
                },
            }
        } else {
            match named_color_hex_bytes(low.as_slice()) {
                Some(h) => hex2rgb_bytes(h.as_bytes()),
                None => Err(ChromaError::UnknownColor),
            }
        };
        match t {
            Ok(t) => Ok(Color::new(t.0, t.1, t.2, t.3)),
            Err(e) => Err(e),
        }
    }

    /// The vector view of this color in a space: the channels as
    /// floating-point bit patterns, three for `Rgb`, `Hsl` and `Hsv`,
    /// four for `Rgba` and `Cmyk`; `None` for `Lab`, whose view is
    /// computed by the floating-point layer.
    #[verifier::rlimit(100)]
    pub fn mode(&self, space: Space) -> (r: Option<Vec<u64>>)
        ensures
            match r {
                Some(v) => spec_mode(*self, space) == Some(v@),
                None => spec_mode(*self, space) is None && space == Space::Lab,
            },
    {
        match space {
            Space::Rgb => {
                let (r, g, b) = self.rgb();
                let mut v: Vec<u64> = Vec::new();
                v.push(sf_from_int(r as u64));
                v.push(sf_from_int(g as u64));
                v.push(sf_from_int(b as u64));
                proof {
                    assert(v@ =~= spec_mode(*self, space).unwrap());
                }
                Some(v)
            },
            Space::Rgba => {
                let (r, g, b, a) = self.rgba();
                let mut v: Vec<u64> = Vec::new();
                v.push(sf_from_int(r as u64));
                v.push(sf_from_int(g as u64));
                v.push(sf_from_int(b as u64));
                v.push(a);
                proof {
                    assert(v@ =~= spec_mode(*self, space).unwrap());
                }
                Some(v)
            },
            Space::Hsl => {
                let (h, s, l) = self.hsl();
                let mut v: Vec<u64> = Vec::new();
                v.push(h);
                v.push(s);
                v.push(l);
                proof {
                    assert(v@ =~= spec_mode(*self, space).unwrap());
                }
                Some(v)
            },
            Space::Hsv => {
                let (h, s, w) = self.hsv();
                let mut v: Vec<u64> = Vec::new();
                v.push(h);
                v.push(s);
                v.push(w);
                proof {
                    assert(v@ =~= spec_mode(*self, space).unwrap());
                }
                Some(v)
            },
            Space::Cmyk => {
                let (c, m, y, k) = self.cmyk();
                let mut v: Vec<u64> = Vec::new();
                v.push(c);
                v.push(m);
                v.push(y);
                v.push(k);
                proof {
                    assert(v@ =~= spec_mode(*self, space).unwrap());
                }
                Some(v)
            },
            Space::Lab => None,
        }
    }

    /// Rebuild a color from a space vector: the inverse of `mode`,
    /// rounding channels back to bytes.  The vector's length must
    /// match the space's arity; a hue outside `[0, 360)` is refused;
    /// `Lab` is refused as in `mode`.
    pub fn vec_mode2color(v: &Vec<u64>, space: Space) -> (r: Result<Color, ChromaError>)
        ensures
            match r {
                Ok(c) => spec_vec_mode2color(v@, space) matches Ok(t) && spec_color_from(c, t),
                Err(e) => spec_vec_mode2color(v@, space) == Err::<(u8, u8, u8, u64), _>(e),
            },
    {
        let t: Result<(u8, u8, u8, u64), ChromaError> = match space {
            Space::Rgb => {
                if v.len() != 3 {
                    Err(ChromaError::WrongArity)
                } else {
                    Ok(
                        (
                            sf_to_u8(sf_round(v[0])),
                            sf_to_u8(sf_round(v[1])),
                            sf_to_u8(sf_round(v[2])),
                            ONE_BITS,
                        ),
                    )
                }
            },
            Space::Rgba => {
                if v.len() != 4 {
                    Err(ChromaError::WrongArity)
                } else {
                    Ok(
                        (
                            sf_to_u8(sf_round(v[0])),
                            sf_to_u8(sf_round(v[1])),
                            sf_to_u8(sf_round(v[2])),
                            v[3],
                        ),
                    )
                }
            },
            Space::Hsl => {
                if v.len() != 3 {
                    Err(ChromaError::WrongArity)
                } else {
                    match hsl2rgb((v[0], v[1], v[2])) {
                        None => Err(ChromaError::HueRange),
                        Some(rgb) => Ok((rgb.0, rgb.1, rgb.2, ONE_BITS)),
                    }
                }
            },
            Space::Hsv => {
                if v.len() != 3 {
                    Err(ChromaError::WrongArity)
                } else {
                    match hsv2rgb((v[0], v[1], v[2])) {
                        None => Err(ChromaError::HueRange),
                        Some(rgb) => Ok((rgb.0, rgb.1, rgb.2, ONE_BITS)),
                    }
                }
            },
            Space::Cmyk => {
                if v.len() != 4 {
                    Err(ChromaError::WrongArity)
                } else {
                    let rgb = cmyk2rgb((v[0], v[1], v[2], v[3]));
                    Ok((rgb.0, rgb.1, rgb.2, ONE_BITS))
                }
            },
            Space::Lab => Err(ChromaError::Unsupported),
        };
        match t {
            Ok(t) => Ok(Color::new(t.0, t.1, t.2, t.3)),
            Err(e) => Err(e),
        }
    }
}

/// The vector view of a color in a space.
pub open spec fn spec_mode(c: Color, space: Space) -> Option<Seq<u64>> {
    match space {
        Space::Rgb => Some(
            seq![
                spec_from_int(c.spec_rgb().0 as nat),
                spec_from_int(c.spec_rgb().1 as nat),
                spec_from_int(c.spec_rgb().2 as nat),
            ],
        ),
        Space::Rgba => Some(
            seq![
                spec_from_int(c.spec_rgb().0 as nat),
                spec_from_int(c.spec_rgb().1 as nat),
                spec_from_int(c.spec_rgb().2 as nat),
                c.spec_alpha(),
            ],
        ),
        Space::Hsl => {
            let t = spec_rgb2hsl(c.spec_rgb());
            Some(seq![t.0, t.1, t.2])
        },
        Space::Hsv => {
            let t = spec_rgb2hsv(c.spec_rgb());
            Some(seq![t.0, t.1, t.2])
        },
        Space::Cmyk => {
            let t = spec_rgb2cmyk(c.spec_rgb());
            Some(seq![t.0, t.1, t.2, t.3])
        },
        Space::Lab => None,
    }
}

/// The raw channel tuple a space vector denotes.
pub open spec fn spec_vec_mode2color(v: Seq<u64>, space: Space) -> Result<
    (u8, u8, u8, u64),
    ChromaError,
> {
    match space {
        Space::Rgb => {
            if v.len() != 3 {
                Err(ChromaError::WrongArity)
            } else {
                Ok(
                    (
                        spec_to_u8(spec_round(v[0])),
                        spec_to_u8(spec_round(v[1])),
                        spec_to_u8(spec_round(v[2])),
                        ONE_BITS,
                    ),
                )
            }
        },
        Space::Rgba => {
            if v.len() != 4 {
                Err(ChromaError::WrongArity)
            } else {
                Ok(
                    (
                        spec_to_u8(spec_round(v[0])),
                        spec_to_u8(spec_round(v[1])),
                        spec_to_u8(spec_round(v[2])),
                        v[3],
                    ),
                )
            }
        },
        Space::Hsl => {
            if v.len() != 3 {
                Err(ChromaError::WrongArity)
            } else {
                match spec_hsl2rgb((v[0], v[1], v[2])) {
                    None => Err(ChromaError::HueRange),
                    Some(rgb) => Ok((rgb.0, rgb.1, rgb.2, ONE_BITS)),
                }
            }
        },
        Space::Hsv => {
            if v.len() != 3 {
                Err(ChromaError::WrongArity)
            } else {
                match spec_hsv2rgb((v[0], v[1], v[2])) {
                    None => Err(ChromaError::HueRange),
                    Some(rgb) => Ok((rgb.0, rgb.1, rgb.2, ONE_BITS)),
                }
            }
        },
        Space::Cmyk => {
            if v.len() != 4 {
                Err(ChromaError::WrongArity)
            } else {
                let rgb = spec_cmyk2rgb((v[0], v[1], v[2], v[3]));
                Ok((rgb.0, rgb.1, rgb.2, ONE_BITS))
            }
        },
        Space::Lab => Err(ChromaError::Unsupported),
    }
}

} // verus!
