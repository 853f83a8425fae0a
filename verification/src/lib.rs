//! A color conversion library, verified end to end.
//!
//! Colors are stored canonically as 8-bit RGB channels plus an alpha
//! component; every other representation (hexadecimal, packed integer,
//! HSL, HSV, CMYK) is computed on demand from that canonical form, so
//! the views can never disagree.  Real-number channels are carried as
//! IEEE-754 binary64 bit patterns and computed exactly with integer
//! arithmetic (see [`softfloat`]), which lets every conversion carry a
//! precise contract.  The CIE-Lab and color-temperature conversions
//! need gamma curves and logarithms, so they live in the thin
//! floating-point layer around this crate; every dispatcher here names
//! their space but hands those requests over.

pub mod chroma;
pub mod color;
pub mod distance;
pub mod error;
pub mod hex;
pub mod kernels;
pub mod laws;
pub mod names;
mod num;
pub mod parse;
mod random;
mod rng;
pub mod softfloat;
mod valid;

pub use chroma::Chroma;
pub use color::Color;
pub use color::Space;
pub use distance::distance;
pub use num::num2rgb;
pub use num::rgb2num;
pub use random::random;
pub use valid::valid;
