//! Mixing two colors in a chosen space.

use vstd::prelude::*;
use crate::color::Color;
use crate::color::Space;
use crate::color::spec_color_from;
use crate::color::spec_mode;
use crate::color::spec_vec_mode2color;
use crate::error::ChromaError;
use crate::kernels::HALF_BITS;
use crate::softfloat::ONE_BITS;
use crate::softfloat::sf_add;
use crate::softfloat::sf_mul;
use crate::softfloat::sf_sub;
use crate::softfloat::spec_add;
use crate::softfloat::spec_mul;
use crate::softfloat::spec_sub;

verus! {

/// Componentwise interpolation `a + (b - a) * ratio` over two equally
/// long channel vectors.
pub open spec fn spec_mix_seq(a: Seq<u64>, b: Seq<u64>, ratio: u64) -> Seq<u64> {
    Seq::new(a.len(), |i: int| spec_add(a[i], spec_mul(spec_sub(b[i], a[i]), ratio)))
}

fn mix_components(v1: &Vec<u64>, v2: &Vec<u64>, ratio: u64) -> (v: Vec<u64>)
    requires
        v1@.len() == v2@.len(),
    ensures
        v@ == spec_mix_seq(v1@, v2@, ratio),
{
    let mut v: Vec<u64> = Vec::new();
    let mut i: usize = 0;
    while i < v1.len()
        invariant
            i <= v1@.len() == v2@.len(),
            v@.len() == i,
            forall|k: int|
                0 <= k < i ==> v@[k] == spec_add(
                    v1@[k],
                    spec_mul(spec_sub(v2@[k], v1@[k]), ratio),
                ),
        decreases v1@.len() - i,
    {
        let a = v1[i];
        let b = v2[i];
        v.push(sf_add(a, sf_mul(sf_sub(b, a), ratio)));
        i = i + 1;
    }
    proof {
        assert(v@ =~= spec_mix_seq(v1@, v2@, ratio));
    }
    v
}

/// The raw channel tuple of a mix: both colors viewed in the space,
/// interpolated, and rebuilt.  `Unsupported` exactly for the Lab
/// space, which the floating-point layer mixes itself.
pub open spec fn spec_mix_in(c1: Color, c2: Color, space: Space, ratio: u64) -> Result<
    (u8, u8, u8, u64),
    ChromaError,
> {
    match spec_mode(c1, space) {
        None => Err(ChromaError::Unsupported),
        Some(a) => match spec_mode(c2, space) {
            None => Err(ChromaError::Unsupported),
            Some(b) => spec_vec_mode2color(spec_mix_seq(a, b, ratio), space),
        },
    }
}

/// The mixing operations.
pub struct Chroma;

impl Chroma {
    /// Mix two colors in a space with the given ratio: 0 leans fully
    /// toward the first color, 1 fully toward the second.
    pub fn mix_in(c1: &Color, c2: &Color, space: Space, ratio: u64) -> (r: Result<
        Color,
        ChromaError,
    >)
        ensures
            match r {
                Ok(c) => spec_mix_in(*c1, *c2, space, ratio) matches Ok(t) && spec_color_from(
                    c,
                    t,
                ),
                Err(e) => spec_mix_in(*c1, *c2, space, ratio) == Err::<(u8, u8, u8, u64), _>(e),
            },
    {
        match c1.mode(space) {
            None => Err(ChromaError::Unsupported),
            Some(a) => match c2.mode(space) {
                None => Err(ChromaError::Unsupported),
                Some(b) => {
                    proof {
                        assert(a@.len() == b@.len());
                    }
                    let v3 = mix_components(&a, &b, ratio);
                    Color::vec_mode2color(&v3, space)
                },
            },
        }
    }

    /// Mix two colors at a given ratio in the default RGBA space; this
    /// always succeeds.
    pub fn mix_ratio(c1: &Color, c2: &Color, ratio: u64) -> (c: Color)
        ensures
            spec_mix_in(*c1, *c2, Space::Rgba, ratio) matches Ok(t) && spec_color_from(c, t),
    {
        proof {
            let a = spec_mode(*c1, Space::Rgba).unwrap();
            let b = spec_mode(*c2, Space::Rgba).unwrap();
            assert(spec_mix_seq(a, b, ratio).len() == 4);
        }
        match Chroma::mix_in(c1, c2, Space::Rgba, ratio) {
            Ok(c) => c,
            Err(_) => {
                proof {
                    assert(false);
                }
                Color::new(0, 0, 0, ONE_BITS)
            },
        }
    }

    /// Mix two colors evenly in the default RGBA space.
    pub fn mix(c1: &Color, c2: &Color) -> (c: Color)
        ensures
            spec_mix_in(*c1, *c2, Space::Rgba, HALF_BITS) matches Ok(t) && spec_color_from(c, t),
    {
        Chroma::mix_ratio(c1, c2, HALF_BITS)
    }

    /// Mix two colors evenly in a chosen space.
    pub fn mix_mode(c1: &Color, c2: &Color, space: Space) -> (r: Result<Color, ChromaError>)
        ensures
            match r {
                Ok(c) => spec_mix_in(*c1, *c2, space, HALF_BITS) matches Ok(t) && spec_color_from(
                    c,
                    t,
                ),
                Err(e) => spec_mix_in(*c1, *c2, space, HALF_BITS) == Err::<(u8, u8, u8, u64), _>(
                    e,
                ),
            },
    {
        Chroma::mix_in(c1, c2, space, HALF_BITS)
    }

    /// Mix two colors in a chosen space with a chosen ratio.
    pub fn mix_mode_and_ratio(c1: &Color, c2: &Color, space: Space, ratio: u64) -> (r: Result<
        Color,
        ChromaError,
    >)
        ensures
            match r {
                Ok(c) => spec_mix_in(*c1, *c2, space, ratio) matches Ok(t) && spec_color_from(
                    c,
                    t,
                ),
                Err(e) => spec_mix_in(*c1, *c2, space, ratio) == Err::<(u8, u8, u8, u64), _>(e),
            },
    {
        Chroma::mix_in(c1, c2, space, ratio)
    }
}

} // verus!
