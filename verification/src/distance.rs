//! Euclidean distance between two colors in a chosen space.

use vstd::prelude::*;
use crate::color::Color;
use crate::color::Space;
use crate::color::spec_mode;
use crate::error::ChromaError;
use crate::softfloat::POS_ZERO;
use crate::softfloat::sf_add;
use crate::softfloat::sf_mul;
use crate::softfloat::sf_sqrt;
use crate::softfloat::sf_sub;
use crate::softfloat::spec_add;
use crate::softfloat::spec_mul;
use crate::softfloat::spec_sqrt;
use crate::softfloat::spec_sub;

verus! {

/// The left-to-right accumulated sum of squared componentwise
/// differences over the first `n` components.
pub open spec fn spec_sumsq(a: Seq<u64>, b: Seq<u64>, n: int) -> u64
    decreases n,
{
    if n <= 0 {
        POS_ZERO
    } else {
        let d = spec_sub(a[n - 1], b[n - 1]);
        spec_add(spec_sumsq(a, b, n - 1), spec_mul(d, d))
    }
}

/// The distance between two colors in a space: the square root of the
/// summed squared channel differences.  `Unsupported` exactly for the
/// Lab space, whose view the floating-point layer computes.
pub open spec fn spec_distance(c1: Color, c2: Color, space: Space) -> Result<u64, ChromaError> {
    match spec_mode(c1, space) {
        None => Err(ChromaError::Unsupported),
        Some(a) => match spec_mode(c2, space) {
            None => Err(ChromaError::Unsupported),
            Some(b) => Ok(spec_sqrt(spec_sumsq(a, b, a.len() as int))),
        },
    }
}

/// Compute the Euclidean distance between two colors in a space.
pub fn distance(c1: &Color, c2: &Color, space: Space) -> (r: Result<u64, ChromaError>)
    ensures
        r == spec_distance(*c1, *c2, space),
{
    match c1.mode(space) {
        None => Err(ChromaError::Unsupported),
        Some(a) => match c2.mode(space) {
            None => Err(ChromaError::Unsupported),
            Some(b) => {
                proof {
                    assert(a@.len() == b@.len());
                }
                let mut acc: u64 = POS_ZERO;
                let mut i: usize = 0;
                while i < a.len()
                    invariant
                        i <= a@.len() == b@.len(),
                        acc == spec_sumsq(a@, b@, i as int),
                    decreases a@.len() - i,
                {
                    let d = sf_sub(a[i], b[i]);
                    acc = sf_add(acc, sf_mul(d, d));
                    i = i + 1;
                }
                Ok(sf_sqrt(acc))
            },
        },
    }
}

} // verus!
