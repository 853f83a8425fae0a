//! Packing RGB channels into a 24-bit integer and back.

use vstd::prelude::*;

verus! {

/// Unpack a 24-bit big-endian integer into its three RGB channels.
///
/// The red channel is the high byte, green the middle byte and blue the
/// low byte.  Values above `0xFFFFFF` carry no color meaning, so they are
/// excluded up front.
pub fn num2rgb(num: u32) -> (rgb: (u8, u8, u8))
    requires
        num <= 0xFFFFFF,
    ensures
        rgb.0 == num / 0x10000,
        rgb.1 == (num / 0x100) % 0x100,
        rgb.2 == num % 0x100,
{
    let r = (num >> 16) as u8;
    let g = ((num >> 8) & 0xFF) as u8;
    let b = (num & 0xFF) as u8;
    proof {
        assert(num <= 0xFFFFFF ==> (num >> 16) == num / 0x10000
            && ((num >> 8) & 0xFF) == (num / 0x100) % 0x100
            && (num & 0xFF) == num % 0x100) by (bit_vector);
    }
    (r, g, b)
}

/// Pack three RGB channels into a 24-bit big-endian integer.
///
/// The result is at most `0xFFFFFF`, and each channel can be read back
/// out of it by the matching division and remainder.
pub fn rgb2num(color: (u8, u8, u8)) -> (num: u32)
    ensures
        num <= 0xFFFFFF,
        num / 0x10000 == color.0,
        (num / 0x100) % 0x100 == color.1,
        num % 0x100 == color.2,
{
    let (r, g, b) = color;
    let num = ((r as u32) << 16) | ((g as u32) << 8) | (b as u32);
    proof {
        let rr = r as u32;
        let gg = g as u32;
        let bb = b as u32;
        assert(rr < 0x100 && gg < 0x100 && bb < 0x100 ==> {
            let m = (rr << 16) | (gg << 8) | bb;
            m <= 0xFFFFFF && m / 0x10000 == rr && (m / 0x100) % 0x100 == gg && m % 0x100 == bb
        }) by (bit_vector);
    }
    num
}

/// A packed integer is exactly determined by its three channels:
/// rebuilding a 24-bit value from its byte quotients gives it back.
pub proof fn lemma_num_round_trip(num: u32)
    requires
        num <= 0xFFFFFF,
    ensures
        (num / 0x10000) * 0x10000 + ((num / 0x100) % 0x100) * 0x100 + num % 0x100 == num,
{
    assert(num <= 0xFFFFFF ==> ((num / 0x10000) * 0x10000 + ((num / 0x100) % 0x100) * 0x100
        + num % 0x100) == num) by (bit_vector);
}

} // verus!
