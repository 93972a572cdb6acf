//! The raster on which icons are compared.
use vstd::prelude::*;

verus! {

/// The side of the raster in pixels.
pub const CANONICAL_SIDE: usize = 80;

/// In how many positions a template is compared with itself.
pub const ENV_STATE_COUNT: usize = 25;

/// The picture's size does not fit its pixels.
#[derive(Debug, Clone, Copy, PartialEq, Eq, Structural)]
pub struct SizeMismatch;

impl SizeMismatch {
    /// The message shown to the user.
    pub fn message(self) -> (r: &'static str)
        ensures
            r@ == "semantic image dimensions do not match its pixel data"@,
    {
        "semantic image dimensions do not match its pixel data"
    }
}

/// Checks that a picture is not empty and has a pixel for each of its positions.
pub fn check_size(width: usize, height: usize, pixels: usize) -> (r: Result<(), SizeMismatch>)
    ensures
        r is Ok <==> width > 0 && height > 0 && pixels == width * height,
{
    if width == 0 || height == 0 {
        return Err(SizeMismatch);
    }
    match width.checked_mul(height) {
        Some(count) => if count == pixels {
            Ok(())
        } else {
            Err(SizeMismatch)
        },
        None => Err(SizeMismatch),
    }
}

/// The position that lies at a position beyond the edge when the row is reflected at
/// its first and last pixel, without repeating them.
pub open spec fn reflected(position: int, length: int) -> int {
    if position < 0 {
        -position
    } else if position >= length {
        2 * length - position - 2
    } else {
        position
    }
}

/// A position of a row, or what lies there when the row is reflected at its ends.
pub fn reflect101(position: i32, length: usize) -> (r: usize)
    requires
        length <= 0x3fff_ffff,
        -length < position < 2 * length - 1,
    ensures
        r == reflected(position as int, length as int),
        r < length,
{
    let length = length as i32;
    if position < 0 {
        (-position) as usize
    } else if position >= length {
        (2 * length - position - 2) as usize
    } else {
        position as usize
    }
}

/// How many of a number of pixels are looked at as the worst: one in a hundred, and at
/// least one.
pub open spec fn tail_count(pixels: nat) -> nat {
    let rounded_up = if pixels % 100 == 0 {
        pixels / 100
    } else {
        pixels / 100 + 1
    };
    if rounded_up == 0 {
        1
    } else {
        rounded_up
    }
}

/// How many of a number of pixels are looked at as the worst.
pub fn tail_pixels(pixels: usize) -> (r: usize)
    ensures
        r == tail_count(pixels as nat),
{
    let rounded_up: usize = if pixels % 100 == 0 {
        pixels / 100
    } else {
        pixels / 100 + 1
    };
    if rounded_up == 0 {
        1
    } else {
        rounded_up
    }
}

/// The worst pixels are some of the pixels, at least a hundredth of them.
pub proof fn lemma_tail_count(pixels: nat)
    requires
        pixels > 0,
    ensures
        1 <= tail_count(pixels) <= pixels,
        100 * tail_count(pixels) >= pixels,
        100 * tail_count(pixels) < pixels + 100,
{
}

/// Reflecting a position twice at the same end gives it back.
pub proof fn lemma_reflection(position: int, length: int)
    requires
        length > 0,
        -length < position < 2 * length - 1,
    ensures
        0 <= reflected(position, length) < length,
        position < 0 ==> -reflected(position, length) == position,
        position >= length ==> 2 * (length - 1) - reflected(position, length) == position,
        0 <= position < length ==> reflected(position, length) == position,
{
}

} // verus!
