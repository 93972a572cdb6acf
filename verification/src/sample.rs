//! Icon samples cut from the screen.
use crate::assets::PixelImage;
use vstd::prelude::*;

verus! {

/// Where the icon is in a sample, and how large it was on the screen. The three
/// numbers are 32-bit IEEE 754 values, held by their bit patterns.
#[derive(Debug, Clone, Copy, PartialEq, Eq, Structural)]
pub struct SampleGeometry {
    pub center_x: u32,
    pub center_y: u32,
    pub physical_size: u32,
}

/// The bit pattern of positive infinity: all finite positive numbers have smaller
/// patterns.
pub const INFINITY_BITS: u32 = 0x7F80_0000;

/// The bit pattern of negative zero.
pub const NEGATIVE_ZERO_BITS: u32 = 0x8000_0000;

/// The pattern of a finite number that is not below zero.
pub open spec fn finite_not_negative(bits: u32) -> bool {
    bits < INFINITY_BITS || bits == NEGATIVE_ZERO_BITS
}

/// The pattern of a finite number above zero.
pub open spec fn finite_positive(bits: u32) -> bool {
    0 < bits < INFINITY_BITS
}

impl SampleGeometry {
    /// The center is at finite coordinates that are not negative, and the size is
    /// finite and positive.
    pub open spec fn usable(self) -> bool {
        finite_not_negative(self.center_x) && finite_not_negative(self.center_y)
            && finite_positive(self.physical_size)
    }

    /// Whether the center is at finite coordinates that are not negative, and the
    /// size is finite and positive.
    pub fn is_usable(&self) -> (r: bool)
        ensures
            r == self.usable(),
    {
        (self.center_x < INFINITY_BITS || self.center_x == NEGATIVE_ZERO_BITS) && (self.center_y
            < INFINITY_BITS || self.center_y == NEGATIVE_ZERO_BITS) && 0 < self.physical_size
            && self.physical_size < INFINITY_BITS
    }
}

/// An icon cut from the screen.
#[derive(Debug)]
pub struct ImageSample {
    pub image: PixelImage,
    pub geometry: SampleGeometry,
}

/// A geometry is usable when its numbers are finite, the center is not negative, and the size
/// is above zero. In bits: the sign is clear, or the number is a zero of the center, and not
/// all bits of the exponent are set.
pub proof fn lemma_usable(geometry: SampleGeometry)
    ensures
        geometry.usable() <==> {
            &&& geometry.center_x < 0x7F80_0000 || geometry.center_x == 0x8000_0000
            &&& geometry.center_y < 0x7F80_0000 || geometry.center_y == 0x8000_0000
            &&& 0 < geometry.physical_size < 0x7F80_0000
        },
{
}

} // verus!
