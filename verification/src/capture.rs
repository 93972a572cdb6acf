//! Parts of the game's window that are captured.
use vstd::prelude::*;

verus! {

/// A rectangle of pixels.
#[derive(Debug, Clone, Copy, PartialEq, Eq, Structural)]
pub struct ImageRect {
    pub x: u32,
    pub y: u32,
    pub width: u32,
    pub height: u32,
}

impl ImageRect {
    /// The rectangle lies where its positions can be counted.
    pub open spec fn fits(self) -> bool {
        self.x + self.width <= u32::MAX && self.y + self.height <= u32::MAX
    }

    /// Whether the rectangle lies where its positions can be counted.
    pub fn is_countable(self) -> (r: bool)
        ensures
            r == self.fits(),
    {
        self.x.checked_add(self.width).is_some() && self.y.checked_add(self.height).is_some()
    }
}

/// A position in the window's client area.
#[derive(Debug, Clone, Copy, PartialEq, Eq, Structural)]
pub struct ClientPoint {
    pub x: u32,
    pub y: u32,
}

/// How the display shows colors.
#[derive(Debug, Clone, Copy, PartialEq, Eq, Structural)]
pub struct DisplayColorInfo {
    pub hdr_active: bool,
    pub sdr_white_level: u32,
}

impl DisplayColorInfo {
    /// What is known of the display after a capture was taken up again: what was asked
    /// anew, if the capture is still good and the answer came; otherwise what was known.
    pub fn refreshed(self, reusable: bool, queried: Option<DisplayColorInfo>) -> (r:
        DisplayColorInfo)
        ensures
            r == match queried {
                Some(info) if reusable => info,
                _ => self,
            },
    {
        match queried {
            Some(info) => if reusable {
                info
            } else {
                self
            },
            None => self,
        }
    }
}

/// A part of the window that is captured.
#[derive(Debug, Clone, Copy, PartialEq, Eq, Structural)]
pub struct CaptureRegion {
    pub rect: ImageRect,
}

impl CaptureRegion {
    /// The position in the window of a position in the part.
    pub fn map_to_client(&self, local: (u32, u32)) -> (r: ClientPoint)
        requires
            self.rect.x + local.0 <= u32::MAX,
            self.rect.y + local.1 <= u32::MAX,
        ensures
            r.x == self.rect.x + local.0,
            r.y == self.rect.y + local.1,
    {
        ClientPoint { x: self.rect.x + local.0, y: self.rect.y + local.1 }
    }
}

/// A position inside a part of the window can always be told in the window, and
/// different positions stay different.
pub proof fn lemma_positions_kept(region: CaptureRegion, a: (u32, u32), b: (u32, u32))
    requires
        region.rect.fits(),
        a.0 < region.rect.width && a.1 < region.rect.height,
        b.0 < region.rect.width && b.1 < region.rect.height,
    ensures
        region.rect.x + a.0 <= u32::MAX && region.rect.y + a.1 <= u32::MAX,
        (region.rect.x + a.0 == region.rect.x + b.0 && region.rect.y + a.1 == region.rect.y + b.1)
            ==> a == b,
{
}

} // verus!
