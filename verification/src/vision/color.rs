//! Colors of the game's icons.
use vstd::prelude::*;

verus! {

/// The color of a Booster, as red, green and blue.
pub const BOOSTER_YELLOW_RED: u8 = 255;

pub const BOOSTER_YELLOW_GREEN: u8 = 222;

pub const BOOSTER_YELLOW_BLUE: u8 = 38;

/// How far a color may be from the color of a Booster.
pub const BOOSTER_YELLOW_MAX_DISTANCE: u32 = 32;

/// The brightness of a color: the weighted mean of its parts, rounded.
pub open spec fn luma(r: u8, g: u8, b: u8) -> int {
    (77 * r + 150 * g + 29 * b + 128) / 256
}

/// The brightness of a color by the weights of BT.601.
pub fn luma601_u8(r: u8, g: u8, b: u8) -> (y: u8)
    ensures
        y == luma(r, g, b),
{
    let sum: u16 = 77u16 * r as u16 + 150u16 * g as u16 + 29u16 * b as u16 + 128;
    assert(sum >> 8 == sum / 256) by (bit_vector);
    assert(sum / 256 <= 255);
    (sum >> 8) as u8
}

pub open spec fn gap(a: u8, b: u8) -> int {
    if a < b {
        b - a
    } else {
        a - b
    }
}

/// The square of the distance of a color from the color of a Booster.
pub open spec fn booster_distance(r: u8, g: u8, b: u8) -> int {
    gap(r, BOOSTER_YELLOW_RED) * gap(r, BOOSTER_YELLOW_RED) + gap(g, BOOSTER_YELLOW_GREEN) * gap(
        g,
        BOOSTER_YELLOW_GREEN,
    ) + gap(b, BOOSTER_YELLOW_BLUE) * gap(b, BOOSTER_YELLOW_BLUE)
}

fn squared_gap(a: u8, b: u8) -> (r: u32)
    ensures
        r == gap(a, b) * gap(a, b),
        r <= 65025,
{
    let d: u32 = if a < b {
        (b - a) as u32
    } else {
        (a - b) as u32
    };
    assert(d * d <= 255 * 255) by (nonlinear_arith)
        requires
            0 <= d <= 255,
    ;
    d * d
}

/// Whether a color is about the color of a Booster.
pub fn is_booster_yellow(r: u8, g: u8, b: u8) -> (yes: bool)
    ensures
        yes == (booster_distance(r, g, b) <= BOOSTER_YELLOW_MAX_DISTANCE
            * BOOSTER_YELLOW_MAX_DISTANCE),
{
    squared_gap(r, BOOSTER_YELLOW_RED) + squared_gap(g, BOOSTER_YELLOW_GREEN) + squared_gap(
        b,
        BOOSTER_YELLOW_BLUE,
    ) <= BOOSTER_YELLOW_MAX_DISTANCE * BOOSTER_YELLOW_MAX_DISTANCE
}

/// A grey has its own value as its brightness, and of two colors the one with the
/// larger parts is not darker.
pub proof fn lemma_luma(r: u8, g: u8, b: u8, r2: u8, g2: u8, b2: u8)
    ensures
        luma(r, r, r) == r,
        r <= r2 && g <= g2 && b <= b2 ==> luma(r, g, b) <= luma(r2, g2, b2),
{
}

/// The distance from the color of a Booster is the sum of the squares by which the parts
/// differ.
pub proof fn lemma_booster_distance(r: u8, g: u8, b: u8)
    ensures
        booster_distance(r, g, b) == (r - 255) * (r - 255) + (g - 222) * (g - 222) + (b - 38) * (b
            - 38),
{
    assert((222 - g) * (222 - g) == (g - 222) * (g - 222)) by (nonlinear_arith);
    assert((38 - b) * (38 - b) == (b - 38) * (b - 38)) by (nonlinear_arith);
    assert((255 - r) * (255 - r) == (r - 255) * (r - 255)) by (nonlinear_arith);
}

/// The brightness is the nearest whole number to the weighted mean, rounding up halfway.
pub proof fn lemma_luma_rounds(r: u8, g: u8, b: u8)
    ensures
        256 * luma(r, g, b) <= 77 * r + 150 * g + 29 * b + 128 < 256 * (luma(r, g, b) + 1),
        0 <= luma(r, g, b) <= 255,
{
}

} // verus!
