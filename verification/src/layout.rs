//! Where the reward screen puts the names of the rewards.
//!
//! The screen is laid out for a frame of 1920 by 1080 pixels and scaled to
//! the captured frame: by its height where the frame is wider than 16 to 9, by
//! its width otherwise. The names stand in one band above the middle of the
//! frame, centred from left to right.

use vstd::prelude::*;

verus! {

/// Width of the frame that the layout is given for.
pub const REFERENCE_WIDTH: u64 = 1920;

/// Height of the frame that the layout is given for.
pub const REFERENCE_HEIGHT: u64 = 1080;

/// Width of the band that holds the names of the largest number of rewards.
pub const BAND_WIDTH: u64 = 968;

/// How far above the middle of the frame the band begins.
pub const BAND_TOP_RISE: u64 = 129;

/// How far above the middle of the frame the band ends.
pub const BAND_BOTTOM_RISE: u64 = 40;

/// Blank columns that part the name of one reward from the next.
pub const SLOT_GAP: u64 = 16;

/// The largest number of rewards that a screen shows.
pub const MAX_SLOTS: usize = 4;

/// A rectangle of a frame.
#[derive(Clone, Copy, Debug, PartialEq, Eq, Structural)]
pub struct Band {
    pub left: u32,
    pub top: u32,
    pub width: u32,
    pub height: u32,
}

/// A length of the reference layout brought to the scale of a frame.
pub open spec fn scaled(length: nat, width: nat, height: nat) -> nat {
    if width * 9 > height * 16 {
        length * height / (REFERENCE_HEIGHT as nat)
    } else {
        length * width / (REFERENCE_WIDTH as nat)
    }
}

/// Width of the band of names in a frame of the given size.
pub open spec fn band_width(width: nat, height: nat) -> nat {
    scaled(BAND_WIDTH as nat, width, height)
}

/// First column of the band of names.
pub open spec fn band_left(width: nat, height: nat) -> nat {
    ((width - band_width(width, height)) / 2) as nat
}

/// First row of the band of names.
pub open spec fn band_top(width: nat, height: nat) -> nat {
    (height / 2 - scaled(BAND_TOP_RISE as nat, width, height)) as nat
}

/// Number of rows of the band of names.
pub open spec fn band_height(width: nat, height: nat) -> nat {
    (scaled(BAND_TOP_RISE as nat, width, height) - scaled(
        BAND_BOTTOM_RISE as nat,
        width,
        height,
    )) as nat
}

/// Number of blank columns that ends a name: the reference gap to scale, and
/// at least one.
pub open spec fn slot_gap(width: nat, height: nat) -> nat {
    if scaled(SLOT_GAP as nat, width, height) == 0 {
        1
    } else {
        scaled(SLOT_GAP as nat, width, height)
    }
}

/// The band of names lies inside the frame.
pub proof fn lemma_band_inside(width: nat, height: nat)
    ensures
        band_left(width, height) + band_width(width, height) <= width,
        band_top(width, height) + band_height(width, height) <= height,
        scaled(BAND_TOP_RISE as nat, width, height) <= height / 2,
        scaled(BAND_BOTTOM_RISE as nat, width, height) <= scaled(
            BAND_TOP_RISE as nat,
            width,
            height,
        ),
        band_width(width, height) <= width,
{
}

/// Executable form of [`scaled`], for lengths of the reference layout.
fn scale(length: u64, width: u32, height: u32) -> (r: u32)
    requires
        length <= REFERENCE_HEIGHT,
    ensures
        r == scaled(length as nat, width as nat, height as nat),
{
    let w = width as u64;
    let h = height as u64;
    assert(length * h <= REFERENCE_HEIGHT * h && length * w <= REFERENCE_HEIGHT * w)
        by (nonlinear_arith)
        requires
            length <= REFERENCE_HEIGHT,
            0 <= h,
            0 <= w,
    ;
    if w * 9 > h * 16 {
        (length * h / REFERENCE_HEIGHT) as u32
    } else {
        (length * w / REFERENCE_WIDTH) as u32
    }
}

/// The band of names in a frame of the given size.
pub fn label_band(width: u32, height: u32) -> (band: Band)
    ensures
        band.left == band_left(width as nat, height as nat),
        band.top == band_top(width as nat, height as nat),
        band.width == band_width(width as nat, height as nat),
        band.height == band_height(width as nat, height as nat),
        band.left + band.width <= width,
        band.top + band.height <= height,
{
    proof {
        lemma_band_inside(width as nat, height as nat);
    }
    let span = scale(BAND_WIDTH, width, height);
    let rise = scale(BAND_TOP_RISE, width, height);
    let fall = scale(BAND_BOTTOM_RISE, width, height);
    Band { left: (width - span) / 2, top: height / 2 - rise, width: span, height: rise - fall }
}

/// The number of blank columns that ends a name in a frame of the given size.
pub fn label_gap(width: u32, height: u32) -> (gap: u32)
    ensures
        gap == slot_gap(width as nat, height as nat),
        gap >= 1,
{
    let gap = scale(SLOT_GAP, width, height);
    if gap == 0 {
        1
    } else {
        gap
    }
}

} // verus!
