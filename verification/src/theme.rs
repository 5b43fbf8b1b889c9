//! The colour themes of the interface and the detection of the one in use.
//!
//! Every theme draws the names of the rewards in a colour of its own. Each
//! pixel of the band of names that is close to one of these colours speaks for
//! the theme whose colour is nearest, and the theme with the most pixels
//! speaking for it is the one detected.

use crate::frame::{Frame, Raster, Rgba};
use crate::layout::{band_height, band_left, band_top, band_width, label_band, lemma_band_inside};
use vstd::prelude::*;

verus! {

/// A colour without opacity.
#[derive(Clone, Copy, Debug, PartialEq, Eq, Structural)]
pub struct Rgb {
    pub r: u8,
    pub g: u8,
    pub b: u8,
}

/// The themes that the interface can be set to.
#[derive(Clone, Copy, Debug, PartialEq, Eq, Structural)]
pub enum Theme {
    Vitruvian,
    Stalker,
    Baruuk,
    Corpus,
    Fortuna,
    Grineer,
    Lotus,
    Nidus,
    Orokin,
    Tenno,
    HighContrast,
    Legacy,
    Equinox,
    DarkLotus,
    Zephyr,
}

/// Number of themes.
pub const THEME_COUNT: usize = 15;

/// A pixel speaks for a theme only within this squared distance of its colour.
pub const PALETTE_TOLERANCE: u32 = 900;

/// A pixel counts as part of a name within this squared distance of the
/// colour of the theme in use.
pub const INK_TOLERANCE: u32 = 2500;

/// The square of a number.
pub open spec fn square(x: int) -> nat {
    (x * x) as nat
}

/// Squared distance between the colour of a pixel and a colour, opacity left
/// aside.
pub open spec fn color_distance(p: Rgba, c: Rgb) -> nat {
    square(p.r - c.r) + square(p.g - c.g) + square(p.b - c.b)
}

impl Theme {
    /// The theme that is taken where nothing speaks for any theme.
    pub open spec fn fallback() -> Theme {
        Theme::Vitruvian
    }

    /// Position of the theme in the list of themes.
    pub open spec fn ordinal(self) -> nat {
        match self {
            Theme::Vitruvian => 0,
            Theme::Stalker => 1,
            Theme::Baruuk => 2,
            Theme::Corpus => 3,
            Theme::Fortuna => 4,
            Theme::Grineer => 5,
            Theme::Lotus => 6,
            Theme::Nidus => 7,
            Theme::Orokin => 8,
            Theme::Tenno => 9,
            Theme::HighContrast => 10,
            Theme::Legacy => 11,
            Theme::Equinox => 12,
            Theme::DarkLotus => 13,
            Theme::Zephyr => 14,
        }
    }

    /// The theme at a position of the list of themes.
    pub open spec fn at(i: int) -> Theme {
        if i == 0 {
            Theme::Vitruvian
        } else if i == 1 {
            Theme::Stalker
        } else if i == 2 {
            Theme::Baruuk
        } else if i == 3 {
            Theme::Corpus
        } else if i == 4 {
            Theme::Fortuna
        } else if i == 5 {
            Theme::Grineer
        } else if i == 6 {
            Theme::Lotus
        } else if i == 7 {
            Theme::Nidus
        } else if i == 8 {
            Theme::Orokin
        } else if i == 9 {
            Theme::Tenno
        } else if i == 10 {
            Theme::HighContrast
        } else if i == 11 {
            Theme::Legacy
        } else if i == 12 {
            Theme::Equinox
        } else if i == 13 {
            Theme::DarkLotus
        } else {
            Theme::Zephyr
        }
    }

    /// The colour in which the theme draws the names of the rewards.
    pub open spec fn primary(self) -> Rgb {
        match self {
            Theme::Vitruvian => Rgb { r: 190, g: 169, b: 102 },
            Theme::Stalker => Rgb { r: 153, g: 31, b: 35 },
            Theme::Baruuk => Rgb { r: 238, g: 193, b: 105 },
            Theme::Corpus => Rgb { r: 35, g: 201, b: 245 },
            Theme::Fortuna => Rgb { r: 57, g: 105, b: 192 },
            Theme::Grineer => Rgb { r: 255, g: 189, b: 102 },
            Theme::Lotus => Rgb { r: 36, g: 184, b: 242 },
            Theme::Nidus => Rgb { r: 140, g: 38, b: 92 },
            Theme::Orokin => Rgb { r: 20, g: 41, b: 29 },
            Theme::Tenno => Rgb { r: 9, g: 78, b: 106 },
            Theme::HighContrast => Rgb { r: 2, g: 127, b: 217 },
            Theme::Legacy => Rgb { r: 255, g: 255, b: 255 },
            Theme::Equinox => Rgb { r: 158, g: 159, b: 167 },
            Theme::DarkLotus => Rgb { r: 140, g: 119, b: 147 },
            Theme::Zephyr => Rgb { r: 253, g: 132, b: 2 },
        }
    }

    /// Squared distance of a pixel from the colour of the theme.
    pub open spec fn distance(self, p: Rgba) -> nat {
        color_distance(p, self.primary())
    }

    /// Every theme stands at its position in the list, and the list holds
    /// nothing else.
    pub proof fn lemma_ordinal(self)
        ensures
            self.ordinal() < THEME_COUNT,
            Theme::at(self.ordinal() as int) == self,
    {
    }

    /// Executable form of [`Theme::at`].
    pub fn from_ordinal(i: usize) -> (t: Theme)
        requires
            i < THEME_COUNT,
        ensures
            t == Theme::at(i as int),
            t.ordinal() == i,
    {
        if i == 0 {
            Theme::Vitruvian
        } else if i == 1 {
            Theme::Stalker
        } else if i == 2 {
            Theme::Baruuk
        } else if i == 3 {
            Theme::Corpus
        } else if i == 4 {
            Theme::Fortuna
        } else if i == 5 {
            Theme::Grineer
        } else if i == 6 {
            Theme::Lotus
        } else if i == 7 {
            Theme::Nidus
        } else if i == 8 {
            Theme::Orokin
        } else if i == 9 {
            Theme::Tenno
        } else if i == 10 {
            Theme::HighContrast
        } else if i == 11 {
            Theme::Legacy
        } else if i == 12 {
            Theme::Equinox
        } else if i == 13 {
            Theme::DarkLotus
        } else {
            Theme::Zephyr
        }
    }

    /// Executable form of [`Theme::primary`].
    pub fn primary_color(self) -> (c: Rgb)
        ensures
            c == self.primary(),
    {
        match self {
            Theme::Vitruvian => Rgb { r: 190, g: 169, b: 102 },
            Theme::Stalker => Rgb { r: 153, g: 31, b: 35 },
            Theme::Baruuk => Rgb { r: 238, g: 193, b: 105 },
            Theme::Corpus => Rgb { r: 35, g: 201, b: 245 },
            Theme::Fortuna => Rgb { r: 57, g: 105, b: 192 },
            Theme::Grineer => Rgb { r: 255, g: 189, b: 102 },
            Theme::Lotus => Rgb { r: 36, g: 184, b: 242 },
            Theme::Nidus => Rgb { r: 140, g: 38, b: 92 },
            Theme::Orokin => Rgb { r: 20, g: 41, b: 29 },
            Theme::Tenno => Rgb { r: 9, g: 78, b: 106 },
            Theme::HighContrast => Rgb { r: 2, g: 127, b: 217 },
            Theme::Legacy => Rgb { r: 255, g: 255, b: 255 },
            Theme::Equinox => Rgb { r: 158, g: 159, b: 167 },
            Theme::DarkLotus => Rgb { r: 140, g: 119, b: 147 },
            Theme::Zephyr => Rgb { r: 253, g: 132, b: 2 },
        }
    }

    /// Whether a pixel counts as part of a name drawn in this theme.
    pub open spec fn inks(self, p: Rgba) -> bool {
        self.distance(p) <= INK_TOLERANCE
    }

    /// Decides [`Theme::inks`].
    pub fn is_ink(self, p: Rgba) -> (r: bool)
        ensures
            r == self.inks(p),
    {
        distance_between(p, self.primary_color()) <= INK_TOLERANCE
    }
}

/// The squared difference of two samples.
fn gap_squared(x: u8, y: u8) -> (d: u32)
    ensures
        d == square(x - y),
        d <= 255 * 255,
{
    let wide: u32 = if x >= y {
        (x - y) as u32
    } else {
        (y - x) as u32
    };
    assert(wide * wide == (x - y) * (x - y) && wide * wide <= 255 * 255) by (nonlinear_arith)
        requires
            wide == x - y || wide == y - x,
            0 <= wide <= 255,
    ;
    wide * wide
}

/// Computes [`color_distance`].
pub fn distance_between(p: Rgba, c: Rgb) -> (d: u32)
    ensures
        d == color_distance(p, c),
        d <= 3 * 255 * 255,
{
    gap_squared(p.r, c.r) + gap_squared(p.g, c.g) + gap_squared(p.b, c.b)
}

/// The colour of `t` is nearest to the pixel among the colours of all themes,
/// and of the themes that are as near `t` is the first in the list.
pub open spec fn is_nearest(p: Rgba, t: Theme) -> bool {
    forall|u: Theme|
        t.distance(p) <= #[trigger] u.distance(p) && (u.ordinal() < t.ordinal() ==> t.distance(p)
            < u.distance(p))
}

/// The pixel speaks for theme `t`: the colour of `t` is the nearest, and it is
/// near enough.
pub open spec fn speaks_for(p: Rgba, t: Theme) -> bool {
    is_nearest(p, t) && t.distance(p) <= PALETTE_TOLERANCE
}

/// A pixel speaks for one theme at most.
pub proof fn lemma_one_voice(p: Rgba, t: Theme, u: Theme)
    requires
        speaks_for(p, t),
        speaks_for(p, u),
    ensures
        t == u,
{
    t.lemma_ordinal();
    u.lemma_ordinal();
}

/// The theme that a pixel speaks for, if it speaks for any.
pub fn classify(p: Rgba) -> (r: Option<Theme>)
    ensures
        match r {
            Some(t) => speaks_for(p, t),
            None => forall|u: Theme| !speaks_for(p, u),
        },
{
    let mut best: usize = 0;
    let mut least: u32 = distance_between(p, Theme::from_ordinal(0).primary_color());
    let mut i: usize = 1;
    while i < THEME_COUNT
        invariant
            1 <= i <= THEME_COUNT,
            best < i,
            least == Theme::at(best as int).distance(p),
            forall|k: int|
                0 <= k < i ==> least <= #[trigger] Theme::at(k).distance(p) && (k < best ==> least
                    < Theme::at(k).distance(p)),
        decreases THEME_COUNT - i,
    {
        let d = distance_between(p, Theme::from_ordinal(i).primary_color());
        if d < least {
            best = i;
            least = d;
        }
        i += 1;
    }
    let t = Theme::from_ordinal(best);
    assert forall|u: Theme|
        t.distance(p) <= #[trigger] u.distance(p) && (u.ordinal() < t.ordinal() ==> t.distance(p)
            < u.distance(p)) by {
        u.lemma_ordinal();
    }
    if least <= PALETTE_TOLERANCE {
        Some(t)
    } else {
        None
    }
}

/// How many pixels among the first `n` of a row, counted from column `left`,
/// speak for theme `t`.
pub open spec fn row_votes(picture: Raster, t: Theme, y: int, left: int, n: nat) -> nat
    decreases n,
{
    if n == 0 {
        0
    } else {
        row_votes(picture, t, y, left, (n - 1) as nat) + if speaks_for(
            picture.at(left + n - 1, y),
            t,
        ) {
            1nat
        } else {
            0nat
        }
    }
}

/// How many pixels in the first `n` rows of a rectangle speak for theme `t`.
pub open spec fn area_votes(picture: Raster, t: Theme, left: int, top: int, width: nat, n: nat) -> nat
    decreases n,
{
    if n == 0 {
        0
    } else {
        area_votes(picture, t, left, top, width, (n - 1) as nat) + row_votes(
            picture,
            t,
            top + n - 1,
            left,
            width,
        )
    }
}

/// How many pixels of the band of names speak for theme `t`.
pub open spec fn votes(picture: Raster, t: Theme) -> nat {
    area_votes(
        picture,
        t,
        band_left(picture.width, picture.height) as int,
        band_top(picture.width, picture.height) as int,
        band_width(picture.width, picture.height),
        band_height(picture.width, picture.height),
    )
}

/// Theme `t` is the one detected in the picture: no theme has more pixels
/// speaking for it, and of the themes with as many `t` is the first in the
/// list.
pub open spec fn is_detected(picture: Raster, t: Theme) -> bool {
    forall|u: Theme|
        #[trigger] votes(picture, u) <= votes(picture, t) && (u.ordinal() < t.ordinal() ==> votes(
            picture,
            u,
        ) < votes(picture, t))
}

/// No pixel of the band of names is close to the colour of any theme.
pub open spec fn is_themeless(picture: Raster) -> bool {
    forall|x: int, y: int|
        band_left(picture.width, picture.height) <= x < band_left(picture.width, picture.height)
            + band_width(picture.width, picture.height) && band_top(picture.width, picture.height)
            <= y < band_top(picture.width, picture.height) + band_height(
            picture.width,
            picture.height,
        ) ==> forall|u: Theme| u.distance(#[trigger] picture.at(x, y)) > PALETTE_TOLERANCE
}

/// Every pixel of the picture is black.
pub open spec fn is_black(picture: Raster) -> bool {
    forall|x: int, y: int|
        picture.contains(x, y) ==> {
            let p = #[trigger] picture.at(x, y);
            p.r == 0 && p.g == 0 && p.b == 0
        }
}

/// Only one theme is the one detected in a picture.
pub proof fn lemma_detected_unique(picture: Raster, t: Theme, u: Theme)
    requires
        is_detected(picture, t),
        is_detected(picture, u),
    ensures
        t == u,
{
    t.lemma_ordinal();
    u.lemma_ordinal();
    assert(votes(picture, t) <= votes(picture, u));
}

/// Pixels that are far from the colours of all themes give no votes.
proof fn lemma_no_votes(picture: Raster, t: Theme, left: int, top: int, width: nat, n: nat)
    requires
        forall|x: int, y: int|
            left <= x < left + width && top <= y < top + n ==> t.distance(
                #[trigger] picture.at(x, y),
            ) > PALETTE_TOLERANCE,
    ensures
        area_votes(picture, t, left, top, width, n) == 0,
    decreases n,
{
    if n > 0 {
        lemma_no_votes(picture, t, left, top, width, (n - 1) as nat);
        lemma_no_row_votes(picture, t, top + n - 1, left, width);
    }
}

/// Pixels of a row that are far from the colours of all themes give no votes.
proof fn lemma_no_row_votes(picture: Raster, t: Theme, y: int, left: int, n: nat)
    requires
        forall|x: int|
            left <= x < left + n ==> t.distance(#[trigger] picture.at(x, y)) > PALETTE_TOLERANCE,
    ensures
        row_votes(picture, t, y, left, n) == 0,
    decreases n,
{
    if n > 0 {
        lemma_no_row_votes(picture, t, y, left, (n - 1) as nat);
    }
}

/// Where no pixel of the band of names is close to the colour of any theme,
/// the theme detected is the fallback.
pub proof fn lemma_themeless_gives_fallback(picture: Raster, t: Theme)
    requires
        is_themeless(picture),
        is_detected(picture, t),
    ensures
        t == Theme::fallback(),
{
    assert forall|u: Theme| votes(picture, u) == 0 by {
        lemma_no_votes(
            picture,
            u,
            band_left(picture.width, picture.height) as int,
            band_top(picture.width, picture.height) as int,
            band_width(picture.width, picture.height),
            band_height(picture.width, picture.height),
        );
    }
    assert(votes(picture, Theme::fallback()) <= votes(picture, t));
}

/// In a black picture the theme detected is the fallback.
pub proof fn lemma_black_gives_fallback(picture: Raster, t: Theme)
    requires
        picture.wf(),
        is_black(picture),
        is_detected(picture, t),
    ensures
        t == Theme::fallback(),
{
    lemma_band_inside(picture.width, picture.height);
    assert forall|x: int, y: int|
        band_left(picture.width, picture.height) <= x < band_left(picture.width, picture.height)
            + band_width(picture.width, picture.height) && band_top(picture.width, picture.height)
            <= y < band_top(picture.width, picture.height) + band_height(
            picture.width,
            picture.height,
        ) implies forall|u: Theme| u.distance(#[trigger] picture.at(x, y)) > PALETTE_TOLERANCE by {
        let p = picture.at(x, y);
        assert forall|u: Theme| u.distance(p) > PALETTE_TOLERANCE by {
            lemma_far_from_black(p, u);
        }
    }
    lemma_themeless_gives_fallback(picture, t);
}

/// Black is far from the colour of every theme.
proof fn lemma_far_from_black(p: Rgba, u: Theme)
    requires
        p.r == 0 && p.g == 0 && p.b == 0,
    ensures
        u.distance(p) > PALETTE_TOLERANCE,
{
    let c = u.primary();
    assert(square(0 - c.r) + square(0 - c.g) + square(0 - c.b) > 900) by {
        assert(square(0 - c.g) == c.g * c.g) by (nonlinear_arith);
        assert(c.g * c.g >= 31 * 31) by (nonlinear_arith)
            requires
                c.g >= 31,
        ;
    }
}

/// Detects the theme in use from the pixels of the band of names. Where no
/// pixel speaks for any theme, as in a black or an empty frame, the theme is
/// the fallback.
pub fn detect_theme(frame: &Frame) -> (t: Theme)
    requires
        frame.wf(),
    ensures
        is_detected(frame@, t),
        is_themeless(frame@) ==> t == Theme::fallback(),
{
    let band = label_band(frame.width(), frame.height());
    let ghost picture = frame@;
    let ghost left = band.left as int;
    let ghost top = band.top as int;
    let ghost width = band.width as nat;
    proof {
        frame.lemma_view_wf();
    }
    let mut counts: Vec<u64> = Vec::new();
    let mut k: usize = 0;
    while k < THEME_COUNT
        invariant
            k <= THEME_COUNT,
            counts.len() == k,
            forall|i: int| 0 <= i < k ==> counts[i] == 0,
        decreases THEME_COUNT - k,
    {
        counts.push(0);
        k += 1;
    }
    let mut j: u32 = 0;
    while j < band.height
        invariant
            frame.wf(),
            picture == frame@,
            left == band.left,
            top == band.top,
            width == band.width,
            band.left + band.width <= picture.width <= u32::MAX,
            band.top + band.height <= picture.height <= u32::MAX,
            j <= band.height,
            counts.len() == THEME_COUNT,
            forall|i: int|
                0 <= i < THEME_COUNT ==> #[trigger] counts[i] == area_votes(
                    picture,
                    Theme::at(i),
                    left,
                    top,
                    width,
                    j as nat,
                ),
            forall|i: int| 0 <= i < THEME_COUNT ==> #[trigger] counts[i] <= j * band.width,
        decreases band.height - j,
    {
        let mut i: u32 = 0;
        while i < band.width
            invariant
                frame.wf(),
                picture == frame@,
                left == band.left,
                top == band.top,
                width == band.width,
                band.left + band.width <= picture.width <= u32::MAX,
                band.top + band.height <= picture.height <= u32::MAX,
                j < band.height,
                i <= band.width,
                counts.len() == THEME_COUNT,
                forall|s: int|
                    0 <= s < THEME_COUNT ==> #[trigger] counts[s] == area_votes(
                        picture,
                        Theme::at(s),
                        left,
                        top,
                        width,
                        j as nat,
                    ) + row_votes(picture, Theme::at(s), top + j, left, i as nat),
                forall|s: int| 0 <= s < THEME_COUNT ==> #[trigger] counts[s] <= j * band.width + i,
            decreases band.width - i,
        {
            let p = frame.pixel(band.left + i, band.top + j);
            let voice = classify(p);
            proof {
                assert(j * band.width + i < 0xFFFF_FFFF * 0xFFFF_FFFF) by (nonlinear_arith)
                    requires
                        0 <= j < band.height <= 0xFFFF_FFFF,
                        0 <= i < band.width <= 0xFFFF_FFFF,
                ;
            }
            match voice {
                Some(t) => {
                    proof {
                        t.lemma_ordinal();
                        assert forall|s: int|
                            0 <= s < THEME_COUNT && s != t.ordinal() implies !speaks_for(
                            p,
                            Theme::at(s),
                        ) by {
                            if speaks_for(p, Theme::at(s)) {
                                lemma_one_voice(p, t, Theme::at(s));
                            }
                        }
                    }
                    let at: usize = ordinal_of(t);
                    let raised: u64 = counts[at] + 1;
                    counts.set(at, raised);
                },
                None => {},
            }
            i += 1;
        }
        proof {
            assert((j + 1) * band.width == j * band.width + band.width) by (nonlinear_arith);
        }
        j += 1;
    }
    let mut best: usize = 0;
    let mut s: usize = 1;
    while s < THEME_COUNT
        invariant
            1 <= s <= THEME_COUNT,
            best < s,
            counts.len() == THEME_COUNT,
            forall|i: int|
                0 <= i < s ==> #[trigger] counts[i] <= counts[best as int] && (i < best
                    ==> counts[i] < counts[best as int]),
        decreases THEME_COUNT - s,
    {
        if counts[s] > counts[best] {
            best = s;
        }
        s += 1;
    }
    let t = Theme::from_ordinal(best);
    proof {
        assert forall|u: Theme|
            #[trigger] votes(picture, u) <= votes(picture, t) && (u.ordinal() < t.ordinal()
                ==> votes(picture, u) < votes(picture, t)) by {
            u.lemma_ordinal();
            let i = u.ordinal() as int;
            assert(counts[i] == votes(picture, Theme::at(i)));
        }
        if is_themeless(picture) {
            lemma_themeless_gives_fallback(picture, t);
        }
    }
    t
}

/// Executable form of [`Theme::ordinal`].
pub fn ordinal_of(t: Theme) -> (i: usize)
    ensures
        i == t.ordinal(),
        i < THEME_COUNT,
{
    match t {
        Theme::Vitruvian => 0,
        Theme::Stalker => 1,
        Theme::Baruuk => 2,
        Theme::Corpus => 3,
        Theme::Fortuna => 4,
        Theme::Grineer => 5,
        Theme::Lotus => 6,
        Theme::Nidus => 7,
        Theme::Orokin => 8,
        Theme::Tenno => 9,
        Theme::HighContrast => 10,
        Theme::Legacy => 11,
        Theme::Equinox => 12,
        Theme::DarkLotus => 13,
        Theme::Zephyr => 14,
    }
}

} // verus!
