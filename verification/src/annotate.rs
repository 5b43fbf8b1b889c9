//! A mark on the frame that shows what was read: a line under the names.

use crate::frame::{Frame, Raster, Rgba};
use crate::screen::RewardPart;
use vstd::prelude::*;

verus! {

/// Where the line begins and ends when there is no reward to underline.
pub const DEFAULT_COLUMN: u64 = 50;

/// The row of the line when there is no reward to underline.
pub const DEFAULT_ROW: u64 = 500;

/// A line of one row, from column `from` up to but without column `to`.
#[derive(Clone, Copy, Debug, PartialEq, Eq, Structural)]
pub struct Underline {
    pub from: u64,
    pub to: u64,
    pub row: u64,
}

/// The colour of the line.
pub open spec fn mark() -> Rgba {
    Rgba { r: 0, g: 255, b: 0, a: 255 }
}

/// The column just right of a part.
pub open spec fn right_edge(part: RewardPart) -> int {
    part.position.0 + part.image@.width
}

/// The row just below a part.
pub open spec fn bottom_edge(part: RewardPart) -> int {
    part.position.1 + part.image@.height
}

/// The line runs from the leftmost column of the parts to their rightmost
/// edge, in the row just below the lowest of them. Without parts it is the
/// empty line at the default place.
pub open spec fn is_underline_of(parts: Seq<RewardPart>, line: Underline) -> bool {
    if parts.len() == 0 {
        line.from == DEFAULT_COLUMN && line.to == DEFAULT_COLUMN && line.row == DEFAULT_ROW
    } else {
        &&& exists|k: int| 0 <= k < parts.len() && line.from == (#[trigger] parts[k]).position.0
        &&& forall|k: int| 0 <= k < parts.len() ==> line.from <= (#[trigger] parts[k]).position.0
        &&& exists|k: int| 0 <= k < parts.len() && line.to == right_edge(#[trigger] parts[k])
        &&& forall|k: int| 0 <= k < parts.len() ==> right_edge(#[trigger] parts[k]) <= line.to
        &&& exists|k: int| 0 <= k < parts.len() && line.row == bottom_edge(#[trigger] parts[k])
        &&& forall|k: int| 0 <= k < parts.len() ==> bottom_edge(#[trigger] parts[k]) <= line.row
    }
}

/// Whether the line covers column `x` of row `y`.
pub open spec fn covers(line: Underline, x: int, y: int) -> bool {
    y == line.row && line.from <= x < line.to
}

/// The picture with the line drawn on it. What of the line lies outside the
/// picture is left out.
pub open spec fn underlined(picture: Raster, line: Underline) -> Raster {
    Raster {
        width: picture.width,
        height: picture.height,
        rows: Seq::new(
            picture.height,
            |y: int|
                Seq::new(
                    picture.width,
                    |x: int|
                        if covers(line, x, y) {
                            mark()
                        } else {
                            picture.at(x, y)
                        },
                ),
        ),
    }
}

/// Finds the line that underlines the parts.
pub fn underline_of(parts: &Vec<RewardPart>) -> (line: Underline)
    requires
        forall|k: int| 0 <= k < parts.len() ==> (#[trigger] parts[k]).image.wf(),
    ensures
        is_underline_of(parts@, line),
{
    if parts.len() == 0 {
        return Underline { from: DEFAULT_COLUMN, to: DEFAULT_COLUMN, row: DEFAULT_ROW };
    }
    proof {
        parts[0].image.lemma_view_wf();
    }
    let mut from: u64 = parts[0].position.0 as u64;
    let mut to: u64 = parts[0].position.0 as u64 + parts[0].image.width() as u64;
    let mut row: u64 = parts[0].position.1 as u64 + parts[0].image.height() as u64;
    let mut i: usize = 1;
    while i < parts.len()
        invariant
            1 <= i <= parts.len(),
            forall|k: int| 0 <= k < parts.len() ==> (#[trigger] parts[k]).image.wf(),
            exists|k: int| 0 <= k < i && from == (#[trigger] parts[k]).position.0,
            forall|k: int| 0 <= k < i ==> from <= (#[trigger] parts[k]).position.0,
            exists|k: int| 0 <= k < i && to == right_edge(#[trigger] parts[k]),
            forall|k: int| 0 <= k < i ==> right_edge(#[trigger] parts[k]) <= to,
            exists|k: int| 0 <= k < i && row == bottom_edge(#[trigger] parts[k]),
            forall|k: int| 0 <= k < i ==> bottom_edge(#[trigger] parts[k]) <= row,
        decreases parts.len() - i,
    {
        proof {
            parts[i as int].image.lemma_view_wf();
        }
        let left: u64 = parts[i].position.0 as u64;
        let right: u64 = left + parts[i].image.width() as u64;
        let bottom: u64 = parts[i].position.1 as u64 + parts[i].image.height() as u64;
        if left < from {
            from = left;
        }
        if right > to {
            to = right;
        }
        if bottom > row {
            row = bottom;
        }
        i += 1;
    }
    Underline { from, to, row }
}

/// Draws the line on the frame.
pub fn draw_underline(frame: &mut Frame, line: Underline)
    requires
        old(frame).wf(),
    ensures
        final(frame).wf(),
        final(frame)@ == underlined(old(frame)@, line),
{
    let width = frame.width();
    let height = frame.height();
    let ghost before = frame@;
    proof {
        frame.lemma_view_wf();
    }
    if line.row < height as u64 && line.from < line.to && line.from < width as u64 {
        let y: u32 = line.row as u32;
        let end: u32 = if line.to < width as u64 {
            line.to as u32
        } else {
            width
        };
        let mut x: u32 = line.from as u32;
        while x < end
            invariant
                frame.wf(),
                frame@.wf(),
                before.wf(),
                frame@.width == before.width == width,
                frame@.height == before.height == height,
                y == line.row < height,
                line.from <= x <= end <= width,
                end == line.to || (end == width && line.to >= width),
                forall|i: int, j: int|
                    0 <= i < width && 0 <= j < height ==> #[trigger] frame@.at(i, j) == if j == y
                        && line.from <= i < x {
                        mark()
                    } else {
                        before.at(i, j)
                    },
            decreases end - x,
        {
            let ghost earlier = frame@;
            frame.put_pixel(x, y, Rgba { r: 0, g: 255, b: 0, a: 255 });
            proof {
                frame.lemma_view_wf();
                assert forall|i: int, j: int| 0 <= i < width && 0 <= j < height implies #[trigger] frame@.at(
                    i,
                    j,
                ) == if j == y && line.from <= i < x + 1 {
                    mark()
                } else {
                    before.at(i, j)
                } by {
                    assert(earlier.at(i, j) == if j == y && line.from <= i < x {
                        mark()
                    } else {
                        before.at(i, j)
                    });
                }
            }
            x += 1;
        }
    }
    proof {
        frame.lemma_view_wf();
        let target = underlined(before, line);
        assert forall|j: int| 0 <= j < height implies frame@.rows[j] =~= target.rows[j] by {
            assert forall|i: int| 0 <= i < width implies frame@.rows[j][i] == target.rows[j][i] by {
                assert(frame@.at(i, j) == frame@.rows[j][i]);
            }
        }
        assert(frame@.rows =~= target.rows);
    }
}

} // verus!
