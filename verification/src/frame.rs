//! Captured frames: a rectangle of RGBA pixels.

use vstd::prelude::*;

verus! {

/// One pixel: red, green, blue and opacity.
#[derive(Clone, Copy, Debug, PartialEq, Eq, Structural)]
pub struct Rgba {
    pub r: u8,
    pub g: u8,
    pub b: u8,
    pub a: u8,
}

/// Number of bytes that one pixel takes in a buffer of RGBA samples.
pub const BYTES_PER_PIXEL: usize = 4;

/// A picture as contracts see it: `height` rows of `width` pixels each.
pub struct Raster {
    pub width: nat,
    pub height: nat,
    pub rows: Seq<Seq<Rgba>>,
}

impl Raster {
    /// There are `height` rows and each holds `width` pixels.
    pub open spec fn wf(self) -> bool {
        &&& self.rows.len() == self.height
        &&& forall|y: int| 0 <= y < self.height ==> (#[trigger] self.rows[y]).len() == self.width
    }

    /// Whether column `x` of row `y` lies in the picture.
    pub open spec fn contains(self, x: int, y: int) -> bool {
        0 <= x < self.width && 0 <= y < self.height
    }

    /// Whether the rectangle with corner `(x, y)` and the given size lies in
    /// the picture.
    pub open spec fn covers(self, x: int, y: int, width: int, height: int) -> bool {
        &&& 0 <= x && 0 <= width && x + width <= self.width
        &&& 0 <= y && 0 <= height && y + height <= self.height
    }

    /// The pixel in column `x` of row `y`.
    pub open spec fn at(self, x: int, y: int) -> Rgba {
        self.rows[y][x]
    }

    /// The part of the picture inside the rectangle with corner `(x, y)`.
    pub open spec fn crop(self, x: int, y: int, width: nat, height: nat) -> Raster {
        Raster {
            width,
            height,
            rows: Seq::new(height, |j: int| Seq::new(width, |i: int| self.at(x + i, y + j))),
        }
    }

    /// The picture with one pixel replaced.
    pub open spec fn with_pixel(self, x: int, y: int, color: Rgba) -> Raster {
        Raster {
            width: self.width,
            height: self.height,
            rows: self.rows.update(y, self.rows[y].update(x, color)),
        }
    }
}

/// The pixel in column `x` of row `y` in a buffer of RGBA samples that holds
/// rows of `width` pixels one after the other.
pub open spec fn pixel_in(data: Seq<u8>, width: nat, x: int, y: int) -> Rgba {
    let k = BYTES_PER_PIXEL * (y * width + x);
    Rgba { r: data[k], g: data[k + 1], b: data[k + 2], a: data[k + 3] }
}

/// The picture that a buffer of RGBA samples holds.
pub open spec fn raster_of(width: nat, height: nat, data: Seq<u8>) -> Raster {
    Raster {
        width,
        height,
        rows: Seq::new(height, |y: int| Seq::new(width, |x: int| pixel_in(data, width, x, y))),
    }
}

/// Where the samples of a pixel begin in a buffer, and that they lie in it.
proof fn lemma_offset(width: nat, height: nat, x: nat, y: nat)
    requires
        x < width,
        y < height,
    ensures
        y * width + x < width * height,
        BYTES_PER_PIXEL * (y * width + x) + BYTES_PER_PIXEL <= BYTES_PER_PIXEL * width * height,
        (y + 1) * width == y * width + width,
{
    assert(y * width + x < width * height) by (nonlinear_arith)
        requires
            x < width,
            y < height,
    ;
    assert((y + 1) * width == y * width + width) by (nonlinear_arith);
    assert(4 * (y * width + x) + 4 <= 4 * width * height) by (nonlinear_arith)
        requires
            y * width + x < width * height,
    ;
}

/// One captured frame or a piece cut from one.
pub struct Frame {
    width: u32,
    height: u32,
    rows: Vec<Vec<Rgba>>,
}

impl View for Frame {
    type V = Raster;

    closed spec fn view(&self) -> Raster {
        Raster {
            width: self.width as nat,
            height: self.height as nat,
            rows: Seq::new(self.rows.len() as nat, |y: int| self.rows[y]@),
        }
    }
}

impl Frame {
    /// The frame holds as many rows and columns as it says, and no more
    /// pixels than a buffer of samples can hold.
    pub closed spec fn wf(&self) -> bool {
        &&& self.rows.len() == self.height
        &&& forall|y: int| 0 <= y < self.height ==> (#[trigger] self.rows[y]).len() == self.width
        &&& BYTES_PER_PIXEL * self.width * self.height <= usize::MAX
    }

    /// A well-formed frame shows a well-formed picture, of a size that fits in
    /// 32 bits each way.
    pub proof fn lemma_view_wf(&self)
        requires
            self.wf(),
        ensures
            self@.wf(),
            self@.width <= u32::MAX,
            self@.height <= u32::MAX,
    {
    }

    /// Makes a frame of a buffer of RGBA samples, four bytes to the pixel, rows
    /// one after the other. Gives nothing when the buffer's length is not that
    /// of `width` times `height` pixels.
    pub fn from_rgba(width: u32, height: u32, data: &Vec<u8>) -> (r: Option<Frame>)
        ensures
            r is Some <==> data.len() == BYTES_PER_PIXEL * width * height,
            r matches Some(frame) ==> frame.wf() && frame@ == raster_of(
                width as nat,
                height as nat,
                data@,
            ),
    {
        assert(width * height <= 0xFFFF_FFFF * 0xFFFF_FFFF) by (nonlinear_arith)
            requires
                width <= 0xFFFF_FFFF,
                height <= 0xFFFF_FFFF,
        ;
        let area: u128 = (width as u128) * (height as u128);
        let wanted: u128 = 4 * area;
        assert(wanted == 4 * width * height) by (nonlinear_arith)
            requires
                wanted == 4 * (width * height),
        ;
        if data.len() as u128 != wanted {
            return None;
        }
        let mut rows: Vec<Vec<Rgba>> = Vec::new();
        let mut k: usize = 0;
        let mut y: u32 = 0;
        while y < height
            invariant
                data.len() == 4 * width * height,
                y <= height,
                k == 4 * (y * width),
                rows.len() == y,
                forall|j: int| 0 <= j < y ==> (#[trigger] rows[j]).len() == width,
                forall|j: int, i: int|
                    0 <= j < y && 0 <= i < width ==> #[trigger] rows[j][i] == pixel_in(
                        data@,
                        width as nat,
                        i,
                        j,
                    ),
            decreases height - y,
        {
            let mut row: Vec<Rgba> = Vec::new();
            let mut x: u32 = 0;
            while x < width
                invariant
                    data.len() == 4 * width * height,
                    y < height,
                    x <= width,
                    k == 4 * (y * width + x),
                    row.len() == x,
                    forall|i: int|
                        0 <= i < x ==> #[trigger] row[i] == pixel_in(data@, width as nat, i, y as int),
                decreases width - x,
            {
                proof {
                    lemma_offset(width as nat, height as nat, x as nat, y as nat);
                }
                row.push(Rgba { r: data[k], g: data[k + 1], b: data[k + 2], a: data[k + 3] });
                k += 4;
                x += 1;
            }
            proof {
                if width > 0 {
                    lemma_offset(width as nat, height as nat, 0, y as nat);
                } else {
                    assert((y + 1) * width == y * width + width) by (nonlinear_arith)
                        requires
                            width == 0,
                    ;
                }
            }
            rows.push(row);
            y += 1;
        }
        let frame = Frame { width, height, rows };
        proof {
            let target = raster_of(width as nat, height as nat, data@);
            assert forall|j: int| 0 <= j < height implies frame@.rows[j] =~= target.rows[j] by {}
            assert(frame@.rows =~= target.rows);
        }
        Some(frame)
    }

    /// Number of columns.
    pub fn width(&self) -> (w: u32)
        ensures
            w == self@.width,
    {
        self.width
    }

    /// Number of rows.
    pub fn height(&self) -> (h: u32)
        ensures
            h == self@.height,
    {
        self.height
    }

    /// The pixel in column `x` of row `y`.
    pub fn pixel(&self, x: u32, y: u32) -> (p: Rgba)
        requires
            self.wf(),
            self@.contains(x as int, y as int),
        ensures
            p == self@.at(x as int, y as int),
    {
        self.rows[y as usize][x as usize]
    }

    /// Replaces the pixel in column `x` of row `y`.
    pub fn put_pixel(&mut self, x: u32, y: u32, color: Rgba)
        requires
            old(self).wf(),
            old(self)@.contains(x as int, y as int),
        ensures
            final(self).wf(),
            final(self)@ == old(self)@.with_pixel(x as int, y as int, color),
    {
        self.rows[y as usize][x as usize] = color;
        proof {
            let target = old(self)@.with_pixel(x as int, y as int, color);
            assert(self@.rows =~= target.rows);
        }
    }

    /// Cuts out the rectangle with corner `(x, y)` and the given size.
    pub fn crop(&self, x: u32, y: u32, width: u32, height: u32) -> (piece: Frame)
        requires
            self.wf(),
            self@.covers(x as int, y as int, width as int, height as int),
        ensures
            piece.wf(),
            piece@ == self@.crop(x as int, y as int, width as nat, height as nat),
    {
        proof {
            assert(4 * width * height <= 4 * self.width * self.height) by (nonlinear_arith)
                requires
                    0 <= width <= self.width,
                    0 <= height <= self.height,
            ;
        }
        let mut rows: Vec<Vec<Rgba>> = Vec::new();
        let mut j: u32 = 0;
        while j < height
            invariant
                self.wf(),
                self@.covers(x as int, y as int, width as int, height as int),
                j <= height,
                rows.len() == j,
                forall|t: int| 0 <= t < j ==> (#[trigger] rows[t]).len() == width,
                forall|t: int, i: int|
                    0 <= t < j && 0 <= i < width ==> #[trigger] rows[t][i] == self@.at(
                        x + i,
                        y + t,
                    ),
            decreases height - j,
        {
            let mut row: Vec<Rgba> = Vec::new();
            let mut i: u32 = 0;
            while i < width
                invariant
                    self.wf(),
                    self@.covers(x as int, y as int, width as int, height as int),
                    j < height,
                    i <= width,
                    row.len() == i,
                    forall|s: int| 0 <= s < i ==> #[trigger] row[s] == self@.at(x + s, y + j),
                decreases width - i,
            {
                row.push(self.rows[(y + j) as usize][(x + i) as usize]);
                i += 1;
            }
            rows.push(row);
            j += 1;
        }
        let piece = Frame { width, height, rows };
        proof {
            let target = self@.crop(x as int, y as int, width as nat, height as nat);
            assert forall|t: int| 0 <= t < height implies piece@.rows[t] =~= target.rows[t] by {}
            assert(piece@.rows =~= target.rows);
        }
        piece
    }

    /// The frame as a buffer of RGBA samples, four bytes to the pixel, rows one
    /// after the other.
    pub fn to_rgba(&self) -> (data: Vec<u8>)
        requires
            self.wf(),
        ensures
            data.len() == BYTES_PER_PIXEL * self@.width * self@.height,
            raster_of(self@.width, self@.height, data@) == self@,
    {
        let mut data: Vec<u8> = Vec::new();
        let mut y: u32 = 0;
        while y < self.height
            invariant
                self.wf(),
                4 * self.width * self.height <= usize::MAX,
                y <= self.height,
                data.len() == 4 * (y * self.width),
                forall|j: int, i: int|
                    0 <= j < y && 0 <= i < self.width ==> pixel_in(data@, self.width as nat, i, j)
                        == #[trigger] self@.at(i, j),
            decreases self.height - y,
        {
            let mut x: u32 = 0;
            while x < self.width
                invariant
                    self.wf(),
                    4 * self.width * self.height <= usize::MAX,
                    y < self.height,
                    x <= self.width,
                    data.len() == 4 * (y * self.width + x),
                    forall|j: int, i: int|
                        0 <= j < y && 0 <= i < self.width ==> pixel_in(
                            data@,
                            self.width as nat,
                            i,
                            j,
                        ) == #[trigger] self@.at(i, j),
                    forall|i: int|
                        0 <= i < x ==> pixel_in(data@, self.width as nat, i, y as int)
                            == #[trigger] self@.at(i, y as int),
                decreases self.width - x,
            {
                let p = self.rows[y as usize][x as usize];
                let ghost before = data@;
                data.push(p.r);
                data.push(p.g);
                data.push(p.b);
                data.push(p.a);
                proof {
                    let w = self.width as nat;
                    assert forall|j: int, i: int|
                        (0 <= j < y && 0 <= i < self.width) || (j == y && 0 <= i < x) implies pixel_in(
                        data@,
                        w,
                        i,
                        j,
                    ) == pixel_in(before, w, i, j) by {
                        if j < y {
                            lemma_offset(w, y as nat, i as nat, j as nat);
                            assert(4 * (j * w + i) + 4 <= 4 * (w * y)) by (nonlinear_arith)
                                requires
                                    4 * (j * w + i) + 4 <= 4 * w * y,
                            ;
                            assert(w * y == y * w) by (nonlinear_arith);
                        }
                    }
                }
                x += 1;
            }
            proof {
                if self.width > 0 {
                    lemma_offset(self.width as nat, self.height as nat, 0, y as nat);
                } else {
                    assert((y + 1) * self.width == y * self.width + self.width)
                        by (nonlinear_arith)
                        requires
                            self.width == 0,
                    ;
                }
            }
            y += 1;
        }
        proof {
            let target = raster_of(self@.width, self@.height, data@);
            assert(4 * (self.height * self.width) == 4 * self.width * self.height)
                by (nonlinear_arith);
            assert forall|j: int| 0 <= j < self.height implies target.rows[j] =~= self@.rows[j] by {
                assert forall|i: int| 0 <= i < self.width implies target.rows[j][i] == self@.rows[j][i] by {
                    assert(pixel_in(data@, self.width as nat, i, j) == self@.at(i, j));
                }
            }
            assert(target.rows =~= self@.rows);
        }
        data
    }
}

} // verus!
