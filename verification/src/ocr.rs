//! What goes to the text recogniser and what comes back from it.
//!
//! The recogniser itself is not part of this library. It is handed the pixels
//! of one reward's name as rows of three-byte samples, and what it answers is
//! handed back as an [`OcrOutcome`].

use crate::frame::{Frame, Raster};
use vstd::prelude::*;

verus! {

/// Number of bytes that one pixel takes in what the recogniser is handed.
pub const SAMPLES_PER_PIXEL: i32 = 3;

/// A picture as the recogniser takes it: red, green and blue samples, rows
/// one after the other, with the geometry as 32-bit signed numbers.
pub struct OcrInput {
    pub samples: Vec<u8>,
    pub width: i32,
    pub height: i32,
    pub bytes_per_pixel: i32,
    pub bytes_per_line: i32,
}

/// What came of asking the recogniser for the text of one reward.
pub enum OcrOutcome {
    /// The recogniser answered with this text, which may be empty or wrong.
    Text(String),
    /// The recogniser reported an error.
    EngineFailure,
    /// The recogniser did not answer in the time allowed.
    TimedOut,
}

/// The text that an outcome stands for: what the recogniser answered, and
/// nothing where it failed.
pub open spec fn outcome_text(outcome: OcrOutcome) -> Seq<char> {
    match outcome {
        OcrOutcome::Text(text) => text@,
        OcrOutcome::EngineFailure => Seq::empty(),
        OcrOutcome::TimedOut => Seq::empty(),
    }
}

/// Executable form of [`outcome_text`].
pub fn text_of(outcome: OcrOutcome) -> (text: String)
    ensures
        text@ == outcome_text(outcome),
{
    match outcome {
        OcrOutcome::Text(text) => text,
        OcrOutcome::EngineFailure => String::new(),
        OcrOutcome::TimedOut => String::new(),
    }
}

/// Whether a picture can be described to the recogniser: the length of a row
/// in bytes and the number of rows both fit a 32-bit signed number.
pub open spec fn fits_recogniser(picture: Raster) -> bool {
    SAMPLES_PER_PIXEL * picture.width <= i32::MAX && picture.height <= i32::MAX
}

/// The samples hold the colours of the picture, three bytes to the pixel.
pub open spec fn holds_colors(samples: Seq<u8>, picture: Raster) -> bool {
    &&& samples.len() == SAMPLES_PER_PIXEL * picture.width * picture.height
    &&& forall|x: int, y: int|
        picture.contains(x, y) ==> {
            let k = SAMPLES_PER_PIXEL * (y * picture.width + x);
            let p = #[trigger] picture.at(x, y);
            samples[k] == p.r && samples[k + 1] == p.g && samples[k + 2] == p.b
        }
}

/// The input describes the picture to the recogniser: its colours, its size,
/// three bytes to the pixel and rows without padding.
pub open spec fn describes(input: OcrInput, picture: Raster) -> bool {
    &&& input.width == picture.width
    &&& input.height == picture.height
    &&& input.bytes_per_pixel == SAMPLES_PER_PIXEL
    &&& input.bytes_per_line == SAMPLES_PER_PIXEL * picture.width
    &&& holds_colors(input.samples@, picture)
}

/// The text is what the recogniser answered when it was handed the picture,
/// or nothing where it failed. For a picture that the recogniser cannot be
/// handed the text is nothing.
pub open spec fn is_reading<F: Fn(&OcrInput) -> OcrOutcome>(
    recognise: F,
    picture: Raster,
    text: Seq<char>,
) -> bool {
    if fits_recogniser(picture) {
        exists|input: OcrInput, outcome: OcrOutcome|
            describes(input, picture) && #[trigger] call_ensures(recognise, (&input,), outcome)
                && text == outcome_text(outcome)
    } else {
        text == Seq::<char>::empty()
    }
}

/// Where the samples of a pixel begin, and that they lie in the buffer.
proof fn lemma_sample_offset(width: nat, height: nat, x: nat, y: nat)
    requires
        x < width,
        y < height,
    ensures
        3 * (y * width + x) + 3 <= 3 * width * height,
        3 * width * height <= 4 * width * height,
        (y + 1) * width == y * width + width,
        3 * (y * width) + 3 * width <= 3 * width * height,
{
    assert(y * width + x < width * height) by (nonlinear_arith)
        requires
            x < width,
            y < height,
    ;
    assert((y + 1) * width == y * width + width) by (nonlinear_arith);
    assert(3 * (y * width + x) + 3 <= 3 * width * height) by (nonlinear_arith)
        requires
            y * width + x < width * height,
    ;
    assert(3 * width * height <= 4 * width * height) by (nonlinear_arith);
    assert(3 * (y * width) + 3 * width <= 3 * width * height) by (nonlinear_arith)
        requires
            y < height,
    ;
}

/// Prepares a picture for the recogniser. Gives nothing for a picture whose
/// geometry the recogniser cannot be told.
pub fn ocr_input(image: &Frame) -> (r: Option<OcrInput>)
    requires
        image.wf(),
    ensures
        r is Some <==> fits_recogniser(image@),
        r matches Some(input) ==> describes(input, image@),
{
    let width = image.width();
    let height = image.height();
    if width > 715827882 || height > 2147483647 {
        return None;
    }
    let ghost picture = image@;
    let ghost w = width as nat;
    let mut samples: Vec<u8> = Vec::new();
    let mut y: u32 = 0;
    while y < height
        invariant
            image.wf(),
            picture == image@,
            w == width == picture.width,
            height == picture.height,
            y <= height,
            samples.len() == 3 * (y * w),
            forall|i: int, j: int|
                0 <= i < w && 0 <= j < y ==> {
                    let k = 3 * (j * w + i);
                    let p = #[trigger] picture.at(i, j);
                    samples[k] == p.r && samples[k + 1] == p.g && samples[k + 2] == p.b
                },
        decreases height - y,
    {
        let mut x: u32 = 0;
        while x < width
            invariant
                image.wf(),
                picture == image@,
                w == width == picture.width,
                height == picture.height,
                y < height,
                x <= width,
                samples.len() == 3 * (y * w + x),
                forall|i: int, j: int|
                    (0 <= i < w && 0 <= j < y) || (j == y && 0 <= i < x) ==> {
                        let k = 3 * (j * w + i);
                        let p = #[trigger] picture.at(i, j);
                        samples[k] == p.r && samples[k + 1] == p.g && samples[k + 2] == p.b
                    },
            decreases width - x,
        {
            let p = image.pixel(x, y);
            samples.push(p.r);
            samples.push(p.g);
            samples.push(p.b);
            proof {
                assert forall|i: int, j: int|
                    (0 <= i < w && 0 <= j < y) || (j == y && 0 <= i < x + 1) implies {
                    let k = 3 * (j * w + i);
                    let q = #[trigger] picture.at(i, j);
                    samples[k] == q.r && samples[k + 1] == q.g && samples[k + 2] == q.b
                } by {
                    if j < y {
                        lemma_sample_offset(w, y as nat, i as nat, j as nat);
                        assert(3 * w * y == 3 * (y * w)) by (nonlinear_arith);
                    }
                }
            }
            x += 1;
        }
        proof {
            assert((y + 1) * w == y * w + w) by (nonlinear_arith);
        }
        y += 1;
    }
    proof {
        assert(3 * (height * w) == 3 * w * height) by (nonlinear_arith);
    }
    Some(
        OcrInput {
            samples,
            width: width as i32,
            height: height as i32,
            bytes_per_pixel: SAMPLES_PER_PIXEL,
            bytes_per_line: 3 * (width as i32),
        },
    )
}

/// Asks the recogniser for the text of one picture. A picture that it cannot
/// be handed is not shown to it and counts as a failure of the recogniser.
pub fn ask_recogniser<F: Fn(&OcrInput) -> OcrOutcome>(image: &Frame, recognise: &F) -> (outcome:
    OcrOutcome)
    requires
        image.wf(),
        forall|input: OcrInput| #[trigger] call_requires(*recognise, (&input,)),
    ensures
        is_reading(*recognise, image@, outcome_text(outcome)),
        !fits_recogniser(image@) ==> outcome is EngineFailure,
{
    match ocr_input(image) {
        Some(input) => recognise(&input),
        None => OcrOutcome::EngineFailure,
    }
}

/// Reads the text of one picture: hands it to the recogniser and gives back
/// what it answered, or the empty text where it failed.
pub fn run_ocr<F: Fn(&OcrInput) -> OcrOutcome>(image: &Frame, recognise: &F) -> (text: String)
    requires
        image.wf(),
        forall|input: OcrInput| #[trigger] call_requires(*recognise, (&input,)),
    ensures
        is_reading(*recognise, image@, text@),
{
    text_of(ask_recogniser(image, recognise))
}

} // verus!
