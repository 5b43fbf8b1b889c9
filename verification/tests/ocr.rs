use std::cell::Cell;
use wfinfo::frame::Frame;
use wfinfo::ocr::{ask_recogniser, ocr_input, run_ocr, text_of, OcrInput, OcrOutcome};

fn counting(width: u32, height: u32) -> Frame {
    let data: Vec<u8> = (0..(4 * width * height)).map(|k| k as u8).collect();
    Frame::from_rgba(width, height, &data).expect("the buffer has the right length")
}

#[test]
fn input_holds_three_samples_to_the_pixel() {
    let input = ocr_input(&counting(3, 2)).expect("a small picture fits");
    assert_eq!(input.width, 3);
    assert_eq!(input.height, 2);
    assert_eq!(input.bytes_per_pixel, 3);
    assert_eq!(input.bytes_per_line, 9);
    assert_eq!(
        input.samples,
        vec![0, 1, 2, 4, 5, 6, 8, 9, 10, 12, 13, 14, 16, 17, 18, 20, 21, 22]
    );
}

#[test]
fn input_of_an_empty_picture_is_empty() {
    let empty = Frame::from_rgba(0, 0, &Vec::new()).expect("an empty frame");
    let input = ocr_input(&empty).expect("an empty picture fits");
    assert_eq!((input.width, input.height, input.bytes_per_line), (0, 0, 0));
    assert!(input.samples.is_empty());
}

#[test]
fn picture_too_large_to_describe_has_no_input() {
    // Rows of 715827882 pixels are the longest whose bytes can be counted.
    let widest = Frame::from_rgba(715827882, 0, &Vec::new()).expect("a frame without rows");
    let input = ocr_input(&widest).expect("the longest row fits");
    assert_eq!(input.bytes_per_line, 2147483646);
    let wider = Frame::from_rgba(715827883, 0, &Vec::new()).expect("a frame without rows");
    assert!(ocr_input(&wider).is_none());
    let widest_of_all = Frame::from_rgba(u32::MAX, 0, &Vec::new()).expect("a frame without rows");
    assert!(ocr_input(&widest_of_all).is_none());
}

#[test]
fn failure_stands_for_no_text() {
    assert_eq!(text_of(OcrOutcome::Text(String::from("Forma\n"))), "Forma\n");
    assert_eq!(text_of(OcrOutcome::Text(String::new())), "");
    assert_eq!(text_of(OcrOutcome::EngineFailure), "");
    assert_eq!(text_of(OcrOutcome::TimedOut), "");
}

#[test]
fn recogniser_is_handed_the_picture() {
    let seen = Cell::new((0, 0, 0usize));
    let recognise = |input: &OcrInput| {
        seen.set((input.width, input.height, input.samples.len()));
        OcrOutcome::Text(String::from("Forma Blueprint"))
    };
    assert_eq!(run_ocr(&counting(4, 3), &recognise), "Forma Blueprint");
    assert_eq!(seen.get(), (4, 3, 36));
}

#[test]
fn failing_recogniser_gives_no_text() {
    let fail = |_: &OcrInput| OcrOutcome::EngineFailure;
    assert_eq!(run_ocr(&counting(4, 3), &fail), "");
    let late = |_: &OcrInput| OcrOutcome::TimedOut;
    assert_eq!(run_ocr(&counting(4, 3), &late), "");
}

#[test]
fn recogniser_is_not_shown_what_it_cannot_be_handed() {
    let asked = Cell::new(false);
    let recognise = |_: &OcrInput| {
        asked.set(true);
        OcrOutcome::Text(String::from("never"))
    };
    let wider = Frame::from_rgba(715827883, 0, &Vec::new()).expect("a frame without rows");
    assert!(matches!(ask_recogniser(&wider, &recognise), OcrOutcome::EngineFailure));
    assert_eq!(run_ocr(&wider, &recognise), "");
    assert!(!asked.get());
}
