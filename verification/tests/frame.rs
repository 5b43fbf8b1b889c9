use wfinfo::frame::{Frame, Rgba};
use wfinfo::layout::{label_band, label_gap, Band};

fn px(r: u8, g: u8, b: u8, a: u8) -> Rgba {
    Rgba { r, g, b, a }
}

/// A frame of the given width whose samples count up from zero.
fn counting(width: u32, height: u32) -> (Vec<u8>, Frame) {
    let data: Vec<u8> = (0..(4 * width * height)).map(|k| k as u8).collect();
    let frame = Frame::from_rgba(width, height, &data).expect("the buffer has the right length");
    (data, frame)
}

#[test]
fn frame_reads_pixels_row_by_row() {
    let (_, frame) = counting(3, 2);
    assert_eq!(frame.width(), 3);
    assert_eq!(frame.height(), 2);
    assert_eq!(frame.pixel(0, 0), px(0, 1, 2, 3));
    assert_eq!(frame.pixel(2, 0), px(8, 9, 10, 11));
    assert_eq!(frame.pixel(0, 1), px(12, 13, 14, 15));
    assert_eq!(frame.pixel(2, 1), px(20, 21, 22, 23));
}

#[test]
fn frame_refuses_a_buffer_of_the_wrong_length() {
    assert!(Frame::from_rgba(2, 2, &vec![0u8; 15]).is_none());
    assert!(Frame::from_rgba(2, 2, &vec![0u8; 17]).is_none());
    assert!(Frame::from_rgba(2, 2, &vec![0u8; 16]).is_some());
    assert!(Frame::from_rgba(0, 0, &Vec::new()).is_some());
    assert!(Frame::from_rgba(0, 7, &Vec::new()).is_some());
    assert!(Frame::from_rgba(0, 0, &vec![0u8; 4]).is_none());
    assert!(Frame::from_rgba(u32::MAX, u32::MAX, &vec![0u8; 4]).is_none());
}

#[test]
fn frame_gives_its_samples_back() {
    let (data, frame) = counting(5, 4);
    assert_eq!(frame.to_rgba(), data);
    let empty = Frame::from_rgba(0, 3, &Vec::new()).expect("an empty frame");
    assert_eq!(empty.to_rgba(), Vec::<u8>::new());
}

#[test]
fn crop_cuts_the_rectangle() {
    let (_, frame) = counting(4, 3);
    let piece = frame.crop(1, 1, 2, 2);
    assert_eq!(piece.width(), 2);
    assert_eq!(piece.height(), 2);
    assert_eq!(piece.pixel(0, 0), frame.pixel(1, 1));
    assert_eq!(piece.pixel(1, 0), frame.pixel(2, 1));
    assert_eq!(piece.pixel(0, 1), frame.pixel(1, 2));
    assert_eq!(piece.pixel(1, 1), frame.pixel(2, 2));
    assert_eq!(piece.to_rgba(), vec![20, 21, 22, 23, 24, 25, 26, 27, 36, 37, 38, 39, 40, 41, 42, 43]);
    let whole = frame.crop(0, 0, 4, 3);
    assert_eq!(whole.to_rgba(), frame.to_rgba());
    let nothing = frame.crop(4, 3, 0, 0);
    assert_eq!(nothing.width(), 0);
    assert_eq!(nothing.to_rgba(), Vec::<u8>::new());
}

#[test]
fn put_pixel_changes_one_pixel() {
    let (data, mut frame) = counting(3, 2);
    frame.put_pixel(1, 1, px(200, 201, 202, 203));
    assert_eq!(frame.pixel(1, 1), px(200, 201, 202, 203));
    let mut expected = data;
    expected[16] = 200;
    expected[17] = 201;
    expected[18] = 202;
    expected[19] = 203;
    assert_eq!(frame.to_rgba(), expected);
}

#[test]
fn band_of_the_reference_frame() {
    assert_eq!(label_band(1920, 1080), Band { left: 476, top: 411, width: 968, height: 89 });
    assert_eq!(label_gap(1920, 1080), 16);
}

#[test]
fn band_of_a_wide_frame_goes_by_its_height() {
    assert_eq!(label_band(2560, 1080), Band { left: 796, top: 411, width: 968, height: 89 });
    assert_eq!(label_gap(2560, 1080), 16);
    assert_eq!(label_band(3840, 1080), Band { left: 1436, top: 411, width: 968, height: 89 });
}

#[test]
fn band_of_a_smaller_frame_is_scaled() {
    assert_eq!(label_band(1280, 720), Band { left: 317, top: 274, width: 645, height: 60 });
    assert_eq!(label_gap(1280, 720), 10);
    // A frame taller than 16 to 9 goes by its width.
    assert_eq!(label_band(1280, 1024), Band { left: 317, top: 426, width: 645, height: 60 });
}

#[test]
fn band_of_a_tiny_frame_is_empty() {
    assert_eq!(label_band(10, 10), Band { left: 2, top: 5, width: 5, height: 0 });
    assert_eq!(label_gap(10, 10), 1);
    assert_eq!(label_band(0, 0), Band { left: 0, top: 0, width: 0, height: 0 });
    assert_eq!(label_gap(0, 0), 1);
}

#[test]
fn band_of_the_largest_frame_stays_inside() {
    let band = label_band(u32::MAX, u32::MAX);
    assert!(band.left as u64 + band.width as u64 <= u32::MAX as u64);
    assert!(band.top as u64 + band.height as u64 <= u32::MAX as u64);
    assert_eq!(band.width, 2165379344);
}
