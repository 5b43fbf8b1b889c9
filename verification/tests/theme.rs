use wfinfo::frame::{Frame, Rgba};
use wfinfo::theme::{classify, detect_theme, distance_between, ordinal_of, Rgb, Theme};

const ALL: [Theme; 15] = [
    Theme::Vitruvian,
    Theme::Stalker,
    Theme::Baruuk,
    Theme::Corpus,
    Theme::Fortuna,
    Theme::Grineer,
    Theme::Lotus,
    Theme::Nidus,
    Theme::Orokin,
    Theme::Tenno,
    Theme::HighContrast,
    Theme::Legacy,
    Theme::Equinox,
    Theme::DarkLotus,
    Theme::Zephyr,
];

fn px(r: u8, g: u8, b: u8) -> Rgba {
    Rgba { r, g, b, a: 255 }
}

fn of(color: Rgb) -> Rgba {
    px(color.r, color.g, color.b)
}

/// A black frame of the reference size with rectangles painted on it.
fn painted(marks: &[(u32, u32, u32, u32, Rgb)]) -> Frame {
    let (width, height) = (1920u32, 1080u32);
    let mut data = vec![0u8; (4 * width * height) as usize];
    for k in 0..(width * height) as usize {
        data[4 * k + 3] = 255;
    }
    for &(x0, y0, w, h, color) in marks {
        for y in y0..y0 + h {
            for x in x0..x0 + w {
                let k = 4 * (y * width + x) as usize;
                data[k] = color.r;
                data[k + 1] = color.g;
                data[k + 2] = color.b;
            }
        }
    }
    Frame::from_rgba(width, height, &data).expect("the buffer has the right length")
}

#[test]
fn themes_stand_at_their_ordinals() {
    for (i, theme) in ALL.iter().enumerate() {
        assert_eq!(ordinal_of(*theme), i);
        assert_eq!(Theme::from_ordinal(i), *theme);
    }
}

#[test]
fn themes_have_their_colours() {
    assert_eq!(Theme::Vitruvian.primary_color(), Rgb { r: 190, g: 169, b: 102 });
    assert_eq!(Theme::Corpus.primary_color(), Rgb { r: 35, g: 201, b: 245 });
    assert_eq!(Theme::Orokin.primary_color(), Rgb { r: 20, g: 41, b: 29 });
    assert_eq!(Theme::Zephyr.primary_color(), Rgb { r: 253, g: 132, b: 2 });
}

#[test]
fn colour_distance_is_the_sum_of_squares() {
    assert_eq!(distance_between(px(0, 0, 0), Rgb { r: 20, g: 41, b: 29 }), 2922);
    assert_eq!(distance_between(px(255, 255, 255), Rgb { r: 0, g: 0, b: 0 }), 195075);
    assert_eq!(distance_between(px(10, 20, 30), Rgb { r: 10, g: 20, b: 30 }), 0);
    assert_eq!(distance_between(px(10, 20, 30), Rgb { r: 13, g: 16, b: 30 }), 25);
}

#[test]
fn every_theme_colour_speaks_for_its_theme() {
    for theme in ALL {
        assert_eq!(classify(of(theme.primary_color())), Some(theme));
    }
}

#[test]
fn near_colours_speak_for_the_nearest_theme() {
    // 51 from Corpus, 276 from Lotus.
    assert_eq!(classify(px(40, 200, 240)), Some(Theme::Corpus));
    // 261 from Corpus, 18 from Lotus.
    assert_eq!(classify(px(37, 185, 246)), Some(Theme::Lotus));
    // Opacity plays no part.
    assert_eq!(classify(Rgba { r: 40, g: 200, b: 240, a: 0 }), Some(Theme::Corpus));
}

#[test]
fn far_colours_speak_for_no_theme() {
    assert_eq!(classify(px(0, 0, 0)), None);
    assert_eq!(classify(px(128, 0, 0)), None);
    // 900 from Legacy is near enough, 901 is not.
    assert_eq!(classify(px(225, 255, 255)), Some(Theme::Legacy));
    assert_eq!(classify(px(225, 254, 255)), None);
}

#[test]
fn ink_is_judged_against_the_theme_in_use() {
    assert!(Theme::Corpus.is_ink(px(35, 201, 245)));
    assert!(Theme::Corpus.is_ink(px(40, 200, 240)));
    // 2500 away is ink, 2501 is not.
    assert!(Theme::Legacy.is_ink(px(205, 255, 255)));
    assert!(!Theme::Legacy.is_ink(px(205, 254, 255)));
    assert!(!Theme::Corpus.is_ink(px(0, 0, 0)));
    assert!(!Theme::Stalker.is_ink(px(35, 201, 245)));
}

#[test]
fn black_frame_has_the_fallback_theme() {
    assert_eq!(detect_theme(&painted(&[])), Theme::Vitruvian);
}

#[test]
fn empty_frame_has_the_fallback_theme() {
    let empty = Frame::from_rgba(0, 0, &Vec::new()).expect("an empty frame");
    assert_eq!(detect_theme(&empty), Theme::Vitruvian);
    let flat = Frame::from_rgba(100, 0, &Vec::new()).expect("a frame without rows");
    assert_eq!(detect_theme(&flat), Theme::Vitruvian);
}

#[test]
fn names_in_a_theme_colour_give_that_theme() {
    for theme in ALL {
        let frame = painted(&[(500, 420, 180, 20, theme.primary_color())]);
        assert_eq!(detect_theme(&frame), theme);
    }
}

#[test]
fn the_theme_with_the_most_pixels_wins() {
    let corpus = Theme::Corpus.primary_color();
    let stalker = Theme::Stalker.primary_color();
    let more_stalker = painted(&[(500, 420, 10, 10, corpus), (800, 420, 10, 11, stalker)]);
    assert_eq!(detect_theme(&more_stalker), Theme::Stalker);
    let more_corpus = painted(&[(500, 420, 10, 11, corpus), (800, 420, 10, 10, stalker)]);
    assert_eq!(detect_theme(&more_corpus), Theme::Corpus);
}

#[test]
fn equal_votes_go_to_the_earlier_theme() {
    let corpus = Theme::Corpus.primary_color();
    let stalker = Theme::Stalker.primary_color();
    let frame = painted(&[(500, 420, 10, 10, corpus), (800, 420, 10, 10, stalker)]);
    assert_eq!(detect_theme(&frame), Theme::Stalker);
    let frame = painted(&[(500, 420, 10, 10, stalker), (800, 420, 10, 10, corpus)]);
    assert_eq!(detect_theme(&frame), Theme::Stalker);
}

#[test]
fn pixels_outside_the_band_do_not_count() {
    let corpus = Theme::Corpus.primary_color();
    // Above the band, below it, left of it and right of it.
    let frame = painted(&[
        (500, 0, 900, 411, corpus),
        (500, 500, 900, 580, corpus),
        (0, 0, 476, 1080, corpus),
        (1444, 0, 476, 1080, corpus),
    ]);
    assert_eq!(detect_theme(&frame), Theme::Vitruvian);
    // One pixel in the last row and column of the band is enough.
    let frame = painted(&[(1443, 499, 1, 1, corpus)]);
    assert_eq!(detect_theme(&frame), Theme::Corpus);
    let frame = painted(&[(476, 411, 1, 1, corpus)]);
    assert_eq!(detect_theme(&frame), Theme::Corpus);
}
