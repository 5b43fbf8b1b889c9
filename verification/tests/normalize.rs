use wfinfo::normalize::{chars_of, normalize_chars, normalize_string, string_of, to_letter};

#[test]
fn letters_are_lower_cased() {
    assert_eq!(normalize_string("Octavia Prime"), "octavia prime");
    assert_eq!(normalize_string("HARROW"), "harrow");
    assert_eq!(normalize_string("already lower"), "already lower");
}

#[test]
fn line_breaks_and_runs_of_blanks_become_one_space() {
    assert_eq!(
        normalize_string("Octavia Prime\nSystems Blueprint"),
        "octavia prime systems blueprint"
    );
    assert_eq!(normalize_string("a\t\r\n  b"), "a b");
    assert_eq!(normalize_string("  Hello,   World!  "), "hello world");
}

#[test]
fn punctuation_is_dropped_without_parting_words() {
    assert_eq!(normalize_string("Tenora-Prime"), "tenoraprime");
    assert_eq!(normalize_string("a.b"), "ab");
    assert_eq!(normalize_string("a. b"), "a b");
    assert_eq!(normalize_string("a .b"), "a b");
    assert_eq!(normalize_string(" .a"), "a");
    assert_eq!(normalize_string("a ."), "a");
}

#[test]
fn misread_glyphs_become_the_letters_they_stand_for() {
    assert_eq!(normalize_string("0ctavia"), "octavia");
    assert_eq!(normalize_string("PR1ME 8LUEPR1NT"), "prlme blueprlnt");
    assert_eq!(normalize_string("5ystem5"), "systems");
    assert_eq!(normalize_string("B|ueprint"), "blueprint");
    assert_eq!(to_letter('0'), Some('o'));
    assert_eq!(to_letter('1'), Some('l'));
    assert_eq!(to_letter('|'), Some('l'));
    assert_eq!(to_letter('5'), Some('s'));
    assert_eq!(to_letter('8'), Some('b'));
    assert_eq!(to_letter('Q'), Some('q'));
    assert_eq!(to_letter('q'), Some('q'));
    assert_eq!(to_letter('2'), None);
    assert_eq!(to_letter(' '), None);
}

#[test]
fn characters_outside_the_alphabet_are_dropped() {
    assert_eq!(normalize_string("caf\u{e9} x"), "caf x");
    assert_eq!(normalize_string("\u{4e2d}\u{6587}"), "");
    assert_eq!(normalize_string("2 3 4"), "");
}

#[test]
fn empty_and_garbage_text_normalise_to_nothing() {
    assert_eq!(normalize_string(""), "");
    assert_eq!(normalize_string("   \n\n "), "");
    assert_eq!(normalize_string("?!.,;:"), "");
}

#[test]
fn normalising_twice_changes_nothing() {
    let samples = [
        "Octavia Prime\nSystems Blueprint",
        "  0CTAVIA   PR1ME  8lueprint ",
        "Tenora Prime Blueprint",
        "harrow prime systems blueprint",
        "",
        "?? ??",
        "a",
        " a b  c\td\n",
        "H@rrow Pr|me 5ystems",
    ];
    for sample in samples {
        let once = normalize_string(sample);
        let twice = normalize_string(&once);
        assert_eq!(twice, once, "sample {:?}", sample);
    }
}

#[test]
fn characters_and_strings_convert_both_ways() {
    let chars = chars_of("a\u{e9}z");
    assert_eq!(chars, vec!['a', '\u{e9}', 'z']);
    assert_eq!(string_of(&chars), "a\u{e9}z");
    assert_eq!(string_of(&Vec::new()), "");
    assert_eq!(normalize_chars(&vec!['A', ' ', ' ', 'b']), vec!['a', ' ', 'b']);
}
