use wfinfo::distance::levenshtein;
use wfinfo::lexical::{comes_before, same_chars};

fn chars(s: &str) -> Vec<char> {
    s.chars().collect()
}

#[test]
fn distance_of_known_pairs() {
    assert_eq!(levenshtein(&chars("kitten"), &chars("sitting")), 3);
    assert_eq!(levenshtein(&chars("flaw"), &chars("lawn")), 2);
    assert_eq!(levenshtein(&chars("saturday"), &chars("sunday")), 3);
    assert_eq!(levenshtein(&chars("blueprint"), &chars("blueprlnt")), 1);
}

#[test]
fn distance_to_and_from_nothing_is_the_length() {
    assert_eq!(levenshtein(&chars(""), &chars("")), 0);
    assert_eq!(levenshtein(&chars(""), &chars("abc")), 3);
    assert_eq!(levenshtein(&chars("abcd"), &chars("")), 4);
}

#[test]
fn distance_is_zero_only_between_equals() {
    assert_eq!(levenshtein(&chars("octavia"), &chars("octavia")), 0);
    assert_eq!(levenshtein(&chars("octavia"), &chars("octavio")), 1);
}

#[test]
fn distance_counts_each_kind_of_edit_once() {
    assert_eq!(levenshtein(&chars("prime"), &chars("prme")), 1);
    assert_eq!(levenshtein(&chars("prime"), &chars("priime")), 1);
    assert_eq!(levenshtein(&chars("prime"), &chars("prine")), 1);
    assert_eq!(levenshtein(&chars("prime"), &chars("xprime")), 1);
    assert_eq!(levenshtein(&chars("prime"), &chars("primex")), 1);
}

#[test]
fn distance_is_the_same_in_both_directions() {
    let pairs = [("kitten", "sitting"), ("", "a"), ("abc", "cba"), ("relic", "prime")];
    for (a, b) in pairs {
        assert_eq!(levenshtein(&chars(a), &chars(b)), levenshtein(&chars(b), &chars(a)));
    }
    assert_eq!(levenshtein(&chars("abc"), &chars("cba")), 2);
    assert_eq!(levenshtein(&chars("relic"), &chars("prime")), 5);
}

#[test]
fn dictionary_order() {
    assert!(comes_before(&chars("abc"), &chars("abd")));
    assert!(!comes_before(&chars("abd"), &chars("abc")));
    assert!(comes_before(&chars("ab"), &chars("abc")));
    assert!(!comes_before(&chars("abc"), &chars("ab")));
    assert!(!comes_before(&chars("abc"), &chars("abc")));
    assert!(comes_before(&chars(""), &chars("a")));
    assert!(!comes_before(&chars(""), &chars("")));
    assert!(comes_before(&chars("a b"), &chars("aa")));
}

#[test]
fn equal_characters() {
    assert!(same_chars(&chars("prime"), &chars("prime")));
    assert!(!same_chars(&chars("prime"), &chars("primx")));
    assert!(!same_chars(&chars("prime"), &chars("prim")));
    assert!(same_chars(&chars(""), &chars("")));
}
