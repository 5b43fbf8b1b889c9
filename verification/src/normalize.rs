//! Canonical form of recognised text.
//!
//! Recognised text and catalog names are compared in one canonical form:
//! lower-case letters in words, one space between two words, nothing else.

use vstd::prelude::*;

verus! {

/// The lower-case letter that a recognised character stands for, if any.
///
/// Letters stand for themselves without their case. A few glyphs that the
/// recogniser is known to put in place of a letter of the reward screen's font
/// stand for that letter. Every other character stands for nothing.
pub open spec fn letter_of(c: char) -> Option<char> {
    if 'a' <= c && c <= 'z' {
        Some(c)
    } else if 'A' <= c && c <= 'Z' {
        Some(((c as u8) + 32) as char)
    } else if c == '0' {
        Some('o')
    } else if c == '1' || c == '|' {
        Some('l')
    } else if c == '5' {
        Some('s')
    } else if c == '8' {
        Some('b')
    } else {
        None
    }
}

/// Characters that part one word from the next.
pub open spec fn is_gap(c: char) -> bool {
    c == ' ' || c == '\n' || c == '\r' || c == '\t'
}

/// Whether a word has ended since the last letter of `raw`: a gap character
/// follows that letter, with nothing but characters that stand for nothing
/// in between.
pub open spec fn gap_pending(raw: Seq<char>) -> bool
    decreases raw.len(),
{
    if raw.len() == 0 {
        false
    } else if letter_of(raw.last()) is Some {
        false
    } else if is_gap(raw.last()) {
        true
    } else {
        gap_pending(raw.drop_last())
    }
}

/// The canonical form of `raw`: its letters in order, with one space wherever
/// a gap parts two of them.
pub open spec fn normalized(raw: Seq<char>) -> Seq<char>
    decreases raw.len(),
{
    if raw.len() == 0 {
        Seq::empty()
    } else {
        let head = normalized(raw.drop_last());
        match letter_of(raw.last()) {
            Some(letter) => if gap_pending(raw.drop_last()) && head.len() > 0 {
                head.push(' ').push(letter)
            } else {
                head.push(letter)
            },
            None => head,
        }
    }
}

/// A lower-case letter of the target alphabet.
pub open spec fn is_lower(c: char) -> bool {
    'a' <= c && c <= 'z'
}

/// Words of lower-case letters with single spaces between them: nothing but
/// letters and spaces, no space at the start, no two spaces in a row.
pub open spec fn is_spaced_words(s: Seq<char>) -> bool {
    &&& forall|i: int| 0 <= i < s.len() ==> is_lower(#[trigger] s[i]) || s[i] == ' '
    &&& s.len() > 0 ==> s[0] != ' '
    &&& forall|i: int, j: int|
        0 <= i && j == i + 1 && j < s.len() ==> !(#[trigger] s[i] == ' ' && #[trigger] s[j] == ' ')
}

/// The canonical form itself: spaced words that do not end in a space.
pub open spec fn is_normal(s: Seq<char>) -> bool {
    &&& is_spaced_words(s)
    &&& s.len() > 0 ==> s.last() != ' '
}

/// Whatever is normalised comes out in canonical form.
pub proof fn lemma_normalized_is_normal(raw: Seq<char>)
    ensures
        is_normal(normalized(raw)),
    decreases raw.len(),
{
    if raw.len() != 0 {
        lemma_normalized_is_normal(raw.drop_last());
    }
}

/// Spaced words are kept as they are, but for a space at their end.
proof fn lemma_spaced_words_kept(s: Seq<char>)
    requires
        is_spaced_words(s),
    ensures
        s.len() > 0 && s.last() == ' ' ==> normalized(s) == s.drop_last() && gap_pending(s),
        !(s.len() > 0 && s.last() == ' ') ==> normalized(s) == s && !gap_pending(s),
    decreases s.len(),
{
    if s.len() != 0 {
        let t = s.drop_last();
        lemma_spaced_words_kept(t);
    }
}

/// Text in canonical form is its own canonical form.
pub proof fn lemma_normal_is_fixed(s: Seq<char>)
    requires
        is_normal(s),
    ensures
        normalized(s) == s,
{
    lemma_spaced_words_kept(s);
}

/// Normalising twice gives what normalising once gives.
pub proof fn lemma_normalize_idempotent(raw: Seq<char>)
    ensures
        normalized(normalized(raw)) == normalized(raw),
{
    lemma_normalized_is_normal(raw);
    lemma_normal_is_fixed(normalized(raw));
}

/// Executable form of [`letter_of`].
pub fn to_letter(c: char) -> (r: Option<char>)
    ensures
        r == letter_of(c),
{
    if 'a' <= c && c <= 'z' {
        Some(c)
    } else if 'A' <= c && c <= 'Z' {
        Some(((c as u8) + 32) as char)
    } else if c == '0' {
        Some('o')
    } else if c == '1' || c == '|' {
        Some('l')
    } else if c == '5' {
        Some('s')
    } else if c == '8' {
        Some('b')
    } else {
        None
    }
}

/// The characters of a string, in order.
pub fn chars_of(s: &str) -> (v: Vec<char>)
    ensures
        v@ == s@,
{
    broadcast use vstd::string::group_string_axioms;

    let mut v: Vec<char> = Vec::new();
    for c in it: s.chars()
        invariant
            it.seq() == s@,
            v@ == it.seq().take(it.index() as int),
    {
        v.push(c);
    }
    v
}

/// `String::push` of the standard library, which appends one character: the
/// string afterwards is the string before with `c` at its end.
#[verifier::external_body]
fn push_char(s: &mut String, c: char)
    ensures
        final(s)@ == old(s)@.push(c),
{
    s.push(c);
}

/// The string made of the given characters.
pub fn string_of(chars: &Vec<char>) -> (s: String)
    ensures
        s@ == chars@,
{
    let mut s = String::new();
    let mut i: usize = 0;
    while i < chars.len()
        invariant
            i <= chars.len(),
            s@ == chars@.take(i as int),
        decreases chars.len() - i,
    {
        push_char(&mut s, chars[i]);
        i += 1;
    }
    s
}

/// Brings recognised characters into canonical form.
pub fn normalize_chars(raw: &Vec<char>) -> (out: Vec<char>)
    ensures
        out@ == normalized(raw@),
{
    let mut out: Vec<char> = Vec::new();
    let mut pending: bool = false;
    let mut i: usize = 0;
    while i < raw.len()
        invariant
            i <= raw.len(),
            out@ == normalized(raw@.take(i as int)),
            pending == gap_pending(raw@.take(i as int)),
        decreases raw.len() - i,
    {
        let c = raw[i];
        assert(raw@.take(i + 1).drop_last() =~= raw@.take(i as int));
        match to_letter(c) {
            Some(letter) => {
                if pending && out.len() > 0 {
                    out.push(' ');
                }
                out.push(letter);
                pending = false;
            },
            None => {
                if c == ' ' || c == '\n' || c == '\r' || c == '\t' {
                    pending = true;
                }
            },
        }
        i += 1;
    }
    assert(raw@.take(raw.len() as int) =~= raw@);
    out
}

/// Brings recognised text into canonical form: letters are lower-cased, glyphs
/// known to be misread letters become those letters, line breaks and runs of
/// blanks become one space between words, and everything else is dropped.
pub fn normalize_string(raw: &str) -> (out: String)
    ensures
        out@ == normalized(raw@),
        is_normal(out@),
{
    let chars = chars_of(raw);
    let canonical = normalize_chars(&chars);
    proof {
        lemma_normalized_is_normal(raw@);
    }
    string_of(&canonical)
}

} // verus!
