//! Signs in the game's log that a reward screen is about to show.
//!
//! The log is followed from the place where it ended when the watch began.
//! Whenever it has grown, the lines that were added are looked through, and a
//! line that holds one of the markers calls for a detection cycle.

use crate::normalize::chars_of;
use vstd::prelude::*;

verus! {

/// The characters of `text` from position `i`, `n` of them.
pub open spec fn window(text: Seq<char>, i: int, n: nat) -> Seq<char> {
    text.subrange(i, i + n)
}

/// Whether `pattern` stands somewhere in `text`.
pub open spec fn occurs_in(pattern: Seq<char>, text: Seq<char>) -> bool {
    exists|i: int|
        0 <= i && i + pattern.len() <= text.len() && #[trigger] window(text, i, pattern.len())
            == pattern
}

/// Whether a line of the log tells that a reward screen is about to show.
pub open spec fn is_reward_line(line: Seq<char>) -> bool {
    ||| occurs_in("Pause countdown done"@, line)
    ||| occurs_in("Got rewards"@, line)
    ||| occurs_in("Created /Lotus/Interface/ProjectionRewardChoice.swf"@, line)
}

/// Whether some of the lines tells that a reward screen is about to show.
pub open spec fn any_reward_line(lines: Seq<String>) -> bool {
    exists|k: int| 0 <= k < lines.len() && is_reward_line(#[trigger] lines[k]@)
}

/// Decides whether `pattern` stands in `text` at position `i`.
fn matches_at(text: &Vec<char>, pattern: &Vec<char>, i: usize) -> (r: bool)
    requires
        i + pattern.len() <= text.len(),
    ensures
        r == (window(text@, i as int, pattern@.len()) == pattern@),
{
    let mut k: usize = 0;
    while k < pattern.len()
        invariant
            i + pattern.len() <= text.len(),
            k <= pattern.len(),
            forall|t: int| 0 <= t < k ==> text[i + t] == pattern[t],
        decreases pattern.len() - k,
    {
        if text[i + k] != pattern[k] {
            return false;
        }
        k += 1;
    }
    assert(window(text@, i as int, pattern@.len()) =~= pattern@);
    true
}

/// Decides [`occurs_in`].
pub fn contains_chars(text: &Vec<char>, pattern: &Vec<char>) -> (r: bool)
    ensures
        r == occurs_in(pattern@, text@),
{
    if pattern.len() > text.len() {
        return false;
    }
    let last: usize = text.len() - pattern.len();
    let mut i: usize = 0;
    while i <= last
        invariant
            pattern.len() <= text.len(),
            last == text.len() - pattern.len(),
            i <= last + 1,
            forall|t: int| 0 <= t < i ==> #[trigger] window(text@, t, pattern@.len()) != pattern@,
        decreases last + 1 - i,
    {
        if matches_at(text, pattern, i) {
            return true;
        }
        if i == last {
            return false;
        }
        i += 1;
    }
    false
}

/// Decides [`is_reward_line`].
pub fn mentions_reward_screen(line: &str) -> (r: bool)
    ensures
        r == is_reward_line(line@),
{
    let text = chars_of(line);
    contains_chars(&text, &chars_of("Pause countdown done")) || contains_chars(
        &text,
        &chars_of("Got rewards"),
    ) || contains_chars(&text, &chars_of("Created /Lotus/Interface/ProjectionRewardChoice.swf"))
}

/// How far the log has been read.
pub struct LogTail {
    position: u64,
}

impl LogTail {
    /// Number of bytes of the log that have been read.
    pub closed spec fn offset(&self) -> u64 {
        self.position
    }

    /// Begins to follow a log at its end, `end` bytes in: what it holds by then
    /// is not looked at.
    pub fn new(end: u64) -> (tail: LogTail)
        ensures
            tail.offset() == end,
    {
        LogTail { position: end }
    }

    /// The place from which the log is to be read next.
    pub fn position(&self) -> (p: u64)
        ensures
            p == self.offset(),
    {
        self.position
    }

    /// Takes in the lines that the log has grown by, up to its new end at
    /// `end` bytes. Tells whether a detection cycle is called for: whether one
    /// of the lines tells of a reward screen.
    pub fn advance(&mut self, lines: &Vec<String>, end: u64) -> (signal: bool)
        ensures
            final(self).offset() == end,
            signal == any_reward_line(lines@),
    {
        self.position = end;
        let mut k: usize = 0;
        while k < lines.len()
            invariant
                k <= lines.len(),
                self.offset() == end,
                forall|t: int| 0 <= t < k ==> !is_reward_line(#[trigger] lines[t]@),
            decreases lines.len() - k,
        {
            if mentions_reward_screen(lines[k].as_str()) {
                return true;
            }
            k += 1;
        }
        false
    }
}

} // verus!
