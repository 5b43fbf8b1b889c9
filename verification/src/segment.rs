//! Cutting a row of columns into the stretches that hold one name each.
//!
//! A column of the band of names is inked when some pixel of it has the colour
//! in which names are drawn. A name is a stretch of columns that begins and
//! ends with an inked column and holds no run of blank columns as long as the
//! gap between two rewards; after it comes such a run, or the end of the band.

use vstd::prelude::*;

verus! {

/// A stretch of columns, from `start` up to but without `end`.
#[derive(Clone, Copy, Debug, PartialEq, Eq, Structural)]
pub struct Span {
    pub start: usize,
    pub end: usize,
}

/// The stretches as pairs of numbers.
pub open spec fn stretches(spans: Seq<Span>) -> Seq<(int, int)> {
    Seq::new(spans.len(), |k: int| (spans[k].start as int, spans[k].end as int))
}

/// Whether some column from `from` up to but without `to` is inked.
pub open spec fn has_ink(ink: Seq<bool>, from: int, to: int) -> bool {
    exists|x: int| from <= x < to && 0 <= x < ink.len() && #[trigger] ink[x]
}

/// Whether column `x` or one of the `gap - 1` columns before it is inked.
pub open spec fn near_ink(ink: Seq<bool>, gap: nat, x: int) -> bool {
    has_ink(ink, x - gap + 1, x + 1)
}

/// The stretch from `start` to `end` holds one name: it begins and ends with an
/// inked column, no column of it is `gap` or more columns to the right of the
/// nearest inked one, and the `gap` columns after it are blank.
pub open spec fn is_label(ink: Seq<bool>, gap: nat, start: int, end: int) -> bool {
    &&& 0 <= start < end <= ink.len()
    &&& ink[start]
    &&& ink[end - 1]
    &&& forall|x: int| start <= x < end ==> #[trigger] near_ink(ink, gap, x)
    &&& !has_ink(ink, end, end + gap)
}

/// Where the search for the stretch at position `k` begins: at the end of the
/// stretch before it, or at the first column.
pub open spec fn search_from(spans: Seq<(int, int)>, k: int) -> int {
    if k <= 0 {
        0
    } else {
        spans[k - 1].1
    }
}

/// The stretch at position `k` holds one name, and no inked column lies
/// between the place where the search for it begins and its first column.
pub open spec fn is_name_at(ink: Seq<bool>, gap: nat, spans: Seq<(int, int)>, k: int) -> bool {
    &&& is_label(ink, gap, spans[k].0, spans[k].1)
    &&& search_from(spans, k) <= spans[k].0
    &&& !has_ink(ink, search_from(spans, k), spans[k].0)
}

/// The stretches are the names in the row of columns, from left to right, up
/// to `limit` of them: each holds one name, no inked column lies before the
/// first or between two of them, and none lies after the last unless the
/// limit is reached.
pub open spec fn is_segmentation(ink: Seq<bool>, gap: nat, limit: nat, spans: Seq<(int, int)>) -> bool {
    &&& spans.len() <= limit
    &&& forall|k: int| 0 <= k < spans.len() ==> #[trigger] is_name_at(ink, gap, spans, k)
    &&& spans.len() < limit ==> !has_ink(ink, search_from(spans, spans.len() as int), ink.len() as int)
}

/// The names of a segmentation stand from left to right, a gap apart.
pub proof fn lemma_segmentation_ordered(
    ink: Seq<bool>,
    gap: nat,
    limit: nat,
    spans: Seq<(int, int)>,
    i: int,
    j: int,
)
    requires
        is_segmentation(ink, gap, limit, spans),
        0 <= i < j < spans.len(),
    ensures
        spans[i].1 + gap <= spans[j].0,
        spans[i].0 < spans[j].0,
    decreases j - i,
{
    assert(is_name_at(ink, gap, spans, i));
    assert(is_name_at(ink, gap, spans, j));
    if j > i + 1 {
        lemma_segmentation_ordered(ink, gap, limit, spans, i, j - 1);
        assert(is_name_at(ink, gap, spans, j - 1));
    }
}

/// Two segmentations of one row agree on every name that both hold.
proof fn lemma_segmentations_agree(
    ink: Seq<bool>,
    gap: nat,
    limit: nat,
    a: Seq<(int, int)>,
    b: Seq<(int, int)>,
    k: int,
)
    requires
        gap >= 1,
        is_segmentation(ink, gap, limit, a),
        is_segmentation(ink, gap, limit, b),
        0 <= k < a.len(),
        k < b.len(),
    ensures
        a[k] == b[k],
    decreases k,
{
    if k > 0 {
        lemma_segmentations_agree(ink, gap, limit, a, b, k - 1);
    }
    let (s1, e1) = a[k];
    let (s2, e2) = b[k];
    assert(is_name_at(ink, gap, a, k));
    assert(is_name_at(ink, gap, b, k));
    if e1 <= e2 {
        lemma_label_end(ink, gap, s1, e1, e2);
    } else {
        lemma_label_end(ink, gap, s1, e2, e1);
    }
}

/// A name that begins at `start` ends in one place only.
proof fn lemma_label_end(ink: Seq<bool>, gap: nat, start: int, end: int, later: int)
    requires
        gap >= 1,
        is_label(ink, gap, start, end),
        is_label(ink, gap, start, later),
        end <= later,
    ensures
        end == later,
{
    if end < later {
        if later - 1 >= end + gap {
            let x = end + gap - 1;
            assert(near_ink(ink, gap, x));
        }
    }
}

/// A row of columns has one segmentation only.
pub proof fn lemma_segmentation_unique(
    ink: Seq<bool>,
    gap: nat,
    limit: nat,
    a: Seq<(int, int)>,
    b: Seq<(int, int)>,
)
    requires
        gap >= 1,
        is_segmentation(ink, gap, limit, a),
        is_segmentation(ink, gap, limit, b),
    ensures
        a == b,
{
    if a.len() <= b.len() {
        lemma_same_count(ink, gap, limit, a, b);
    } else {
        lemma_same_count(ink, gap, limit, b, a);
    }
    assert forall|k: int| 0 <= k < a.len() implies a[k] == b[k] by {
        lemma_segmentations_agree(ink, gap, limit, a, b, k);
    }
}

/// Of two segmentations of one row neither holds more names than the other.
proof fn lemma_same_count(
    ink: Seq<bool>,
    gap: nat,
    limit: nat,
    a: Seq<(int, int)>,
    b: Seq<(int, int)>,
)
    requires
        gap >= 1,
        is_segmentation(ink, gap, limit, a),
        is_segmentation(ink, gap, limit, b),
        a.len() <= b.len(),
    ensures
        a.len() == b.len(),
{
    if a.len() < b.len() {
        let k = a.len() as int;
        if k > 0 {
            lemma_segmentations_agree(ink, gap, limit, a, b, k - 1);
        }
        assert(is_name_at(ink, gap, b, k));
    }
}

/// Finds the names in a row of columns, from left to right, and stops after
/// `limit` of them.
pub fn segment(ink: &Vec<bool>, gap: usize, limit: usize) -> (spans: Vec<Span>)
    requires
        gap >= 1,
    ensures
        is_segmentation(ink@, gap as nat, limit as nat, stretches(spans@)),
{
    let n: usize = ink.len();
    let mut spans: Vec<Span> = Vec::new();
    let mut open: bool = false;
    let mut start: usize = 0;
    let mut last: usize = 0;
    let mut x: usize = 0;
    while x < n && spans.len() < limit
        invariant
            gap >= 1,
            n == ink.len(),
            x <= n,
            spans.len() <= limit,
            open ==> spans.len() < limit,
            forall|k: int|
                0 <= k < spans.len() ==> #[trigger] is_name_at(
                    ink@,
                    gap as nat,
                    stretches(spans@),
                    k,
                ),
            spans.len() > 0 ==> spans[spans.len() - 1].end <= x,
            !open ==> !has_ink(ink@, search_from(stretches(spans@), spans.len() as int), x as int),
            open ==> {
                &&& search_from(stretches(spans@), spans.len() as int) <= start <= last < x
                &&& x - last <= gap
                &&& ink[start as int]
                &&& ink[last as int]
                &&& !has_ink(ink@, search_from(stretches(spans@), spans.len() as int), start as int)
                &&& !has_ink(ink@, last + 1, x as int)
                &&& forall|c: int| start <= c <= last ==> #[trigger] near_ink(ink@, gap as nat, c)
            },
        decreases n - x,
    {
        if ink[x] {
            if !open {
                open = true;
                start = x;
            }
            last = x;
        } else if open && x - last >= gap {
            let ghost before = stretches(spans@);
            spans.push(Span { start, end: last + 1 });
            open = false;
            proof {
                let after = stretches(spans@);
                let m = before.len() as int;
                assert forall|k: int| 0 <= k < m implies after[k] == before[k] by {}
                assert forall|k: int| 0 <= k < spans.len() implies #[trigger] is_name_at(
                    ink@,
                    gap as nat,
                    after,
                    k,
                ) by {
                    if k < m {
                        assert(is_name_at(ink@, gap as nat, before, k));
                    }
                }
            }
        }
        x += 1;
    }
    if open {
        let ghost before = stretches(spans@);
        spans.push(Span { start, end: last + 1 });
        proof {
            let after = stretches(spans@);
            let m = before.len() as int;
            assert forall|k: int| 0 <= k < m implies after[k] == before[k] by {}
            assert forall|k: int| 0 <= k < spans.len() implies #[trigger] is_name_at(
                ink@,
                gap as nat,
                after,
                k,
            ) by {
                if k < m {
                    assert(is_name_at(ink@, gap as nat, before, k));
                }
            }
        }
    }
    spans
}

} // verus!
