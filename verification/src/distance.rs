//! Edit distance between two character sequences.

use vstd::prelude::*;

verus! {

/// The smallest of three numbers.
pub open spec fn min3(x: nat, y: nat, z: nat) -> nat {
    if x <= y && x <= z {
        x
    } else if y <= z {
        y
    } else {
        z
    }
}

/// Price of putting `y` where `x` stands: nothing when they agree, one edit otherwise.
pub open spec fn replace_cost(x: char, y: char) -> nat {
    if x == y {
        0
    } else {
        1
    }
}

/// Levenshtein distance: the least number of single-character insertions,
/// deletions and replacements that turn `a` into `b`.
pub open spec fn edit_distance(a: Seq<char>, b: Seq<char>) -> nat
    decreases a.len() + b.len(),
{
    if a.len() == 0 {
        b.len()
    } else if b.len() == 0 {
        a.len()
    } else {
        min3(
            edit_distance(a.drop_last(), b.drop_last()) + replace_cost(a.last(), b.last()),
            edit_distance(a.drop_last(), b) + 1,
            edit_distance(a, b.drop_last()) + 1,
        )
    }
}

/// The distance never exceeds the longer length and never falls below the
/// difference of the lengths.
pub proof fn lemma_distance_bounds(a: Seq<char>, b: Seq<char>)
    ensures
        edit_distance(a, b) <= a.len() || edit_distance(a, b) <= b.len(),
        a.len() <= b.len() + edit_distance(a, b),
        b.len() <= a.len() + edit_distance(a, b),
    decreases a.len() + b.len(),
{
    if a.len() != 0 && b.len() != 0 {
        lemma_distance_bounds(a.drop_last(), b.drop_last());
        lemma_distance_bounds(a.drop_last(), b);
        lemma_distance_bounds(a, b.drop_last());
    }
}

/// A sequence is at distance zero from itself.
pub proof fn lemma_distance_to_self(a: Seq<char>)
    ensures
        edit_distance(a, a) == 0,
    decreases a.len(),
{
    if a.len() != 0 {
        lemma_distance_to_self(a.drop_last());
    }
}

/// Distance zero is equality.
pub proof fn lemma_distance_zero(a: Seq<char>, b: Seq<char>)
    ensures
        edit_distance(a, b) == 0 <==> a == b,
    decreases a.len() + b.len(),
{
    if a == b {
        lemma_distance_to_self(a);
    }
    if edit_distance(a, b) == 0 {
        if a.len() == 0 || b.len() == 0 {
            assert(a =~= b);
        } else {
            lemma_distance_zero(a.drop_last(), b.drop_last());
            assert(a =~= a.drop_last().push(a.last()));
            assert(b =~= b.drop_last().push(b.last()));
        }
    }
}

/// The distance does not depend on the direction of the comparison.
pub proof fn lemma_distance_symmetric(a: Seq<char>, b: Seq<char>)
    ensures
        edit_distance(a, b) == edit_distance(b, a),
    decreases a.len() + b.len(),
{
    if a.len() != 0 && b.len() != 0 {
        lemma_distance_symmetric(a.drop_last(), b.drop_last());
        lemma_distance_symmetric(a.drop_last(), b);
        lemma_distance_symmetric(a, b.drop_last());
    }
}

/// Appending the same tail to both sequences does not move them apart.
pub proof fn lemma_common_suffix(a: Seq<char>, b: Seq<char>, tail: Seq<char>)
    ensures
        edit_distance(a + tail, b + tail) <= edit_distance(a, b),
    decreases tail.len(),
{
    if tail.len() != 0 {
        let shorter = tail.drop_last();
        assert((a + tail).drop_last() =~= a + shorter);
        assert((b + tail).drop_last() =~= b + shorter);
        lemma_common_suffix(a, b, shorter);
    }
}

/// One edit in the middle of a sequence: two sequences that share a head and a
/// tail and differ between them by at most one character on each side are at
/// distance at most one. With `x` empty this is an insertion, with `y` empty a
/// deletion, with both of length one a replacement.
pub proof fn lemma_single_edit(head: Seq<char>, x: Seq<char>, y: Seq<char>, tail: Seq<char>)
    requires
        x.len() <= 1,
        y.len() <= 1,
    ensures
        edit_distance(head + x + tail, head + y + tail) <= 1,
{
    lemma_distance_to_self(head);
    lemma_common_suffix(head + x, head + y, tail);
    if x.len() != 0 {
        assert((head + x).drop_last() =~= head);
    }
    if y.len() != 0 {
        assert((head + y).drop_last() =~= head);
    }
}

/// Computes [`edit_distance`] row by row, keeping two rows of the table.
pub fn levenshtein(a: &Vec<char>, b: &Vec<char>) -> (d: usize)
    ensures
        d == edit_distance(a@, b@),
{
    let n: usize = a.len();
    let m: usize = b.len();
    let mut prev: Vec<usize> = Vec::new();
    let mut j: usize = 0;
    while j < m
        invariant
            j <= m,
            prev.len() == j,
            forall|k: int| 0 <= k < j ==> prev[k] == k,
        decreases m - j,
    {
        prev.push(j);
        j += 1;
    }
    prev.push(m);
    let mut i: usize = 0;
    while i < n
        invariant
            n == a.len(),
            m == b.len(),
            i <= n,
            prev.len() == m + 1,
            forall|k: int|
                0 <= k <= m ==> prev[k] == edit_distance(a@.take(i as int), #[trigger] b@.take(k)),
        decreases n - i,
    {
        let ghost head = a@.take(i as int);
        let ghost row = a@.take(i + 1);
        let mut cur: Vec<usize> = Vec::new();
        cur.push(i + 1);
        let mut k: usize = 0;
        while k < m
            invariant
                n == a.len(),
                m == b.len(),
                i < n,
                k <= m,
                prev.len() == m + 1,
                cur.len() == k + 1,
                head == a@.take(i as int),
                row == a@.take(i + 1),
                row.drop_last() == head,
                row.last() == a@[i as int],
                forall|t: int|
                    0 <= t <= m ==> prev[t] == edit_distance(head, #[trigger] b@.take(t)),
                forall|t: int|
                    0 <= t <= k ==> cur[t] == edit_distance(row, #[trigger] b@.take(t)),
            decreases m - k,
        {
            let ghost col = b@.take(k + 1);
            assert(col.drop_last() =~= b@.take(k as int));
            proof {
                lemma_distance_bounds(head, b@.take(k as int));
            }
            let replace: usize = if a[i] == b[k] {
                prev[k]
            } else {
                prev[k] + 1
            };
            let shorter: usize = if prev[k + 1] <= cur[k] {
                prev[k + 1]
            } else {
                cur[k]
            };
            let best: usize = if shorter < replace {
                shorter + 1
            } else {
                replace
            };
            cur.push(best);
            k += 1;
        }
        prev = cur;
        i += 1;
    }
    assert(a@.take(n as int) =~= a@);
    assert(b@.take(m as int) =~= b@);
    prev[m]
}

} // verus!
