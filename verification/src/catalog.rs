//! The item catalog and the resolution of recognised text against it.
//!
//! Every item is known to the resolver by its key, the canonical form of its
//! drop name. A text resolves to the item whose key is nearest to it in edit
//! distance, provided that the distance is small for the length of the key.

use crate::distance::{edit_distance, lemma_distance_bounds, lemma_distance_zero, levenshtein};
use crate::lexical::{comes_before, lemma_lex_transitive, lemma_lex_trichotomy, lex_less, same_chars};
use crate::normalize::{chars_of, normalize_chars, normalized};
use vstd::prelude::*;

verus! {

/// A match is trusted when it costs at most one edit for every
/// `CONFIDENCE_RATIO` characters of the key.
pub const CONFIDENCE_RATIO: usize = 3;

/// The kind of thing an item is. A caller that knows what kind of reward a
/// screen can show passes it as a hint, and only items of that kind are
/// considered.
#[derive(Clone, Copy, Debug, PartialEq, Eq, Structural)]
pub enum ItemCategory {
    /// A part or blueprint of a prime item.
    PrimePart,
    /// A void relic.
    Relic,
    /// Anything else.
    Other,
}

/// One record of the catalog.
#[derive(Debug)]
pub struct CatalogItem {
    /// Name under which the item is traded.
    pub name: String,
    /// Name under which the item is shown on the reward screen.
    pub drop_name: String,
    /// Market price in hundredths of a platinum.
    pub platinum: u32,
    /// Price in ducats.
    pub ducats: u32,
    /// Kind of item.
    pub category: ItemCategory,
}

/// Why a list of items cannot serve as a catalog.
#[derive(Clone, Copy, Debug, PartialEq, Eq, Structural)]
pub enum CatalogError {
    /// The item at this position has a drop name without a single letter.
    NamelessItem(usize),
}

/// The items against which recognised text is resolved, with their keys.
pub struct Catalog {
    items: Vec<CatalogItem>,
    keys: Vec<Vec<char>>,
}

/// Whether the candidate with distance `d1`, key `k1` and position `i1` is to
/// be taken rather than the one with `d2`, `k2` and `i2`: the nearer one wins,
/// among equally near ones the key that is earlier in dictionary order, and
/// among equal keys the earlier position.
pub open spec fn ranks_before(
    d1: nat,
    k1: Seq<char>,
    i1: int,
    d2: nat,
    k2: Seq<char>,
    i2: int,
) -> bool {
    d1 < d2 || (d1 == d2 && (lex_less(k1, k2) || (k1 == k2 && i1 < i2)))
}

/// Of two candidates at different positions exactly one is taken rather than
/// the other.
pub proof fn lemma_ranks_total(d1: nat, k1: Seq<char>, i1: int, d2: nat, k2: Seq<char>, i2: int)
    requires
        i1 != i2,
    ensures
        ranks_before(d1, k1, i1, d2, k2, i2) != ranks_before(d2, k2, i2, d1, k1, i1),
{
    lemma_lex_trichotomy(k1, k2);
}

/// The preference between candidates is transitive.
pub proof fn lemma_ranks_transitive(
    d1: nat,
    k1: Seq<char>,
    i1: int,
    d2: nat,
    k2: Seq<char>,
    i2: int,
    d3: nat,
    k3: Seq<char>,
    i3: int,
)
    requires
        ranks_before(d1, k1, i1, d2, k2, i2),
        ranks_before(d2, k2, i2, d3, k3, i3),
    ensures
        ranks_before(d1, k1, i1, d3, k3, i3),
{
    if d1 == d2 && d2 == d3 {
        if lex_less(k1, k2) && lex_less(k2, k3) {
            lemma_lex_transitive(k1, k2, k3);
        }
    }
}

/// Whether two lengths differ by more than `d`.
fn lengths_apart(a: usize, b: usize, d: usize) -> (r: bool)
    ensures
        r == (a - b > d || b - a > d),
{
    if a >= b {
        a - b > d
    } else {
        b - a > d
    }
}

impl View for Catalog {
    type V = Seq<CatalogItem>;

    closed spec fn view(&self) -> Seq<CatalogItem> {
        self.items@
    }
}

impl Catalog {
    /// The catalog is usable: every item has a key with at least one letter,
    /// and the keys held beside the items are the items' keys.
    pub closed spec fn wf(&self) -> bool {
        &&& self.keys.len() == self.items.len()
        &&& forall|i: int|
            0 <= i < self.items.len() ==> (#[trigger] self.keys[i])@ == normalized(
                self.items[i].drop_name@,
            )
        &&& forall|i: int| 0 <= i < self.items.len() ==> (#[trigger] self.keys[i]).len() > 0
    }

    /// The key of the item at position `i`: its drop name in canonical form.
    pub open spec fn key(&self, i: int) -> Seq<char> {
        normalized(self@[i].drop_name@)
    }

    /// Whether the item at position `i` is a candidate under the hint.
    pub open spec fn admits(&self, hint: Option<ItemCategory>, i: int) -> bool {
        &&& 0 <= i < self@.len()
        &&& hint matches Some(category) ==> self@[i].category == category
    }

    /// How far `text` is from the key of the item at position `i`.
    pub open spec fn distance(&self, text: Seq<char>, i: int) -> nat {
        edit_distance(text, self.key(i))
    }

    /// Whether for `text` the item at `i` is taken rather than the one at `j`.
    pub open spec fn prefers(&self, text: Seq<char>, i: int, j: int) -> bool {
        ranks_before(self.distance(text, i), self.key(i), i, self.distance(text, j), self.key(j), j)
    }

    /// The item at `i` is the best candidate for `text`: it is taken rather
    /// than every other candidate.
    pub open spec fn is_best(&self, text: Seq<char>, hint: Option<ItemCategory>, i: int) -> bool {
        &&& self.admits(hint, i)
        &&& forall|j: int| self.admits(hint, j) && j != i ==> #[trigger] self.prefers(text, i, j)
    }

    /// The item at `i` is near enough to `text` to be trusted.
    pub open spec fn is_confident(&self, text: Seq<char>, i: int) -> bool {
        CONFIDENCE_RATIO * self.distance(text, i) <= self.key(i).len()
    }

    /// The item at `i` is what `text` resolves to.
    pub open spec fn is_match(&self, text: Seq<char>, hint: Option<ItemCategory>, i: int) -> bool {
        self.is_best(text, hint, i) && self.is_confident(text, i)
    }

    /// Position of the item that `text` resolves to: the best candidate if it
    /// is near enough, otherwise none.
    pub open spec fn resolution(&self, text: Seq<char>, hint: Option<ItemCategory>) -> Option<int> {
        if exists|i: int| self.is_match(text, hint, i) {
            Some(choose|i: int| self.is_match(text, hint, i))
        } else {
            None
        }
    }

    /// Position of the first item whose key is the canonical form of `name`.
    pub open spec fn first_named(&self, name: Seq<char>) -> Option<int> {
        if exists|i: int| self.is_first_named(name, i) {
            Some(choose|i: int| self.is_first_named(name, i))
        } else {
            None
        }
    }

    /// The item at `i` has the canonical form of `name` as its key, and no
    /// item before it has.
    pub open spec fn is_first_named(&self, name: Seq<char>, i: int) -> bool {
        &&& 0 <= i < self@.len()
        &&& self.key(i) == normalized(name)
        &&& forall|j: int| 0 <= j < i ==> #[trigger] self.key(j) != normalized(name)
    }

    /// Every key of a usable catalog has at least one letter.
    pub proof fn lemma_keys_not_empty(&self, i: int)
        requires
            self.wf(),
            0 <= i < self@.len(),
        ensures
            self.key(i).len() > 0,
    {
        assert(self.keys[i].len() > 0);
    }

    /// No text has two best candidates.
    pub proof fn lemma_best_unique(&self, text: Seq<char>, hint: Option<ItemCategory>, i: int, j: int)
        requires
            self.is_best(text, hint, i),
            self.is_best(text, hint, j),
        ensures
            i == j,
    {
        if i != j {
            assert(self.prefers(text, i, j));
            assert(self.prefers(text, j, i));
            lemma_ranks_total(
                self.distance(text, i),
                self.key(i),
                i,
                self.distance(text, j),
                self.key(j),
                j,
            );
        }
    }

    /// What [`Catalog::resolution`] gives, said without a choice: position `i`
    /// exactly when the item there is the match, and nothing exactly when no
    /// item is.
    pub proof fn lemma_resolution(&self, text: Seq<char>, hint: Option<ItemCategory>)
        ensures
            forall|i: int|
                self.resolution(text, hint) == Some(i) <==> #[trigger] self.is_match(text, hint, i),
            self.resolution(text, hint) is None <==> forall|i: int|
                !#[trigger] self.is_match(text, hint, i),
    {
        assert forall|i: int| #[trigger] self.is_match(text, hint, i) implies self.resolution(
            text,
            hint,
        ) == Some(i) by {
            let chosen = choose|k: int| self.is_match(text, hint, k);
            self.lemma_best_unique(text, hint, i, chosen);
        }
    }

    /// Among the first `n` items, if any is a candidate, one is taken rather
    /// than every other candidate among them.
    proof fn lemma_best_among(&self, text: Seq<char>, hint: Option<ItemCategory>, n: int) -> (b: int)
        requires
            0 <= n <= self@.len(),
            exists|j: int| 0 <= j < n && self.admits(hint, j),
        ensures
            0 <= b < n,
            self.admits(hint, b),
            forall|j: int|
                0 <= j < n && self.admits(hint, j) && j != b ==> #[trigger] self.prefers(text, b, j),
        decreases n,
    {
        let last = n - 1;
        if exists|j: int| 0 <= j < last && self.admits(hint, j) {
            let before = self.lemma_best_among(text, hint, last);
            if self.admits(hint, last) && self.prefers(text, last, before) {
                assert forall|j: int|
                    0 <= j < n && self.admits(hint, j) && j != last implies #[trigger] self.prefers(
                    text,
                    last,
                    j,
                ) by {
                    if j != before {
                        assert(self.prefers(text, before, j));
                        lemma_ranks_transitive(
                            self.distance(text, last),
                            self.key(last),
                            last,
                            self.distance(text, before),
                            self.key(before),
                            before,
                            self.distance(text, j),
                            self.key(j),
                            j,
                        );
                    }
                }
                last
            } else {
                if self.admits(hint, last) {
                    lemma_ranks_total(
                        self.distance(text, last),
                        self.key(last),
                        last,
                        self.distance(text, before),
                        self.key(before),
                        before,
                    );
                }
                before
            }
        } else {
            last
        }
    }

    /// Wherever there is a candidate there is a best one.
    pub proof fn lemma_best_exists(&self, text: Seq<char>, hint: Option<ItemCategory>, k: int) -> (b:
        int)
        requires
            self.admits(hint, k),
        ensures
            self.is_best(text, hint, b),
    {
        self.lemma_best_among(text, hint, self@.len() as int)
    }

    /// An empty text resolves to nothing.
    pub proof fn lemma_empty_text_unresolved(&self, hint: Option<ItemCategory>)
        requires
            self.wf(),
        ensures
            self.resolution(Seq::<char>::empty(), hint) is None,
    {
        assert forall|i: int| self.admits(hint, i) implies !self.is_confident(
            Seq::<char>::empty(),
            i,
        ) by {
            self.lemma_keys_not_empty(i);
        }
    }

    /// A text that is far from every candidate resolves to nothing, however
    /// near the nearest of them is compared with the others.
    pub proof fn lemma_far_text_unresolved(&self, text: Seq<char>, hint: Option<ItemCategory>)
        requires
            forall|i: int| self.admits(hint, i) ==> !self.is_confident(text, i),
        ensures
            self.resolution(text, hint) is None,
    {
    }

    /// A text that is the key of a candidate resolves to the first candidate
    /// with that key, whatever else the catalog holds.
    pub proof fn lemma_exact_match_resolves(
        &self,
        text: Seq<char>,
        hint: Option<ItemCategory>,
        k: int,
    ) -> (first: int)
        requires
            self.admits(hint, k),
            self.key(k) == text,
        ensures
            self.resolution(text, hint) == Some(first),
            self.admits(hint, first),
            self.key(first) == text,
            first <= k,
            forall|j: int| self.admits(hint, j) && self.key(j) == text ==> first <= j,
    {
        let b = self.lemma_best_exists(text, hint, k);
        lemma_distance_zero(text, self.key(k));
        if b != k {
            assert(self.prefers(text, b, k));
        }
        lemma_distance_zero(text, self.key(b));
        lemma_lex_trichotomy(self.key(b), self.key(k));
        assert(self.is_match(text, hint, b));
        self.lemma_resolution(text, hint);
        assert forall|j: int| self.admits(hint, j) && self.key(j) == text implies b <= j by {
            if j != b {
                assert(self.prefers(text, b, j));
                lemma_distance_zero(text, self.key(j));
                lemma_lex_trichotomy(self.key(b), self.key(j));
            }
        }
        b
    }

    /// A text within one edit of the key of a candidate resolves to that
    /// candidate, if the key has at least `CONFIDENCE_RATIO` characters and
    /// every other candidate is farther from the text.
    pub proof fn lemma_near_match_resolves(&self, text: Seq<char>, hint: Option<ItemCategory>, k: int)
        requires
            self.admits(hint, k),
            self.distance(text, k) <= 1,
            self.key(k).len() >= CONFIDENCE_RATIO,
            forall|j: int|
                self.admits(hint, j) && j != k ==> self.distance(text, k) < #[trigger] self.distance(
                    text,
                    j,
                ),
        ensures
            self.resolution(text, hint) == Some(k),
    {
        assert(self.is_match(text, hint, k));
        self.lemma_resolution(text, hint);
    }

    /// Makes a catalog of the given items. Fails on the first item whose drop
    /// name has no letter, since no text could ever resolve to it.
    pub fn new(items: Vec<CatalogItem>) -> (r: Result<Catalog, CatalogError>)
        ensures
            match r {
                Ok(catalog) => {
                    &&& catalog.wf()
                    &&& catalog@ == items@
                    &&& forall|i: int|
                        0 <= i < items.len() ==> normalized(
                            #[trigger] items[i].drop_name@,
                        ).len() > 0
                },
                Err(CatalogError::NamelessItem(k)) => {
                    &&& k < items.len()
                    &&& normalized(items[k as int].drop_name@).len() == 0
                    &&& forall|i: int|
                        0 <= i < k ==> normalized(#[trigger] items[i].drop_name@).len() > 0
                },
            },
    {
        let mut keys: Vec<Vec<char>> = Vec::new();
        let mut i: usize = 0;
        while i < items.len()
            invariant
                i <= items.len(),
                keys.len() == i,
                forall|k: int|
                    0 <= k < i ==> (#[trigger] keys[k])@ == normalized(items[k].drop_name@),
                forall|k: int| 0 <= k < i ==> (#[trigger] keys[k]).len() > 0,
            decreases items.len() - i,
        {
            let raw = chars_of(items[i].drop_name.as_str());
            let key = normalize_chars(&raw);
            if key.len() == 0 {
                assert forall|j: int| 0 <= j < i implies normalized(
                    #[trigger] items[j].drop_name@,
                ).len() > 0 by {
                    assert(keys[j].len() > 0);
                }
                return Err(CatalogError::NamelessItem(i));
            }
            keys.push(key);
            i += 1;
        }
        assert forall|j: int| 0 <= j < items.len() implies normalized(
            #[trigger] items[j].drop_name@,
        ).len() > 0 by {
            assert(keys[j].len() > 0);
        }
        Ok(Catalog { items, keys })
    }

    /// Number of items.
    pub fn len(&self) -> (n: usize)
        ensures
            n == self@.len(),
    {
        self.items.len()
    }

    /// The item at position `i`.
    pub fn get(&self, i: usize) -> (item: &CatalogItem)
        requires
            i < self@.len(),
        ensures
            *item == self@[i as int],
    {
        &self.items[i]
    }

    /// All items, in catalog order.
    pub fn items(&self) -> (items: &Vec<CatalogItem>)
        ensures
            items@ == self@,
    {
        &self.items
    }

    /// Decides [`Catalog::admits`] for a position inside the catalog.
    fn is_candidate(&self, hint: Option<ItemCategory>, i: usize) -> (r: bool)
        requires
            i < self@.len(),
        ensures
            r == self.admits(hint, i as int),
    {
        match hint {
            Some(category) => self.items[i].category == category,
            None => true,
        }
    }

    /// Position of the first candidate whose key is `text`.
    fn find_exact(&self, text: &Vec<char>, hint: Option<ItemCategory>) -> (r: Option<usize>)
        requires
            self.wf(),
        ensures
            match r {
                Some(i) => {
                    &&& self.admits(hint, i as int)
                    &&& self.key(i as int) == text@
                    &&& forall|j: int|
                        0 <= j < i && self.admits(hint, j) ==> #[trigger] self.key(j) != text@
                },
                None => forall|j: int| self.admits(hint, j) ==> #[trigger] self.key(j) != text@,
            },
    {
        let mut i: usize = 0;
        while i < self.items.len()
            invariant
                self.wf(),
                i <= self@.len(),
                forall|j: int| 0 <= j < i && self.admits(hint, j) ==> #[trigger] self.key(j) != text@,
            decreases self.items.len() - i,
        {
            if self.is_candidate(hint, i) && same_chars(&self.keys[i], text) {
                return Some(i);
            }
            i += 1;
        }
        None
    }

    /// Position of the best candidate for `text`, with its distance.
    fn find_nearest(&self, text: &Vec<char>, hint: Option<ItemCategory>) -> (r: Option<
        (usize, usize),
    >)
        requires
            self.wf(),
        ensures
            match r {
                Some((i, d)) => self.is_best(text@, hint, i as int) && d == self.distance(
                    text@,
                    i as int,
                ),
                None => forall|j: int| !self.admits(hint, j),
            },
    {
        let mut best: Option<(usize, usize)> = None;
        let mut i: usize = 0;
        while i < self.items.len()
            invariant
                self.wf(),
                i <= self@.len(),
                match best {
                    Some((b, d)) => {
                        &&& b < i
                        &&& self.admits(hint, b as int)
                        &&& d == self.distance(text@, b as int)
                        &&& forall|j: int|
                            0 <= j < i && self.admits(hint, j) && j != b ==> #[trigger] self.prefers(
                                text@,
                                b as int,
                                j,
                            )
                    },
                    None => forall|j: int| 0 <= j < i ==> !self.admits(hint, j),
                },
            decreases self.items.len() - i,
        {
            if self.is_candidate(hint, i) {
                match best {
                    Some((b, bd)) => {
                        if lengths_apart(text.len(), self.keys[i].len(), bd) {
                            // The distance is at least the difference of the
                            // lengths, so this key is farther than the best
                            // so far and its distance need not be computed.
                            proof {
                                lemma_distance_bounds(text@, self.key(i as int));
                            }
                        } else {
                            let d = levenshtein(text, &self.keys[i]);
                            if d < bd || (d == bd && comes_before(&self.keys[i], &self.keys[b])) {
                                assert forall|j: int|
                                    0 <= j < i + 1 && self.admits(hint, j) && j
                                        != i implies #[trigger] self.prefers(text@, i as int, j) by {
                                    if j != b {
                                        assert(self.prefers(text@, b as int, j));
                                        lemma_ranks_transitive(
                                            self.distance(text@, i as int),
                                            self.key(i as int),
                                            i as int,
                                            self.distance(text@, b as int),
                                            self.key(b as int),
                                            b as int,
                                            self.distance(text@, j),
                                            self.key(j),
                                            j,
                                        );
                                    }
                                }
                                best = Some((i, d));
                            } else {
                                proof {
                                    lemma_lex_trichotomy(self.key(i as int), self.key(b as int));
                                }
                            }
                        }
                    },
                    None => {
                        best = Some((i, levenshtein(text, &self.keys[i])));
                    },
                }
            }
            i += 1;
        }
        best
    }

    /// Resolves `text` to the position of a catalog item.
    ///
    /// A candidate whose key is exactly `text` is taken at once. Otherwise the
    /// candidate nearest to `text` in edit distance is looked for, ties going
    /// to the key that is earlier in dictionary order and then to the earlier
    /// position; it is taken if it lies within one edit for every
    /// `CONFIDENCE_RATIO` characters of its key. With a hint, only items of
    /// that category are candidates.
    pub fn find_index(&self, text: &str, hint: Option<ItemCategory>) -> (r: Option<usize>)
        requires
            self.wf(),
        ensures
            match r {
                Some(i) => self.resolution(text@, hint) == Some(i as int),
                None => self.resolution(text@, hint) is None,
            },
    {
        let needle = chars_of(text);
        proof {
            self.lemma_resolution(text@, hint);
        }
        match self.find_exact(&needle, hint) {
            Some(i) => {
                proof {
                    let first = self.lemma_exact_match_resolves(text@, hint, i as int);
                }
                Some(i)
            },
            None => {
                match self.find_nearest(&needle, hint) {
                    Some((i, d)) => {
                        let key_len = self.keys[i].len();
                        // The distance is compared with a third of the key's
                        // length without multiplying, so that nothing overflows.
                        if d <= key_len / CONFIDENCE_RATIO {
                            assert(self.is_match(text@, hint, i as int));
                            Some(i)
                        } else {
                            assert forall|j: int| !#[trigger] self.is_match(text@, hint, j) by {
                                if self.is_best(text@, hint, j) {
                                    self.lemma_best_unique(text@, hint, j, i as int);
                                }
                            }
                            None
                        }
                    },
                    None => None,
                }
            },
        }
    }

    /// Resolves `text` to a catalog item: see [`Catalog::find_index`].
    pub fn find_item(&self, text: &str, hint: Option<ItemCategory>) -> (r: Option<&CatalogItem>)
        requires
            self.wf(),
        ensures
            match self.resolution(text@, hint) {
                Some(i) => 0 <= i < self@.len() && r == Some(&self@[i]),
                None => r is None,
            },
    {
        match self.find_index(text, hint) {
            Some(i) => {
                proof {
                    self.lemma_resolution(text@, hint);
                }
                Some(&self.items[i])
            },
            None => None,
        }
    }

    /// Looks an item up by its name: the first item whose key is the canonical
    /// form of `name`.
    pub fn lookup(&self, name: &str) -> (r: Option<&CatalogItem>)
        requires
            self.wf(),
        ensures
            match self.first_named(name@) {
                Some(i) => 0 <= i < self@.len() && r == Some(&self@[i]),
                None => r is None,
            },
    {
        let raw = chars_of(name);
        let key = normalize_chars(&raw);
        match self.find_exact(&key, None) {
            Some(i) => {
                assert(self.is_first_named(name@, i as int));
                Some(&self.items[i])
            },
            None => {
                None
            },
        }
    }
}

} // verus!
