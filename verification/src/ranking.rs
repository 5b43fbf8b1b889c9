//! What a reward is worth, and which reward of a screen is worth the most.
//!
//! An item can be sold for platinum or traded in for ducats. Ten ducats count
//! as one platinum, and a hundredth of the platinum price is added on the
//! ducat side, so that of two items with the same ducats the dearer one is
//! worth more. All amounts are whole numbers: prices come in hundredths of a
//! platinum, worth in ten-thousandths.

use crate::catalog::CatalogItem;
use vstd::prelude::*;

verus! {

/// Ten-thousandths of a platinum in one hundredth of a platinum.
pub const WORTH_PER_PRICE_UNIT: u64 = 100;

/// Ten-thousandths of a platinum that one ducat counts for: a tenth of a
/// platinum.
pub const WORTH_PER_DUCAT: u64 = 1000;

/// Worth of an item with the given price, in hundredths of a platinum, and
/// ducats: the larger of the price and of a tenth of a platinum for each ducat
/// with a hundredth of the price added.
pub open spec fn worth(platinum: nat, ducats: nat) -> nat {
    let sold = (WORTH_PER_PRICE_UNIT * platinum) as nat;
    let traded = (WORTH_PER_DUCAT * ducats + platinum) as nat;
    if sold >= traded {
        sold
    } else {
        traded
    }
}

/// Worth of what a reward resolved to: that of the item, and nothing where
/// the reward is unknown.
pub open spec fn slot_value(item: Option<&CatalogItem>) -> nat {
    match item {
        Some(item) => worth(item.platinum as nat, item.ducats as nat),
        None => 0,
    }
}

/// The value at position `i` is the one to pick: none is larger, and those
/// before it are smaller.
pub open spec fn is_best_pick(values: Seq<u64>, i: int) -> bool {
    &&& 0 <= i < values.len()
    &&& forall|j: int| 0 <= j < values.len() ==> #[trigger] values[j] <= values[i]
    &&& forall|j: int| 0 <= j < i ==> #[trigger] values[j] < values[i]
}

/// Only one position is the one to pick.
pub proof fn lemma_best_pick_unique(values: Seq<u64>, i: int, j: int)
    requires
        is_best_pick(values, i),
        is_best_pick(values, j),
    ensures
        i == j,
{
    if i < j {
        assert(values[j] <= values[i]);
    }
    if j < i {
        assert(values[i] <= values[j]);
    }
}

/// Computes [`worth`].
pub fn item_worth(platinum: u32, ducats: u32) -> (value: u64)
    ensures
        value == worth(platinum as nat, ducats as nat),
{
    let sold: u64 = WORTH_PER_PRICE_UNIT * (platinum as u64);
    let traded: u64 = WORTH_PER_DUCAT * (ducats as u64) + (platinum as u64);
    if sold >= traded {
        sold
    } else {
        traded
    }
}

/// Computes [`slot_value`]: an unknown reward is worth nothing.
pub fn value_of(item: Option<&CatalogItem>) -> (value: u64)
    ensures
        value == slot_value(item),
        item is None ==> value == 0,
{
    match item {
        Some(item) => item_worth(item.platinum, item.ducats),
        None => 0,
    }
}

/// Position of the largest value, the first of them where several are equal;
/// none where there is no value.
pub fn best_pick(values: &Vec<u64>) -> (best: Option<usize>)
    ensures
        match best {
            Some(i) => is_best_pick(values@, i as int),
            None => values.len() == 0,
        },
{
    if values.len() == 0 {
        return None;
    }
    let mut best: usize = 0;
    let mut i: usize = 1;
    while i < values.len()
        invariant
            1 <= i <= values.len(),
            best < i,
            forall|j: int| 0 <= j < i ==> #[trigger] values[j] <= values[best as int],
            forall|j: int| 0 <= j < best ==> #[trigger] values[j] < values[best as int],
        decreases values.len() - i,
    {
        if values[i] > values[best] {
            best = i;
        }
        i += 1;
    }
    Some(best)
}

} // verus!
