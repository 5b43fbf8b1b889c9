use wfinfo::catalog::{CatalogItem, ItemCategory};
use wfinfo::ranking::{best_pick, item_worth, value_of};

fn item(platinum: u32, ducats: u32) -> CatalogItem {
    CatalogItem {
        name: String::from("Thing"),
        drop_name: String::from("Thing"),
        platinum,
        ducats,
        category: ItemCategory::PrimePart,
    }
}

#[test]
fn worth_is_the_larger_of_selling_and_trading() {
    // 12.50 platinum against 45 ducats: 4.5 + 0.125 platinum on the ducat side.
    assert_eq!(item_worth(1250, 45), 125_000);
    // 2.00 platinum against 100 ducats: 10 + 0.02 platinum on the ducat side.
    assert_eq!(item_worth(200, 100), 100_200);
    assert_eq!(item_worth(0, 0), 0);
    assert_eq!(item_worth(u32::MAX, u32::MAX), 1000 * (u32::MAX as u64) + (u32::MAX as u64));
}

#[test]
fn unknown_reward_is_worth_nothing() {
    assert_eq!(value_of(None), 0);
    let known = item(1000, 0);
    assert_eq!(value_of(Some(&known)), 100_000);
}

#[test]
fn ranking_picks_the_dearest_of_three() {
    let first = item(1000, 0);
    let third = item(2500, 0);
    let values = vec![value_of(Some(&first)), value_of(None), value_of(Some(&third))];
    assert_eq!(values, vec![100_000, 0, 250_000]);
    assert_eq!(best_pick(&values), Some(2));
}

#[test]
fn ranking_ties_go_to_the_leftmost() {
    assert_eq!(best_pick(&vec![5, 9, 9, 3]), Some(1));
    assert_eq!(best_pick(&vec![0, 0, 0]), Some(0));
}

#[test]
fn ranking_of_nothing_is_nothing() {
    assert_eq!(best_pick(&Vec::new()), None);
}
