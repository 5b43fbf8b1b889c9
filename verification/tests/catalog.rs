use wfinfo::catalog::{Catalog, CatalogError, CatalogItem, ItemCategory};

fn item(name: &str, drop_name: &str, category: ItemCategory) -> CatalogItem {
    CatalogItem {
        name: String::from(name),
        drop_name: String::from(drop_name),
        platinum: 100,
        ducats: 15,
        category,
    }
}

fn part(drop_name: &str) -> CatalogItem {
    item(drop_name, drop_name, ItemCategory::PrimePart)
}

fn catalog(items: Vec<CatalogItem>) -> Catalog {
    match Catalog::new(items) {
        Ok(catalog) => catalog,
        Err(_) => panic!("the items should make a catalog"),
    }
}

fn primes() -> Catalog {
    catalog(vec![
        part("Octavia Prime Systems Blueprint"),
        part("Octavia Prime Blueprint"),
        part("Tenora Prime Blueprint"),
        part("Harrow Prime Systems Blueprint"),
    ])
}

fn found(catalog: &Catalog, text: &str, hint: Option<ItemCategory>) -> Option<String> {
    catalog.find_item(text, hint).map(|item| item.name.clone())
}

#[test]
fn exact_name_resolves_to_its_item() {
    let catalog = primes();
    assert_eq!(
        found(&catalog, "octavia prime blueprint", None),
        Some(String::from("Octavia Prime Blueprint"))
    );
    assert_eq!(catalog.find_index("harrow prime systems blueprint", None), Some(3));
}

#[test]
fn exact_name_wins_over_a_near_name_that_is_earlier_in_the_dictionary() {
    let catalog = catalog(vec![part("abc def"), part("abc deg")]);
    assert_eq!(found(&catalog, "abc deg", None), Some(String::from("abc deg")));
    assert_eq!(found(&catalog, "abc def", None), Some(String::from("abc def")));
}

#[test]
fn one_edit_away_resolves_to_the_near_item() {
    let catalog = primes();
    assert_eq!(
        found(&catalog, "octavia prime blueprlnt", None),
        Some(String::from("Octavia Prime Blueprint"))
    );
    assert_eq!(
        found(&catalog, "tenora prime bluepint", None),
        Some(String::from("Tenora Prime Blueprint"))
    );
    assert_eq!(
        found(&catalog, "harrow prime systems blueprintt", None),
        Some(String::from("Harrow Prime Systems Blueprint"))
    );
}

#[test]
fn far_text_resolves_to_nothing() {
    let catalog = primes();
    assert_eq!(found(&catalog, "zzzzzzzzzzzzzzzzzzzzzz", None), None);
    assert_eq!(found(&catalog, "forma", None), None);
}

#[test]
fn empty_text_resolves_to_nothing() {
    let catalog = primes();
    assert_eq!(found(&catalog, "", None), None);
    assert_eq!(catalog.find_index("", None), None);
}

#[test]
fn empty_catalog_resolves_nothing() {
    let catalog = catalog(Vec::new());
    assert_eq!(catalog.len(), 0);
    assert_eq!(found(&catalog, "octavia prime blueprint", None), None);
    assert!(catalog.lookup("Octavia Prime Blueprint").is_none());
}

#[test]
fn a_third_of_the_key_may_be_wrong_and_no_more() {
    let catalog = catalog(vec![part("abcdef")]);
    assert_eq!(found(&catalog, "abcdef", None), Some(String::from("abcdef")));
    assert_eq!(found(&catalog, "abcdex", None), Some(String::from("abcdef")));
    assert_eq!(found(&catalog, "abcdxx", None), Some(String::from("abcdef")));
    assert_eq!(found(&catalog, "abcxxx", None), None);

    let short = catalog_of_one("ab");
    assert_eq!(found(&short, "ab", None), Some(String::from("ab")));
    assert_eq!(found(&short, "a", None), None);
    assert_eq!(found(&short, "ax", None), None);
}

fn catalog_of_one(drop_name: &str) -> Catalog {
    catalog(vec![part(drop_name)])
}

#[test]
fn the_nearest_is_judged_even_where_a_farther_one_would_pass() {
    // The short name is nearest at three edits, one too many for its eight
    // letters. The long name is four edits away, which its thirteen letters
    // would allow, but it is not the nearest.
    let catalog = catalog(vec![part("abcdefxy"), part("abcdefghiqrst")]);
    assert_eq!(found(&catalog, "abcdefghi", None), None);
    let alone = catalog_of_one("abcdefghiqrst");
    assert_eq!(found(&alone, "abcdefghi", None), Some(String::from("abcdefghiqrst")));
}

#[test]
fn equally_near_names_go_by_dictionary_order() {
    let one = catalog(vec![part("cat"), part("car")]);
    assert_eq!(found(&one, "cab", None), Some(String::from("car")));
    let other = catalog(vec![part("car"), part("cat")]);
    assert_eq!(found(&other, "cab", None), Some(String::from("car")));
}

#[test]
fn equal_names_go_by_position() {
    let catalog = catalog(vec![
        item("First", "Forma Blueprint", ItemCategory::Other),
        item("Second", "FORMA  blueprint", ItemCategory::Other),
    ]);
    assert_eq!(found(&catalog, "forma blueprint", None), Some(String::from("First")));
    assert_eq!(found(&catalog, "forma blueprnt", None), Some(String::from("First")));
    assert_eq!(catalog.find_index("forma blueprint", None), Some(0));
}

#[test]
fn hint_narrows_the_candidates() {
    let catalog = catalog(vec![
        item("Relic", "Axi A1 Relic", ItemCategory::Relic),
        item("Toy", "Axi A1 Relic", ItemCategory::Other),
        item("Part", "Axi Prime Blade", ItemCategory::PrimePart),
    ]);
    assert_eq!(found(&catalog, "axi al relic", None), Some(String::from("Relic")));
    assert_eq!(
        found(&catalog, "axi al relic", Some(ItemCategory::Relic)),
        Some(String::from("Relic"))
    );
    assert_eq!(
        found(&catalog, "axi al relic", Some(ItemCategory::Other)),
        Some(String::from("Toy"))
    );
    assert_eq!(found(&catalog, "axi al relic", Some(ItemCategory::PrimePart)), None);
    assert_eq!(
        found(&catalog, "axi prime blade", Some(ItemCategory::PrimePart)),
        Some(String::from("Part"))
    );
    assert_eq!(found(&catalog, "axi prime blade", Some(ItemCategory::Relic)), None);
}

#[test]
fn item_without_a_letter_is_refused() {
    let refused = Catalog::new(vec![part("Forma Blueprint"), part("???"), part("")]);
    assert!(matches!(refused, Err(CatalogError::NamelessItem(1))));
    let refused = Catalog::new(vec![part("")]);
    assert!(matches!(refused, Err(CatalogError::NamelessItem(0))));
    assert!(Catalog::new(vec![part("x")]).is_ok());
}

#[test]
fn items_are_kept_in_order() {
    let catalog = primes();
    assert_eq!(catalog.len(), 4);
    assert_eq!(catalog.items().len(), 4);
    assert_eq!(catalog.get(2).drop_name, "Tenora Prime Blueprint");
    assert_eq!(catalog.items()[0].drop_name, "Octavia Prime Systems Blueprint");
}

#[test]
fn lookup_goes_by_the_canonical_name() {
    let catalog = primes();
    assert_eq!(
        catalog.lookup("Octavia Prime Blueprint").map(|item| item.name.clone()),
        Some(String::from("Octavia Prime Blueprint"))
    );
    assert_eq!(
        catalog.lookup("  OCTAVIA prime\nBlueprint!").map(|item| item.name.clone()),
        Some(String::from("Octavia Prime Blueprint"))
    );
    assert!(catalog.lookup("Octavia Prime Blueprin").is_none());
    assert!(catalog.lookup("").is_none());
}
