use zkbinfo::evetech::{EveError, EveItem, Names, RawName, SearchCategory, SearchResult};
use zkbinfo::providers::IdProvider;

fn item(id: i32, name: &str) -> EveItem {
    EveItem { id, name: String::from(name) }
}

fn result(characters: Option<Vec<EveItem>>, corporations: Option<Vec<EveItem>>) -> SearchResult {
    SearchResult {
        agents: None,
        alliances: None,
        characters,
        constellations: None,
        corporations,
        factions: None,
        inventory_types: None,
        regions: None,
        systems: None,
        stations: None,
    }
}

#[test]
fn categories_round_trip() {
    assert_eq!(SearchCategory::category(&SearchCategory::InventoryType), "inventory_type");
    assert_eq!(SearchCategory::from("solar_system"), Some(SearchCategory::SolarSystem));
    assert_eq!(SearchCategory::from("character"), Some(SearchCategory::Character));
    assert_eq!(SearchCategory::from("Character"), None);
    assert_eq!(SearchCategory::from(""), None);
}

#[test]
fn search_result_takes_the_first_id() {
    let r = result(Some(vec![item(2114350216, "Seb Odessa"), item(1, "x")]), Some(vec![]));
    assert_eq!(r.get_character_id().unwrap(), 2114350216);
    assert!(matches!(r.get_corporation_id(), Err(EveError::NotFound(SearchCategory::Corporation))));
    assert!(matches!(r.get_alliance_id(), Err(EveError::NotFound(SearchCategory::Alliance))));
}

#[test]
fn names_resolve_by_category_and_id() {
    let raw = vec![
        RawName { category: String::from("character"), id: 2114350216, name: String::from("Seb Odessa") },
        RawName { category: String::from("inventory_type"), id: 3756, name: String::from("Gnosis") },
        RawName { category: String::from("character"), id: 2114350216, name: String::from("Other") },
    ];
    let names = Names::from_raw(raw).unwrap();
    assert_eq!(names.get_name(SearchCategory::Character, 2114350216).unwrap(), "Seb Odessa");
    assert_eq!(names.get_name(SearchCategory::InventoryType, 3756).unwrap(), "Gnosis");
    assert!(matches!(
        names.get_name(SearchCategory::Character, 1),
        Err(EveError::IdNotFound(SearchCategory::Character, 1))
    ));
    assert!(matches!(
        names.get_name(SearchCategory::Alliance, 1),
        Err(EveError::CategoryNotFound(SearchCategory::Alliance))
    ));
    let bad = vec![RawName { category: String::from("planet"), id: 1, name: String::from("p") }];
    assert!(matches!(Names::from_raw(bad), Err(EveError::NotACategory(_))));
}

#[test]
fn id_cache_keeps_first_ids_and_evicts_oldest() {
    let mut cache = IdProvider::new(2);
    assert_eq!(cache.find_id("Seb Odessa", SearchCategory::Character), None);
    cache.update(&result(
        Some(vec![item(2114350216, "Seb Odessa"), item(7, "Seb Odessa")]),
        Some(vec![item(98573194, "SO Corporation")]),
    ));
    assert_eq!(cache.find_id("Seb Odessa", SearchCategory::Character), Some(2114350216));
    assert_eq!(cache.find_id("SO Corporation", SearchCategory::Corporation), Some(98573194));
    assert_eq!(cache.find_id("SO Corporation", SearchCategory::Character), None);
    assert_eq!(cache.find_id("SO Corporation", SearchCategory::Station), None);
    cache.update(&result(Some(vec![item(1, "A"), item(2, "B")]), None));
    assert_eq!(cache.find_id("Seb Odessa", SearchCategory::Character), None);
    assert_eq!(cache.find_id("A", SearchCategory::Character), Some(1));
    assert_eq!(cache.find_id("B", SearchCategory::Character), Some(2));
}
