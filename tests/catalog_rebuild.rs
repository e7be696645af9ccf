use magic_finder::{
    check_db_exists_and_populated, find_matching_cards, find_matching_cards_scryfall_style,
    get_all_card_names, get_all_lowercase_card_names, get_all_mtg_words, get_card_by_name,
    percentage_search_strings, rebuild_catalog, weird_cards, Catalog, DbExistanceErrors,
    GetNameType, ScryfallCard, ScryfallCardFaceObject, SetType,
};

fn record(name: &str, type_line: &str, set_type: SetType) -> ScryfallCard {
    ScryfallCard {
        id: [7; 16],
        name: name.to_string(),
        type_line: type_line.to_string(),
        oracle_text: None,
        power: None,
        toughness: None,
        loyalty: None,
        mana_cost: None,
        set_type,
        card_faces: None,
        scryfall_uri: format!("https://example.org/{}", name),
    }
}

fn face(name: &str, type_line: &str) -> ScryfallCardFaceObject {
    ScryfallCardFaceObject {
        name: name.to_string(),
        type_line: Some(type_line.to_string()),
        oracle_text: None,
        power: None,
        toughness: None,
        loyalty: None,
        mana_cost: None,
    }
}

fn delver() -> ScryfallCard {
    let mut front = face("Delver of Secrets", "Creature — Human Wizard");
    front.power = Some("1".to_string());
    front.toughness = Some("1".to_string());
    front.mana_cost = Some("{U}".to_string());
    let mut back = face("Insectile Aberration", "Creature — Human Insect");
    back.power = Some("3".to_string());
    back.toughness = Some("2".to_string());
    back.oracle_text = Some("Flying".to_string());
    let mut r = record(
        "Delver of Secrets // Insectile Aberration",
        "Creature — Human Wizard // Creature — Human Insect",
        SetType::Expansion,
    );
    r.card_faces = Some(vec![front, back]);
    r
}

fn corpus(names: &[&str]) -> Catalog {
    let records: Vec<ScryfallCard> = names
        .iter()
        .map(|n| record(n, "Instant", SetType::Core))
        .collect();
    match rebuild_catalog(&records) {
        Ok(c) => c,
        Err(e) => panic!("rebuild failed at {}", e.position),
    }
}

#[test]
fn exact_name_lookup_finds_every_inserted_name() {
    let names = ["Lightning Bolt", "Shock", "Æther Vial", "Ral, Izzet Viceroy"];
    let catalog = corpus(&names);
    for n in names {
        let card = get_card_by_name(&catalog, n, GetNameType::Name).expect("present");
        assert_eq!(card.name, n);
    }
    assert!(get_card_by_name(&catalog, "lightning bolt", GetNameType::Name).is_none());
    let by_lower = get_card_by_name(&catalog, "lightning bolt", GetNameType::LowercaseName);
    assert_eq!(by_lower.expect("present").name, "Lightning Bolt");
}

#[test]
fn lowercase_names_are_folded_without_commas() {
    let catalog = corpus(&["Ral, Izzet Viceroy", "Jötun Grunt", "Æther Vial"]);
    assert_eq!(
        get_all_lowercase_card_names(&catalog),
        vec!["ral izzet viceroy", "jotun grunt", "aether vial"]
    );
    assert_eq!(
        get_all_card_names(&catalog),
        vec!["Ral, Izzet Viceroy", "Jötun Grunt", "Æther Vial"]
    );
}

#[test]
fn word_index_holds_each_folded_word_once() {
    let catalog = corpus(&["Lightning Bolt", "Lightning Helix", "Ral, Izzet Viceroy"]);
    assert_eq!(
        get_all_mtg_words(&catalog),
        vec!["lightning", "bolt", "helix", "ral", "izzet", "viceroy"]
    );
}

#[test]
fn substring_query_for_light_returns_exactly_the_matching_cards() {
    let catalog = corpus(&["Lightning Bolt", "Shock", "Twilight Prophet", "Lighthouse Chronologist"]);
    let patterns = percentage_search_strings(&["light".to_string()]);
    assert_eq!(patterns, vec!["%light%"]);
    let found = find_matching_cards_scryfall_style(&catalog, &patterns);
    let names: Vec<&str> = found.iter().map(|c| c.name.as_str()).collect();
    assert_eq!(names, vec!["Lightning Bolt", "Twilight Prophet", "Lighthouse Chronologist"]);
}

#[test]
fn substring_query_needs_every_token() {
    let catalog = corpus(&["Lightning Bolt", "Lightning Helix", "Bolt of Keranos"]);
    let patterns = percentage_search_strings(&["bolt".to_string(), "light".to_string()]);
    let found = find_matching_cards_scryfall_style(&catalog, &patterns);
    assert_eq!(found.len(), 1);
    assert_eq!(found[0].name, "Lightning Bolt");
    let single = find_matching_cards(&catalog, "bolt");
    assert_eq!(single.len(), 2);
}

#[test]
fn double_faced_card_becomes_two_linked_entities() {
    let catalog = rebuild_catalog(&vec![delver()]).expect("well formed");
    let front = get_card_by_name(&catalog, "Delver of Secrets", GetNameType::Name).expect("front");
    let back = get_card_by_name(&catalog, "Insectile Aberration", GetNameType::Name).expect("back");
    assert_eq!(front.oc_name.as_deref(), Some("Insectile Aberration"));
    assert_eq!(back.oc_name.as_deref(), Some("Delver of Secrets"));
    assert_eq!(front.power_toughness.as_deref(), Some("1/1"));
    assert_eq!(back.power_toughness.as_deref(), Some("3/2"));
    assert_eq!(front.oracle_text.as_deref(), Some("<No Oracle Text>"));
    assert_eq!(back.oracle_text.as_deref(), Some("Flying"));
    assert_eq!(
        front.scryfall_uri.as_deref(),
        Some("https://example.org/Delver of Secrets // Insectile Aberration")
    );
    assert_eq!(back.scryfall_uri, None);
    assert_eq!(get_all_card_names(&catalog).len(), 2);
    assert_eq!(
        get_all_mtg_words(&catalog),
        vec!["delver", "of", "secrets", "insectile", "aberration"]
    );
}

#[test]
fn planes_are_dropped_and_planeswalkers_kept() {
    let records = vec![
        record("Equilor", "Plane - Equilor", SetType::Planechase),
        record("Jace Beleren", "Planeswalker — Jace", SetType::Core),
    ];
    let catalog = rebuild_catalog(&records).expect("well formed");
    assert_eq!(get_all_card_names(&catalog), vec!["Jace Beleren"]);
    assert!(get_card_by_name(&catalog, "Equilor", GetNameType::Name).is_none());
    assert_eq!(get_all_mtg_words(&catalog), vec!["jace", "beleren"]);
}

#[test]
fn tokens_and_metadata_sets_are_dropped() {
    let records = vec![
        record("Goblin", "Token Creature — Goblin", SetType::Expansion),
        record("Art Card", "Card", SetType::Memorabilia),
        record("Game Piece", "Card", SetType::Minigame),
        record("Soldier", "Creature — Soldier", SetType::Token),
        record("Shock", "Instant", SetType::Core),
    ];
    let catalog = rebuild_catalog(&records).expect("well formed");
    assert_eq!(get_all_card_names(&catalog), vec!["Shock"]);
}

#[test]
fn power_without_toughness_aborts_the_rebuild() {
    let mut bad = record("Broken Beast", "Creature — Beast", SetType::Core);
    bad.power = Some("2".to_string());
    let records = vec![record("Shock", "Instant", SetType::Core), bad];
    let err = rebuild_catalog(&records).expect_err("malformed");
    assert_eq!(err.position, 1);
}

#[test]
fn malformed_record_that_is_filtered_does_not_abort() {
    let mut bad = record("Broken Token", "Token Creature — Beast", SetType::Core);
    bad.power = Some("2".to_string());
    let catalog = rebuild_catalog(&vec![bad]).expect("filtered first");
    assert!(get_all_card_names(&catalog).is_empty());
}

#[test]
fn single_face_record_fields() {
    let mut r = record("Grizzly Bears", "Creature — Bear", SetType::Core);
    r.power = Some("2".to_string());
    r.toughness = Some("2".to_string());
    r.mana_cost = Some("{1}{G}".to_string());
    r.oracle_text = Some("".to_string());
    let catalog = rebuild_catalog(&vec![r]).expect("well formed");
    let c = get_card_by_name(&catalog, "Grizzly Bears", GetNameType::Name).expect("present");
    assert_eq!(c.scryfall_uuid, [7; 16]);
    assert_eq!(c.power_toughness.as_deref(), Some("2/2"));
    assert_eq!(c.mana_cost.as_deref(), Some("{1}{G}"));
    assert_eq!(c.oracle_text.as_deref(), Some(""));
    assert_eq!(c.oc_name, None);
}

#[test]
fn rebuild_replaces_catalog_only_on_success() {
    let mut catalog = corpus(&["Shock"]);
    let mut bad = record("Broken Beast", "Creature — Beast", SetType::Core);
    bad.power = Some("2".to_string());
    assert!(catalog.rebuild(&vec![bad]).is_err());
    assert_eq!(get_all_card_names(&catalog), vec!["Shock"]);
    assert!(catalog.rebuild(&vec![record("Opt", "Instant", SetType::Core)]).is_ok());
    assert_eq!(get_all_card_names(&catalog), vec!["Opt"]);
}

#[test]
fn store_population_is_reported() {
    assert!(matches!(
        check_db_exists_and_populated(None),
        Err(DbExistanceErrors::DbFileDoesntExist)
    ));
    let empty = Catalog::new();
    assert!(matches!(
        check_db_exists_and_populated(Some(&empty)),
        Err(DbExistanceErrors::DbFileIsEmptyOfCards)
    ));
    let full = corpus(&["Shock"]);
    let cards: Vec<_> = vec![get_card_by_name(&full, "Shock", GetNameType::Name).unwrap()];
    let no_words = Catalog::from_parts(cards, Vec::new());
    assert!(matches!(
        check_db_exists_and_populated(Some(&no_words)),
        Err(DbExistanceErrors::DbFileIsEmptyOfWords)
    ));
    assert!(check_db_exists_and_populated(Some(&full)).is_ok());
}

#[test]
fn stored_words_are_deduplicated_on_load() {
    let catalog = Catalog::from_parts(
        Vec::new(),
        vec!["bolt".to_string(), "shock".to_string(), "bolt".to_string()],
    );
    assert_eq!(get_all_mtg_words(&catalog), vec!["bolt", "shock"]);
    assert_eq!(catalog.word_count(), 2);
}

#[test]
fn weird_card_list_is_complete() {
    let ids = weird_cards();
    assert_eq!(ids.len(), 51);
    assert_eq!(ids[0], "018830b2-dff9-45f3-9cc2-dc5b2eec0e54");
    assert_eq!(ids[50], "9052f5c7-ee3b-457d-97ca-ac6b4518997c");
}

#[test]
fn duplicate_single_face_name_aborts_the_rebuild() {
    let records = vec![
        record("Shock", "Instant", SetType::Core),
        record("Opt", "Instant", SetType::Core),
        record("Shock", "Instant", SetType::Expansion),
    ];
    let err = rebuild_catalog(&records).expect_err("duplicate name");
    assert_eq!(err.position, 2);
}

#[test]
fn face_named_like_single_card_aborts_the_rebuild() {
    let mut dfc = delver();
    dfc.card_faces = Some(vec![face("Shock", "Instant"), face("Other Side", "Instant")]);
    let records = vec![record("Shock", "Instant", SetType::Core), dfc];
    let err = rebuild_catalog(&records).expect_err("single-face name reused");
    assert_eq!(err.position, 1);
}

/// Builds a catalog from a small feed covering each kind of record the filters meet.
#[test]
fn test_database_load() {
    let mut bear = record("Grizzly Bears", "Creature — Bear", SetType::Core);
    bear.power = Some("2".to_string());
    bear.toughness = Some("2".to_string());
    let records = vec![
        bear,
        delver(),
        record("Equilor", "Plane - Equilor", SetType::Planechase),
        record("Jace Beleren", "Legendary Planeswalker — Jace", SetType::Core),
        record("Goblin", "Token Creature — Goblin", SetType::Token),
    ];
    let catalog = rebuild_catalog(&records).expect("the feed loads");
    assert_eq!(
        get_all_card_names(&catalog),
        vec!["Grizzly Bears", "Delver of Secrets", "Insectile Aberration", "Jace Beleren"]
    );
    assert!(check_db_exists_and_populated(Some(&catalog)).is_ok());
}
