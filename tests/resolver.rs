use magic_finder::{
    distance, exact_search, find_magic_words_with_close_spelling, get_all_names_for_card,
    get_card_by_name, get_display_string, rank_close_words, rebuild_catalog, requery_tokens,
    resolve_query, resolve_selection, selected_card_name, selection_lines,
    try_find_card_with_nickname, try_match_card, CardMatchResult, Catalog, DbCard, GetNameType,
    ScryfallCard, ScryfallCardFaceObject, SetType,
};

fn record(name: &str) -> ScryfallCard {
    ScryfallCard {
        id: [1; 16],
        name: name.to_string(),
        type_line: "Instant".to_string(),
        oracle_text: None,
        power: None,
        toughness: None,
        loyalty: None,
        mana_cost: None,
        set_type: SetType::Core,
        card_faces: None,
        scryfall_uri: format!("https://example.org/{}", name),
    }
}

fn corpus(names: &[&str]) -> Catalog {
    let records: Vec<ScryfallCard> = names.iter().map(|n| record(n)).collect();
    rebuild_catalog(&records).expect("well formed")
}

fn tokens(ts: &[&str]) -> Vec<String> {
    ts.iter().map(|t| t.to_string()).collect()
}

fn plain_card(name: &str) -> DbCard {
    DbCard {
        scryfall_uuid: [0; 16],
        name: name.to_string(),
        lowercase_name: name.to_lowercase(),
        type_line: "Instant".to_string(),
        oracle_text: None,
        power_toughness: None,
        loyalty: None,
        mana_cost: None,
        scryfall_uri: None,
        oc_name: None,
    }
}

#[test]
fn distance_counts_single_edits() {
    // "Lighming" needs a substitution (m for t) and an insertion (n) to become "Lightning".
    assert_eq!(distance("Lighming Bolt", "Lightning Bolt"), 2);
    assert_eq!(distance("Lightnng Bolt", "Lightning Bolt"), 1);
    assert!(distance("Brainstrom", "Brainstorm") <= 2);
    assert_eq!(distance("Brainstrom", "Brainstorm"), 1);
    assert_eq!(distance("bolt", "bolt"), 0);
    assert_eq!(distance("abc", "acbd"), 2);
    assert_eq!(distance("Bolt", "bolt"), 1);
}

#[test]
fn unknown_word_gives_empty_suggestions() {
    let catalog = corpus(&["Lightning Bolt", "Shock"]);
    match try_match_card(&catalog, &tokens(&["zzzznotaword"])) {
        CardMatchResult::DidYouMean(close, exact) => {
            assert!(close.is_empty());
            assert!(exact.is_empty());
        }
        other => panic!("unexpected {:?}", other),
    }
}

#[test]
fn exact_catalog_word_is_passed_through() {
    let catalog = Catalog::from_parts(Vec::new(), tokens(&["bolt", "bold", "shock"]));
    match try_match_card(&catalog, &tokens(&["bolt"])) {
        CardMatchResult::DidYouMean(close, exact) => {
            assert_eq!(exact, vec!["bolt"]);
            assert!(!close.contains(&"bolt".to_string()));
            assert!(close.is_empty());
        }
        other => panic!("unexpected {:?}", other),
    }
}

#[test]
fn exact_word_with_misspelt_word() {
    let catalog = corpus(&["Lightning Bolt", "Lightning Helix"]);
    match try_match_card(&catalog, &tokens(&["bolt", "helx"])) {
        CardMatchResult::DidYouMean(close, exact) => {
            assert_eq!(exact, vec!["bolt"]);
            assert_eq!(close, vec!["helix"]);
        }
        other => panic!("unexpected {:?}", other),
    }
}

#[test]
fn ambiguous_results_are_sorted_by_name() {
    let catalog = corpus(&["Shock", "Shivan Dragon", "Shatter"]);
    match try_match_card(&catalog, &tokens(&["sh"])) {
        CardMatchResult::MultipleCardsMatch(cards) => {
            let names: Vec<&str> = cards.iter().map(|c| c.name.as_str()).collect();
            assert_eq!(names, vec!["Shatter", "Shivan Dragon", "Shock"]);
        }
        other => panic!("unexpected {:?}", other),
    }
}

#[test]
fn sort_is_case_sensitive() {
    let catalog = corpus(&["bolt thing", "Bolt Wave", "Angry Bolt"]);
    match try_match_card(&catalog, &tokens(&["bolt"])) {
        CardMatchResult::MultipleCardsMatch(cards) => {
            let names: Vec<&str> = cards.iter().map(|c| c.name.as_str()).collect();
            assert_eq!(names, vec!["Angry Bolt", "Bolt Wave", "bolt thing"]);
        }
        other => panic!("unexpected {:?}", other),
    }
}

#[test]
fn single_match_is_found() {
    let catalog = corpus(&["Lightning Bolt", "Shock"]);
    match try_match_card(&catalog, &tokens(&["bolt", "light"])) {
        CardMatchResult::ExactCardFound(card) => assert_eq!(card.name, "Lightning Bolt"),
        other => panic!("unexpected {:?}", other),
    }
}

#[test]
fn suggestions_are_ordered_by_distance_then_discovery() {
    let catalog = Catalog::from_parts(Vec::new(), tokens(&["boltz", "bo", "bolts", "bott"]));
    let (close, exact) = find_magic_words_with_close_spelling(&catalog, &tokens(&["bolt"]));
    assert!(exact.is_empty());
    assert_eq!(
        close,
        vec![
            (1, "boltz".to_string()),
            (1, "bolts".to_string()),
            (1, "bott".to_string()),
            (2, "bo".to_string())
        ]
    );
}

#[test]
fn ranking_from_given_distances() {
    let ts = tokens(&["aa", "bb"]);
    let ws = tokens(&["x", "y", "bb"]);
    let d = vec![vec![2, 1, 3], vec![1, 2, 0]];
    let (close, exact) = rank_close_words(&ts, &ws, &d);
    assert_eq!(close, vec![(1, "y".to_string()), (2, "x".to_string())]);
    assert_eq!(exact, vec!["bb"]);
}

#[test]
fn nicknames_are_trimmed_and_case_insensitive() {
    assert_eq!(try_find_card_with_nickname("  Bob "), Some("Dark Confidant"));
    assert_eq!(try_find_card_with_nickname("K Command"), Some("Kolaghan's Command"));
    assert_eq!(try_find_card_with_nickname("kcommand"), Some("Kolaghan's Command"));
    assert_eq!(try_find_card_with_nickname("AK"), Some("Accumulated Knowledge"));
    assert_eq!(try_find_card_with_nickname("ancestral"), Some("Ancestral Recall"));
    assert_eq!(try_find_card_with_nickname("academy"), Some("Tolarian Academy"));
    assert_eq!(try_find_card_with_nickname("bobby"), None);
}

#[test]
fn query_uses_nickname_before_search() {
    let catalog = corpus(&["Dark Confidant", "Bob the Builder"]);
    match resolve_query(&catalog, " bob\n") {
        Some(CardMatchResult::ExactCardFound(card)) => assert_eq!(card.name, "Dark Confidant"),
        other => panic!("unexpected {:?}", other),
    }
    assert!(resolve_query(&catalog, "   ").is_none());
    match resolve_query(&catalog, "builder  bob the") {
        Some(CardMatchResult::ExactCardFound(card)) => assert_eq!(card.name, "Bob the Builder"),
        other => panic!("unexpected {:?}", other),
    }
}

#[test]
fn exact_search_joins_tokens() {
    let catalog = corpus(&["Lightning Bolt"]);
    let found = exact_search(&catalog, &tokens(&["Lightning", "Bolt"]));
    assert_eq!(found.expect("present").name, "Lightning Bolt");
    assert!(exact_search(&catalog, &tokens(&["lightning", "bolt"])).is_none());
}

#[test]
fn display_block_lists_present_fields() {
    let mut card = plain_card("Jace Beleren");
    card.mana_cost = Some("{1}{U}{U}".to_string());
    card.type_line = "Legendary Planeswalker — Jace".to_string();
    card.oracle_text = Some("+2: Each player draws a card.".to_string());
    card.loyalty = Some("3".to_string());
    assert_eq!(
        card.to_string(),
        "Jace Beleren\t{1}{U}{U}\nLegendary Planeswalker — Jace\n+2: Each player draws a card.\nStarting Loyalty: 3"
    );
    let mut bear = plain_card("Grizzly Bears");
    bear.power_toughness = Some("2/2".to_string());
    assert_eq!(bear.to_string(), "Grizzly Bears\nInstant\n2/2");
    assert_eq!(get_display_string(&bear), "Grizzly Bears\nInstant\n2/2");
}

#[test]
fn display_of_two_faced_card_names_other_face() {
    let mut card = plain_card("Delver of Secrets");
    card.oc_name = Some("Insectile Aberration".to_string());
    assert_eq!(
        get_all_names_for_card(&card),
        vec!["Delver of Secrets", "Insectile Aberration"]
    );
    assert_eq!(
        get_display_string(&card),
        "Delver of Secrets\nInstant\nThis card is also known as: Insectile Aberration"
    );
    let mut adventure = plain_card("Bonecrusher Giant");
    adventure.oc_name = Some("Giant".to_string());
    assert_eq!(
        get_display_string(&adventure),
        "Bonecrusher Giant\nInstant\nThis card is also known as:"
    );
}

#[test]
fn selection_round_trip() {
    let mut front = plain_card("Delver of Secrets");
    front.oc_name = Some("Insectile Aberration".to_string());
    let cards = vec![front, plain_card("Shock")];
    assert_eq!(
        selection_lines(&cards),
        "Delver of Secrets // Insectile Aberration\nShock\n"
    );
    assert_eq!(
        selected_card_name("Delver of Secrets // Insectile Aberration\n"),
        "Delver of Secrets"
    );
    assert_eq!(selected_card_name(" Shock \n"), "Shock");
    let face = |n: &str| ScryfallCardFaceObject {
        name: n.to_string(),
        type_line: None,
        oracle_text: None,
        power: None,
        toughness: None,
        loyalty: None,
        mana_cost: None,
    };
    let mut r = record("Delver of Secrets // Insectile Aberration");
    r.card_faces = Some(vec![face("Delver of Secrets"), face("Insectile Aberration")]);
    let catalog = rebuild_catalog(&vec![r]).expect("well formed");
    let picked = resolve_selection(&catalog, "Delver of Secrets // Insectile Aberration\n");
    assert_eq!(picked.expect("present").name, "Delver of Secrets");
    let back = get_card_by_name(&catalog, "Insectile Aberration", GetNameType::Name).unwrap();
    assert_eq!(back.type_line, "");
}

#[test]
fn requery_puts_choice_first() {
    let r = requery_tokens(&"helix".to_string(), &tokens(&["bolt", "light"]));
    assert_eq!(r, vec!["helix", "bolt", "light"]);
}

#[test]
fn token_nickname_is_resolved_first() {
    let catalog = corpus(&["Dark Confidant", "Bobcat"]);
    match try_match_card(&catalog, &tokens(&["bob"])) {
        CardMatchResult::ExactCardFound(card) => assert_eq!(card.name, "Dark Confidant"),
        other => panic!("unexpected {:?}", other),
    }
    match try_match_card(&catalog, &tokens(&["k", "command"])) {
        CardMatchResult::DidYouMean(_, _) => (),
        other => panic!("unexpected {:?}", other),
    }
    let without = corpus(&["Bobcat"]);
    match try_match_card(&without, &tokens(&["bob"])) {
        CardMatchResult::ExactCardFound(card) => assert_eq!(card.name, "Bobcat"),
        other => panic!("unexpected {:?}", other),
    }
}

#[test]
fn capitalised_query_is_normalized() {
    let catalog = corpus(&["Lightning Bolt", "Shock", "Æther Vial"]);
    match resolve_query(&catalog, "Lightning") {
        Some(CardMatchResult::ExactCardFound(card)) => assert_eq!(card.name, "Lightning Bolt"),
        other => panic!("unexpected {:?}", other),
    }
    match resolve_query(&catalog, "ÆTHER") {
        Some(CardMatchResult::ExactCardFound(card)) => assert_eq!(card.name, "Æther Vial"),
        other => panic!("unexpected {:?}", other),
    }
}

#[test]
fn equal_names_keep_catalog_order() {
    let face = |n: &str| ScryfallCardFaceObject {
        name: n.to_string(),
        type_line: None,
        oracle_text: None,
        power: None,
        toughness: None,
        loyalty: None,
        mana_cost: None,
    };
    let mut first = record("Xa // Same");
    first.card_faces = Some(vec![face("Xa"), face("Same")]);
    let mut second = record("Xb // Same");
    second.scryfall_uri = "https://example.org/second".to_string();
    second.card_faces = Some(vec![face("Xb"), face("Same")]);
    let catalog = rebuild_catalog(&vec![first, second]).expect("faces may share a name");
    match try_match_card(&catalog, &tokens(&["same"])) {
        CardMatchResult::MultipleCardsMatch(cards) => {
            let partners: Vec<&str> = cards.iter().map(|c| c.oc_name.as_deref().unwrap()).collect();
            assert_eq!(partners, vec!["Xa", "Xb"]);
        }
        other => panic!("unexpected {:?}", other),
    }
}

#[test]
fn whitespace_class_agrees_with_std() {
    for code in 0..=0x10FFFFu32 {
        if let Some(c) = char::from_u32(code) {
            assert_eq!(magic_finder::text::is_whitespace(c), c.is_whitespace(), "{:x}", code);
        }
    }
}
