//! Resolution of free-text card queries against a normalized card catalog.
//!
//! A rebuild turns raw feed records into card entities and a word index ([`normalize`]); the
//! catalog answers exact-name and substring queries ([`catalog`]); the resolver turns query
//! tokens into one card, a sorted list of candidates, or spelling suggestions ranked by edit
//! distance ([`resolve`], [`rank`]); [`display`] composes the text shown for a card.
pub mod catalog;
pub mod display;
pub mod normalize;
pub mod rank;
pub mod record;
pub mod resolve;
pub mod text;

pub use catalog::{
    check_db_exists_and_populated, find_matching_cards, find_matching_cards_scryfall_style,
    get_all_card_names, get_all_lowercase_card_names, get_all_mtg_words, get_card_by_name,
    percentage_search_strings, Catalog, DbCard, DbExistanceErrors, GetNameType,
};
pub use display::{get_all_names_for_card, get_display_string, selection_lines};
pub use normalize::{add_double_card, rebuild_catalog, MalformedRecord};
pub use rank::{distance, find_magic_words_with_close_spelling, rank_close_words};
pub use record::{
    weird_cards, BorderColour, Colour, Component, Finish, FormatLegalities, Frame, FrameEffect,
    Game, ImageStatus, ImageURIs, Legality, Prices, PromoTypes, PurchaseUris, Rarity,
    ScryfallCard, ScryfallCardFaceObject, SecurityStamp, SetType,
};
pub use resolve::{
    exact_search, requery_tokens, resolve_query, resolve_selection, selected_card_name,
    try_find_card_with_nickname, try_match_card, CardMatchResult,
};
