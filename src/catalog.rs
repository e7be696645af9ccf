//! The card catalog: entities, the word index, and the store's query contract.
use vstd::prelude::*;

use crate::text::{contains_str, has_infix, lemma_views_push, views};

verus! {

/// One playable face of a catalog item.
#[derive(Debug)]
pub struct DbCard {
    pub scryfall_uuid: [u8; 16],
    pub name: String,
    pub lowercase_name: String,
    pub type_line: String,
    pub oracle_text: Option<String>,
    pub power_toughness: Option<String>,
    pub loyalty: Option<String>,
    pub mana_cost: Option<String>,
    pub scryfall_uri: Option<String>,
    /// The name of the other face, for items with two faces.
    pub oc_name: Option<String>,
}

/// The mathematical content of a [`DbCard`].
pub struct CardView {
    pub scryfall_uuid: [u8; 16],
    pub name: Seq<char>,
    pub lowercase_name: Seq<char>,
    pub type_line: Seq<char>,
    pub oracle_text: Option<Seq<char>>,
    pub power_toughness: Option<Seq<char>>,
    pub loyalty: Option<Seq<char>>,
    pub mana_cost: Option<Seq<char>>,
    pub scryfall_uri: Option<Seq<char>>,
    pub oc_name: Option<Seq<char>>,
}

/// The view of an optional string.
pub open spec fn opt_view(o: Option<String>) -> Option<Seq<char>> {
    match o {
        Some(s) => Some(s@),
        None => None,
    }
}

impl View for DbCard {
    type V = CardView;

    open spec fn view(&self) -> CardView {
        CardView {
            scryfall_uuid: self.scryfall_uuid,
            name: self.name@,
            lowercase_name: self.lowercase_name@,
            type_line: self.type_line@,
            oracle_text: opt_view(self.oracle_text),
            power_toughness: opt_view(self.power_toughness),
            loyalty: opt_view(self.loyalty),
            mana_cost: opt_view(self.mana_cost),
            scryfall_uri: opt_view(self.scryfall_uri),
            oc_name: opt_view(self.oc_name),
        }
    }
}

/// A copy of an optional string.
pub fn clone_opt(o: &Option<String>) -> (r: Option<String>)
    ensures
        r == *o,
{
    match o {
        Some(s) => Some(s.clone()),
        None => None,
    }
}

impl Clone for DbCard {
    fn clone(&self) -> (r: DbCard)
        ensures
            r == *self,
    {
        DbCard {
            scryfall_uuid: self.scryfall_uuid,
            name: self.name.clone(),
            lowercase_name: self.lowercase_name.clone(),
            type_line: self.type_line.clone(),
            oracle_text: clone_opt(&self.oracle_text),
            power_toughness: clone_opt(&self.power_toughness),
            loyalty: clone_opt(&self.loyalty),
            mana_cost: clone_opt(&self.mana_cost),
            scryfall_uri: clone_opt(&self.scryfall_uri),
            oc_name: clone_opt(&self.oc_name),
        }
    }
}

/// The views of a sequence of cards.
pub open spec fn card_views(v: Seq<DbCard>) -> Seq<CardView> {
    v.map_values(|c: DbCard| c@)
}

/// Which name a lookup compares against.
pub enum GetNameType {
    Name,
    LowercaseName,
}

/// The name of `c` that a lookup of kind `t` compares against.
pub open spec fn name_of_kind(c: CardView, t: GetNameType) -> Seq<char> {
    match t {
        GetNameType::Name => c.name,
        GetNameType::LowercaseName => c.lowercase_name,
    }
}

/// The first card whose name of kind `t` is `name`.
pub open spec fn lookup(cards: Seq<CardView>, name: Seq<char>, t: GetNameType) -> Option<CardView>
    decreases cards.len(),
{
    if cards.len() == 0 {
        None
    } else if name_of_kind(cards[0], t) == name {
        Some(cards[0])
    } else {
        lookup(cards.drop_first(), name, t)
    }
}

/// A lookup by a name that some card has finds a card with that name.
pub proof fn lemma_lookup_finds(cards: Seq<CardView>, i: int, t: GetNameType)
    requires
        0 <= i < cards.len(),
    ensures
        lookup(cards, name_of_kind(cards[i], t), t) is Some,
        name_of_kind(lookup(cards, name_of_kind(cards[i], t), t)->0, t) == name_of_kind(cards[i], t),
    decreases cards.len(),
{
    if i > 0 && name_of_kind(cards[0], t) != name_of_kind(cards[i], t) {
        assert(cards.drop_first()[i - 1] == cards[i]);
        lemma_lookup_finds(cards.drop_first(), i - 1, t);
    }
}

/// A word is added to the index only when it is not there yet.
pub open spec fn upsert(ws: Seq<Seq<char>>, w: Seq<char>) -> Seq<Seq<char>> {
    if ws.contains(w) {
        ws
    } else {
        ws.push(w)
    }
}

/// The index after each word of `new` is added in turn.
pub open spec fn upsert_all(ws: Seq<Seq<char>>, new: Seq<Seq<char>>) -> Seq<Seq<char>>
    decreases new.len(),
{
    if new.len() == 0 {
        ws
    } else {
        upsert(upsert_all(ws, new.drop_last()), new.last())
    }
}

/// Adding two runs of words is adding their concatenation.
pub proof fn lemma_upsert_all_concat(ws: Seq<Seq<char>>, a: Seq<Seq<char>>, b: Seq<Seq<char>>)
    ensures
        upsert_all(upsert_all(ws, a), b) == upsert_all(ws, a + b),
    decreases b.len(),
{
    if b.len() == 0 {
        assert(a + b == a);
    } else {
        lemma_upsert_all_concat(ws, a, b.drop_last());
        assert((a + b).drop_last() == a + b.drop_last());
        assert((a + b).last() == b.last());
    }
}

/// The mathematical content of a [`Catalog`].
pub struct CatalogView {
    pub cards: Seq<CardView>,
    pub words: Seq<Seq<char>>,
}

/// The catalog store: the card entities and the word index.
#[derive(Debug)]
pub struct Catalog {
    cards: Vec<DbCard>,
    words: Vec<String>,
}

impl View for Catalog {
    type V = CatalogView;

    closed spec fn view(&self) -> CatalogView {
        CatalogView { cards: card_views(self.cards@), words: views(self.words@) }
    }
}

impl Catalog {
    /// The word index holds each word once.
    pub open spec fn wf(&self) -> bool {
        self@.words.no_duplicates()
    }

    /// An empty catalog.
    pub fn new() -> (r: Catalog)
        ensures
            r.wf(),
            r@.cards == Seq::<CardView>::empty(),
            r@.words == Seq::<Seq<char>>::empty(),
    {
        let r = Catalog { cards: Vec::new(), words: Vec::new() };
        assert(r@.cards =~= Seq::<CardView>::empty());
        assert(r@.words =~= Seq::<Seq<char>>::empty());
        r
    }

    /// Appends an entity.
    pub fn insert_card(&mut self, card: DbCard)
        ensures
            final(self)@.cards == old(self)@.cards.push(card@),
            final(self)@.words == old(self)@.words,
    {
        self.cards.push(card);
        assert(card_views(self.cards@) =~= card_views(old(self).cards@).push(card@));
    }

    /// Adds a word to the index; a word already there is left as it is.
    pub fn insert_word(&mut self, word: String)
        requires
            old(self).wf(),
        ensures
            final(self).wf(),
            final(self)@.words == upsert(old(self)@.words, word@),
            final(self)@.cards == old(self)@.cards,
    {
        let mut i: usize = 0;
        while i < self.words.len()
            invariant
                *self == *old(self),
                self.wf(),
                i <= self.words.len(),
                forall|j: int| 0 <= j < i ==> self@.words[j] != word@,
            decreases self.words.len() - i,
        {
            if self.words[i] == word {
                assert(self@.words[i as int] == word@);
                return;
            }
            i = i + 1;
        }
        assert(!self@.words.contains(word@));
        self.words.push(word);
        assert(views(self.words@) =~= views(old(self).words@).push(word@));
    }

    /// Builds a catalog from stored entities and words; repeated words are kept once.
    pub fn from_parts(cards: Vec<DbCard>, words: Vec<String>) -> (r: Catalog)
        ensures
            r.wf(),
            r@.cards == card_views(cards@),
            r@.words == upsert_all(Seq::empty(), views(words@)),
    {
        let mut r = Catalog { cards, words: Vec::new() };
        assert(r@.words =~= Seq::<Seq<char>>::empty());
        let mut i: usize = 0;
        while i < words.len()
            invariant
                i <= words.len(),
                r.wf(),
                r@.cards == card_views(cards@),
                r@.words == upsert_all(Seq::empty(), views(words@).take(i as int)),
            decreases words.len() - i,
        {
            assert(views(words@).take(i + 1).drop_last() == views(words@).take(i as int));
            r.insert_word(words[i].clone());
            i = i + 1;
        }
        assert(views(words@).take(words.len() as int) == views(words@));
        r
    }

    /// The entities, in order.
    pub fn cards(&self) -> (r: &Vec<DbCard>)
        ensures
            card_views(r@) == self@.cards,
    {
        &self.cards
    }

    /// The number of entities.
    pub fn card_count(&self) -> (r: usize)
        ensures
            r == self@.cards.len(),
    {
        self.cards.len()
    }

    /// The number of indexed words.
    pub fn word_count(&self) -> (r: usize)
        ensures
            r == self@.words.len(),
    {
        self.words.len()
    }
}

/// Every display name, in entity order.
pub fn get_all_card_names(catalog: &Catalog) -> (r: Vec<String>)
    ensures
        views(r@) == catalog@.cards.map_values(|c: CardView| c.name),
{
    let mut r: Vec<String> = Vec::new();
    for i in 0..catalog.cards.len()
        invariant
            views(r@) == catalog@.cards.map_values(|c: CardView| c.name).take(i as int),
    {
        let ghost before = r@;
        let x = catalog.cards[i].name.clone();
        r.push(x);
        proof {
            lemma_views_push(before, x);
            assert(catalog@.cards.map_values(|c: CardView| c.name).take(i + 1)
                =~= catalog@.cards.map_values(|c: CardView| c.name).take(i as int).push(x@));
        }
    }
    assert(catalog@.cards.map_values(|c: CardView| c.name).take(catalog.cards.len() as int)
        =~= catalog@.cards.map_values(|c: CardView| c.name));
    r
}

/// Every lowercase name, in entity order.
pub fn get_all_lowercase_card_names(catalog: &Catalog) -> (r: Vec<String>)
    ensures
        views(r@) == catalog@.cards.map_values(|c: CardView| c.lowercase_name),
{
    let mut r: Vec<String> = Vec::new();
    for i in 0..catalog.cards.len()
        invariant
            views(r@) == catalog@.cards.map_values(|c: CardView| c.lowercase_name).take(i as int),
    {
        let ghost before = r@;
        let x = catalog.cards[i].lowercase_name.clone();
        r.push(x);
        proof {
            lemma_views_push(before, x);
            assert(catalog@.cards.map_values(|c: CardView| c.lowercase_name).take(i + 1)
                =~= catalog@.cards.map_values(|c: CardView| c.lowercase_name).take(i as int).push(x@));
        }
    }
    assert(catalog@.cards.map_values(|c: CardView| c.lowercase_name).take(
        catalog.cards.len() as int,
    ) =~= catalog@.cards.map_values(|c: CardView| c.lowercase_name));
    r
}

/// Every indexed word, in the order of the index.
pub fn get_all_mtg_words(catalog: &Catalog) -> (r: Vec<String>)
    ensures
        views(r@) == catalog@.words,
{
    let mut r: Vec<String> = Vec::new();
    for i in 0..catalog.words.len()
        invariant
            views(r@) == catalog@.words.take(i as int),
    {
        let ghost before = r@;
        let x = catalog.words[i].clone();
        r.push(x);
        proof {
            lemma_views_push(before, x);
            assert(catalog@.words.take(i + 1) =~= catalog@.words.take(i as int).push(x@));
        }
    }
    assert(catalog@.words.take(catalog.words.len() as int) =~= catalog@.words);
    r
}

/// The first entity whose name of the given kind is exactly `name`.
pub fn get_card_by_name(catalog: &Catalog, name: &str, name_type: GetNameType) -> (r: Option<DbCard>)
    ensures
        match r {
            Some(c) => lookup(catalog@.cards, name@, name_type) == Some(c@),
            None => lookup(catalog@.cards, name@, name_type) is None,
        },
{
    let key = name.to_owned();
    let mut i: usize = 0;
    assert(catalog@.cards.skip(0) == catalog@.cards);
    while i < catalog.cards.len()
        invariant
            key@ == name@,
            i <= catalog.cards.len(),
            lookup(catalog@.cards, name@, name_type) == lookup(
                catalog@.cards.skip(i as int),
                name@,
                name_type,
            ),
        decreases catalog.cards.len() - i,
    {
        let card = &catalog.cards[i];
        let hit = match name_type {
            GetNameType::Name => card.name == key,
            GetNameType::LowercaseName => card.lowercase_name == key,
        };
        assert(catalog@.cards.skip(i as int)[0] == card@);
        if hit {
            return Some(card.clone());
        }
        assert(catalog@.cards.skip(i as int).drop_first() == catalog@.cards.skip(i + 1));
        i = i + 1;
    }
    None
}

/// `t` between two wildcard markers.
pub open spec fn wildcard(t: Seq<char>) -> Seq<char> {
    seq!['%'] + t + seq!['%']
}

/// A pattern of the form `%text%`.
pub open spec fn is_wildcarded(p: Seq<char>) -> bool {
    p.len() >= 2 && p[0] == '%' && p.last() == '%'
}

/// The text between the wildcard markers of a pattern.
pub open spec fn unwrapped(p: Seq<char>) -> Seq<char> {
    p.subrange(1, p.len() - 1)
}

/// Each search string between wildcard markers, ready for a substring query.
pub fn percentage_search_strings(search_strings: &[String]) -> (r: Vec<String>)
    ensures
        views(r@) == views(search_strings@).map_values(|t: Seq<char>| wildcard(t)),
{
    let mut r: Vec<String> = Vec::new();
    for i in 0..search_strings.len()
        invariant
            views(r@) == views(search_strings@).map_values(|t: Seq<char>| wildcard(t)).take(
                i as int,
            ),
    {
        let mut p = String::from_str("%");
        p.append(search_strings[i].as_str());
        p.append("%");
        proof {
            reveal_strlit("%");
            assert(p@ =~= wildcard(search_strings@[i as int]@));
        }
        let ghost before = r@;
        r.push(p);
        proof {
            lemma_views_push(before, p);
            assert(views(search_strings@).map_values(|t: Seq<char>| wildcard(t)).take(i + 1)
                =~= views(search_strings@).map_values(|t: Seq<char>| wildcard(t)).take(
                i as int,
            ).push(p@));
        }
    }
    assert(views(search_strings@).map_values(|t: Seq<char>| wildcard(t)).take(
        search_strings.len() as int,
    ) =~= views(search_strings@).map_values(|t: Seq<char>| wildcard(t)));
    r
}

/// Whether a lowercase name holds the text of every pattern.
pub open spec fn matches_all(lowercase_name: Seq<char>, patterns: Seq<Seq<char>>) -> bool {
    forall|k: int| 0 <= k < patterns.len() ==> has_infix(lowercase_name, unwrapped(#[trigger] patterns[k]))
}

/// The entities whose lowercase name holds the text of every pattern, in entity order.
pub open spec fn matching_cards(cards: Seq<CardView>, patterns: Seq<Seq<char>>) -> Seq<CardView> {
    cards.filter(|c: CardView| matches_all(c.lowercase_name, patterns))
}

/// Whether the lowercase name of `card` holds the text of every pattern.
fn card_matches(card: &DbCard, patterns: &[String]) -> (r: bool)
    requires
        forall|k: int| 0 <= k < patterns@.len() ==> is_wildcarded(#[trigger] patterns@[k]@),
    ensures
        r == matches_all(card@.lowercase_name, views(patterns@)),
{
    let mut k: usize = 0;
    while k < patterns.len()
        invariant
            k <= patterns.len(),
            forall|m: int| 0 <= m < patterns@.len() ==> is_wildcarded(#[trigger] patterns@[m]@),
            forall|m: int|
                0 <= m < k ==> has_infix(card@.lowercase_name, unwrapped(#[trigger] views(patterns@)[m])),
        decreases patterns.len() - k,
    {
        let p = patterns[k].as_str();
        let n = crate::text::chars_of(p).len();
        let inner = p.substring_char(1, n - 1);
        if !contains_str(card.lowercase_name.as_str(), inner) {
            assert(!has_infix(card@.lowercase_name, unwrapped(views(patterns@)[k as int])));
            return false;
        }
        k = k + 1;
    }
    true
}

/// A query with the single pattern `%t%` returns exactly the entities whose lowercase name
/// holds `t`, in entity order.
pub proof fn lemma_single_pattern_query(cards: Seq<CardView>, t: Seq<char>)
    ensures
        matching_cards(cards, seq![wildcard(t)]) == cards.filter(
            |c: CardView| has_infix(c.lowercase_name, t),
        ),
{
    assert(unwrapped(wildcard(t)) =~= t);
    let f = |c: CardView| matches_all(c.lowercase_name, seq![wildcard(t)]);
    let g = |c: CardView| has_infix(c.lowercase_name, t);
    assert forall|c: CardView| #[trigger] f(c) == g(c) by {
        if g(c) {
            assert forall|k: int| 0 <= k < 1 implies has_infix(
                c.lowercase_name,
                unwrapped(#[trigger] seq![wildcard(t)][k]),
            ) by {
                assert(seq![wildcard(t)][k] == wildcard(t));
            }
        }
        if f(c) {
            assert(seq![wildcard(t)][0] == wildcard(t));
        }
    }
    assert(f =~= g);
}

/// Every entity whose lowercase name holds the text of every `%text%` pattern, in entity order.
pub fn find_matching_cards_scryfall_style(catalog: &Catalog, percentaged_search_strings: &[String]) -> (r: Vec<DbCard>)
    requires
        percentaged_search_strings@.len() > 0,
        forall|k: int|
            0 <= k < percentaged_search_strings@.len() ==> is_wildcarded(
                #[trigger] percentaged_search_strings@[k]@,
            ),
    ensures
        card_views(r@) == matching_cards(catalog@.cards, views(percentaged_search_strings@)),
{
    let ghost pats = views(percentaged_search_strings@);
    let ghost f = |c: CardView| matches_all(c.lowercase_name, pats);
    let mut r: Vec<DbCard> = Vec::new();
    for i in 0..catalog.cards.len()
        invariant
            pats == views(percentaged_search_strings@),
            f == (|c: CardView| matches_all(c.lowercase_name, pats)),
            forall|k: int|
                0 <= k < percentaged_search_strings@.len() ==> is_wildcarded(
                    #[trigger] percentaged_search_strings@[k]@,
                ),
            card_views(r@) == catalog@.cards.take(i as int).filter(f),
    {
        assert(catalog@.cards.take(i + 1).drop_last() == catalog@.cards.take(i as int));
        assert(catalog@.cards.take(i + 1).last() == catalog.cards[i as int]@);
        reveal(Seq::filter);
        if card_matches(&catalog.cards[i], percentaged_search_strings) {
            r.push(catalog.cards[i].clone());
        }
        assert(card_views(r@) =~= catalog@.cards.take(i + 1).filter(f));
    }
    assert(catalog@.cards.take(catalog.cards.len() as int) =~= catalog@.cards);
    r
}

/// Every entity whose lowercase name holds `name`, in entity order.
pub fn find_matching_cards(catalog: &Catalog, name: &str) -> (r: Vec<DbCard>)
    ensures
        card_views(r@) == catalog@.cards.filter(|c: CardView| has_infix(c.lowercase_name, name@)),
{
    let ghost f = |c: CardView| has_infix(c.lowercase_name, name@);
    let mut r: Vec<DbCard> = Vec::new();
    for i in 0..catalog.cards.len()
        invariant
            f == (|c: CardView| has_infix(c.lowercase_name, name@)),
            card_views(r@) == catalog@.cards.take(i as int).filter(f),
    {
        assert(catalog@.cards.take(i + 1).drop_last() == catalog@.cards.take(i as int));
        assert(catalog@.cards.take(i + 1).last() == catalog.cards[i as int]@);
        reveal(Seq::filter);
        if contains_str(catalog.cards[i].lowercase_name.as_str(), name) {
            r.push(catalog.cards[i].clone());
        }
        assert(card_views(r@) =~= catalog@.cards.take(i + 1).filter(f));
    }
    assert(catalog@.cards.take(catalog.cards.len() as int) =~= catalog@.cards);
    r
}

/// Why a catalog cannot answer queries.
pub enum DbExistanceErrors {
    DbFileDoesntExist,
    DbFileIsEmptyOfCards,
    DbFileIsEmptyOfWords,
}

/// Checks that a catalog exists and holds both cards and words.
pub fn check_db_exists_and_populated(catalog: Option<&Catalog>) -> (r: Result<(), DbExistanceErrors>)
    ensures
        match catalog {
            None => r == Err::<(), DbExistanceErrors>(DbExistanceErrors::DbFileDoesntExist),
            Some(c) => if c@.cards.len() == 0 {
                r == Err::<(), DbExistanceErrors>(DbExistanceErrors::DbFileIsEmptyOfCards)
            } else if c@.words.len() == 0 {
                r == Err::<(), DbExistanceErrors>(DbExistanceErrors::DbFileIsEmptyOfWords)
            } else {
                r == Ok::<(), DbExistanceErrors>(())
            },
        },
{
    match catalog {
        None => Err(DbExistanceErrors::DbFileDoesntExist),
        Some(c) => if c.card_count() == 0 {
            Err(DbExistanceErrors::DbFileIsEmptyOfCards)
        } else if c.word_count() == 0 {
            Err(DbExistanceErrors::DbFileIsEmptyOfWords)
        } else {
            Ok(())
        },
    }
}

} // verus!
