//! The query resolver: exact match, disambiguation, or spelling suggestions.
use vstd::prelude::*;

use crate::catalog::{
    card_views, find_matching_cards_scryfall_style, get_card_by_name, lemma_lookup_finds, lookup,
    matching_cards, percentage_search_strings, unwrapped, wildcard, CardView, Catalog, DbCard,
    GetNameType,
};
use crate::rank::{distance_matrix, exact_tokens, find_magic_words_with_close_spelling, ranked_suggestions};
use crate::text::{
    lemma_precedes_total, lemma_precedes_transitive, lemma_views_push, lowercase_of, precedes,
    precedes_str, split_words, to_lowercase, trim, trimmed, views, words_of, chars_of,
    find_chars, first_occurrence, normalize, normalized,
};

verus! {

broadcast use vstd::seq_lib::group_to_multiset_ensures;

/// The outcome of resolving a query.
#[derive(Debug)]
pub enum CardMatchResult {
    /// No entity matched: suggested catalog words, and the tokens that are already catalog words.
    DidYouMean(Vec<String>, Vec<String>),
    /// Several entities matched, sorted by display name.
    MultipleCardsMatch(Vec<DbCard>),
    /// Exactly one entity matched.
    ExactCardFound(Box<DbCard>),
}

/// The entities whose lowercase name holds every token.
pub open spec fn query_matches(cards: Seq<CardView>, tokens: Seq<Seq<char>>) -> Seq<CardView> {
    matching_cards(cards, tokens.map_values(|t: Seq<char>| wildcard(t)))
}

/// Whether the entities are in ascending order of display name.
pub open spec fn sorted_by_name(s: Seq<CardView>) -> bool {
    forall|i: int, j: int| 0 <= i < j < s.len() ==> precedes(s[i].name, s[j].name)
}

/// The suggested words, nearest first.
pub open spec fn suggested_words(tokens: Seq<Seq<char>>, words: Seq<Seq<char>>) -> Seq<Seq<char>> {
    ranked_suggestions(tokens, words, distance_matrix(tokens, words)).map_values(
        |p: (usize, Seq<char>)| p.1,
    )
}

/// What resolving `tokens` against a catalog with these entities and words gives.
pub open spec fn is_resolution(
    cards: Seq<CardView>,
    words: Seq<Seq<char>>,
    tokens: Seq<Seq<char>>,
    r: CardMatchResult,
) -> bool {
    let m = query_matches(cards, tokens);
    match r {
        CardMatchResult::DidYouMean(close, exact) => {
            &&& m.len() == 0
            &&& views(close@) == suggested_words(tokens, words)
            &&& views(exact@) == exact_tokens(tokens, words)
        },
        CardMatchResult::ExactCardFound(c) => {
            &&& m.len() == 1
            &&& lookup(cards, m[0].name, GetNameType::Name) == Some(c@)
        },
        CardMatchResult::MultipleCardsMatch(v) => {
            &&& m.len() > 1
            &&& card_views(v@) == sorted_by_name_stable(m)
            &&& card_views(v@).to_multiset() == m.to_multiset()
            &&& sorted_by_name(card_views(v@))
        },
    }
}

/// What resolving `tokens` gives: the card a nickname of the joined tokens stands for, when
/// the catalog has it, and otherwise the outcome of the substring and spelling search.
pub open spec fn is_token_resolution(
    cards: Seq<CardView>,
    words: Seq<Seq<char>>,
    tokens: Seq<Seq<char>>,
    r: CardMatchResult,
) -> bool {
    match nickname_card(cards, joined(tokens)) {
        Some(c) => r matches CardMatchResult::ExactCardFound(b) && b@ == c,
        None => is_resolution(cards, words, tokens, r),
    }
}

/// Where `x` goes in `s`: after every entity whose name sorts no later than its own.
pub open spec fn insert_position(s: Seq<CardView>, x: CardView) -> int
    decreases s.len(),
{
    if s.len() == 0 || !precedes(s[0].name, x.name) {
        0
    } else {
        1 + insert_position(s.drop_first(), x)
    }
}

/// The entities sorted by display name; entities with the same name keep their order.
pub open spec fn sorted_by_name_stable(s: Seq<CardView>) -> Seq<CardView>
    decreases s.len(),
{
    if s.len() == 0 {
        s
    } else {
        let rest = sorted_by_name_stable(s.drop_last());
        rest.insert(insert_position(rest, s.last()), s.last())
    }
}

/// Entities before the position sort no later than `x`; the one at the position sorts later.
proof fn lemma_insert_position(s: Seq<CardView>, x: CardView)
    ensures
        0 <= insert_position(s, x) <= s.len(),
        forall|i: int| 0 <= i < insert_position(s, x) ==> precedes(s[i].name, x.name),
        insert_position(s, x) < s.len() ==> !precedes(s[insert_position(s, x)].name, x.name),
    decreases s.len(),
{
    if s.len() > 0 && precedes(s[0].name, x.name) {
        let t = s.drop_first();
        lemma_insert_position(t, x);
        assert forall|i: int| 0 <= i < insert_position(s, x) implies precedes(s[i].name, x.name) by {
            if i > 0 {
                assert(s[i] == t[i - 1]);
            }
        }
    }
}

/// Inserting at its position keeps a sorted sequence sorted and adds one element.
proof fn lemma_insert_sorted(s: Seq<CardView>, x: CardView)
    requires
        sorted_by_name(s),
    ensures
        0 <= insert_position(s, x) <= s.len(),
        sorted_by_name(s.insert(insert_position(s, x), x)),
        s.insert(insert_position(s, x), x).to_multiset() == s.to_multiset().insert(x),
{
    let p = insert_position(s, x);
    lemma_insert_position(s, x);
    if p < s.len() {
        lemma_precedes_total(s[p].name, x.name);
        assert forall|j: int| p <= j < s.len() implies precedes(x.name, s[j].name) by {
            if j > p {
                lemma_precedes_transitive(x.name, s[p].name, s[j].name);
            }
        }
    }
    let r = s.insert(p, x);
    s.insert_ensures(p, x);
    lemma_precedes_total(x.name, x.name);
    assert forall|i: int, j: int| 0 <= i < j < r.len() implies precedes(r[i].name, r[j].name) by {
        if j < p {
        } else if j == p {
        } else if i < p {
            assert(r[j] == s[j - 1]);
            lemma_precedes_transitive(s[i].name, x.name, s[j - 1].name);
        } else if i == p {
            assert(r[j] == s[j - 1]);
        } else {
            assert(r[i] == s[i - 1] && r[j] == s[j - 1]);
        }
    }
    assert(r.remove(p) =~= s);
    assert(r[p] == x);
    assert(r.to_multiset().count(x) > 0);
    assert(r.to_multiset().remove(x) == s.to_multiset());
    assert(r.to_multiset() =~= s.to_multiset().insert(x));
}

/// The stable sort is sorted and holds the same entities.
pub proof fn lemma_sorted_by_name_stable(s: Seq<CardView>)
    ensures
        sorted_by_name(sorted_by_name_stable(s)),
        sorted_by_name_stable(s).to_multiset() == s.to_multiset(),
    decreases s.len(),
{
    if s.len() > 0 {
        lemma_sorted_by_name_stable(s.drop_last());
        let rest = sorted_by_name_stable(s.drop_last());
        lemma_insert_sorted(rest, s.last());
        assert(s.drop_last().push(s.last()) == s);
    }
}

/// The entities sorted by display name; entities with the same name keep their order.
pub fn sort_by_name(cards: Vec<DbCard>) -> (r: Vec<DbCard>)
    ensures
        card_views(r@) == sorted_by_name_stable(card_views(cards@)),
        card_views(r@).to_multiset() == card_views(cards@).to_multiset(),
        sorted_by_name(card_views(r@)),
{
    let ghost cv = card_views(cards@);
    let mut out: Vec<DbCard> = Vec::new();
    assert(card_views(out@) =~= sorted_by_name_stable(cv.take(0)));
    for i in 0..cards.len()
        invariant
            cv == card_views(cards@),
            card_views(out@) == sorted_by_name_stable(cv.take(i as int)),
    {
        let x = cards[i].clone();
        assert(cv.take(i + 1).drop_last() == cv.take(i as int));
        assert(cv.take(i + 1).last() == x@);
        let ghost sv = card_views(out@);
        let mut p: usize = 0;
        assert(sv.skip(0) == sv);
        while p < out.len() && precedes_str(out[p].name.as_str(), x.name.as_str())
            invariant
                sv == card_views(out@),
                p <= out.len(),
                insert_position(sv, x@) == p + insert_position(sv.skip(p as int), x@),
            decreases out.len() - p,
        {
            assert(sv.skip(p as int)[0] == out@[p as int]@);
            assert(sv.skip(p as int).drop_first() == sv.skip(p + 1));
            p = p + 1;
        }
        assert(p < out.len() ==> sv.skip(p as int)[0] == out@[p as int]@);
        out.insert(p, x);
        assert(card_views(out@) =~= sv.insert(p as int, x@));
    }
    assert(cv.take(cards.len() as int) == cv);
    proof {
        lemma_sorted_by_name_stable(cv);
    }
    out
}

/// Resolves query tokens. A known nickname (the tokens joined by spaces) of a card in the
/// catalog gives that card at once. Otherwise one matching entity is re-fetched by its exact
/// display name; several are returned sorted by display name; with none, spelling suggestions
/// are made from the word index.
pub fn try_match_card(catalog: &Catalog, search_text: &Vec<String>) -> (r: CardMatchResult)
    requires
        search_text@.len() > 0,
    ensures
        is_token_resolution(catalog@.cards, catalog@.words, views(search_text@), r),
{
    let query = join_tokens(search_text);
    if let Some(name) = try_find_card_with_nickname(query.as_str()) {
        if let Some(card) = get_card_by_name(catalog, name, GetNameType::Name) {
            return CardMatchResult::ExactCardFound(Box::new(card));
        }
    }
    search_tokens(catalog, search_text)
}

/// The substring and spelling search for query tokens.
fn search_tokens(catalog: &Catalog, search_text: &Vec<String>) -> (r: CardMatchResult)
    requires
        search_text@.len() > 0,
    ensures
        is_resolution(catalog@.cards, catalog@.words, views(search_text@), r),
{
    let ghost ts = views(search_text@);
    let tokens = search_text.as_slice();
    let patterns = percentage_search_strings(tokens);
    proof {
        assert(tokens@ == search_text@);
        assert(views(patterns@) == ts.map_values(|t: Seq<char>| wildcard(t)));
        assert forall|k: int| 0 <= k < patterns@.len() implies crate::catalog::is_wildcarded(
            #[trigger] patterns@[k]@,
        ) by {
            assert(patterns@[k]@ == views(patterns@)[k]);
        }
    }
    let matching = find_matching_cards_scryfall_style(catalog, patterns.as_slice());
    let ghost m = query_matches(catalog@.cards, ts);
    assert(card_views(matching@) == m);
    if matching.len() == 0 {
        let (close, exact) = find_magic_words_with_close_spelling(catalog, search_text);
        let mut words: Vec<String> = Vec::new();
        let ghost pairs = ranked_suggestions(ts, catalog@.words, distance_matrix(ts, catalog@.words));
        for i in 0..close.len()
            invariant
                crate::rank::pair_views(close@) == pairs,
                views(words@) == pairs.map_values(|p: (usize, Seq<char>)| p.1).take(i as int),
        {
            let ghost before = words@;
            let w = close[i].1.clone();
            words.push(w);
            proof {
                lemma_views_push(before, w);
                assert(pairs[i as int].1 == w@);
                assert(pairs.map_values(|p: (usize, Seq<char>)| p.1).take(i + 1)
                    =~= pairs.map_values(|p: (usize, Seq<char>)| p.1).take(i as int).push(w@));
            }
        }
        assert(pairs.map_values(|p: (usize, Seq<char>)| p.1).take(close.len() as int)
            =~= pairs.map_values(|p: (usize, Seq<char>)| p.1));
        CardMatchResult::DidYouMean(words, exact)
    } else if matching.len() == 1 {
        proof {
            let f = |c: CardView| crate::catalog::matches_all(c.lowercase_name, views(patterns@));
            assert(m.contains(m[0]));
            catalog@.cards.lemma_filter_contains_rev(f, m[0]);
            let i = catalog@.cards.index_of(m[0]);
            lemma_lookup_finds(catalog@.cards, i, GetNameType::Name);
            assert(matching@[0]@ == m[0]);
        }
        let card = get_card_by_name(catalog, matching[0].name.as_str(), GetNameType::Name);
        CardMatchResult::ExactCardFound(Box::new(card.unwrap()))
    } else {
        let sorted = sort_by_name(matching);
        CardMatchResult::MultipleCardsMatch(sorted)
    }
}

/// The card a nickname stands for, if it is a known one.
pub open spec fn nickname_target(key: Seq<char>) -> Option<Seq<char>> {
    if key == "bob"@ {
        Some("Dark Confidant"@)
    } else if key == "academy"@ {
        Some("Tolarian Academy"@)
    } else if key == "ak"@ {
        Some("Accumulated Knowledge"@)
    } else if key == "ancestral"@ {
        Some("Ancestral Recall"@)
    } else if key == "k command"@ || key == "kcommand"@ {
        Some("Kolaghan's Command"@)
    } else {
        None
    }
}

/// The form of a search string that is looked up as a nickname.
pub open spec fn nickname_key(s: Seq<char>) -> Seq<char> {
    lowercase_of(trimmed(s))
}

/// Whether a string holds exactly the characters of a literal.
fn same_text(a: &String, b: &str) -> (r: bool)
    ensures
        r == (a@ == b@),
{
    let other = String::from_str(b);
    *a == other
}

/// The display name that a well-known nickname stands for; the search string is trimmed and
/// lowercased first.
pub fn try_find_card_with_nickname(search_string: &str) -> (r: Option<&str>)
    ensures
        match r {
            Some(name) => nickname_target(nickname_key(search_string@)) == Some(name@),
            None => nickname_target(nickname_key(search_string@)) is None,
        },
{
    let trimmed_string = trim(search_string);
    let lower_name = to_lowercase(trimmed_string.as_str());
    if same_text(&lower_name, "bob") {
        Some("Dark Confidant")
    } else if same_text(&lower_name, "academy") {
        Some("Tolarian Academy")
    } else if same_text(&lower_name, "ak") {
        Some("Accumulated Knowledge")
    } else if same_text(&lower_name, "ancestral") {
        Some("Ancestral Recall")
    } else if same_text(&lower_name, "k command") || same_text(&lower_name, "kcommand") {
        Some("Kolaghan's Command")
    } else {
        None
    }
}

/// The card found through a nickname of the search text, if any.
pub open spec fn nickname_card(cards: Seq<CardView>, search_text: Seq<char>) -> Option<CardView> {
    match nickname_target(nickname_key(search_text)) {
        Some(name) => lookup(cards, name, GetNameType::Name),
        None => None,
    }
}

/// The tokens of free search text, each in matching form.
pub open spec fn query_tokens(search_text: Seq<char>) -> Seq<Seq<char>> {
    words_of(search_text).map_values(|w: Seq<char>| normalized(w))
}

/// Resolves free search text: it is split into whitespace-separated tokens, each put in
/// matching form (transliterated, lowercased, commas removed), and resolved by
/// [`try_match_card`]. Text without any token gives `None`.
pub fn resolve_query(catalog: &Catalog, search_text: &str) -> (r: Option<CardMatchResult>)
    ensures
        words_of(search_text@).len() == 0 ==> r is None,
        words_of(search_text@).len() > 0 ==> (r matches Some(res) && is_token_resolution(
            catalog@.cards,
            catalog@.words,
            query_tokens(search_text@),
            res,
        )),
{
    let words = split_words(search_text);
    if words.len() == 0 {
        return None;
    }
    let ghost ws = views(words@);
    let mut tokens: Vec<String> = Vec::new();
    for i in 0..words.len()
        invariant
            ws == views(words@),
            ws == words_of(search_text@),
            views(tokens@) == ws.map_values(|w: Seq<char>| normalized(w)).take(i as int),
    {
        let ghost before = tokens@;
        let t = normalize(words[i].as_str());
        tokens.push(t);
        proof {
            lemma_views_push(before, t);
            assert(ws.map_values(|w: Seq<char>| normalized(w)).take(i + 1) =~= ws.map_values(
                |w: Seq<char>| normalized(w),
            ).take(i as int).push(t@));
        }
    }
    assert(ws.map_values(|w: Seq<char>| normalized(w)).take(words.len() as int) =~= ws.map_values(
        |w: Seq<char>| normalized(w),
    ));
    Some(try_match_card(catalog, &tokens))
}

/// The search strings joined by single spaces.
pub fn join_tokens(tokens: &Vec<String>) -> (r: String)
    ensures
        r@ == joined(views(tokens@)),
{
    let ghost ts = views(tokens@);
    let mut joined_text = String::new();
    assert(ts.take(0) =~= Seq::<Seq<char>>::empty());
    for i in 0..tokens.len()
        invariant
            ts == views(tokens@),
            joined_text@ == joined(ts.take(i as int)),
    {
        assert(ts.take(i + 1).drop_last() == ts.take(i as int));
        assert(ts.take(i + 1).last() == tokens@[i as int]@);
        if i > 0 {
            joined_text.append(" ");
        } else {
            assert(ts.take(1) =~= seq![tokens@[0]@]);
            assert(joined_text@ + tokens@[0]@ =~= tokens@[0]@);
        }
        joined_text.append(tokens[i].as_str());
    }
    assert(ts.take(tokens.len() as int) == ts);
    joined_text
}

/// The search strings joined by single spaces.
pub open spec fn joined(tokens: Seq<Seq<char>>) -> Seq<char>
    decreases tokens.len(),
{
    if tokens.len() == 0 {
        Seq::empty()
    } else if tokens.len() == 1 {
        tokens[0]
    } else {
        joined(tokens.drop_last()) + " "@ + tokens.last()
    }
}

/// The entity whose display name is exactly the search strings joined by single spaces.
pub fn exact_search(catalog: &Catalog, search_strings: &Vec<String>) -> (r: Option<DbCard>)
    ensures
        match r {
            Some(c) => lookup(catalog@.cards, joined(views(search_strings@)), GetNameType::Name)
                == Some(c@),
            None => lookup(catalog@.cards, joined(views(search_strings@)), GetNameType::Name) is None,
        },
{
    let search_string = join_tokens(search_strings);
    get_card_by_name(catalog, search_string.as_str(), GetNameType::Name)
}

/// The display name in a line picked from a selection list: the trimmed line up to the first
/// " // ".
pub open spec fn selection_name(line: Seq<char>) -> Seq<char> {
    trimmed(line).subrange(0, first_occurrence(trimmed(line), " // "@, 0))
}

/// The display name in a line picked from a selection list.
pub fn selected_card_name(line: &str) -> (r: String)
    ensures
        r@ == selection_name(line@),
{
    let t = trim(line);
    let tc = chars_of(t.as_str());
    let sep = chars_of(" // ");
    let end = find_chars(&tc, &sep);
    t.as_str().substring_char(0, end).to_owned()
}

/// The entity named by a line picked from a selection list, looked up by exact display name.
pub fn resolve_selection(catalog: &Catalog, line: &str) -> (r: Option<DbCard>)
    ensures
        match r {
            Some(c) => lookup(catalog@.cards, selection_name(line@), GetNameType::Name) == Some(c@),
            None => lookup(catalog@.cards, selection_name(line@), GetNameType::Name) is None,
        },
{
    let name = selected_card_name(line);
    get_card_by_name(catalog, name.as_str(), GetNameType::Name)
}

/// The tokens of a follow-up query: the chosen suggestion, then the tokens that were already
/// catalog words.
pub fn requery_tokens(chosen: &String, exact_words: &Vec<String>) -> (r: Vec<String>)
    ensures
        views(r@) == seq![chosen@] + views(exact_words@),
{
    let mut r: Vec<String> = Vec::new();
    r.push(chosen.clone());
    for i in 0..exact_words.len()
        invariant
            views(r@) == seq![chosen@] + views(exact_words@).take(i as int),
    {
        let ghost before = r@;
        let w = exact_words[i].clone();
        r.push(w);
        proof {
            lemma_views_push(before, w);
            assert(views(exact_words@).take(i + 1) =~= views(exact_words@).take(i as int).push(w@));
            assert(seq![chosen@] + views(exact_words@).take(i + 1) =~= (seq![chosen@] + views(
                exact_words@,
            ).take(i as int)).push(w@));
        }
    }
    assert(views(exact_words@).take(exact_words.len() as int) == views(exact_words@));
    r
}

/// A query made of one word of the index that matches no entity and is no nickname of a
/// catalog card comes back as suggestions
/// that hand the word back for a new query and suggest nothing in its place.
pub proof fn lemma_exact_word_passes_through(
    cards: Seq<CardView>,
    words: Seq<Seq<char>>,
    t: Seq<char>,
    r: CardMatchResult,
)
    requires
        words.contains(t),
        query_matches(cards, seq![t]).len() == 0,
        nickname_card(cards, t) is None,
        is_token_resolution(cards, words, seq![t], r),
    ensures
        r matches CardMatchResult::DidYouMean(close, exact) && views(exact@) == seq![t] && views(
            close@,
        ).len() == 0,
{
    let ts = seq![t];
    assert(joined(ts) == t);
    reveal(Seq::filter);
    assert(ts.drop_last() =~= Seq::<Seq<char>>::empty());
    assert(ts.drop_last().filter(|w: Seq<char>| words.contains(w)) =~= Seq::<Seq<char>>::empty());
    assert(exact_tokens(ts, words) =~= seq![t]);
    let d = distance_matrix(ts, words);
    assert(ts.last() == t);
    assert(ts.len() == 1);
    assert(crate::rank::suggestions_at(ts.drop_last(), words, d, 1) =~= Seq::<(usize, Seq<char>)>::empty());
    assert(crate::rank::suggestions_at(ts.drop_last(), words, d, 2) =~= Seq::<(usize, Seq<char>)>::empty());
    assert(crate::rank::suggestions_at(ts, words, d, 1) =~= Seq::<(usize, Seq<char>)>::empty());
    assert(crate::rank::suggestions_at(ts, words, d, 2) =~= Seq::<(usize, Seq<char>)>::empty());
    assert(ranked_suggestions(ts, words, d) =~= Seq::<(usize, Seq<char>)>::empty());
    assert(suggested_words(ts, words).len() == 0);
}

} // verus!
