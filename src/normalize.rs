//! Turning raw feed records into card entities and the word index.
use vstd::prelude::*;

use crate::catalog::{lookup, GetNameType, opt_view, upsert_all, lemma_upsert_all_concat, CardView, Catalog, DbCard};
use crate::record::{ScryfallCard, ScryfallCardFaceObject, SetType};
use crate::text::{
    is_white_space, lemma_words_after_last, lemma_words_after_word, occurs_at,
    lowercase_of, transliteration_of,
    contains_str, has_infix, lemma_strip_commas_has_none, normalize, normalized, split_words,
    views, words_of,
};

verus! {

/// Set kinds whose records are catalog metadata rather than playable cards.
pub open spec fn is_excluded_set(t: SetType) -> bool {
    t == SetType::Memorabilia || t == SetType::Minigame || t == SetType::Token
}

/// Whether "Plane" is one of the whitespace-separated words of a type line.
pub open spec fn has_plane_type(type_line: Seq<char>) -> bool {
    words_of(type_line).contains("Plane"@)
}

/// Whether the filtering policy drops a record.
pub open spec fn is_filtered(c: ScryfallCard) -> bool {
    has_plane_type(c.type_line@) || is_excluded_set(c.set_type) || has_infix(c.type_line@, "Token"@)
}

/// A power is never given without a toughness.
pub open spec fn pt_complete(power: Option<String>, toughness: Option<String>) -> bool {
    power is Some ==> toughness is Some
}

/// Whether a record breaks an invariant that a rebuild requires.
pub open spec fn is_malformed(c: ScryfallCard) -> bool {
    match c.card_faces {
        Some(fs) => fs@.len() < 2 || !pt_complete(fs@[0].power, fs@[0].toughness) || !pt_complete(
            fs@[1].power,
            fs@[1].toughness,
        ),
        None => !pt_complete(c.power, c.toughness),
    }
}

/// Power and toughness joined by a slash, when there is a power.
pub open spec fn power_toughness_of(power: Option<String>, toughness: Option<String>) -> Option<
    Seq<char>,
> {
    match (power, toughness) {
        (Some(p), Some(t)) => Some(p@ + "/"@ + t@),
        _ => None,
    }
}

/// The rules text, or the placeholder when there is none.
pub open spec fn oracle_or_placeholder(o: Option<String>) -> Seq<char> {
    match o {
        Some(t) => t@,
        None => "<No Oracle Text>"@,
    }
}

/// The entity for one face of a two-faced record.
pub open spec fn face_entity(
    f: ScryfallCardFaceObject,
    id: [u8; 16],
    uri: Option<Seq<char>>,
    partner: Seq<char>,
) -> CardView {
    CardView {
        scryfall_uuid: id,
        name: f.name@,
        lowercase_name: normalized(f.name@),
        type_line: match f.type_line {
            Some(t) => t@,
            None => Seq::empty(),
        },
        oracle_text: Some(oracle_or_placeholder(f.oracle_text)),
        power_toughness: power_toughness_of(f.power, f.toughness),
        loyalty: opt_view(f.loyalty),
        mana_cost: opt_view(f.mana_cost),
        scryfall_uri: uri,
        oc_name: Some(partner),
    }
}

/// The entity for a record with a single face.
pub open spec fn single_entity(c: ScryfallCard) -> CardView {
    CardView {
        scryfall_uuid: c.id,
        name: c.name@,
        lowercase_name: normalized(c.name@),
        type_line: c.type_line@,
        oracle_text: Some(oracle_or_placeholder(c.oracle_text)),
        power_toughness: power_toughness_of(c.power, c.toughness),
        loyalty: opt_view(c.loyalty),
        mana_cost: opt_view(c.mana_cost),
        scryfall_uri: Some(c.scryfall_uri@),
        oc_name: None,
    }
}

/// The entities of a kept record: one per face, the first two faces linked to each other.
pub open spec fn record_entities(c: ScryfallCard) -> Seq<CardView> {
    match c.card_faces {
        Some(fs) => seq![
            face_entity(fs@[0], c.id, Some(c.scryfall_uri@), fs@[1].name@),
            face_entity(fs@[1], c.id, None, fs@[0].name@),
        ],
        None => seq![single_entity(c)],
    }
}

/// The index words of a name: its whitespace-separated words in matching form.
pub open spec fn name_words(name: Seq<char>) -> Seq<Seq<char>> {
    words_of(name).map_values(|w: Seq<char>| normalized(w))
}

/// The index words of a kept record, taken from each used face's own name.
pub open spec fn record_words(c: ScryfallCard) -> Seq<Seq<char>> {
    match c.card_faces {
        Some(fs) => name_words(fs@[0].name@) + name_words(fs@[1].name@),
        None => name_words(c.name@),
    }
}

/// The entities of a corpus built from `rs`, in record order.
pub open spec fn corpus_cards(rs: Seq<ScryfallCard>) -> Seq<CardView>
    decreases rs.len(),
{
    if rs.len() == 0 {
        Seq::empty()
    } else if is_filtered(rs.last()) {
        corpus_cards(rs.drop_last())
    } else {
        corpus_cards(rs.drop_last()) + record_entities(rs.last())
    }
}

/// The word index of a corpus built from `rs`, in order of first appearance.
pub open spec fn corpus_words(rs: Seq<ScryfallCard>) -> Seq<Seq<char>>
    decreases rs.len(),
{
    if rs.len() == 0 {
        Seq::empty()
    } else if is_filtered(rs.last()) {
        corpus_words(rs.drop_last())
    } else {
        upsert_all(corpus_words(rs.drop_last()), record_words(rs.last()))
    }
}

/// Every entity of a rebuilt corpus has as lowercase name the matching form of its display
/// name, and that lowercase name holds no comma.
pub proof fn lemma_corpus_lowercase_names(rs: Seq<ScryfallCard>)
    ensures
        forall|i: int|
            0 <= i < corpus_cards(rs).len() ==> {
                &&& (#[trigger] corpus_cards(rs)[i]).lowercase_name == normalized(
                    corpus_cards(rs)[i].name,
                )
                &&& !corpus_cards(rs)[i].lowercase_name.contains(',')
            },
    decreases rs.len(),
{
    if rs.len() > 0 {
        lemma_corpus_lowercase_names(rs.drop_last());
        let prev = corpus_cards(rs.drop_last());
        let es = record_entities(rs.last());
        assert forall|i: int| 0 <= i < corpus_cards(rs).len() implies {
            &&& (#[trigger] corpus_cards(rs)[i]).lowercase_name == normalized(
                corpus_cards(rs)[i].name,
            )
            &&& !corpus_cards(rs)[i].lowercase_name.contains(',')
        } by {
            if i < prev.len() {
                assert(corpus_cards(rs)[i] == prev[i]);
            } else {
                assert(corpus_cards(rs)[i] == es[i - prev.len()]);
                lemma_strip_commas_has_none(lowercase_of(transliteration_of(es[i - prev.len()].name)));
            }
        }
    }
}

/// The two entities of a kept two-faced record name each other as partner face.
pub proof fn lemma_faces_linked(c: ScryfallCard)
    requires
        c.card_faces is Some,
        !is_malformed(c),
    ensures
        record_entities(c).len() == 2,
        record_entities(c)[0].oc_name == Some(record_entities(c)[1].name),
        record_entities(c)[1].oc_name == Some(record_entities(c)[0].name),
{
}

/// Whether no single-face entity shares its display name with another entity.
pub open spec fn single_face_names_unique(cards: Seq<CardView>) -> bool {
    forall|i: int, j: int|
        0 <= i < cards.len() && 0 <= j < cards.len() && i != j && cards[i].oc_name is None
            ==> cards[i].name != cards[j].name
}

/// Whether adding `es` to `cards` would give a single-face entity a name another entity has.
pub open spec fn names_clash(cards: Seq<CardView>, es: Seq<CardView>) -> bool {
    exists|i: int, j: int|
        0 <= i < cards.len() && 0 <= j < es.len() && cards[i].name == es[j].name && (
        cards[i].oc_name is None || es[j].oc_name is None)
}

/// A record whose type line is "Plane - Equilor" is dropped by the filters.
pub proof fn lemma_plane_record_filtered(c: ScryfallCard)
    requires
        c.type_line@ == "Plane - Equilor"@,
    ensures
        is_filtered(c),
{
    reveal_strlit("Plane - Equilor");
    reveal_strlit("Plane");
    reveal_strlit("- Equilor");
    assert forall|k: int| 0 <= k < "Plane"@.len() implies !is_white_space(#[trigger] "Plane"@[k]) by {
        if k == 0 { assert("Plane"@[k] == 'P'); } else if k == 1 { assert("Plane"@[k] == 'l'); } else if k == 2 { assert("Plane"@[k] == 'a'); } else if k == 3 { assert("Plane"@[k] == 'n'); } else if k == 4 { assert("Plane"@[k] == 'e'); }
    }
    assert("Plane - Equilor"@ =~= "Plane"@ + seq![' '] + "- Equilor"@);
    lemma_words_after_word(Seq::empty(), "Plane"@, ' ', "- Equilor"@);
    assert(Seq::<char>::empty() + "Plane"@ =~= "Plane"@);
    assert(words_of(c.type_line@)[0] == "Plane"@);
}

/// A record whose type line is "Planeswalker — Jace" passes the filters unless its set kind
/// is excluded: "Planeswalker" is not the word "Plane", and the line has no "Token".
pub proof fn lemma_planeswalker_record_kept(c: ScryfallCard)
    requires
        c.type_line@ == "Planeswalker — Jace"@,
        !is_excluded_set(c.set_type),
    ensures
        !is_filtered(c),
{
    reveal_strlit("Planeswalker — Jace");
    reveal_strlit("Planeswalker");
    reveal_strlit("—");
    reveal_strlit("Jace");
    reveal_strlit("Token");
    reveal_strlit("Plane");
    assert forall|k: int| 0 <= k < "Planeswalker"@.len() implies !is_white_space(#[trigger] "Planeswalker"@[k]) by {
        if k == 0 { assert("Planeswalker"@[k] == 'P'); } else if k == 1 { assert("Planeswalker"@[k] == 'l'); } else if k == 2 { assert("Planeswalker"@[k] == 'a'); } else if k == 3 { assert("Planeswalker"@[k] == 'n'); } else if k == 4 { assert("Planeswalker"@[k] == 'e'); } else if k == 5 { assert("Planeswalker"@[k] == 's'); } else if k == 6 { assert("Planeswalker"@[k] == 'w'); } else if k == 7 { assert("Planeswalker"@[k] == 'a'); } else if k == 8 { assert("Planeswalker"@[k] == 'l'); } else if k == 9 { assert("Planeswalker"@[k] == 'k'); } else if k == 10 { assert("Planeswalker"@[k] == 'e'); } else if k == 11 { assert("Planeswalker"@[k] == 'r'); }
    }
    assert forall|k: int| 0 <= k < "—"@.len() implies !is_white_space(#[trigger] "—"@[k]) by {
        if k == 0 { assert("—"@[k] == '—'); }
    }
    assert forall|k: int| 0 <= k < "Jace"@.len() implies !is_white_space(#[trigger] "Jace"@[k]) by {
        if k == 0 { assert("Jace"@[k] == 'J'); } else if k == 1 { assert("Jace"@[k] == 'a'); } else if k == 2 { assert("Jace"@[k] == 'c'); } else if k == 3 { assert("Jace"@[k] == 'e'); }
    }
    assert("Planeswalker — Jace"@ =~= "Planeswalker"@ + seq![' '] + ("—"@ + seq![' '] + "Jace"@));
    lemma_words_after_word(Seq::empty(), "Planeswalker"@, ' ', "—"@ + seq![' '] + "Jace"@);
    lemma_words_after_word(Seq::empty(), "—"@, ' ', "Jace"@);
    lemma_words_after_last(Seq::empty(), "Jace"@);
    assert(Seq::<char>::empty() + "Planeswalker"@ =~= "Planeswalker"@);
    assert(Seq::<char>::empty() + "—"@ =~= "—"@);
    assert(Seq::<char>::empty() + "Jace"@ =~= "Jace"@);
    let ws = words_of(c.type_line@);
    assert(ws =~= seq!["Planeswalker"@, "—"@, "Jace"@]);
    assert(!ws.contains("Plane"@)) by {
        assert forall|k: int| 0 <= k < ws.len() implies ws[k] != "Plane"@ by {
            assert(ws[k].len() != "Plane"@.len());
        }
    }
    let t = c.type_line@;
    assert forall|i: int| !occurs_at(t, "Token"@, i) by {
        if occurs_at(t, "Token"@, i) {
            assert(t.subrange(i, i + 5)[0] == 'T');
            assert(t[i] == 'T');
            if i == 0 { assert(t[i] == 'P'); } else if i == 1 { assert(t[i] == 'l'); } else if i == 2 { assert(t[i] == 'a'); } else if i == 3 { assert(t[i] == 'n'); } else if i == 4 { assert(t[i] == 'e'); } else if i == 5 { assert(t[i] == 's'); } else if i == 6 { assert(t[i] == 'w'); } else if i == 7 { assert(t[i] == 'a'); } else if i == 8 { assert(t[i] == 'l'); } else if i == 9 { assert(t[i] == 'k'); } else if i == 10 { assert(t[i] == 'e'); } else if i == 11 { assert(t[i] == 'r'); } else if i == 12 { assert(t[i] == ' '); } else if i == 13 { assert(t[i] == '—'); } else if i == 14 { assert(t[i] == ' '); }
        }
    }
}

/// A lookup in a concatenation looks in the first part, then in the second.
proof fn lemma_lookup_concat(a: Seq<CardView>, b: Seq<CardView>, n: Seq<char>)
    ensures
        lookup(a + b, n, GetNameType::Name) == match lookup(a, n, GetNameType::Name) {
            Some(x) => Some(x),
            None => lookup(b, n, GetNameType::Name),
        },
    decreases a.len(),
{
    if a.len() == 0 {
        assert(a + b =~= b);
    } else {
        assert((a + b)[0] == a[0]);
        assert((a + b).drop_first() =~= a.drop_first() + b);
        lemma_lookup_concat(a.drop_first(), b, n);
    }
}

/// A lookup of a name that no entity has finds nothing.
proof fn lemma_lookup_absent(a: Seq<CardView>, n: Seq<char>)
    requires
        forall|i: int| 0 <= i < a.len() ==> (#[trigger] a[i]).name != n,
    ensures
        lookup(a, n, GetNameType::Name) is None,
    decreases a.len(),
{
    if a.len() > 0 {
        assert forall|i: int| 0 <= i < a.drop_first().len() implies (
        #[trigger] a.drop_first()[i]).name != n by {
            assert(a.drop_first()[i] == a[i + 1]);
        }
        lemma_lookup_absent(a.drop_first(), n);
    }
}

/// Every entity of a corpus comes from a kept record.
proof fn lemma_corpus_from_records(rs: Seq<ScryfallCard>)
    ensures
        forall|i: int|
            0 <= i < corpus_cards(rs).len() ==> exists|j: int|
                0 <= j < rs.len() && !is_filtered(rs[j]) && record_entities(rs[j]).contains(
                    #[trigger] corpus_cards(rs)[i],
                ),
    decreases rs.len(),
{
    if rs.len() > 0 {
        let prev = rs.drop_last();
        lemma_corpus_from_records(prev);
        assert forall|i: int| 0 <= i < corpus_cards(rs).len() implies exists|j: int|
            0 <= j < rs.len() && !is_filtered(rs[j]) && record_entities(rs[j]).contains(
                #[trigger] corpus_cards(rs)[i],
            ) by {
            if i < corpus_cards(prev).len() {
                assert(corpus_cards(rs)[i] == corpus_cards(prev)[i]);
                let j = choose|j: int|
                    0 <= j < prev.len() && !is_filtered(prev[j]) && record_entities(
                        prev[j],
                    ).contains(corpus_cards(prev)[i]);
                assert(rs[j] == prev[j]);
            } else {
                let es = record_entities(rs.last());
                assert(corpus_cards(rs)[i] == es[i - corpus_cards(prev).len()]);
                assert(rs[rs.len() - 1] == rs.last());
            }
        }
    }
}

/// In a corpus where no other kept record has an entity named like either face of a kept
/// two-faced record, a lookup of each face's name finds an entity that names the other face
/// as its partner.
pub proof fn lemma_faces_found_by_name(rs: Seq<ScryfallCard>, k: int)
    requires
        0 <= k < rs.len(),
        !is_filtered(rs[k]),
        rs[k].card_faces is Some,
        rs[k].card_faces->0@.len() >= 2,
        forall|j: int, m: int|
            0 <= j < rs.len() && j != k && !is_filtered(rs[j]) && 0 <= m < record_entities(
                rs[j],
            ).len() ==> (#[trigger] record_entities(rs[j])[m]).name != rs[k].card_faces->0@[0].name@
                && record_entities(rs[j])[m].name != rs[k].card_faces->0@[1].name@,
    ensures
        ({
            let fs = rs[k].card_faces->0@;
            &&& lookup(corpus_cards(rs), fs[0].name@, GetNameType::Name) matches Some(e0)
                && e0.name == fs[0].name@ && e0.oc_name == Some(fs[1].name@)
            &&& lookup(corpus_cards(rs), fs[1].name@, GetNameType::Name) matches Some(e1)
                && e1.name == fs[1].name@ && e1.oc_name == Some(fs[0].name@)
        }),
    decreases rs.len(),
{
    let fs = rs[k].card_faces->0@;
    let prev = rs.drop_last();
    let es = record_entities(rs.last());
    if k == rs.len() - 1 {
        lemma_corpus_from_records(prev);
        let pc = corpus_cards(prev);
        assert forall|i: int| 0 <= i < pc.len() implies (#[trigger] pc[i]).name != fs[0].name@
            && pc[i].name != fs[1].name@ by {
            let j = choose|j: int|
                0 <= j < prev.len() && !is_filtered(prev[j]) && record_entities(prev[j]).contains(
                    pc[i],
                );
            assert(rs[j] == prev[j]);
            let m = choose|m: int|
                0 <= m < record_entities(prev[j]).len() && record_entities(prev[j])[m] == pc[i];
        }
        lemma_lookup_absent(pc, fs[0].name@);
        lemma_lookup_absent(pc, fs[1].name@);
        assert(rs.last() == rs[k]);
        assert(corpus_cards(rs) == pc + es);
        lemma_lookup_concat(pc, es, fs[0].name@);
        lemma_lookup_concat(pc, es, fs[1].name@);
        assert(es[0].name == fs[0].name@);
        assert(es[1].name == fs[1].name@);
        assert(es.drop_first()[0] == es[1]);
        assert(lookup(es, fs[0].name@, GetNameType::Name) == Some(es[0]));
        if fs[0].name@ != fs[1].name@ {
            assert(lookup(es.drop_first(), fs[1].name@, GetNameType::Name) == Some(es[1]));
        }
    } else {
        assert forall|j: int, m: int|
            0 <= j < prev.len() && j != k && !is_filtered(prev[j]) && 0 <= m < record_entities(
                prev[j],
            ).len() implies (#[trigger] record_entities(prev[j])[m]).name != prev[k].card_faces->0@[0].name@
            && record_entities(prev[j])[m].name != prev[k].card_faces->0@[1].name@ by {
            assert(prev[j] == rs[j]);
            assert(prev[k] == rs[k]);
        }
        assert(prev[k] == rs[k]);
        lemma_faces_found_by_name(prev, k);
        if !is_filtered(rs.last()) {
            assert(corpus_cards(rs) == corpus_cards(prev) + es);
            lemma_lookup_concat(corpus_cards(prev), es, fs[0].name@);
            lemma_lookup_concat(corpus_cards(prev), es, fs[1].name@);
        }
    }
}

/// Whether record `i` is kept by the filters and yet breaks an invariant of the corpus: it is
/// malformed, or its entities would break the uniqueness of single-face display names.
pub open spec fn is_fatal(rs: Seq<ScryfallCard>, i: int) -> bool {
    !is_filtered(rs[i]) && (is_malformed(rs[i]) || names_clash(
        corpus_cards(rs.take(i)),
        record_entities(rs[i]),
    ))
}

/// Adding entities that clash with none keeps single-face display names unique.
proof fn lemma_add_keeps_unique(cards: Seq<CardView>, c: ScryfallCard)
    requires
        single_face_names_unique(cards),
        !is_malformed(c),
        !names_clash(cards, record_entities(c)),
    ensures
        single_face_names_unique(cards + record_entities(c)),
{
    let es = record_entities(c);
    let all = cards + es;
    assert forall|i: int, j: int|
        0 <= i < all.len() && 0 <= j < all.len() && i != j && all[i].oc_name is None implies all[i].name
        != all[j].name by {
        let n = cards.len() as int;
        if i < n && j >= n {
            assert(all[j] == es[j - n]);
        } else if i >= n && j < n {
            assert(all[i] == es[i - n]);
        } else if i >= n && j >= n {
            assert(all[i] == es[i - n]);
            assert(all[j] == es[j - n]);
        }
    }
}

/// Whether the entities of a kept record would give a single-face entity a name that another
/// entity has.
fn clashes_with(catalog: &Catalog, card: &ScryfallCard) -> (r: bool)
    requires
        !is_malformed(*card),
    ensures
        r == names_clash(catalog@.cards, record_entities(*card)),
{
    let cards = catalog.cards();
    let ghost es = record_entities(*card);
    let ghost cv = catalog@.cards;
    let mut i: usize = 0;
    while i < cards.len()
        invariant
            es == record_entities(*card),
            cv == catalog@.cards,
            crate::catalog::card_views(cards@) == cv,
            !is_malformed(*card),
            i <= cards.len(),
            forall|m: int, j: int|
                0 <= m < i && 0 <= j < es.len() ==> !(cv[m].name == es[j].name && (cv[m].oc_name is None
                    || es[j].oc_name is None)),
        decreases cards.len() - i,
    {
        let other = &cards[i];
        assert(cv[i as int] == other@);
        let hit = match &card.card_faces {
            Some(fs) => other.oc_name.is_none() && (other.name == fs[0].name || other.name
                == fs[1].name),
            None => other.name == card.name,
        };
        if hit {
            proof {
                if card.card_faces is Some {
                    let fs = card.card_faces->0;
                    if other.name@ == fs@[0].name@ {
                        assert(cv[i as int].name == es[0].name);
                    } else {
                        assert(cv[i as int].name == es[1].name);
                    }
                } else {
                    assert(cv[i as int].name == es[0].name);
                }
            }
            return true;
        }
        proof {
            assert forall|j: int| 0 <= j < es.len() implies !(cv[i as int].name == es[j].name && (
            cv[i as int].oc_name is None || es[j].oc_name is None)) by {}
        }
        i = i + 1;
    }
    false
}

/// A rebuild that met a kept record that breaks a required invariant.
#[derive(Debug, Clone, Copy, PartialEq, Eq, Structural)]
pub struct MalformedRecord {
    /// The position of the first such record.
    pub position: usize,
}

/// Whether the filtering policy drops a record.
pub fn is_filtered_out(card: &ScryfallCard) -> (r: bool)
    ensures
        r == is_filtered(*card),
{
    let words = split_words(card.type_line.as_str());
    let plane = String::from_str("Plane");
    let mut found = false;
    let mut k: usize = 0;
    while k < words.len()
        invariant
            k <= words.len(),
            plane@ == "Plane"@,
            views(words@) == words_of(card.type_line@),
            found == exists|m: int| 0 <= m < k && views(words@)[m] == "Plane"@,
        decreases words.len() - k,
    {
        if words[k] == plane {
            found = true;
            assert(views(words@)[k as int] == "Plane"@);
        }
        k = k + 1;
    }
    assert(found == views(words@).contains("Plane"@));
    if found {
        return true;
    }
    let excluded = match card.set_type {
        SetType::Memorabilia | SetType::Minigame | SetType::Token => true,
        _ => false,
    };
    excluded || contains_str(card.type_line.as_str(), "Token")
}

/// Whether a record breaks an invariant that a rebuild requires.
pub fn is_malformed_record(card: &ScryfallCard) -> (r: bool)
    ensures
        r == is_malformed(*card),
{
    match &card.card_faces {
        Some(fs) => fs.len() < 2 || (fs[0].power.is_some() && fs[0].toughness.is_none()) || (
        fs[1].power.is_some() && fs[1].toughness.is_none()),
        None => card.power.is_some() && card.toughness.is_none(),
    }
}

/// Power and toughness joined by a slash, when there is a power.
fn power_toughness(power: &Option<String>, toughness: &Option<String>) -> (r: Option<String>)
    requires
        pt_complete(*power, *toughness),
    ensures
        opt_view(r) == power_toughness_of(*power, *toughness),
{
    match (power, toughness) {
        (Some(p), Some(t)) => {
            let mut s = p.clone();
            s.append("/");
            s.append(t.as_str());
            Some(s)
        },
        _ => None,
    }
}

/// The rules text, or the placeholder when there is none.
fn oracle_text_or_placeholder(o: &Option<String>) -> (r: String)
    ensures
        r@ == oracle_or_placeholder(*o),
{
    match o {
        Some(t) => t.clone(),
        None => String::from_str("<No Oracle Text>"),
    }
}

/// The entity for one face of a two-faced record.
fn face_card(f: &ScryfallCardFaceObject, id: [u8; 16], uri: Option<String>, partner: &String) -> (r: DbCard)
    requires
        pt_complete(f.power, f.toughness),
    ensures
        r@ == face_entity(*f, id, opt_view(uri), partner@),
{
    let type_line = match &f.type_line {
        Some(t) => t.clone(),
        None => String::new(),
    };
    DbCard {
        scryfall_uuid: id,
        name: f.name.clone(),
        lowercase_name: normalize(f.name.as_str()),
        type_line,
        oracle_text: Some(oracle_text_or_placeholder(&f.oracle_text)),
        power_toughness: power_toughness(&f.power, &f.toughness),
        loyalty: crate::catalog::clone_opt(&f.loyalty),
        mana_cost: crate::catalog::clone_opt(&f.mana_cost),
        scryfall_uri: uri,
        oc_name: Some(partner.clone()),
    }
}

/// Adds the two entities of a record with two or more faces; faces after the second are not used.
pub fn add_double_card(catalog: &mut Catalog, card: &ScryfallCard)
    requires
        card.card_faces is Some,
        !is_malformed(*card),
    ensures
        final(catalog)@.cards == old(catalog)@.cards + record_entities(*card),
        final(catalog)@.words == old(catalog)@.words,
{
    let fs = card.card_faces.as_ref().unwrap();
    let first = face_card(&fs[0], card.id, Some(card.scryfall_uri.clone()), &fs[1].name);
    let second = face_card(&fs[1], card.id, None, &fs[0].name);
    catalog.insert_card(first);
    catalog.insert_card(second);
    assert(old(catalog)@.cards.push(first@).push(second@) =~= old(catalog)@.cards
        + record_entities(*card));
}

/// Adds the entity of a record with a single face.
fn add_single_card(catalog: &mut Catalog, card: &ScryfallCard)
    requires
        card.card_faces is None,
        !is_malformed(*card),
    ensures
        final(catalog)@.cards == old(catalog)@.cards + record_entities(*card),
        final(catalog)@.words == old(catalog)@.words,
{
    let entity = DbCard {
        scryfall_uuid: card.id,
        name: card.name.clone(),
        lowercase_name: normalize(card.name.as_str()),
        type_line: card.type_line.clone(),
        oracle_text: Some(oracle_text_or_placeholder(&card.oracle_text)),
        power_toughness: power_toughness(&card.power, &card.toughness),
        loyalty: crate::catalog::clone_opt(&card.loyalty),
        mana_cost: crate::catalog::clone_opt(&card.mana_cost),
        scryfall_uri: Some(card.scryfall_uri.clone()),
        oc_name: None,
    };
    catalog.insert_card(entity);
    assert(old(catalog)@.cards.push(entity@) =~= old(catalog)@.cards + record_entities(*card));
}

/// Adds the index words of a name.
fn add_name_words(catalog: &mut Catalog, name: &String)
    requires
        old(catalog).wf(),
    ensures
        final(catalog).wf(),
        final(catalog)@.words == upsert_all(old(catalog)@.words, name_words(name@)),
        final(catalog)@.cards == old(catalog)@.cards,
{
    let words = split_words(name.as_str());
    let ghost all = name_words(name@);
    assert(all.len() == words.len());
    let mut k: usize = 0;
    assert(all.take(0) =~= Seq::<Seq<char>>::empty());
    while k < words.len()
        invariant
            k <= words.len(),
            all == name_words(name@),
            views(words@) == words_of(name@),
            all.len() == words.len(),
            catalog.wf(),
            catalog@.cards == old(catalog)@.cards,
            catalog@.words == upsert_all(old(catalog)@.words, all.take(k as int)),
        decreases words.len() - k,
    {
        let w = normalize(words[k].as_str());
        assert(all[k as int] == normalized(words@[k as int]@));
        assert(all.take(k + 1).drop_last() == all.take(k as int));
        catalog.insert_word(w);
        k = k + 1;
    }
    assert(all.take(words.len() as int) == all);
}

/// Builds the corpus from feed records: filters them, splits two-faced records into linked
/// entities, and indexes the words of every kept name. A kept record that is malformed, or that
/// would give a single-face entity a display name another entity has, fails the whole rebuild.
pub fn rebuild_catalog(records: &Vec<ScryfallCard>) -> (r: Result<Catalog, MalformedRecord>)
    ensures
        match r {
            Ok(c) => {
                &&& c.wf()
                &&& single_face_names_unique(c@.cards)
                &&& forall|i: int| 0 <= i < records@.len() ==> !is_fatal(records@, i)
                &&& c@.cards == corpus_cards(records@)
                &&& c@.words == corpus_words(records@)
            },
            Err(e) => {
                &&& e.position < records@.len()
                &&& is_fatal(records@, e.position as int)
                &&& forall|i: int| 0 <= i < e.position ==> !is_fatal(records@, i)
            },
        },
{
    let mut catalog = Catalog::new();
    let mut i: usize = 0;
    while i < records.len()
        invariant
            i <= records.len(),
            catalog.wf(),
            single_face_names_unique(catalog@.cards),
            forall|j: int| 0 <= j < i ==> !is_fatal(records@, j),
            catalog@.cards == corpus_cards(records@.take(i as int)),
            catalog@.words == corpus_words(records@.take(i as int)),
        decreases records.len() - i,
    {
        let card = &records[i];
        let ghost prefix = records@.take(i as int);
        assert(records@.take(i + 1).drop_last() == prefix);
        assert(records@.take(i + 1).last() == *card);
        if !is_filtered_out(card) {
            if is_malformed_record(card) {
                return Err(MalformedRecord { position: i });
            }
            if clashes_with(&catalog, card) {
                return Err(MalformedRecord { position: i });
            }
            proof {
                lemma_add_keeps_unique(catalog@.cards, *card);
            }
            match &card.card_faces {
                Some(fs) => {
                    add_double_card(&mut catalog, card);
                    let ghost w0 = catalog@.words;
                    add_name_words(&mut catalog, &fs[0].name);
                    add_name_words(&mut catalog, &fs[1].name);
                    proof {
                        lemma_upsert_all_concat(
                            w0,
                            name_words(fs@[0].name@),
                            name_words(fs@[1].name@),
                        );
                    }
                },
                None => {
                    add_single_card(&mut catalog, card);
                    add_name_words(&mut catalog, &card.name);
                },
            }
        }
        i = i + 1;
    }
    assert(records@.take(records.len() as int) == records@);
    Ok(catalog)
}

impl Catalog {
    /// Replaces the whole corpus with one built from `records`; on failure the catalog is
    /// left exactly as it was.
    pub fn rebuild(&mut self, records: &Vec<ScryfallCard>) -> (r: Result<(), MalformedRecord>)
        ensures
            match r {
                Ok(()) => {
                    &&& final(self).wf()
                    &&& single_face_names_unique(final(self)@.cards)
                    &&& forall|i: int| 0 <= i < records@.len() ==> !is_fatal(records@, i)
                    &&& final(self)@.cards == corpus_cards(records@)
                    &&& final(self)@.words == corpus_words(records@)
                },
                Err(e) => {
                    &&& *final(self) == *old(self)
                    &&& e.position < records@.len()
                    &&& is_fatal(records@, e.position as int)
                    &&& forall|i: int| 0 <= i < e.position ==> !is_fatal(records@, i)
                },
            },
    {
        match rebuild_catalog(records) {
            Ok(c) => {
                *self = c;
                Ok(())
            },
            Err(e) => Err(e),
        }
    }
}

} // verus!
