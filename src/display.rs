//! Human-readable text for resolved entities.
use vstd::prelude::*;

use crate::catalog::{CardView, DbCard};
use crate::text::{contains_str, has_infix, lemma_views_push, views};

verus! {

/// The text block of an entity: name (with mana cost after a tab), type line, then rules text,
/// power/toughness and starting loyalty where present, one per line.
pub open spec fn card_text(c: CardView) -> Seq<char> {
    (match c.mana_cost {
        Some(m) => c.name + "\t"@ + m,
        None => c.name,
    }) + "\n"@ + c.type_line + (match c.oracle_text {
        Some(t) => "\n"@ + t,
        None => Seq::empty(),
    }) + (match c.power_toughness {
        Some(t) => "\n"@ + t,
        None => Seq::empty(),
    }) + (match c.loyalty {
        Some(l) => "\nStarting Loyalty: "@ + l,
        None => Seq::empty(),
    })
}

/// Every name the catalog item of an entity is known by: its own, then its partner face's.
pub open spec fn names_of(c: CardView) -> Seq<Seq<char>> {
    match c.oc_name {
        Some(p) => seq![c.name, p],
        None => seq![c.name],
    }
}

/// Each of `names` that is not part of `own`, each after a space.
pub open spec fn alias_text(own: Seq<char>, names: Seq<Seq<char>>) -> Seq<char>
    decreases names.len(),
{
    if names.len() == 0 {
        Seq::empty()
    } else if has_infix(own, names.last()) {
        alias_text(own, names.drop_last())
    } else {
        alias_text(own, names.drop_last()) + " "@ + names.last()
    }
}

/// The display block of an entity, with its other names when it has a partner face.
pub open spec fn display_text(c: CardView) -> Seq<char> {
    if names_of(c).len() > 1 {
        card_text(c) + "\nThis card is also known as:"@ + alias_text(c.name, names_of(c))
    } else {
        card_text(c)
    }
}

/// Appends `s` to `acc`.
fn push_text(acc: &mut String, s: &str)
    ensures
        final(acc)@ == old(acc)@ + s@,
{
    acc.append(s);
}

impl DbCard {
    /// The text block of the entity.
    pub fn to_string(&self) -> (r: String)
        ensures
            r@ == card_text(self@),
    {
        let mut s = self.name.clone();
        if let Some(m) = &self.mana_cost {
            push_text(&mut s, "\t");
            push_text(&mut s, m.as_str());
        }
        let ghost head = s@;
        push_text(&mut s, "\n");
        push_text(&mut s, self.type_line.as_str());
        assert(s@ == head + "\n"@ + self.type_line@);
        let ghost a = s@;
        if let Some(t) = &self.oracle_text {
            push_text(&mut s, "\n");
            push_text(&mut s, t.as_str());
            assert(s@ =~= a + ("\n"@ + t@));
        } else {
            assert(s@ =~= a + Seq::<char>::empty());
        }
        let ghost b = s@;
        if let Some(t) = &self.power_toughness {
            push_text(&mut s, "\n");
            push_text(&mut s, t.as_str());
            assert(s@ =~= b + ("\n"@ + t@));
        } else {
            assert(s@ =~= b + Seq::<char>::empty());
        }
        let ghost c = s@;
        if let Some(l) = &self.loyalty {
            push_text(&mut s, "\nStarting Loyalty: ");
            push_text(&mut s, l.as_str());
            assert(s@ =~= c + ("\nStarting Loyalty: "@ + l@));
        } else {
            assert(s@ =~= c + Seq::<char>::empty());
        }
        s
    }
}

/// Every name the catalog item of an entity is known by: its own, then its partner face's.
pub fn get_all_names_for_card(card: &DbCard) -> (r: Vec<String>)
    ensures
        views(r@) == names_of(card@),
{
    let mut r: Vec<String> = Vec::new();
    r.push(card.name.clone());
    if let Some(p) = &card.oc_name {
        r.push(p.clone());
    }
    assert(views(r@) =~= names_of(card@));
    r
}

/// The display block of an entity; for a two-faced item it ends with the other names it is
/// known by, leaving out any that is part of its own name.
pub fn get_display_string(card: &DbCard) -> (r: String)
    ensures
        r@ == display_text(card@),
{
    let mut display_string = card.to_string();
    let names_for_card = get_all_names_for_card(card);
    if names_for_card.len() > 1 {
        push_text(&mut display_string, "\nThis card is also known as:");
        let ghost base = display_string@;
        let ghost names = views(names_for_card@);
        assert(names.take(0) =~= Seq::<Seq<char>>::empty());
        for i in 0..names_for_card.len()
            invariant
                names == views(names_for_card@),
                display_string@ == base + alias_text(card@.name, names.take(i as int)),
        {
            assert(names.take(i + 1).drop_last() == names.take(i as int));
            assert(names.take(i + 1).last() == names_for_card@[i as int]@);
            let card_name = &names_for_card[i];
            if !contains_str(card.name.as_str(), card_name.as_str()) {
                push_text(&mut display_string, " ");
                push_text(&mut display_string, card_name.as_str());
            }
        }
        assert(names.take(names_for_card.len() as int) == names);
    }
    display_string
}

/// One line per entity for a selection list: the name, then " // " and the partner face's name
/// where there is one.
pub open spec fn selection_text(cards: Seq<CardView>) -> Seq<char>
    decreases cards.len(),
{
    if cards.len() == 0 {
        Seq::empty()
    } else {
        selection_text(cards.drop_last()) + cards.last().name + (match cards.last().oc_name {
            Some(p) => " // "@ + p,
            None => Seq::empty(),
        }) + "\n"@
    }
}

/// The lines of a selection list for the entities.
pub fn selection_lines(cards: &Vec<DbCard>) -> (r: String)
    ensures
        r@ == selection_text(crate::catalog::card_views(cards@)),
{
    let ghost cv = crate::catalog::card_views(cards@);
    let mut s = String::new();
    assert(cv.take(0) =~= Seq::<CardView>::empty());
    for i in 0..cards.len()
        invariant
            cv == crate::catalog::card_views(cards@),
            s@ == selection_text(cv.take(i as int)),
    {
        assert(cv.take(i + 1).drop_last() == cv.take(i as int));
        assert(cv.take(i + 1).last() == cards@[i as int]@);
        let ghost a = s@;
        push_text(&mut s, cards[i].name.as_str());
        let ghost b = s@;
        if let Some(p) = &cards[i].oc_name {
            push_text(&mut s, " // ");
            push_text(&mut s, p.as_str());
            assert(s@ =~= b + (" // "@ + p@));
        } else {
            assert(s@ =~= b + Seq::<char>::empty());
        }
        push_text(&mut s, "\n");
    }
    assert(cv.take(cards.len() as int) == cv);
    s
}

} // verus!
