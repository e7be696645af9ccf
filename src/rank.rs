//! Spelling suggestions: catalog words within a small edit distance of the query tokens.
use vstd::prelude::*;

use crate::catalog::{get_all_mtg_words, Catalog};
use crate::text::{lemma_views_push, views};

verus! {

/// What `textdistance::str::damerau_levenshtein` returns for two strings.
pub uninterp spec fn damerau_levenshtein_of(a: Seq<char>, b: Seq<char>) -> usize;

/// Relies on `textdistance::str::damerau_levenshtein`: the least number of single-character
/// insertions, deletions, substitutions and adjacent transpositions that turn one string into
/// the other, so it is zero exactly when the strings are equal.
#[verifier::external_body]
fn damerau_levenshtein(a: &str, b: &str) -> (r: usize)
    ensures
        r == damerau_levenshtein_of(a@, b@),
        (r == 0) <==> (a@ == b@),
{
    textdistance::str::damerau_levenshtein(a, b)
}

/// The Damerau-Levenshtein edit distance between two strings; no case folding is applied.
pub fn distance(a: &str, b: &str) -> (r: usize)
    ensures
        r == damerau_levenshtein_of(a@, b@),
        (r == 0) <==> (a@ == b@),
{
    damerau_levenshtein(a, b)
}

/// The largest distance at which a catalog word is still suggested.
pub const MAX_SUGGESTION_DISTANCE: usize = 2;

/// The distance from each token to each word.
pub open spec fn distance_matrix(tokens: Seq<Seq<char>>, words: Seq<Seq<char>>) -> Seq<Seq<usize>> {
    Seq::new(
        tokens.len(),
        |i: int| Seq::new(words.len(), |j: int| damerau_levenshtein_of(tokens[i], words[j])),
    )
}

/// The rows of a distance table.
pub open spec fn rows_view(d: Seq<Vec<usize>>) -> Seq<Seq<usize>> {
    d.map_values(|row: Vec<usize>| row@)
}

/// The words whose entry in `row` is `k`, in index order, each paired with `k`.
pub open spec fn words_at_distance(words: Seq<Seq<char>>, row: Seq<usize>, k: usize) -> Seq<
    (usize, Seq<char>),
>
    decreases words.len(),
{
    if words.len() == 0 {
        Seq::empty()
    } else if row[words.len() - 1] == k {
        words_at_distance(words.drop_last(), row, k).push((k, words.last()))
    } else {
        words_at_distance(words.drop_last(), row, k)
    }
}

/// For tokens not in the index, in token order, the words at distance `k` from each.
pub open spec fn suggestions_at(
    tokens: Seq<Seq<char>>,
    words: Seq<Seq<char>>,
    d: Seq<Seq<usize>>,
    k: usize,
) -> Seq<(usize, Seq<char>)>
    decreases tokens.len(),
{
    if tokens.len() == 0 {
        Seq::empty()
    } else if words.contains(tokens.last()) {
        suggestions_at(tokens.drop_last(), words, d, k)
    } else {
        suggestions_at(tokens.drop_last(), words, d, k) + words_at_distance(
            words,
            d[tokens.len() - 1],
            k,
        )
    }
}

/// The suggestions with their distances: those at distance one, then those at distance two,
/// each group in the order the tokens and words were met.
pub open spec fn ranked_suggestions(
    tokens: Seq<Seq<char>>,
    words: Seq<Seq<char>>,
    d: Seq<Seq<usize>>,
) -> Seq<(usize, Seq<char>)> {
    suggestions_at(tokens, words, d, 1) + suggestions_at(tokens, words, d, 2)
}

/// Every pair picked at distance `k` carries `k`.
proof fn lemma_words_at_distance_keys(words: Seq<Seq<char>>, row: Seq<usize>, k: usize)
    ensures
        forall|i: int|
            0 <= i < words_at_distance(words, row, k).len() ==> (#[trigger] words_at_distance(
                words,
                row,
                k,
            )[i]).0 == k,
    decreases words.len(),
{
    if words.len() > 0 {
        lemma_words_at_distance_keys(words.drop_last(), row, k);
        let prev = words_at_distance(words.drop_last(), row, k);
        if row[words.len() - 1] == k {
            assert forall|i: int| 0 <= i < prev.push((k, words.last())).len() implies (
            #[trigger] prev.push((k, words.last()))[i]).0 == k by {
                if i < prev.len() {
                    assert(prev.push((k, words.last()))[i] == prev[i]);
                }
            }
        }
    }
}

/// Every suggestion made at distance `k` carries `k`.
proof fn lemma_suggestions_at_keys(
    tokens: Seq<Seq<char>>,
    words: Seq<Seq<char>>,
    d: Seq<Seq<usize>>,
    k: usize,
)
    ensures
        forall|i: int|
            0 <= i < suggestions_at(tokens, words, d, k).len() ==> (#[trigger] suggestions_at(
                tokens,
                words,
                d,
                k,
            )[i]).0 == k,
    decreases tokens.len(),
{
    if tokens.len() > 0 {
        lemma_suggestions_at_keys(tokens.drop_last(), words, d, k);
        lemma_words_at_distance_keys(words, d[tokens.len() - 1], k);
        let prev = suggestions_at(tokens.drop_last(), words, d, k);
        let last = words_at_distance(words, d[tokens.len() - 1], k);
        assert forall|i: int| 0 <= i < (prev + last).len() implies (#[trigger] (prev + last)[i]).0
            == k by {
            if i >= prev.len() {
                assert((prev + last)[i] == last[i - prev.len()]);
            }
        }
    }
}

/// Suggestions come in ascending order of distance, and every one is at distance one or two.
pub proof fn lemma_ranked_by_distance(
    tokens: Seq<Seq<char>>,
    words: Seq<Seq<char>>,
    d: Seq<Seq<usize>>,
)
    ensures
        forall|i: int|
            0 <= i < ranked_suggestions(tokens, words, d).len() ==> 1 <= (
            #[trigger] ranked_suggestions(tokens, words, d)[i]).0 <= MAX_SUGGESTION_DISTANCE,
        forall|i: int, j: int|
            0 <= i < j < ranked_suggestions(tokens, words, d).len() ==> (
            #[trigger] ranked_suggestions(tokens, words, d)[i]).0 <= (
            #[trigger] ranked_suggestions(tokens, words, d)[j]).0,
{
    lemma_suggestions_at_keys(tokens, words, d, 1);
    lemma_suggestions_at_keys(tokens, words, d, 2);
    let a = suggestions_at(tokens, words, d, 1);
    let b = suggestions_at(tokens, words, d, 2);
    assert forall|i: int| 0 <= i < (a + b).len() implies (#[trigger] (a + b)[i]).0 == if i < a.len() {
        1usize
    } else {
        2usize
    } by {
        if i >= a.len() {
            assert((a + b)[i] == b[i - a.len()]);
        }
    }
}

/// The tokens that are already words of the index, in token order.
pub open spec fn exact_tokens(tokens: Seq<Seq<char>>, words: Seq<Seq<char>>) -> Seq<Seq<char>> {
    tokens.filter(|t: Seq<char>| words.contains(t))
}

/// The views of distance-word pairs.
pub open spec fn pair_views(v: Seq<(usize, String)>) -> Seq<(usize, Seq<char>)> {
    v.map_values(|p: (usize, String)| (p.0, p.1@))
}

/// Whether some entry of a row of distances is zero.
fn row_has_zero(row: &Vec<usize>) -> (r: bool)
    ensures
        r == exists|j: int| 0 <= j < row@.len() && row@[j] == 0,
{
    let mut j: usize = 0;
    while j < row.len()
        invariant
            j <= row.len(),
            forall|m: int| 0 <= m < j ==> row@[m] != 0,
        decreases row.len() - j,
    {
        if row[j] == 0 {
            return true;
        }
        j = j + 1;
    }
    false
}

/// Appends the words at distance `k` of one row.
fn push_words_at_distance(
    out: &mut Vec<(usize, String)>,
    words: &Vec<String>,
    row: &Vec<usize>,
    k: usize,
)
    requires
        row@.len() == words@.len(),
    ensures
        pair_views(final(out)@) == pair_views(old(out)@) + words_at_distance(views(words@), row@, k),
{
    let ghost ws = views(words@);
    assert(ws.take(0) =~= Seq::<Seq<char>>::empty());
    assert(pair_views(out@) =~= pair_views(old(out)@) + words_at_distance(ws.take(0), row@, k));
    for j in 0..words.len()
        invariant
            ws == views(words@),
            row@.len() == words@.len(),
            pair_views(out@) == pair_views(old(out)@) + words_at_distance(ws.take(j as int), row@, k),
    {
        assert(ws.take(j + 1).drop_last() == ws.take(j as int));
        assert(ws.take(j + 1).last() == words@[j as int]@);
        if row[j] == k {
            let ghost before = out@;
            let w = words[j].clone();
            out.push((k, w));
            assert(pair_views(out@) =~= pair_views(before).push((k, w@)));
        }
    }
    assert(ws.take(words.len() as int) == ws);
}

/// Ranks catalog words as spelling suggestions for the tokens, given the distance from each
/// token to each word. A token already in the index gets no suggestions and is handed back
/// in the second list; for the others, every word at distance one or two is suggested,
/// nearer words first and otherwise in the order they were met.
pub fn rank_close_words(
    tokens: &Vec<String>,
    words: &Vec<String>,
    distances: &Vec<Vec<usize>>,
) -> (r: (Vec<(usize, String)>, Vec<String>))
    requires
        distances@.len() == tokens@.len(),
        forall|i: int| 0 <= i < tokens@.len() ==> (#[trigger] distances@[i])@.len() == words@.len(),
        forall|i: int, j: int|
            0 <= i < tokens@.len() && 0 <= j < words@.len() ==> ((#[trigger] distances@[i]@[j] == 0)
                <==> (tokens@[i]@ == #[trigger] words@[j]@)),
    ensures
        pair_views(r.0@) == ranked_suggestions(views(tokens@), views(words@), rows_view(distances@)),
        views(r.1@) == exact_tokens(views(tokens@), views(words@)),
{
    let ghost ts = views(tokens@);
    let ghost ws = views(words@);
    let ghost d = rows_view(distances@);
    let mut exact: Vec<bool> = Vec::new();
    let mut passthrough: Vec<String> = Vec::new();
    assert(ts.take(0) =~= Seq::<Seq<char>>::empty());
    assert(views(passthrough@) =~= ts.take(0).filter(|t: Seq<char>| ws.contains(t)));
    for i in 0..tokens.len()
        invariant
            ts == views(tokens@),
            ws == views(words@),
            distances@.len() == tokens@.len(),
            forall|m: int| 0 <= m < tokens@.len() ==> (#[trigger] distances@[m])@.len() == words@.len(),
            forall|m: int, j: int|
                0 <= m < tokens@.len() && 0 <= j < words@.len() ==> ((
                #[trigger] distances@[m]@[j] == 0) <==> (tokens@[m]@ == #[trigger] words@[j]@)),
            exact@.len() == i,
            forall|m: int| 0 <= m < i ==> exact@[m] == ws.contains(#[trigger] ts[m]),
            views(passthrough@) == ts.take(i as int).filter(|t: Seq<char>| ws.contains(t)),
    {
        let hit = row_has_zero(&distances[i]);
        proof {
            if hit {
                let j = choose|j: int| 0 <= j < distances@[i as int]@.len() && distances@[i as int]@[j] == 0;
                assert(ws[j] == ts[i as int]);
            } else {
                assert forall|j: int| 0 <= j < ws.len() implies ws[j] != ts[i as int] by {
                    assert(distances@[i as int]@[j] != 0);
                }
            }
            assert(ts.take(i + 1).drop_last() == ts.take(i as int));
            assert(ts.take(i + 1).last() == ts[i as int]);
            reveal(Seq::filter);
        }
        exact.push(hit);
        if hit {
            let ghost before = passthrough@;
            let t = tokens[i].clone();
            passthrough.push(t);
            proof {
                lemma_views_push(before, t);
            }
        }
        assert(views(passthrough@) == ts.take(i + 1).filter(|t: Seq<char>| ws.contains(t)));
    }
    assert(ts.take(tokens.len() as int) == ts);
    let mut close: Vec<(usize, String)> = Vec::new();
    let mut k: usize = 1;
    assert(pair_views(close@) =~= Seq::<(usize, Seq<char>)>::empty());
    while k <= MAX_SUGGESTION_DISTANCE
        invariant
            1 <= k <= 3,
            ts == views(tokens@),
            ws == views(words@),
            d == rows_view(distances@),
            distances@.len() == tokens@.len(),
            forall|m: int| 0 <= m < tokens@.len() ==> (#[trigger] distances@[m])@.len() == words@.len(),
            exact@.len() == tokens@.len(),
            forall|m: int| 0 <= m < tokens@.len() ==> exact@[m] == ws.contains(#[trigger] ts[m]),
            pair_views(close@) == if k == 1 {
                Seq::<(usize, Seq<char>)>::empty()
            } else if k == 2 {
                suggestions_at(ts, ws, d, 1)
            } else {
                ranked_suggestions(ts, ws, d)
            },
        decreases 3 - k,
    {
        let ghost start = pair_views(close@);
        assert(ts.take(0) =~= Seq::<Seq<char>>::empty());
        for i in 0..tokens.len()
            invariant
                1 <= k <= 2,
                ts == views(tokens@),
                ws == views(words@),
                d == rows_view(distances@),
                distances@.len() == tokens@.len(),
                forall|m: int| 0 <= m < tokens@.len() ==> (#[trigger] distances@[m])@.len() == words@.len(),
                exact@.len() == tokens@.len(),
                forall|m: int| 0 <= m < tokens@.len() ==> exact@[m] == ws.contains(#[trigger] ts[m]),
                pair_views(close@) == start + suggestions_at(ts.take(i as int), ws, d, k),
        {
            assert(ts.take(i + 1).drop_last() == ts.take(i as int));
            assert(ts.take(i + 1).last() == ts[i as int]);
            assert(d[i as int] == distances@[i as int]@);
            assert(exact@[i as int] == ws.contains(ts[i as int]));
            if !exact[i] {
                push_words_at_distance(&mut close, words, &distances[i], k);
            }
        }
        assert(ts.take(tokens.len() as int) == ts);
        k = k + 1;
    }
    (close, passthrough)
}

/// Spelling suggestions for the tokens from the catalog's word index, with the distance of
/// each, and the tokens that are already index words.
pub fn find_magic_words_with_close_spelling(catalog: &Catalog, search_text: &Vec<String>) -> (r: (
    Vec<(usize, String)>,
    Vec<String>,
))
    ensures
        pair_views(r.0@) == ranked_suggestions(
            views(search_text@),
            catalog@.words,
            distance_matrix(views(search_text@), catalog@.words),
        ),
        views(r.1@) == exact_tokens(views(search_text@), catalog@.words),
{
    let words = get_all_mtg_words(catalog);
    let ghost ts = views(search_text@);
    let ghost ws = views(words@);
    let mut distances: Vec<Vec<usize>> = Vec::new();
    for i in 0..search_text.len()
        invariant
            ts == views(search_text@),
            ws == views(words@),
            distances@.len() == i,
            forall|m: int| 0 <= m < i ==> (#[trigger] distances@[m])@.len() == words@.len(),
            forall|m: int, j: int|
                0 <= m < i && 0 <= j < words@.len() ==> (#[trigger] distances@[m]@[j])
                    == damerau_levenshtein_of(ts[m], ws[j]),
            forall|m: int, j: int|
                0 <= m < i && 0 <= j < words@.len() ==> ((#[trigger] distances@[m]@[j] == 0) <==> (
                search_text@[m]@ == #[trigger] words@[j]@)),
    {
        let mut row: Vec<usize> = Vec::new();
        for j in 0..words.len()
            invariant
                ts == views(search_text@),
                ws == views(words@),
                i < search_text@.len(),
                row@.len() == j,
                forall|m: int| 0 <= m < j ==> row@[m] == damerau_levenshtein_of(ts[i as int], ws[m]),
                forall|m: int| 0 <= m < j ==> ((row@[m] == 0) <==> (search_text@[i as int]@ == words@[m]@)),
        {
            let dist = damerau_levenshtein(search_text[i].as_str(), words[j].as_str());
            row.push(dist);
        }
        distances.push(row);
    }
    proof {
        assert forall|i: int| 0 <= i < ts.len() implies rows_view(distances@)[i] =~= distance_matrix(
            ts,
            ws,
        )[i] by {
            assert(rows_view(distances@)[i] == distances@[i]@);
        }
        assert(rows_view(distances@) =~= distance_matrix(ts, ws));
    }
    rank_close_words(search_text, &words, &distances)
}

} // verus!
