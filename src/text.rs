//! Character-level text operations used by normalization and matching.
use vstd::prelude::*;
use vstd::string::*;

verus! {

/// What `str::to_lowercase` returns for a string.
pub uninterp spec fn lowercase_of(s: Seq<char>) -> Seq<char>;

/// What `deunicode::deunicode` returns for a string: its plain-ASCII transliteration.
pub uninterp spec fn transliteration_of(s: Seq<char>) -> Seq<char>;

/// Whether a character has the Unicode White_Space property, which is what
/// `char::is_whitespace` tests.
pub open spec fn is_white_space(c: char) -> bool {
    let u = c as u32;
    (0x09 <= u <= 0x0D) || u == 0x20 || u == 0x85 || u == 0xA0 || u == 0x1680 || (0x2000 <= u
        <= 0x200A) || u == 0x2028 || u == 0x2029 || u == 0x202F || u == 0x205F || u == 0x3000
}

/// Relies on `str::to_lowercase`: its result is a function of the characters alone.
#[verifier::external_body]
pub(crate) fn to_lowercase(s: &str) -> (r: String)
    ensures
        r@ == lowercase_of(s@),
{
    s.to_lowercase()
}

/// Relies on `deunicode::deunicode`: the transliteration depends on the characters alone.
#[verifier::external_body]
pub(crate) fn transliterate(s: &str) -> (r: String)
    ensures
        r@ == transliteration_of(s@),
{
    deunicode::deunicode(s)
}

/// Whether a character has the Unicode White_Space property.
pub fn is_whitespace(c: char) -> (r: bool)
    ensures
        r == is_white_space(c),
{
    let u = c as u32;
    (0x09 <= u && u <= 0x0D) || u == 0x20 || u == 0x85 || u == 0xA0 || u == 0x1680 || (0x2000 <= u
        && u <= 0x200A) || u == 0x2028 || u == 0x2029 || u == 0x202F || u == 0x205F || u == 0x3000
}

/// The views of a sequence of strings.
pub open spec fn views(v: Seq<String>) -> Seq<Seq<char>> {
    v.map_values(|w: String| w@)
}

/// Pushing a string pushes its view.
pub proof fn lemma_views_push(v: Seq<String>, s: String)
    ensures
        views(v.push(s)) == views(v).push(s@),
{
    assert(views(v.push(s)) =~= views(v).push(s@));
}

/// `s` with every comma removed.
pub open spec fn strip_commas(s: Seq<char>) -> Seq<char>
    decreases s.len(),
{
    if s.len() == 0 {
        Seq::empty()
    } else if s.last() == ',' {
        strip_commas(s.drop_last())
    } else {
        strip_commas(s.drop_last()).push(s.last())
    }
}

/// No comma is left once commas are stripped.
pub proof fn lemma_strip_commas_has_none(s: Seq<char>)
    ensures
        !strip_commas(s).contains(','),
    decreases s.len(),
{
    if s.len() > 0 {
        lemma_strip_commas_has_none(s.drop_last());
        let prev = strip_commas(s.drop_last());
        if s.last() != ',' {
            assert forall|i: int| 0 <= i < prev.push(s.last()).len() implies prev.push(s.last())[i]
                != ',' by {
                if i < prev.len() {
                    assert(prev.push(s.last())[i] == prev[i]);
                }
            }
        }
    }
}

/// The matching form of a name or word: transliterated, lowercased, commas removed.
pub open spec fn normalized(s: Seq<char>) -> Seq<char> {
    strip_commas(lowercase_of(transliteration_of(s)))
}

/// Whether `t` occurs in `s` starting at position `i`.
pub open spec fn occurs_at(s: Seq<char>, t: Seq<char>, i: int) -> bool {
    0 <= i && i + t.len() <= s.len() && s.subrange(i, i + t.len()) == t
}

/// Whether `t` is a contiguous part of `s`.
pub open spec fn has_infix(s: Seq<char>, t: Seq<char>) -> bool {
    exists|i: int| occurs_at(s, t, i)
}

/// The whitespace-separated words of `s`, where `word` is the part of a word read before `s`.
pub open spec fn words_after(word: Seq<char>, s: Seq<char>) -> Seq<Seq<char>>
    decreases s.len(),
{
    if s.len() == 0 {
        if word.len() == 0 {
            Seq::empty()
        } else {
            seq![word]
        }
    } else if is_white_space(s[0]) {
        let rest = words_after(Seq::empty(), s.drop_first());
        if word.len() == 0 {
            rest
        } else {
            seq![word] + rest
        }
    } else {
        words_after(word.push(s[0]), s.drop_first())
    }
}

/// The whitespace-separated words of `s`, in order.
pub open spec fn words_of(s: Seq<char>) -> Seq<Seq<char>> {
    words_after(Seq::empty(), s)
}

/// Reading a word followed by whitespace yields that word, then the words of what follows.
pub proof fn lemma_words_after_word(acc: Seq<char>, w: Seq<char>, sp: char, rest: Seq<char>)
    requires
        forall|k: int| 0 <= k < w.len() ==> !is_white_space(#[trigger] w[k]),
        is_white_space(sp),
        acc.len() + w.len() > 0,
    ensures
        words_after(acc, w + seq![sp] + rest) == seq![acc + w] + words_after(Seq::empty(), rest),
    decreases w.len(),
{
    let s = w + seq![sp] + rest;
    if w.len() == 0 {
        assert(s[0] == sp);
        assert(s.drop_first() =~= rest);
        assert(acc + w =~= acc);
    } else {
        assert(s[0] == w[0]);
        assert(s.drop_first() =~= w.drop_first() + seq![sp] + rest);
        lemma_words_after_word(acc.push(w[0]), w.drop_first(), sp, rest);
        assert(acc.push(w[0]) + w.drop_first() =~= acc + w);
    }
}

/// Reading a last word yields just that word.
pub proof fn lemma_words_after_last(acc: Seq<char>, w: Seq<char>)
    requires
        forall|k: int| 0 <= k < w.len() ==> !is_white_space(#[trigger] w[k]),
        acc.len() + w.len() > 0,
    ensures
        words_after(acc, w) == seq![acc + w],
    decreases w.len(),
{
    if w.len() == 0 {
        assert(acc + w =~= acc);
    } else {
        lemma_words_after_last(acc.push(w[0]), w.drop_first());
        assert(acc.push(w[0]) + w.drop_first() =~= acc + w);
    }
}

/// `s` without its leading whitespace.
pub open spec fn trim_start_of(s: Seq<char>) -> Seq<char>
    decreases s.len(),
{
    if s.len() > 0 && is_white_space(s[0]) {
        trim_start_of(s.drop_first())
    } else {
        s
    }
}

/// `s` without its trailing whitespace.
pub open spec fn trim_end_of(s: Seq<char>) -> Seq<char>
    decreases s.len(),
{
    if s.len() > 0 && is_white_space(s.last()) {
        trim_end_of(s.drop_last())
    } else {
        s
    }
}

/// `s` without leading and trailing whitespace.
pub open spec fn trimmed(s: Seq<char>) -> Seq<char> {
    trim_end_of(trim_start_of(s))
}

/// Lexicographic order on characters by code point: whether `a` sorts no later than `b`.
/// On strings this is the order of `String`'s `Ord`, since UTF-8 keeps code point order.
pub open spec fn precedes(a: Seq<char>, b: Seq<char>) -> bool
    decreases a.len(),
{
    if a.len() == 0 {
        true
    } else if b.len() == 0 {
        false
    } else if a[0] as u32 != b[0] as u32 {
        (a[0] as u32) < (b[0] as u32)
    } else {
        precedes(a.drop_first(), b.drop_first())
    }
}

/// Any two strings are ordered one way or the other.
pub proof fn lemma_precedes_total(a: Seq<char>, b: Seq<char>)
    ensures
        precedes(a, b) || precedes(b, a),
    decreases a.len(),
{
    if a.len() > 0 && b.len() > 0 && a[0] as u32 == b[0] as u32 {
        lemma_precedes_total(a.drop_first(), b.drop_first());
    }
}

/// The order is transitive.
pub proof fn lemma_precedes_transitive(a: Seq<char>, b: Seq<char>, c: Seq<char>)
    requires
        precedes(a, b),
        precedes(b, c),
    ensures
        precedes(a, c),
    decreases a.len(),
{
    if a.len() > 0 && b.len() > 0 && c.len() > 0 && a[0] as u32 == b[0] as u32 && b[0] as u32
        == c[0] as u32 {
        lemma_precedes_transitive(a.drop_first(), b.drop_first(), c.drop_first());
    }
}

/// The characters of `s`, one per element.
pub fn chars_of(s: &str) -> (r: Vec<char>)
    ensures
        r@ == s@,
{
    let mut r: Vec<char> = Vec::new();
    for c in it: s.chars()
        invariant
            r@ == it.seq().take(it.index() as int),
    {
        r.push(c);
    }
    r
}

/// `s` with every comma removed.
pub fn remove_commas(s: &str) -> (r: String)
    ensures
        r@ == strip_commas(s@),
{
    let cs = chars_of(s);
    let mut r = String::new();
    let mut i: usize = 0;
    while i < cs.len()
        invariant
            cs@ == s@,
            i <= cs.len(),
            r@ == strip_commas(s@.subrange(0, i as int)),
        decreases cs.len() - i,
    {
        assert(s@.subrange(0, i + 1).drop_last() == s@.subrange(0, i as int));
        if cs[i] != ',' {
            let piece = s.substring_char(i, i + 1);
            assert(piece@ == seq![cs@[i as int]]);
            r.append(piece);
        }
        i = i + 1;
    }
    assert(s@.subrange(0, s@.len() as int) == s@);
    r
}

/// The matching form of a name or word: transliterated, lowercased, commas removed.
pub fn normalize(s: &str) -> (r: String)
    ensures
        r@ == normalized(s@),
{
    let plain = transliterate(s);
    let lower = to_lowercase(plain.as_str());
    remove_commas(lower.as_str())
}

/// Whether `t` is a contiguous part of `s`.
pub fn contains_chars(s: &Vec<char>, t: &Vec<char>) -> (r: bool)
    ensures
        r == has_infix(s@, t@),
{
    if t.len() > s.len() {
        assert forall|i: int| !occurs_at(s@, t@, i) by {}
        return false;
    }
    let mut i: usize = 0;
    while i <= s.len() - t.len()
        invariant
            t.len() <= s.len(),
            forall|j: int| 0 <= j < i ==> !occurs_at(s@, t@, j),
        decreases s.len() - i,
    {
        let mut k: usize = 0;
        let mut same = true;
        while k < t.len()
            invariant
                i + t.len() <= s.len(),
                k <= t.len(),
                same == (forall|m: int| 0 <= m < k ==> s@[i + m] == t@[m]),
            decreases t.len() - k,
        {
            if s[i + k] != t[k] {
                same = false;
            }
            k = k + 1;
        }
        if same {
            assert(s@.subrange(i as int, i + t.len()) =~= t@);
            assert(occurs_at(s@, t@, i as int));
            return true;
        }
        assert(!(s@.subrange(i as int, i + t.len()) =~= t@));
        i = i + 1;
    }
    assert forall|j: int| !occurs_at(s@, t@, j) by {
        if 0 <= j && j + t.len() <= s.len() {
            assert(j < i);
        }
    }
    false
}

/// Whether `t` is a contiguous part of `s`.
pub fn contains_str(s: &str, t: &str) -> (r: bool)
    ensures
        r == has_infix(s@, t@),
{
    let sc = chars_of(s);
    let tc = chars_of(t);
    contains_chars(&sc, &tc)
}

/// The whitespace-separated words of `s`, in order.
pub fn split_words(s: &str) -> (r: Vec<String>)
    ensures
        views(r@) == words_of(s@),
{
    let cs = chars_of(s);
    let n = cs.len();
    let mut r: Vec<String> = Vec::new();
    let mut start: usize = 0;
    let mut i: usize = 0;
    assert(s@.subrange(0, n as int) == s@);
    assert(s@.subrange(0, 0) == Seq::<char>::empty());
    assert(views(r@) == Seq::<Seq<char>>::empty());
    while i < n
        invariant
            cs@ == s@,
            n == cs.len(),
            start <= i <= n,
            views(r@) + words_after(s@.subrange(start as int, i as int), s@.subrange(i as int, n as int))
                == words_of(s@),
        decreases n - i,
    {
        let ghost rest = s@.subrange(i as int, n as int);
        assert(rest[0] == cs@[i as int]);
        assert(rest.drop_first() == s@.subrange(i + 1, n as int));
        let ghost w = s@.subrange(start as int, i as int);
        assert(s@.subrange(i + 1, i + 1) == Seq::<char>::empty());
        if is_whitespace(cs[i]) {
            assert(words_after(w, rest) == if w.len() == 0 {
                words_after(Seq::empty(), rest.drop_first())
            } else {
                seq![w] + words_after(Seq::empty(), rest.drop_first())
            });
            if start < i {
                let word = s.substring_char(start, i).to_owned();
                proof {
                    assert(views(r@.push(word)) == views(r@).push(word@));
                    assert(views(r@).push(word@) + words_after(Seq::empty(), rest.drop_first())
                        == views(r@) + (seq![word@] + words_after(Seq::empty(), rest.drop_first())));
                }
                r.push(word);
            }
            start = i + 1;
        } else {
            assert(words_after(w, rest) == words_after(w.push(cs@[i as int]), rest.drop_first()));
            assert(w.push(cs@[i as int]) == s@.subrange(start as int, i + 1));
        }
        i = i + 1;
    }
    assert(s@.subrange(i as int, n as int).len() == 0);
    if start < n {
        let word = s.substring_char(start, n).to_owned();
        proof {
            assert(views(r@.push(word)) == views(r@).push(word@));
        }
        r.push(word);
    }
    r
}

/// `s` without leading and trailing whitespace.
pub fn trim(s: &str) -> (r: String)
    ensures
        r@ == trimmed(s@),
{
    let cs = chars_of(s);
    let n = cs.len();
    let mut a: usize = 0;
    assert(s@.subrange(0, n as int) == s@);
    while a < n && is_whitespace(cs[a])
        invariant
            cs@ == s@,
            n == cs.len(),
            a <= n,
            trim_start_of(s@) == trim_start_of(s@.subrange(a as int, n as int)),
        decreases n - a,
    {
        assert(s@.subrange(a as int, n as int).drop_first() == s@.subrange(a + 1, n as int));
        a = a + 1;
    }
    assert(trim_start_of(s@) == s@.subrange(a as int, n as int));
    let mut b: usize = n;
    while b > a && is_whitespace(cs[b - 1])
        invariant
            cs@ == s@,
            n == cs.len(),
            a <= b <= n,
            trimmed(s@) == trim_end_of(s@.subrange(a as int, b as int)),
        decreases b,
    {
        assert(s@.subrange(a as int, b as int).drop_last() == s@.subrange(a as int, b - 1));
        b = b - 1;
    }
    let piece = s.substring_char(a, b);
    piece.to_owned()
}

/// Whether `a` sorts no later than `b`, by code point.
pub fn precedes_str(a: &str, b: &str) -> (r: bool)
    ensures
        r == precedes(a@, b@),
{
    let ac = chars_of(a);
    let bc = chars_of(b);
    let mut i: usize = 0;
    assert(a@.skip(0) == a@);
    assert(b@.skip(0) == b@);
    while i < ac.len() && i < bc.len() && ac[i] as u32 == bc[i] as u32
        invariant
            ac@ == a@,
            bc@ == b@,
            i <= ac.len(),
            i <= bc.len(),
            precedes(a@, b@) == precedes(a@.skip(i as int), b@.skip(i as int)),
        decreases ac.len() - i,
    {
        assert(a@.skip(i as int).drop_first() == a@.skip(i + 1));
        assert(b@.skip(i as int).drop_first() == b@.skip(i + 1));
        i = i + 1;
    }
    if i == ac.len() {
        true
    } else if i == bc.len() {
        false
    } else {
        (ac[i] as u32) < (bc[i] as u32)
    }
}

/// The first position at or after `from` where `t` occurs in `s`, or the length of `s`.
pub open spec fn first_occurrence(s: Seq<char>, t: Seq<char>, from: int) -> int
    decreases s.len() + 1 - from,
{
    if from < 0 || from + t.len() > s.len() {
        s.len() as int
    } else if occurs_at(s, t, from) {
        from
    } else {
        first_occurrence(s, t, from + 1)
    }
}

/// The first position where `t` occurs in `s`, or the length of `s`.
pub fn find_chars(s: &Vec<char>, t: &Vec<char>) -> (r: usize)
    ensures
        r == first_occurrence(s@, t@, 0),
        r <= s.len(),
{
    if t.len() > s.len() {
        return s.len();
    }
    let mut i: usize = 0;
    while i <= s.len() - t.len()
        invariant
            t.len() <= s.len(),
            first_occurrence(s@, t@, 0) == first_occurrence(s@, t@, i as int),
        decreases s.len() - i,
    {
        let mut k: usize = 0;
        let mut same = true;
        while k < t.len()
            invariant
                i + t.len() <= s.len(),
                k <= t.len(),
                same == (forall|m: int| 0 <= m < k ==> s@[i + m] == t@[m]),
            decreases t.len() - k,
        {
            if s[i + k] != t[k] {
                same = false;
            }
            k = k + 1;
        }
        if same {
            assert(s@.subrange(i as int, i + t.len()) =~= t@);
            return i;
        }
        assert(!(s@.subrange(i as int, i + t.len()) =~= t@));
        i = i + 1;
    }
    s.len()
}

} // verus!
