//! Character-sequence primitives with exact specifications: search,
//! trimming, splitting and replacement, as `str` performs them.

use vstd::prelude::*;

verus! {

/// `p` occurs in `s` starting at index `i`.
pub open spec fn matches_at(s: Seq<char>, p: Seq<char>, i: int) -> bool {
    0 <= i && i + p.len() <= s.len() && s.subrange(i, i + p.len()) == p
}

/// `i` is the leftmost occurrence of `p` in `s`.
pub open spec fn is_first_match(s: Seq<char>, p: Seq<char>, i: int) -> bool {
    matches_at(s, p, i) && forall|j: int| 0 <= j < i ==> !matches_at(s, p, j)
}

/// Whether `p` occurs anywhere in `s` (`str::contains`).
pub open spec fn contains(s: Seq<char>, p: Seq<char>) -> bool {
    exists|i: int| matches_at(s, p, i)
}

/// The index of the leftmost occurrence of `p` in `s` (`str::find`).
pub open spec fn find(s: Seq<char>, p: Seq<char>) -> Option<int> {
    if exists|i: int| is_first_match(s, p, i) {
        Some(choose|i: int| is_first_match(s, p, i))
    } else {
        None
    }
}

/// `find` applied to the suffix of `s` that starts at `start`, with the
/// index given relative to `s`.
pub open spec fn find_from(s: Seq<char>, start: int, p: Seq<char>) -> Option<int> {
    match find(s.subrange(start, s.len() as int), p) {
        Some(k) => Some(start + k),
        None => None,
    }
}

/// The leftmost occurrence is what `find` gives back.
pub proof fn lemma_first_match_unique(s: Seq<char>, p: Seq<char>, i: int)
    requires
        is_first_match(s, p, i),
    ensures
        find(s, p) == Some(i),
{
    let k = choose|k: int| is_first_match(s, p, k);
    assert(is_first_match(s, p, k));
    if k < i {
        assert(!matches_at(s, p, k));
    } else if i < k {
        assert(!matches_at(s, p, i));
    }
}

/// What `find` gives back is the leftmost occurrence.
pub proof fn lemma_find_some(s: Seq<char>, p: Seq<char>)
    ensures
        find(s, p) matches Some(k) ==> is_first_match(s, p, k),
{
}

/// What `find_from` gives back is an occurrence at or after `start`, and
/// none lies between `start` and it.
pub proof fn lemma_find_from_some(s: Seq<char>, start: int, p: Seq<char>)
    requires
        0 <= start <= s.len(),
    ensures
        find_from(s, start, p) matches Some(k) ==> {
            &&& start <= k
            &&& k + p.len() <= s.len()
            &&& matches_at(s, p, k)
            &&& forall|j: int| start <= j < k ==> !matches_at(s, p, j)
        },
{
    let t = s.subrange(start, s.len() as int);
    lemma_find_some(t, p);
    if let Some(k) = find(t, p) {
        lemma_matches_shift(s, p, start, k);
        assert forall|j: int| start <= j < start + k implies !matches_at(s, p, j) by {
            lemma_matches_shift(s, p, start, j - start);
        }
    }
}

/// Where `p` occurs nowhere at or after `start`, `find_from` finds nothing.
pub proof fn lemma_find_from_none(s: Seq<char>, start: int, p: Seq<char>)
    requires
        0 <= start <= s.len(),
        forall|j: int| start <= j ==> !matches_at(s, p, j),
    ensures
        find_from(s, start, p) is None,
{
    let t = s.subrange(start, s.len() as int);
    assert forall|j: int| !matches_at(t, p, j) by {
        if 0 <= j {
            lemma_matches_shift(s, p, start, j);
        }
    }
    lemma_no_match(t, p);
}

proof fn lemma_no_match(s: Seq<char>, p: Seq<char>)
    requires
        forall|j: int| !matches_at(s, p, j),
    ensures
        find(s, p) == None::<int>,
        !contains(s, p),
{
}

/// The characters of `s`.
pub fn to_chars(s: &str) -> (v: Vec<char>)
    ensures
        v@ == s@,
{
    let mut v: Vec<char> = Vec::new();
    for c in it: s.chars()
        invariant
            v@ == it.seq().take(it.index() as int),
            it.seq() == s@,
    {
        v.push(c);
    }
    v
}


proof fn lemma_matches_shift(s: Seq<char>, p: Seq<char>, start: int, j: int)
    requires
        0 <= start <= s.len(),
        0 <= j,
    ensures
        matches_at(s.subrange(start, s.len() as int), p, j) == matches_at(s, p, start + j),
{
    let t = s.subrange(start, s.len() as int);
    if j + p.len() <= t.len() {
        assert(t.subrange(j, j + p.len()) =~= s.subrange(start + j, start + j + p.len()));
    }
}

/// The first occurrence of `p` at or after `start` is what `find_from`
/// gives back.
pub proof fn lemma_find_from_first(s: Seq<char>, start: int, p: Seq<char>, k: int)
    requires
        0 <= start <= k,
        matches_at(s, p, k),
        forall|j: int| start <= j < k ==> !matches_at(s, p, j),
    ensures
        find_from(s, start, p) == Some(k),
{
    let t = s.subrange(start, s.len() as int);
    lemma_matches_shift(s, p, start, k - start);
    assert forall|j: int| 0 <= j < k - start implies !matches_at(t, p, j) by {
        lemma_matches_shift(s, p, start, j);
    }
    lemma_first_match_unique(t, p, k - start);
}

/// Whether `p` occurs in `s` at index `i`.
pub fn matches_here(s: &Vec<char>, i: usize, p: &Vec<char>) -> (b: bool)
    ensures
        b == matches_at(s@, p@, i as int),
{
    if p.len() > s.len() || i > s.len() - p.len() {
        return false;
    }
    let mut k: usize = 0;
    while k < p.len()
        invariant
            k <= p.len(),
            i + p.len() <= s.len(),
            forall|m: int| 0 <= m < k ==> s@[i + m] == p@[m],
        decreases p.len() - k,
    {
        if s[i + k] != p[k] {
            assert(s@.subrange(i as int, i + p.len())[k as int] != p@[k as int]);
            return false;
        }
        k += 1;
    }
    assert(s@.subrange(i as int, i + p.len()) =~= p@);
    true
}

/// The leftmost occurrence of `p` in `s` at or after `start`
/// (`s[start..].find(p)`, with the index given relative to `s`).
pub fn find_at(s: &Vec<char>, start: usize, p: &Vec<char>) -> (r: Option<usize>)
    requires
        start <= s.len(),
    ensures
        match find_from(s@, start as int, p@) {
            Some(k) => r == Some(k as usize),
            None => r is None,
        },
        r matches Some(k) ==> start <= k && k + p.len() <= s.len() && matches_at(s@, p@, k as int),
{
    proof { lemma_find_from_some(s@, start as int, p@); }
    let ghost t = s@.subrange(start as int, s@.len() as int);
    if p.len() > s.len() - start {
        assert forall|j: int| !matches_at(t, p@, j) by {}
        proof { lemma_no_match(t, p@); }
        return None;
    }
    if p.len() == 0 {
        proof {
            assert(t.subrange(0, 0) =~= p@);
            assert(is_first_match(t, p@, 0));
            lemma_first_match_unique(t, p@, 0);
        }
        return Some(start);
    }
    let last = s.len() - p.len();
    let mut i = start;
    while i <= last
        invariant
            start <= i,
            last == s.len() - p.len(),
            p.len() > 0,
            start <= s.len(),
            p.len() <= s.len() - start,
            t == s@.subrange(start as int, s@.len() as int),
            forall|j: int| 0 <= j < i - start ==> !matches_at(t, p@, j),
        decreases last + 1 - i,
    {
        if matches_here(s, i, p) {
            proof {
                lemma_matches_shift(s@, p@, start as int, i - start);
                assert forall|j: int| 0 <= j < i - start implies !matches_at(t, p@, j) by {}
                assert(is_first_match(t, p@, i - start));
                lemma_first_match_unique(t, p@, i - start);
            }
            return Some(i);
        }
        proof { lemma_matches_shift(s@, p@, start as int, i - start); }
        i += 1;
    }
    proof {
        assert forall|j: int| !matches_at(t, p@, j) by {
            if 0 <= j && j >= i - start {
                assert(j + p@.len() > t.len());
            }
        }
        lemma_no_match(t, p@);
    }
    None
}

/// The leftmost occurrence of `p` in `s` (`str::find`).
pub fn find_first(s: &Vec<char>, p: &Vec<char>) -> (r: Option<usize>)
    ensures
        match find(s@, p@) {
            Some(k) => r == Some(k as usize),
            None => r is None,
        },
        r matches Some(k) ==> k + p.len() <= s.len() && is_first_match(s@, p@, k as int),
{
    proof { lemma_find_some(s@, p@); }
    let r = find_at(s, 0, p);
    assert(s@.subrange(0, s@.len() as int) =~= s@);
    r
}

/// Whether `p` occurs in `s` (`str::contains`).
pub fn contains_seq(s: &Vec<char>, p: &Vec<char>) -> (b: bool)
    ensures
        b == contains(s@, p@),
{
    match find_first(s, p) {
        Some(k) => {
            proof {
                let i = choose|i: int| is_first_match(s@, p@, i);
                assert(matches_at(s@, p@, i));
            }
            true
        },
        None => {
            proof {
                if contains(s@, p@) {
                    lemma_some_match_has_first(s@, p@);
                }
            }
            false
        },
    }
}

proof fn lemma_some_match_has_first(s: Seq<char>, p: Seq<char>)
    requires
        contains(s, p),
    ensures
        find(s, p) is Some,
{
    let i = choose|i: int| matches_at(s, p, i);
    lemma_first_below(s, p, i);
}

proof fn lemma_first_below(s: Seq<char>, p: Seq<char>, i: int)
    requires
        matches_at(s, p, i),
    ensures
        exists|k: int| is_first_match(s, p, k),
    decreases i,
{
    if exists|j: int| 0 <= j < i && matches_at(s, p, j) {
        let j = choose|j: int| 0 <= j < i && matches_at(s, p, j);
        lemma_first_below(s, p, j);
    } else {
        assert(is_first_match(s, p, i));
    }
}

/// `i` is the rightmost index of `c` in `s`.
pub open spec fn is_last_char(s: Seq<char>, c: char, i: int) -> bool {
    0 <= i < s.len() && s[i] == c && forall|j: int| i < j < s.len() ==> s[j] != c
}

/// The rightmost index of `c` in `s` (`str::rfind` with a `char`).
pub open spec fn rfind_char(s: Seq<char>, c: char) -> Option<int> {
    if exists|i: int| is_last_char(s, c, i) {
        Some(choose|i: int| is_last_char(s, c, i))
    } else {
        None
    }
}

/// The rightmost index of `c` in `s`.
pub fn rfind_char_in(s: &Vec<char>, c: char) -> (r: Option<usize>)
    ensures
        match rfind_char(s@, c) {
            Some(k) => r == Some(k as usize),
            None => r is None,
        },
{
    let mut i = s.len();
    while i > 0
        invariant
            i <= s.len(),
            forall|j: int| i <= j < s.len() ==> s@[j] != c,
        decreases i,
    {
        if s[i - 1] == c {
            proof {
                let k = choose|k: int| is_last_char(s@, c, k);
                assert(is_last_char(s@, c, i - 1));
                assert(is_last_char(s@, c, k));
                if k < i - 1 {
                    assert(s@[i - 1] != c);
                } else if k > i - 1 {
                    assert(s@[k] != c);
                }
            }
            return Some(i - 1);
        }
        i -= 1;
    }
    None
}

/// A copy of `s[a..b]`.
pub fn slice_of(s: &Vec<char>, a: usize, b: usize) -> (v: Vec<char>)
    requires
        a <= b <= s.len(),
    ensures
        v@ == s@.subrange(a as int, b as int),
{
    let mut v: Vec<char> = Vec::new();
    let mut i = a;
    while i < b
        invariant
            a <= i <= b <= s.len(),
            v@ == s@.subrange(a as int, i as int),
        decreases b - i,
    {
        v.push(s[i]);
        assert(v@ =~= s@.subrange(a as int, i + 1));
        i += 1;
    }
    v
}

/// Appends `src` to `out`.
pub fn push_all(out: &mut Vec<char>, src: &Vec<char>)
    ensures
        final(out)@ == old(out)@ + src@,
{
    let mut i: usize = 0;
    while i < src.len()
        invariant
            i <= src.len(),
            out@ == old(out)@ + src@.subrange(0, i as int),
        decreases src.len() - i,
    {
        out.push(src[i]);
        assert(out@ =~= old(out)@ + src@.subrange(0, i + 1));
        i += 1;
    }
    assert(src@.subrange(0, src@.len() as int) =~= src@);
}

/// The string whose characters are `v`.
#[verifier::external_body]
pub fn string_of(v: &Vec<char>) -> (s: String)
    ensures
        s@ == v@,
{
    String::from_iter(v)
}


/// The sets of characters that the property text is trimmed or split by.
#[derive(Clone, Copy, PartialEq, Eq, Debug)]
pub enum CharClass {
    /// Unicode `White_Space`, as `char::is_whitespace` defines it.
    Whitespace,
    /// `[` and `{`.
    Opening,
    /// `]` and `}`.
    Closing,
    /// `,` and `;`.
    Separator,
}

/// `char::is_whitespace`: the characters with the Unicode `White_Space` property.
pub open spec fn is_whitespace(c: char) -> bool {
    ||| c == ' '
    ||| ('\t' <= c && c <= '\r')
    ||| c == '\u{85}'
    ||| c == '\u{a0}'
    ||| c == '\u{1680}'
    ||| ('\u{2000}' <= c && c <= '\u{200a}')
    ||| c == '\u{2028}'
    ||| c == '\u{2029}'
    ||| c == '\u{202f}'
    ||| c == '\u{205f}'
    ||| c == '\u{3000}'
}

pub open spec fn in_class(c: char, class: CharClass) -> bool {
    match class {
        CharClass::Whitespace => is_whitespace(c),
        CharClass::Opening => c == '[' || c == '{',
        CharClass::Closing => c == ']' || c == '}',
        CharClass::Separator => c == ',' || c == ';',
    }
}

/// Whether `c` belongs to `class`.
pub fn char_in_class(c: char, class: CharClass) -> (b: bool)
    ensures
        b == in_class(c, class),
{
    match class {
        CharClass::Whitespace => {
            c == ' ' || ('\t' <= c && c <= '\r') || c == '\u{85}' || c == '\u{a0}' || c
                == '\u{1680}' || ('\u{2000}' <= c && c <= '\u{200a}') || c == '\u{2028}' || c
                == '\u{2029}' || c == '\u{202f}' || c == '\u{205f}' || c == '\u{3000}'
        },
        CharClass::Opening => c == '[' || c == '{',
        CharClass::Closing => c == ']' || c == '}',
        CharClass::Separator => c == ',' || c == ';',
    }
}

/// `s` without its leading characters of `class` (`str::trim_start_matches`).
pub open spec fn trim_start_by(s: Seq<char>, class: CharClass) -> Seq<char>
    decreases s.len(),
{
    if s.len() > 0 && in_class(s[0], class) {
        trim_start_by(s.drop_first(), class)
    } else {
        s
    }
}

/// `s` without its trailing characters of `class` (`str::trim_end_matches`).
pub open spec fn trim_end_by(s: Seq<char>, class: CharClass) -> Seq<char>
    decreases s.len(),
{
    if s.len() > 0 && in_class(s.last(), class) {
        trim_end_by(s.drop_last(), class)
    } else {
        s
    }
}

/// Trimming the start leaves a suffix.
pub proof fn lemma_trim_start_suffix(s: Seq<char>, class: CharClass)
    ensures
        trim_start_by(s, class).len() <= s.len(),
        trim_start_by(s, class) == s.subrange(
            s.len() - trim_start_by(s, class).len(),
            s.len() as int,
        ),
    decreases s.len(),
{
    if s.len() > 0 && in_class(s[0], class) {
        lemma_trim_start_suffix(s.drop_first(), class);
        let t = trim_start_by(s, class);
        assert(s.drop_first().subrange(s.len() - 1 - t.len(), s.len() - 1) =~= s.subrange(
            s.len() - t.len(),
            s.len() as int,
        ));
    } else {
        assert(s.subrange(0, s.len() as int) =~= s);
    }
}

/// Trimming the end leaves a prefix.
pub proof fn lemma_trim_end_prefix(s: Seq<char>, class: CharClass)
    ensures
        trim_end_by(s, class).len() <= s.len(),
        trim_end_by(s, class) == s.subrange(0, trim_end_by(s, class).len() as int),
    decreases s.len(),
{
    if s.len() > 0 && in_class(s.last(), class) {
        lemma_trim_end_prefix(s.drop_last(), class);
        let t = trim_end_by(s, class);
        assert(s.drop_last().subrange(0, t.len() as int) =~= s.subrange(0, t.len() as int));
    } else {
        assert(s.subrange(0, s.len() as int) =~= s);
    }
}

/// Every character of `trim(s)` is a character of `s`.
pub proof fn lemma_trim_chars(s: Seq<char>)
    ensures
        forall|i: int| 0 <= i < trim(s).len() ==> exists|j: int| 0 <= j < s.len() && s[j] == #[trigger] trim(s)[i],
{
    let a = trim_start_by(s, CharClass::Whitespace);
    lemma_trim_start_suffix(s, CharClass::Whitespace);
    lemma_trim_end_prefix(a, CharClass::Whitespace);
    let off = s.len() - a.len();
    assert forall|i: int| 0 <= i < trim(s).len() implies exists|j: int| 0 <= j < s.len() && s[j] == #[trigger] trim(s)[i] by {
        assert(trim(s)[i] == a[i]);
        assert(a[i] == s[off + i]);
    }
}

/// `str::trim`: `s` without leading and trailing whitespace.
pub open spec fn trim(s: Seq<char>) -> Seq<char> {
    trim_end_by(trim_start_by(s, CharClass::Whitespace), CharClass::Whitespace)
}

/// `s` without its leading characters of `class`.
pub fn trim_start_of(s: &Vec<char>, class: CharClass) -> (v: Vec<char>)
    ensures
        v@ == trim_start_by(s@, class),
{
    let mut a: usize = 0;
    assert(s@.subrange(0, s@.len() as int) =~= s@);
    while a < s.len() && char_in_class(s[a], class)
        invariant
            a <= s.len(),
            trim_start_by(s@, class) == trim_start_by(s@.subrange(a as int, s@.len() as int), class),
        decreases s.len() - a,
    {
        assert(s@.subrange(a as int, s@.len() as int).drop_first() =~= s@.subrange(
            a + 1,
            s@.len() as int,
        ));
        a += 1;
    }
    slice_of(s, a, s.len())
}

/// `s` without its trailing characters of `class`.
pub fn trim_end_of(s: &Vec<char>, class: CharClass) -> (v: Vec<char>)
    ensures
        v@ == trim_end_by(s@, class),
{
    let mut b: usize = s.len();
    assert(s@.subrange(0, b as int) =~= s@);
    while b > 0 && char_in_class(s[b - 1], class)
        invariant
            b <= s.len(),
            trim_end_by(s@, class) == trim_end_by(s@.subrange(0, b as int), class),
        decreases b,
    {
        assert(s@.subrange(0, b as int).drop_last() =~= s@.subrange(0, b - 1));
        b -= 1;
    }
    slice_of(s, 0, b)
}

/// `s` without leading and trailing whitespace (`str::trim`).
pub fn trim_of(s: &Vec<char>) -> (v: Vec<char>)
    ensures
        v@ == trim(s@),
{
    let t = trim_start_of(s, CharClass::Whitespace);
    trim_end_of(&t, CharClass::Whitespace)
}

/// The pieces of `s` between the characters of `class`, as `str::split`
/// with a character predicate gives them: one more piece than separators.
pub open spec fn split_by(s: Seq<char>, class: CharClass) -> Seq<Seq<char>>
    decreases s.len(),
{
    if s.len() == 0 {
        seq![Seq::<char>::empty()]
    } else {
        let parts = split_by(s.drop_last(), class);
        if in_class(s.last(), class) {
            parts.push(Seq::<char>::empty())
        } else {
            parts.update(parts.len() - 1, parts.last().push(s.last()))
        }
    }
}

/// The views of a list of character vectors.
pub open spec fn views(v: Seq<Vec<char>>) -> Seq<Seq<char>> {
    v.map_values(|x: Vec<char>| x@)
}

/// The pieces of `s` between the characters of `class`.
pub fn split_of(s: &Vec<char>, class: CharClass) -> (parts: Vec<Vec<char>>)
    ensures
        views(parts@) == split_by(s@, class),
{
    let mut parts: Vec<Vec<char>> = Vec::new();
    let mut cur: Vec<char> = Vec::new();
    let mut i: usize = 0;
    assert(s@.take(0) =~= Seq::<char>::empty());
    assert(views(parts@).push(cur@) =~= seq![Seq::<char>::empty()]);
    while i < s.len()
        invariant
            i <= s.len(),
            split_by(s@.take(i as int), class) == views(parts@).push(cur@),
        decreases s.len() - i,
    {
        let ghost before = views(parts@).push(cur@);
        assert(s@.take(i + 1).drop_last() =~= s@.take(i as int));
        assert(s@.take(i + 1).last() == s@[i as int]);
        if char_in_class(s[i], class) {
            let done = cur;
            parts.push(done);
            cur = Vec::new();
            assert(views(parts@).push(cur@) =~= before.push(Seq::<char>::empty()));
        } else {
            cur.push(s[i]);
            assert(views(parts@).push(cur@) =~= before.update(
                before.len() - 1,
                before.last().push(s@[i as int]),
            ));
        }
        i += 1;
    }
    parts.push(cur);
    assert(s@.take(s@.len() as int) =~= s@);
    parts
}

/// `str::replace`: every occurrence of `from`, scanning left to right without
/// overlap, replaced by `to`.
pub open spec fn replace(s: Seq<char>, from: Seq<char>, to: Seq<char>) -> Seq<char>
    decreases s.len(),
{
    if s.len() == 0 {
        Seq::empty()
    } else if from.len() > 0 && matches_at(s, from, 0) {
        to + replace(s.skip(from.len() as int), from, to)
    } else {
        seq![s[0]] + replace(s.drop_first(), from, to)
    }
}

/// Every occurrence of `from` in `s` replaced by `to`.
pub fn replace_of(s: &Vec<char>, from: &Vec<char>, to: &Vec<char>) -> (v: Vec<char>)
    requires
        from.len() > 0,
    ensures
        v@ == replace(s@, from@, to@),
{
    let mut out: Vec<char> = Vec::new();
    let mut i: usize = 0;
    assert(s@.skip(0) =~= s@);
    while i < s.len()
        invariant
            i <= s.len(),
            from@.len() > 0,
            replace(s@, from@, to@) == out@ + replace(s@.skip(i as int), from@, to@),
        decreases s.len() - i,
    {
        let ghost rest = s@.skip(i as int);
        proof { lemma_matches_shift(s@, from@, i as int, 0); }
        assert(s@.subrange(i as int, s@.len() as int) =~= rest);
        if matches_here(s, i, from) {
            assert(rest.skip(from@.len() as int) =~= s@.skip(i + from@.len()));
            let ghost prev = out@;
            push_all(&mut out, to);
            assert(out@ + replace(s@.skip(i + from@.len()), from@, to@) =~= prev + (to@
                + replace(rest.skip(from@.len() as int), from@, to@)));
            i = i + from.len();
        } else {
            assert(rest.drop_first() =~= s@.skip(i + 1));
            let ghost prev = out@;
            out.push(s[i]);
            assert(out@ + replace(s@.skip(i + 1), from@, to@) =~= prev + (seq![rest[0]]
                + replace(rest.drop_first(), from@, to@)));
            i += 1;
        }
    }
    assert(s@.skip(s@.len() as int) =~= Seq::<char>::empty());
    out
}

} // verus!
