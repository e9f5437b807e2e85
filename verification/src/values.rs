//! Cleanup of the debug text of `UniqueId` and `Enum` property values.

use vstd::prelude::*;

use crate::text::{
    is_first_match, is_last_char, lemma_first_match_unique, lemma_find_from_none, lemma_trim_chars,
    find, find_at, find_first, find_from, lemma_find_from_some, lemma_find_some, matches_at,
    replace, replace_of, rfind_char, rfind_char_in, slice_of, string_of, to_chars, trim, trim_of,
    is_whitespace, trim_start_by, trim_end_by, CharClass,
};

verus! {

/// The text of an `Enum` value: what follows `value: ` up to the next `}`,
/// trimmed; the text itself where it holds no such field.
pub open spec fn enum_value_text(raw: Seq<char>) -> Seq<char> {
    match find(raw, "value: "@) {
        Some(vs) => match find_from(raw, vs, "}"@) {
            Some(ve) => trim(raw.subrange(vs + "value: "@.len(), ve)),
            None => raw,
        },
        None => raw,
    }
}

/// Extracts the numeric value from the debug text of an `Enum` value.
pub fn format_enum_value(raw_enum: &str) -> (res: String)
    ensures
        res@ == enum_value_text(raw_enum@),
{
    let raw = to_chars(raw_enum);
    let key = to_chars("value: ");
    if let Some(vs) = find_first(&raw, &key) {
        if let Some(ve) = find_at(&raw, vs, &to_chars("}")) {
            proof {
                reveal_strlit("value: ");
                reveal_strlit("}");
                assert(raw@.subrange(vs as int, vs + 7) == key@);
                if ve < vs + 7 {
                    assert(raw@.subrange(ve as int, ve + 1) == "}"@);
                    assert(raw@.subrange(ve as int, ve + 1)[0] == raw@[ve as int]);
                    assert(raw@[ve as int] == '}');
                    assert(raw@.subrange(vs as int, vs + 7)[ve - vs] == raw@[ve as int]);
                    assert(raw@[ve as int] == key@[ve - vs]);
                }
            }
            return string_of(&trim_of(&slice_of(&raw, vs + key.len(), ve)));
        }
    }
    string_of(&raw)
}

/// Cleaning an enum value's text twice gives what cleaning it once gives:
/// the value taken out holds no `}`, so a second pass leaves it as it is.
pub proof fn lemma_enum_value_idempotent(raw: Seq<char>)
    ensures
        enum_value_text(enum_value_text(raw)) == enum_value_text(raw),
{
    reveal_strlit("}");
    reveal_strlit("value: ");
    lemma_find_some(raw, "value: "@);
    if let Some(vs) = find(raw, "value: "@) {
        lemma_find_from_some(raw, vs, "}"@);
        if let Some(ve) = find_from(raw, vs, "}"@) {
            let m = raw.subrange(vs + 7, ve);
            let r = trim(m);
            assert(vs + 7 <= ve) by {
                if ve < vs + 7 {
                    assert(raw.subrange(ve, ve + 1)[0] == raw[ve]);
                    assert(raw.subrange(vs, vs + 7)[ve - vs] == raw[ve]);
                }
            }
            assert forall|k: int| 0 <= k < m.len() implies m[k] != '}' by {
                assert(m[k] == raw[vs + 7 + k]);
                if raw[vs + 7 + k] == '}' {
                    assert(raw.subrange(vs + 7 + k, vs + 7 + k + 1) =~= "}"@);
                    assert(matches_at(raw, "}"@, vs + 7 + k));
                }
            }
            lemma_trim_chars(m);
            assert forall|k: int| 0 <= k < r.len() implies r[k] != '}' by {
                let j = choose|j: int| 0 <= j < m.len() && m[j] == r[k];
            }
            lemma_find_some(r, "value: "@);
            if let Some(vs2) = find(r, "value: "@) {
                assert forall|j: int| vs2 <= j implies !matches_at(r, "}"@, j) by {
                    if matches_at(r, "}"@, j) {
                        assert(r.subrange(j, j + 1)[0] == r[j]);
                    }
                }
                lemma_find_from_none(r, vs2, "}"@);
            }
        }
    }
}

/// Whether `c` is one byte long in UTF-8.
pub open spec fn is_ascii_char(c: char) -> bool {
    c < '\u{80}'
}

/// The trimmed text between the first `{` and the last `}` of a `UniqueId`'s
/// debug text.
pub open spec fn unique_id_content(raw: Seq<char>, open: int, close: int) -> Seq<char> {
    trim(raw.subrange(open + 1, close))
}

/// `content` with every `, ` made `-` and every `random: ` removed.
pub open spec fn cleaned_unique_id(content: Seq<char>) -> Seq<char> {
    replace(replace(content, ", "@, "-"@), "random: "@, Seq::empty())
}

/// The readable text of a `UniqueId`'s debug text: the part of the braced
/// content between `random:` and the next `,`, without the character after
/// the colon and the one before the comma; where no `,` follows `random:`
/// or no `random:` occurs, the cleaned content; where the text has no `{`
/// or no `}`, the text itself.
pub open spec fn unique_id_text(raw: Seq<char>) -> Seq<char> {
    match (find(raw, "{"@), rfind_char(raw, '}')) {
        (Some(open), Some(close)) => {
            let content = unique_id_content(raw, open, close);
            match find(content, "random:"@) {
                Some(ri) => match find_from(content, ri, ","@) {
                    Some(rc) => content.subrange(ri + 8, rc - 1),
                    None => cleaned_unique_id(content),
                },
                None => cleaned_unique_id(content),
            }
        },
        _ => raw,
    }
}

/// The test for a `-`.
pub open spec fn is_dash() -> spec_fn(char) -> bool {
    |c: char| c == '-'
}

/// The number of `-` characters in `s`.
pub open spec fn dashes(s: Seq<char>) -> nat {
    s.filter(is_dash()).len()
}

proof fn lemma_no_dashes(s: Seq<char>)
    requires
        forall|i: int| 0 <= i < s.len() ==> s[i] != '-',
    ensures
        dashes(s) == 0,
{
    broadcast use Seq::lemma_filter_contains_rev, Seq::lemma_filter_pred;

    let f = s.filter(is_dash());
    if f.len() > 0 {
        assert(is_dash()(f[0]));
        assert(f.contains(f[0]));
        assert(s.contains(f[0]));
    }
}

/// Replacing a text that holds no `-` keeps every `-`.
proof fn lemma_replace_keeps_dashes(s: Seq<char>, from: Seq<char>, to: Seq<char>)
    requires
        from.len() > 0,
        forall|i: int| 0 <= i < from.len() ==> from[i] != '-',
    ensures
        dashes(replace(s, from, to)) >= dashes(s),
    decreases s.len(),
{
    broadcast use Seq::filter_distributes_over_add;

    if s.len() > 0 {
        if matches_at(s, from, 0) {
            let rest = s.skip(from.len() as int);
            lemma_replace_keeps_dashes(rest, from, to);
            assert(s =~= from + rest);
            lemma_no_dashes(from);
            assert((from + rest).filter(is_dash()) == from.filter(is_dash()) + rest.filter(is_dash()));
            assert((to + replace(rest, from, to)).filter(is_dash()) == to.filter(is_dash())
                + replace(rest, from, to).filter(is_dash()));
        } else {
            let rest = s.drop_first();
            lemma_replace_keeps_dashes(rest, from, to);
            assert(s =~= seq![s[0]] + rest);
            assert((seq![s[0]] + rest).filter(is_dash()) == seq![s[0]].filter(is_dash())
                + rest.filter(is_dash()));
            assert((seq![s[0]] + replace(rest, from, to)).filter(is_dash()) == seq![s[0]].filter(
                is_dash(),
            ) + replace(rest, from, to).filter(is_dash()));
        }
    }
}

/// Where a `UniqueId`'s text is cleaned rather than cut (no `,` follows
/// `random:`, or no `random:` occurs), every `-` of the braced content is
/// kept, the sign of a negative `random` part among them: the cleaning
/// only makes `, ` into `-` and drops `random: `.
pub proof fn lemma_unique_id_keeps_dashes(raw: Seq<char>)
    ensures
        match (find(raw, "{"@), rfind_char(raw, '}')) {
            (Some(open), Some(close)) => {
                let content = unique_id_content(raw, open, close);
                (match find(content, "random:"@) {
                    Some(ri) => find_from(content, ri, ","@) is None,
                    None => true,
                }) ==> dashes(unique_id_text(raw)) >= dashes(content)
            },
            _ => unique_id_text(raw) == raw,
        },
{
    reveal_strlit(", ");
    reveal_strlit("random: ");
    if let (Some(open), Some(close)) = (find(raw, "{"@), rfind_char(raw, '}')) {
        let content = unique_id_content(raw, open, close);
        let once = replace(content, ", "@, "-"@);
        lemma_replace_keeps_dashes(content, ", "@, "-"@);
        lemma_replace_keeps_dashes(once, "random: "@, Seq::empty());
    }
}

/// A digit or a `-`: the characters of the numbers in a `UniqueId`'s fields.
pub open spec fn is_number_char(c: char) -> bool {
    ('0' <= c && c <= '9') || c == '-'
}

/// Whether `s` is made of digits and `-` alone.
pub open spec fn is_number_text(s: Seq<char>) -> bool {
    forall|i: int| 0 <= i < s.len() ==> is_number_char(s[i])
}

/// The debug text of a `UniqueId` with the given fields, as the Roblox
/// library prints it.
pub open spec fn unique_id_debug(index: Seq<char>, time: Seq<char>, random: Seq<char>) -> Seq<
    char,
> {
    "UniqueId(UniqueId { index: "@ + index + ", time: "@ + time + ", random: "@ + random + " })"@
}

/// Replacing in a text that holds no first character of `from` leaves that
/// text as it is; what follows is replaced on its own.
proof fn lemma_replace_skip(x: Seq<char>, y: Seq<char>, from: Seq<char>, to: Seq<char>)
    requires
        from.len() > 0,
        forall|i: int| 0 <= i < x.len() ==> x[i] != from[0],
    ensures
        replace(x + y, from, to) == x + replace(y, from, to),
    decreases x.len(),
{
    let s = x + y;
    if x.len() > 0 {
        assert(!matches_at(s, from, 0)) by {
            if matches_at(s, from, 0) {
                assert(s.subrange(0, from.len() as int)[0] == s[0]);
            }
        }
        lemma_replace_skip(x.drop_first(), y, from, to);
        assert(s.drop_first() =~= x.drop_first() + y);
        assert(seq![s[0]] + (x.drop_first() + replace(y, from, to)) =~= x + replace(y, from, to));
    } else {
        assert(s =~= y);
        assert(x + replace(y, from, to) =~= replace(y, from, to));
    }
}

/// An occurrence of `from` at the start is replaced by `to`.
proof fn lemma_replace_hit(y: Seq<char>, from: Seq<char>, to: Seq<char>)
    requires
        from.len() > 0,
    ensures
        replace(from + y, from, to) == to + replace(y, from, to),
{
    let s = from + y;
    assert(s.subrange(0, from.len() as int) =~= from);
    assert(s.skip(from.len() as int) =~= y);
}

/// The braced content of a `UniqueId`'s debug text: its fields, each
/// after its name.
spec fn unique_id_fields_text(index: Seq<char>, time: Seq<char>, random: Seq<char>) -> Seq<char> {
    ("index: "@ + index) + (", "@ + (("time: "@ + time) + (", "@ + ("random: "@ + random))))
}

/// The braces of a `UniqueId`'s debug text, and the trimmed text between them.
proof fn lemma_unique_id_braces(index: Seq<char>, time: Seq<char>, random: Seq<char>)
    requires
        is_number_text(index),
        is_number_text(time),
        is_number_text(random),
        random.len() > 0,
    ensures
        find(unique_id_debug(index, time, random), "{"@) == Some(18int),
        rfind_char(unique_id_debug(index, time, random), '}') == Some(
            unique_id_debug(index, time, random).len() - 2,
        ),
        unique_id_content(
            unique_id_debug(index, time, random),
            18,
            unique_id_debug(index, time, random).len() - 2,
        ) == unique_id_fields_text(index, time, random),
{
    reveal_strlit("UniqueId(UniqueId { index: ");
    reveal_strlit(", time: ");
    reveal_strlit(", random: ");
    reveal_strlit(" })");
    reveal_strlit("{");
    reveal_strlit(", ");
    reveal_strlit("random: ");
    reveal_strlit("index: ");
    reveal_strlit("time: ");
    let raw = unique_id_debug(index, time, random);
    let content = unique_id_fields_text(index, time, random);
    let mid = seq![' '] + content + seq![' '];
    let head = seq!['U', 'n', 'i', 'q', 'u', 'e', 'I', 'd', '(', 'U', 'n', 'i', 'q', 'u', 'e', 'I', 'd', ' '];
    assert(raw =~= head + seq!['{'] + mid + seq!['}', ')']);
    let close = raw.len() - 2;
    assert forall|j: int| 0 <= j < 18 implies !matches_at(raw, "{"@, j) by {
        if matches_at(raw, "{"@, j) {
            assert(raw.subrange(j, j + 1)[0] == raw[j]);
        }
    }
    assert(raw.subrange(18, 19) =~= "{"@);
    assert(is_first_match(raw, "{"@, 18));
    lemma_first_match_unique(raw, "{"@, 18);
    assert(is_last_char(raw, '}', close));
    assert(rfind_char(raw, '}') == Some(close)) by {
        let k = choose|k: int| is_last_char(raw, '}', k);
        assert(is_last_char(raw, '}', k));
    }
    assert(raw.subrange(19, close) =~= mid);
    assert(content.last() == random.last());
    assert(!is_whitespace(random.last())) by {
        assert(is_number_char(random[random.len() - 1]));
    }
    let ws = CharClass::Whitespace;
    let spaced = content + seq![' '];
    assert(mid[0] == ' ');
    assert(mid.drop_first() =~= spaced);
    assert(trim_start_by(mid, ws) == trim_start_by(spaced, ws));
    assert(spaced[0] == 'i');
    assert(trim_start_by(spaced, ws) == spaced);
    assert(spaced.last() == ' ');
    assert(spaced.drop_last() =~= content);
    assert(trim_end_by(spaced, ws) == trim_end_by(content, ws));
    assert(trim_end_by(content, ws) == content);
}

/// In the fields of a `UniqueId`, `random:` is found after the index and
/// the time, and no `,` follows it.
proof fn lemma_unique_id_random_last(index: Seq<char>, time: Seq<char>, random: Seq<char>)
    requires
        is_number_text(index),
        is_number_text(time),
        is_number_text(random),
    ensures
        ({
            let content = unique_id_fields_text(index, time, random);
            let ri: int = (index.len() + time.len() + 17) as int;
            &&& find(content, "random:"@) == Some(ri)
            &&& find_from(content, ri, ","@) is None
        }),
{
    reveal_strlit("random:");
    reveal_strlit(",");
    reveal_strlit(", ");
    reveal_strlit("random: ");
    reveal_strlit("index: ");
    reveal_strlit("time: ");
    let a = "index: "@ + index;
    let b = "time: "@ + time;
    let c = "random: "@ + random;
    let content = unique_id_fields_text(index, time, random);
    let ri: int = (a.len() + 2 + b.len() + 2) as int;
    assert(content =~= a + ", "@ + b + ", "@ + c);
    assert forall|j: int| 0 <= j < ri implies content[j] != 'r' by {
        if j < a.len() {
            if j >= 7 {
                assert(is_number_char(index[j - 7]));
            }
        } else if a.len() + 2 <= j < a.len() + 2 + b.len() {
            if j >= a.len() + 2 + 6 {
                assert(is_number_char(time[j - a.len() - 8]));
            }
        }
    }
    assert forall|j: int| 0 <= j < ri implies !matches_at(content, "random:"@, j) by {
        if matches_at(content, "random:"@, j) {
            assert(content.subrange(j, j + 7)[0] == content[j]);
        }
    }
    assert(content.subrange(ri, ri + 7) =~= "random:"@);
    assert(is_first_match(content, "random:"@, ri));
    lemma_first_match_unique(content, "random:"@, ri);
    assert forall|j: int| ri <= j implies !matches_at(content, ","@, j) by {
        if matches_at(content, ","@, j) {
            assert(content.subrange(j, j + 1)[0] == content[j]);
            if j >= ri + 8 {
                assert(is_number_char(random[j - ri - 8]));
            }
        }
    }
    lemma_find_from_none(content, ri, ","@);
}

/// Cleaning the fields of a `UniqueId` makes each `, ` a `-` and drops
/// `random: `, keeping every character of the numbers.
proof fn lemma_unique_id_cleaned(index: Seq<char>, time: Seq<char>, random: Seq<char>)
    requires
        is_number_text(index),
        is_number_text(time),
        is_number_text(random),
    ensures
        cleaned_unique_id(unique_id_fields_text(index, time, random)) == "index: "@ + index
            + "-time: "@ + time + "-"@ + random,
{
    reveal_strlit(", ");
    reveal_strlit("-");
    reveal_strlit("random: ");
    reveal_strlit("index: ");
    reveal_strlit("time: ");
    reveal_strlit("-time: ");
    let a = "index: "@ + index;
    let b = "time: "@ + time;
    let c = "random: "@ + random;
    let content = unique_id_fields_text(index, time, random);
    assert forall|i: int| 0 <= i < a.len() implies a[i] != ',' && a[i] != 'r' by {
        if i >= 7 {
            assert(is_number_char(index[i - 7]));
        }
    }
    assert forall|i: int| 0 <= i < b.len() implies b[i] != ',' && b[i] != 'r' by {
        if i >= 6 {
            assert(is_number_char(time[i - 6]));
        }
    }
    assert forall|i: int| 0 <= i < c.len() implies c[i] != ',' by {
        if i >= 8 {
            assert(is_number_char(random[i - 8]));
        }
    }
    assert forall|i: int| 0 <= i < random.len() implies random[i] != 'r' by {
        assert(is_number_char(random[i]));
    }
    assert(", "@[0] == ',');
    lemma_replace_skip(a, ", "@ + (b + (", "@ + c)), ", "@, "-"@);
    lemma_replace_hit(b + (", "@ + c), ", "@, "-"@);
    lemma_replace_skip(b, ", "@ + c, ", "@, "-"@);
    lemma_replace_hit(c, ", "@, "-"@);
    lemma_replace_skip(c, Seq::empty(), ", "@, "-"@);
    assert(c + Seq::<char>::empty() =~= c);
    let once = a + ("-"@ + (b + ("-"@ + c)));
    assert(replace(content, ", "@, "-"@) == once);
    assert("random: "@[0] == 'r');
    let lead = a + "-"@ + b + "-"@;
    assert forall|i: int| 0 <= i < lead.len() implies lead[i] != 'r' by {
        if a.len() < i < a.len() + 1 + b.len() {
            assert(lead[i] == b[i - a.len() - 1]);
        }
    }
    lemma_replace_skip(lead, c, "random: "@, Seq::empty());
    assert(once =~= lead + c);
    lemma_replace_hit(random, "random: "@, Seq::empty());
    lemma_replace_skip(random, Seq::empty(), "random: "@, Seq::empty());
    assert(random + Seq::<char>::empty() =~= random);
    assert(cleaned_unique_id(content) =~= lead + random);
    assert(lead + random =~= "index: "@ + index + "-time: "@ + time + "-"@ + random);
}

/// The debug text of every `UniqueId` whose fields are numbers (a negative
/// `random` part among them) reads as its index, `-time: ` and its time,
/// `-` and its random part: each field's characters kept as they are, the
/// sign of the random part too.
pub proof fn lemma_unique_id_fields(index: Seq<char>, time: Seq<char>, random: Seq<char>)
    requires
        is_number_text(index),
        is_number_text(time),
        is_number_text(random),
        random.len() > 0,
    ensures
        unique_id_text(unique_id_debug(index, time, random)) == "index: "@ + index + "-time: "@
            + time + "-"@ + random,
{
    lemma_unique_id_braces(index, time, random);
    lemma_unique_id_random_last(index, time, random);
    lemma_unique_id_cleaned(index, time, random);
}

/// Whether the slicing of `format_unique_id` falls on character boundaries
/// in order: the last `}` comes after the first `{`, and where a `,` follows
/// `random:` it comes at least nine characters after the start of
/// `random:`, the character after the colon and the one before the comma
/// each being one byte long. On any other text the slicing panics.
pub open spec fn unique_id_formattable(raw: Seq<char>) -> bool {
    match (find(raw, "{"@), rfind_char(raw, '}')) {
        (Some(open), Some(close)) => open < close && {
            let content = unique_id_content(raw, open, close);
            match find(content, "random:"@) {
                Some(ri) => match find_from(content, ri, ","@) {
                    Some(rc) => rc >= ri + 9 && is_ascii_char(content[ri + 7]) && is_ascii_char(
                        content[rc - 1],
                    ),
                    None => true,
                },
                None => true,
            }
        },
        _ => true,
    }
}

/// Where a `UniqueId`'s debug text is sliced: the braces, the start of
/// `random:` and the comma after it, as far as they occur.
fn unique_id_positions(raw: &Vec<char>) -> (r: (Option<(usize, usize, Vec<char>)>, Option<usize>, Option<usize>))
    ensures
        r.0 is Some <==> (find(raw@, "{"@) is Some && rfind_char(raw@, '}') is Some),
        r.0 matches Some(t) ==> {
            &&& find(raw@, "{"@) == Some(t.0 as int)
            &&& rfind_char(raw@, '}') == Some(t.1 as int)
            &&& t.0 < t.1 ==> t.2@ == unique_id_content(raw@, t.0 as int, t.1 as int)
        },
        r.0 matches Some(t) ==> t.0 < t.1 ==> {
            &&& (r.1 is Some <==> find(t.2@, "random:"@) is Some)
            &&& r.1 matches Some(ri) ==> {
                &&& find(t.2@, "random:"@) == Some(ri as int)
                &&& (r.2 is Some <==> find_from(t.2@, ri as int, ","@) is Some)
                &&& r.2 matches Some(rc) ==> find_from(t.2@, ri as int, ","@) == Some(rc as int)
            }
        },
{
    match (find_first(raw, &to_chars("{")), rfind_char_in(raw, '}')) {
        (Some(open), Some(close)) => {
            if open < close {
                let content = trim_of(&slice_of(raw, open + 1, close));
                match find_first(&content, &to_chars("random:")) {
                    Some(ri) => {
                        let rc = find_at(&content, ri, &to_chars(","));
                        (Some((open, close, content)), Some(ri), rc)
                    },
                    None => (Some((open, close, content)), None, None),
                }
            } else {
                (Some((open, close, Vec::new())), None, None)
            }
        },
        _ => (None, None, None),
    }
}

/// Whether `format_unique_id` can slice `raw_id` (see [`unique_id_formattable`]).
pub fn unique_id_is_formattable(raw_id: &str) -> (ok: bool)
    ensures
        ok == unique_id_formattable(raw_id@),
{
    let raw = to_chars(raw_id);
    match unique_id_positions(&raw) {
        (Some((open, close, content)), ri, rc) => {
            if open >= close {
                return false;
            }
            match (ri, rc) {
                (Some(ri), Some(rc)) => {
                    proof {
                        lemma_find_some(content@, "random:"@);
                        lemma_find_from_some(content@, ri as int, ","@);
                        reveal_strlit("random:");
                    }
                    rc - ri >= 9 && content[ri + 7] < '\u{80}' && content[rc - 1] < '\u{80}'
                },
                _ => true,
            }
        },
        _ => true,
    }
}

/// Formats the debug text of a `UniqueId` to be more readable.
pub fn format_unique_id(raw_id: &str) -> (res: String)
    requires
        unique_id_formattable(raw_id@),
    ensures
        res@ == unique_id_text(raw_id@),
{
    let raw = to_chars(raw_id);
    match unique_id_positions(&raw) {
        (Some((open, close, content)), ri, rc) => {
            match (ri, rc) {
                (Some(ri), Some(rc)) => {
                    proof {
                        lemma_find_some(content@, "random:"@);
                        lemma_find_from_some(content@, ri as int, ","@);
                    }
                    string_of(&slice_of(&content, ri + 8, rc - 1))
                },
                _ => {
                    proof {
                        reveal_strlit(", ");
                        reveal_strlit("random: ");
                    }
                    let once = replace_of(&content, &to_chars(", "), &to_chars("-"));
                    string_of(&replace_of(&once, &to_chars("random: "), &Vec::new()))
                },
            }
        },
        _ => string_of(&raw),
    }
}

} // verus!
