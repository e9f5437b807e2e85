//! Property text: whether a value spans several lines, and how a complex
//! value (`CFrame`, `Vector3`, `Color3`, lists) is broken into nested items.

use vstd::prelude::*;

use crate::markup::{lemma_text_only, number_slots, Piece, Segment, pieces, push_number, push_text};
use crate::text::{
    split_by, split_of, trim, trim_end_by, trim_end_of, trim_of, trim_start_by, trim_start_of, views,
    CharClass, contains, contains_seq, find, find_at, find_first, find_from, push_all, slice_of, string_of, to_chars,
    is_first_match, lemma_find_from_first, lemma_find_from_none, lemma_first_match_unique, matches_at,
};

verus! {

/// Whether a property's text is split over several lines: it names a
/// `CFrame`, `Vector3`, `Vector2` or `Color3`, or holds `[` together with `,` or `;`.
pub open spec fn should_split(v: Seq<char>) -> bool {
    ||| contains(v, "CFrame"@)
    ||| contains(v, "Vector3"@)
    ||| contains(v, "Vector2"@)
    ||| contains(v, "Color3"@)
    ||| (contains(v, "["@) && (contains(v, ","@) || contains(v, ";"@)))
}

/// Whether a property value should be split into multiple lines.
pub fn should_split_property(value: &str) -> (b: bool)
    ensures
        b == should_split(value@),
{
    let v = to_chars(value);
    contains_seq(&v, &to_chars("CFrame")) || contains_seq(&v, &to_chars("Vector3"))
        || contains_seq(&v, &to_chars("Vector2")) || contains_seq(&v, &to_chars("Color3")) || (
    contains_seq(&v, &to_chars("[")) && (contains_seq(&v, &to_chars(",")) || contains_seq(
        &v,
        &to_chars(";"),
    )))
}

/// Where a field that starts at `start` ends: at the next `stop`, or at the
/// end of `s` (`s[start..].find(stop).unwrap_or(s.len() - start) + start`).
pub open spec fn field_end(s: Seq<char>, start: int, stop: Seq<char>) -> int {
    match find_from(s, start, stop) {
        Some(k) => k,
        None => s.len() as int,
    }
}

/// The line `label` + the text after the first `key` up to the next `,`,
/// if `key` occurs in `s`.
pub open spec fn labelled_field(s: Seq<char>, key: Seq<char>, label: Seq<char>) -> Seq<Piece> {
    match find(s, key) {
        Some(k) => {
            let a = k + key.len();
            seq![Piece::Text(label + s.subrange(a, field_end(s, a, ","@)) + "\n"@)]
        },
        None => seq![],
    }
}

/// Three labelled fields of `s`, one line each where present.
pub open spec fn three_fields(
    s: Seq<char>,
    keys: (Seq<char>, Seq<char>, Seq<char>),
    labels: (Seq<char>, Seq<char>, Seq<char>),
) -> Seq<Piece> {
    labelled_field(s, keys.0, labels.0) + labelled_field(s, keys.1, labels.1) + labelled_field(
        s,
        keys.2,
        labels.2,
    )
}

/// Appends the line for the field `key` of `s`, labelled `label`.
fn push_labelled_field(out: &mut Vec<Segment>, s: &Vec<char>, key: &str, label: &str)
    ensures
        pieces(final(out)@) == pieces(old(out)@) + labelled_field(s@, key@, label@),
{
    let key_chars = to_chars(key);
    match find_first(s, &key_chars) {
        Some(k) => {
            let a = k + key_chars.len();
            let e = match find_at(s, a, &to_chars(",")) {
                Some(e) => e,
                None => s.len(),
            };
            let mut line = to_chars(label);
            push_all(&mut line, &slice_of(s, a, e));
            push_all(&mut line, &to_chars("\n"));
            push_text(out, &line);
        },
        None => {
            assert(pieces(out@) =~= pieces(old(out)@) + labelled_field(s@, key@, label@));
        },
    }
}

/// Appends the lines for three labelled fields of `s`.
fn push_three_fields(
    out: &mut Vec<Segment>,
    s: &Vec<char>,
    keys: (&str, &str, &str),
    labels: (&str, &str, &str),
)
    ensures
        pieces(final(out)@) == pieces(old(out)@) + three_fields(
            s@,
            (keys.0@, keys.1@, keys.2@),
            (labels.0@, labels.1@, labels.2@),
        ),
{
    push_labelled_field(out, s, keys.0, labels.0);
    push_labelled_field(out, s, keys.1, labels.1);
    push_labelled_field(out, s, keys.2, labels.2);
    assert(pieces(out@) =~= pieces(old(out)@) + three_fields(
        s@,
        (keys.0@, keys.1@, keys.2@),
        (labels.0@, labels.1@, labels.2@),
    ));
}


/// The text of one vector component: after the first `key`, up to the next
/// `,` and trimmed; for the `last` component, up to the end where no `,`
/// follows. `None` where the text holds no such field.
pub open spec fn component(s: Seq<char>, key: Seq<char>, last: bool) -> Option<Seq<char>> {
    match find(s, key) {
        Some(k) => {
            let a = k + key.len();
            match find_from(s, a, ","@) {
                Some(e) => Some(trim(s.subrange(a, e))),
                None => if last {
                    Some(trim(s.subrange(a, s.len() as int)))
                } else {
                    None
                },
            }
        },
        None => None,
    }
}

/// The `x`, `y` and `z` component texts of a vector's text.
pub open spec fn vector_components(s: Seq<char>) -> (
    Option<Seq<char>>,
    Option<Seq<char>>,
    Option<Seq<char>>,
) {
    (component(s, "x: "@, false), component(s, "y: "@, false), component(s, "z: "@, true))
}

pub open spec fn opt_view(o: Option<Vec<char>>) -> Option<Seq<char>> {
    match o {
        Some(v) => Some(v@),
        None => None,
    }
}

pub open spec fn opt_string_view(o: Option<String>) -> Option<Seq<char>> {
    match o {
        Some(v) => Some(v@),
        None => None,
    }
}

fn component_of(s: &Vec<char>, key: &str, last: bool) -> (c: Option<Vec<char>>)
    ensures
        opt_view(c) == component(s@, key@, last),
{
    let key_chars = to_chars(key);
    match find_first(s, &key_chars) {
        Some(k) => {
            let a = k + key_chars.len();
            match find_at(s, a, &to_chars(",")) {
                Some(e) => Some(trim_of(&slice_of(s, a, e))),
                None => if last {
                    Some(trim_of(&slice_of(s, a, s.len())))
                } else {
                    None
                },
            }
        },
        None => None,
    }
}

fn components_of(s: &Vec<char>) -> (c: (Option<Vec<char>>, Option<Vec<char>>, Option<Vec<char>>))
    ensures
        (opt_view(c.0), opt_view(c.1), opt_view(c.2)) == vector_components(s@),
{
    (component_of(s, "x: ", false), component_of(s, "y: ", false), component_of(s, "z: ", true))
}

/// The trimmed texts of the `x`, `y` and `z` components of a vector's text.
/// These are what the components are parsed from as `f32`; a component
/// whose text is `None`, or does not parse, is `0`.
pub fn parse_vector_components(vec_str: &str) -> (c: (Option<String>, Option<String>, Option<String>))
    ensures
        (opt_string_view(c.0), opt_string_view(c.1), opt_string_view(c.2)) == vector_components(
            vec_str@,
        ),
{
    let (x, y, z) = components_of(&to_chars(vec_str));
    let x = match x {
        Some(t) => Some(string_of(&t)),
        None => None,
    };
    let y = match y {
        Some(t) => Some(string_of(&t)),
        None => None,
    };
    let z = match z {
        Some(t) => Some(string_of(&t)),
        None => None,
    };
    (x, y, z)
}

/// The line of one orientation axis: the vector after the first `key`
/// at or after `start`, up to its closing `}`, as three number slots.
pub open spec fn axis_pieces(v: Seq<char>, start: int, key: Seq<char>, label: Seq<char>) -> Seq<
    Piece,
> {
    match find_from(v, start, key) {
        Some(ax) => {
            let vs = ax + key.len();
            match find_from(v, vs, "}"@) {
                Some(e) => {
                    let c = vector_components(v.subrange(vs, e));
                    seq![
                        Piece::Text(label),
                        Piece::Number(c.0),
                        Piece::Text(", "@),
                        Piece::Number(c.1),
                        Piece::Text(", "@),
                        Piece::Number(c.2),
                        Piece::Text("]\n"@),
                    ]
                },
                None => seq![],
            }
        },
        None => seq![],
    }
}

fn push_axis(out: &mut Vec<Segment>, v: &Vec<char>, start: usize, key: &str, label: &str)
    requires
        start <= v.len(),
    ensures
        pieces(final(out)@) == pieces(old(out)@) + axis_pieces(v@, start as int, key@, label@),
{
    let key_chars = to_chars(key);
    match find_at(v, start, &key_chars) {
        Some(ax) => {
            let vs = ax + key_chars.len();
            match find_at(v, vs, &to_chars("}")) {
                Some(e) => {
                    let (x, y, z) = components_of(&slice_of(v, vs, e));
                    let ghost before = pieces(out@);
                    push_text(out, &to_chars(label));
                    push_number(out, x);
                    push_text(out, &to_chars(", "));
                    push_number(out, y);
                    push_text(out, &to_chars(", "));
                    push_number(out, z);
                    push_text(out, &to_chars("]\n"));
                    assert(pieces(out@) =~= before + axis_pieces(v@, start as int, key@, label@));
                },
                None => {
                    assert(pieces(out@) =~= pieces(old(out)@) + axis_pieces(
                        v@,
                        start as int,
                        key@,
                        label@,
                    ));
                },
            }
        },
        None => {
            assert(pieces(out@) =~= pieces(old(out)@) + axis_pieces(
                v@,
                start as int,
                key@,
                label@,
            ));
        },
    }
}

/// The position lines of a `CFrame`: the fields of the vector after
/// `position: Vector3`, up to its closing `}`.
pub open spec fn position_pieces(v: Seq<char>) -> Seq<Piece> {
    match find(v, "position: Vector3"@) {
        Some(p) => {
            let ps = p + "position: Vector3"@.len();
            three_fields(
                v.subrange(ps, field_end(v, ps, "}"@)),
                ("x: "@, "y: "@, "z: "@),
                ("    - x: "@, "    - y: "@, "    - z: "@),
            )
        },
        None => seq![],
    }
}

/// The orientation lines of a `CFrame`: its three axes after `orientation: Matrix3`.
pub open spec fn orientation_pieces(v: Seq<char>) -> Seq<Piece> {
    match find(v, "orientation: Matrix3"@) {
        Some(o) => {
            let os = o + "orientation: Matrix3"@.len();
            axis_pieces(v, os, "x: Vector3"@, "    - x-axis: ["@) + axis_pieces(
                v,
                os,
                "y: Vector3"@,
                "    - y-axis: ["@,
            ) + axis_pieces(v, os, "z: Vector3"@, "    - z-axis: ["@)
        },
        None => seq![],
    }
}

/// The nested items of a `CFrame`: its position fields, then its three
/// orientation axes.
pub open spec fn cframe_pieces(v: Seq<char>) -> Seq<Piece> {
    seq![Piece::Text("  - position: \n"@)] + position_pieces(v) + seq![
        Piece::Text("  - orientation: \n"@),
    ] + orientation_pieces(v)
}

fn push_position(out: &mut Vec<Segment>, v: &Vec<char>)
    ensures
        pieces(final(out)@) == pieces(old(out)@) + position_pieces(v@),
{
    let pos_key = to_chars("position: Vector3");
    match find_first(v, &pos_key) {
        Some(p) => {
            let ps = p + pos_key.len();
            let pe = match find_at(v, ps, &to_chars("}")) {
                Some(e) => e,
                None => v.len(),
            };
            let pos_str = slice_of(v, ps, pe);
            push_three_fields(
                out,
                &pos_str,
                ("x: ", "y: ", "z: "),
                ("    - x: ", "    - y: ", "    - z: "),
            );
        },
        None => {
            assert(pieces(out@) =~= pieces(old(out)@) + position_pieces(v@));
        },
    }
}

fn push_orientation(out: &mut Vec<Segment>, v: &Vec<char>)
    ensures
        pieces(final(out)@) == pieces(old(out)@) + orientation_pieces(v@),
{
    let ori_key = to_chars("orientation: Matrix3");
    match find_first(v, &ori_key) {
        Some(o) => {
            let os = o + ori_key.len();
            push_axis(out, v, os, "x: Vector3", "    - x-axis: [");
            push_axis(out, v, os, "y: Vector3", "    - y-axis: [");
            push_axis(out, v, os, "z: Vector3", "    - z-axis: [");
            assert(pieces(out@) =~= pieces(old(out)@) + orientation_pieces(v@));
        },
        None => {
            assert(pieces(out@) =~= pieces(old(out)@) + orientation_pieces(v@));
        },
    }
}

fn push_cframe(out: &mut Vec<Segment>, v: &Vec<char>)
    ensures
        pieces(final(out)@) == pieces(old(out)@) + cframe_pieces(v@),
{
    push_text(out, &to_chars("  - position: \n"));
    push_position(out, v);
    push_text(out, &to_chars("  - orientation: \n"));
    push_orientation(out, v);
    assert(pieces(out@) =~= pieces(old(out)@) + cframe_pieces(v@));
}

/// The lines of three labelled fields inside the first `{...}` of `v`.
pub open spec fn braced_pieces(
    v: Seq<char>,
    keys: (Seq<char>, Seq<char>, Seq<char>),
    labels: (Seq<char>, Seq<char>, Seq<char>),
) -> Seq<Piece> {
    match find(v, "{"@) {
        Some(b) => three_fields(v.subrange(b, field_end(v, b, "}"@)), keys, labels),
        None => seq![],
    }
}

fn push_braced(
    out: &mut Vec<Segment>,
    v: &Vec<char>,
    keys: (&str, &str, &str),
    labels: (&str, &str, &str),
)
    ensures
        pieces(final(out)@) == pieces(old(out)@) + braced_pieces(
            v@,
            (keys.0@, keys.1@, keys.2@),
            (labels.0@, labels.1@, labels.2@),
        ),
{
    match find_first(v, &to_chars("{")) {
        Some(b) => {
            let e = match find_at(v, b, &to_chars("}")) {
                Some(e) => e,
                None => v.len(),
            };
            push_three_fields(out, &slice_of(v, b, e), keys, labels);
        },
        None => {
            assert(pieces(out@) =~= pieces(old(out)@) + braced_pieces(
                v@,
                (keys.0@, keys.1@, keys.2@),
                (labels.0@, labels.1@, labels.2@),
            ));
        },
    }
}

/// One line per part of a list: the text without its leading `[`/`{` and
/// trailing `]`/`}`, split at every `,` and `;`, each part trimmed.
pub open spec fn list_pieces(v: Seq<char>) -> Seq<Piece> {
    split_by(
        trim_end_by(trim_start_by(v, CharClass::Opening), CharClass::Closing),
        CharClass::Separator,
    ).map_values(|part: Seq<char>| Piece::Text("  - "@ + trim(part) + "\n"@))
}

fn push_list(out: &mut Vec<Segment>, v: &Vec<char>)
    ensures
        pieces(final(out)@) == pieces(old(out)@) + list_pieces(v@),
{
    let stripped = trim_end_of(&trim_start_of(v, CharClass::Opening), CharClass::Closing);
    let parts = split_of(&stripped, CharClass::Separator);
    let ghost all = views(parts@).map_values(|part: Seq<char>| Piece::Text("  - "@ + trim(part) + "\n"@));
    let mut i: usize = 0;
    while i < parts.len()
        invariant
            i <= parts.len(),
            all == views(parts@).map_values(|part: Seq<char>| Piece::Text("  - "@ + trim(part) + "\n"@)),
            pieces(out@) == pieces(old(out)@) + all.take(i as int),
        decreases parts.len() - i,
    {
        let mut line = to_chars("  - ");
        push_all(&mut line, &trim_of(&parts[i]));
        push_all(&mut line, &to_chars("\n"));
        push_text(out, &line);
        assert(all.take(i + 1) =~= all.take(i as int).push(all[i as int]));
        i += 1;
    }
    assert(all.take(parts.len() as int) =~= all);
}

/// The nested items of a complex property value.
pub open spec fn complex_pieces(v: Seq<char>) -> Seq<Piece> {
    if contains(v, "CFrame"@) {
        cframe_pieces(v)
    } else if contains(v, "Vector3"@) {
        braced_pieces(v, ("x: "@, "y: "@, "z: "@), ("  - x: "@, "  - y: "@, "  - z: "@))
    } else if contains(v, "Color3"@) {
        braced_pieces(v, ("r: "@, "g: "@, "b: "@), ("  - r: "@, "  - g: "@, "  - b: "@))
    } else {
        list_pieces(v)
    }
}

/// Appends the nested items of a complex property value to `result`.
pub fn format_complex_property(result: &mut Vec<Segment>, value: &str)
    ensures
        pieces(final(result)@) == pieces(old(result)@) + complex_pieces(value@),
{
    let v = to_chars(value);
    if contains_seq(&v, &to_chars("CFrame")) {
        push_cframe(result, &v);
    } else if contains_seq(&v, &to_chars("Vector3")) {
        push_braced(result, &v, ("x: ", "y: ", "z: "), ("  - x: ", "  - y: ", "  - z: "));
    } else if contains_seq(&v, &to_chars("Color3")) {
        push_braced(result, &v, ("r: ", "g: ", "b: "), ("  - r: ", "  - g: ", "  - b: "));
    } else {
        push_list(result, &v);
    }
}


/// Number slots occur only among the items of a `CFrame`: the items of
/// every other value are text alone.
pub proof fn lemma_numbers_only_in_cframe(v: Seq<char>)
    ensures
        !contains(v, "CFrame"@) ==> number_slots(complex_pieces(v)) == 0,
{
    let p = complex_pieces(v);
    if !contains(v, "CFrame"@) {
        assert forall|i: int| 0 <= i < p.len() implies #[trigger] p[i] is Text by {
            if contains(v, "Vector3"@) || contains(v, "Color3"@) {
                let keys = if contains(v, "Vector3"@) {
                    ("x: "@, "y: "@, "z: "@)
                } else {
                    ("r: "@, "g: "@, "b: "@)
                };
                let labels = if contains(v, "Vector3"@) {
                    ("  - x: "@, "  - y: "@, "  - z: "@)
                } else {
                    ("  - r: "@, "  - g: "@, "  - b: "@)
                };
                assert(p == braced_pieces(v, keys, labels));
                if let Some(b) = find(v, "{"@) {
                    let s = v.subrange(b, field_end(v, b, "}"@));
                    let f0 = labelled_field(s, keys.0, labels.0);
                    let f1 = labelled_field(s, keys.1, labels.1);
                    let f2 = labelled_field(s, keys.2, labels.2);
                    assert(p == f0 + f1 + f2);
                    if i < f0.len() {
                        assert(p[i] == f0[i]);
                    } else if i < f0.len() + f1.len() {
                        assert(p[i] == f1[i - f0.len()]);
                    } else {
                        assert(p[i] == f2[i - f0.len() - f1.len()]);
                    }
                }
            }
        }
        lemma_text_only(p);
    }
}


/// A value that names none of `CFrame`, `Vector3`, `Vector2` and `Color3`
/// and holds no `[` stays on one line.
pub proof fn lemma_plain_values_not_split(v: Seq<char>)
    ensures
        !contains(v, "CFrame"@) && !contains(v, "Vector3"@) && !contains(v, "Vector2"@)
            && !contains(v, "Color3"@) && !contains(v, "["@) ==> !should_split(v),
{
}

/// A value that names each of its markers is split: a `CFrame`, `Vector3`,
/// `Vector2` or `Color3` anywhere in it, or a `[` with a `,` or `;`.
pub proof fn lemma_marked_values_split(v: Seq<char>)
    ensures
        contains(v, "CFrame"@) ==> should_split(v),
        contains(v, "Vector3"@) ==> should_split(v),
        contains(v, "Vector2"@) ==> should_split(v),
        contains(v, "Color3"@) ==> should_split(v),
        contains(v, "["@) && contains(v, ","@) ==> should_split(v),
        contains(v, "["@) && contains(v, ";"@) ==> should_split(v),
{
}

/// Every value that names `Color3` but neither `CFrame` nor `Vector3` (such
/// as a `Color3uint8`) gets the `r`, `g` and `b` lines of its first `{...}`.
pub proof fn lemma_color_fields(v: Seq<char>)
    ensures
        contains(v, "Color3"@) && !contains(v, "CFrame"@) && !contains(v, "Vector3"@)
            ==> complex_pieces(v) == braced_pieces(
            v,
            ("r: "@, "g: "@, "b: "@),
            ("  - r: "@, "  - g: "@, "  - b: "@),
        ),
{
}

/// Whether `s` is made of decimal digits alone.
pub open spec fn is_digits(s: Seq<char>) -> bool {
    forall|i: int| 0 <= i < s.len() ==> '0' <= #[trigger] s[i] && s[i] <= '9'
}

/// The debug text of a `Color3uint8` with the given components, as the
/// Roblox library prints it (a part's `Color`, for one).
pub open spec fn color3uint8_debug(r: Seq<char>, g: Seq<char>, b: Seq<char>) -> Seq<char> {
    "Color3uint8(Color3uint8 { r: "@ + r + ", g: "@ + g + ", b: "@ + b + " })"@
}

/// The braced part of a `Color3uint8`'s debug text, from its `{` up to
/// its `}`.
spec fn color3uint8_braced(r: Seq<char>, g: Seq<char>, b: Seq<char>) -> Seq<char> {
    seq!['{', ' ', 'r', ':', ' '] + r + seq![',', ' ', 'g', ':', ' '] + g + seq![
        ',',
        ' ',
        'b',
        ':',
        ' ',
    ] + b + seq![' ']
}

/// Which characters stand where in the braced part of a `Color3uint8`.
proof fn lemma_color3uint8_chars(r: Seq<char>, g: Seq<char>, b: Seq<char>)
    requires
        is_digits(r),
        is_digits(g),
        is_digits(b),
    ensures
        ({
            let s = color3uint8_braced(r, g, b);
            let pr = 5 + r.len();
            let pg = pr + 5 + g.len();
            forall|i: int|
                0 <= i < s.len() ==> {
                    &&& #[trigger] s[i] != 'F' && s[i] != 'V' && s[i] != '}'
                    &&& (i < 2 || 5 <= i < pr + 2 || pr + 5 <= i < pg + 2 || pg + 5 <= i) ==> s[i]
                        != 'r' && s[i] != 'g' && s[i] != 'b'
                    &&& (5 <= i < pr || pr + 5 <= i < pg || pg + 5 <= i) ==> s[i] != ','
                }
        }),
{
    let s = color3uint8_braced(r, g, b);
    let pr: int = 5 + r.len() as int;
    let pg: int = pr + 5 + g.len() as int;
    assert forall|i: int| 0 <= i < s.len() implies {
        &&& s[i] != 'F' && s[i] != 'V' && s[i] != '}'
        &&& (i < 2 || 5 <= i < pr + 2 || pr + 5 <= i < pg + 2 || pg + 5 <= i) ==> s[i] != 'r'
            && s[i] != 'g' && s[i] != 'b'
        &&& (5 <= i < pr || pr + 5 <= i < pg || pg + 5 <= i) ==> s[i] != ','
    } by {
        if 5 <= i < pr {
            assert(s[i] == r[i - 5]);
        } else if pr + 5 <= i < pg {
            assert(s[i] == g[i - pr - 5]);
        } else if pg + 5 <= i < s.len() - 1 {
            assert(s[i] == b[i - pg - 5]);
        }
    }
}

/// A `Color3uint8`'s debug text names `Color3` and neither `CFrame` nor
/// `Vector3`, and its first `{...}` is its braced part.
proof fn lemma_color3uint8_braces(r: Seq<char>, g: Seq<char>, b: Seq<char>)
    requires
        is_digits(r),
        is_digits(g),
        is_digits(b),
    ensures
        ({
            let v = color3uint8_debug(r, g, b);
            &&& !contains(v, "CFrame"@)
            &&& !contains(v, "Vector3"@)
            &&& contains(v, "Color3"@)
            &&& find(v, "{"@) == Some(24int)
            &&& field_end(v, 24, "}"@) == v.len() - 2
            &&& v.subrange(24, v.len() - 2) == color3uint8_braced(r, g, b)
        }),
{
    reveal_strlit("Color3uint8(Color3uint8 { r: ");
    reveal_strlit(", g: ");
    reveal_strlit(", b: ");
    reveal_strlit(" })");
    reveal_strlit("Color3uint8(Color3uint8 ");
    reveal_strlit("CFrame");
    reveal_strlit("Vector3");
    reveal_strlit("Color3");
    reveal_strlit("{");
    reveal_strlit("}");
    let v = color3uint8_debug(r, g, b);
    let head = "Color3uint8(Color3uint8 "@;
    let s = color3uint8_braced(r, g, b);
    lemma_color3uint8_chars(r, g, b);
    assert(v =~= head + s + seq!['}', ')']);
    let close = v.len() - 2;
    assert forall|i: int| 0 <= i < v.len() implies v[i] != 'F' && v[i] != 'V' by {
        if 24 <= i < close {
            assert(v[i] == s[i - 24]);
        }
    }
    assert forall|j: int| !matches_at(v, "CFrame"@, j) by {
        if matches_at(v, "CFrame"@, j) {
            assert(v.subrange(j, j + 6)[1] == v[j + 1]);
        }
    }
    assert forall|j: int| !matches_at(v, "Vector3"@, j) by {
        if matches_at(v, "Vector3"@, j) {
            assert(v.subrange(j, j + 7)[0] == v[j]);
        }
    }
    assert(v.subrange(0, 6) =~= "Color3"@);
    assert(matches_at(v, "Color3"@, 0));
    assert forall|j: int| 0 <= j < 24 implies !matches_at(v, "{"@, j) by {
        if matches_at(v, "{"@, j) {
            assert(v.subrange(j, j + 1)[0] == v[j]);
        }
    }
    assert(v.subrange(24, 25) =~= "{"@);
    lemma_first_match_unique(v, "{"@, 24);
    assert forall|j: int| 24 <= j < close implies !matches_at(v, "}"@, j) by {
        if matches_at(v, "}"@, j) {
            assert(v.subrange(j, j + 1)[0] == v[j]);
            assert(v[j] == s[j - 24]);
        }
    }
    assert(v.subrange(close, close + 1) =~= "}"@);
    lemma_find_from_first(v, 24, "}"@, close);
    assert(v.subrange(24, close) =~= s);
}

/// The `r`, `g` and `b` lines of the braced part of a `Color3uint8`.
proof fn lemma_color3uint8_fields(r: Seq<char>, g: Seq<char>, b: Seq<char>)
    requires
        is_digits(r),
        is_digits(g),
        is_digits(b),
    ensures
        three_fields(
            color3uint8_braced(r, g, b),
            ("r: "@, "g: "@, "b: "@),
            ("  - r: "@, "  - g: "@, "  - b: "@),
        ) == seq![
            Piece::Text("  - r: "@ + r + "\n"@),
            Piece::Text("  - g: "@ + g + "\n"@),
            Piece::Text("  - b: "@ + b + " \n"@),
        ],
{
    reveal_strlit(",");
    reveal_strlit("r: ");
    reveal_strlit("g: ");
    reveal_strlit("b: ");
    reveal_strlit("\n");
    reveal_strlit(" \n");
    let s = color3uint8_braced(r, g, b);
    let pr: int = 5 + r.len() as int;
    let pg: int = pr + 5 + g.len() as int;
    lemma_color3uint8_chars(r, g, b);
    // The `r` field.
    assert forall|j: int| 0 <= j < 2 implies !matches_at(s, "r: "@, j) by {
        if matches_at(s, "r: "@, j) {
            assert(s.subrange(j, j + 3)[0] == s[j]);
        }
    }
    assert(s.subrange(2, 5) =~= "r: "@);
    lemma_first_match_unique(s, "r: "@, 2);
    assert forall|j: int| 5 <= j < pr implies !matches_at(s, ","@, j) by {
        if matches_at(s, ","@, j) {
            assert(s.subrange(j, j + 1)[0] == s[j]);
        }
    }
    assert(s.subrange(pr, pr + 1) =~= ","@);
    lemma_find_from_first(s, 5, ","@, pr);
    assert(s.subrange(5, pr) =~= r);
    // The `g` field.
    assert forall|j: int| 0 <= j < pr + 2 implies !matches_at(s, "g: "@, j) by {
        if matches_at(s, "g: "@, j) {
            assert(s.subrange(j, j + 3)[0] == s[j]);
        }
    }
    assert(s.subrange(pr + 2, pr + 5) =~= "g: "@);
    lemma_first_match_unique(s, "g: "@, pr + 2);
    assert forall|j: int| pr + 5 <= j < pg implies !matches_at(s, ","@, j) by {
        if matches_at(s, ","@, j) {
            assert(s.subrange(j, j + 1)[0] == s[j]);
        }
    }
    assert(s.subrange(pg, pg + 1) =~= ","@);
    lemma_find_from_first(s, pr + 5, ","@, pg);
    assert(s.subrange(pr + 5, pg) =~= g);
    // The `b` field, up to the end of the braced part.
    assert forall|j: int| 0 <= j < pg + 2 implies !matches_at(s, "b: "@, j) by {
        if matches_at(s, "b: "@, j) {
            assert(s.subrange(j, j + 3)[0] == s[j]);
        }
    }
    assert(s.subrange(pg + 2, pg + 5) =~= "b: "@);
    lemma_first_match_unique(s, "b: "@, pg + 2);
    assert forall|j: int| pg + 5 <= j implies !matches_at(s, ","@, j) by {
        if matches_at(s, ","@, j) {
            assert(s.subrange(j, j + 1)[0] == s[j]);
        }
    }
    lemma_find_from_none(s, pg + 5, ","@);
    assert(s.subrange(pg + 5, s.len() as int) =~= b + seq![' ']);
    assert("  - b: "@ + (b + seq![' ']) + "\n"@ =~= "  - b: "@ + b + " \n"@);
    assert(three_fields(s, ("r: "@, "g: "@, "b: "@), ("  - r: "@, "  - g: "@, "  - b: "@))
        =~= seq![
        Piece::Text("  - r: "@ + r + "\n"@),
        Piece::Text("  - g: "@ + g + "\n"@),
        Piece::Text("  - b: "@ + b + " \n"@),
    ]);
}

/// The nested items of every `Color3uint8` value are its `r`, `g` and `b`
/// components, one line each, in that order; the last runs up to the
/// closing brace, so it keeps the space before it.
pub proof fn lemma_color3uint8_items(r: Seq<char>, g: Seq<char>, b: Seq<char>)
    requires
        is_digits(r),
        is_digits(g),
        is_digits(b),
    ensures
        complex_pieces(color3uint8_debug(r, g, b)) == seq![
            Piece::Text("  - r: "@ + r + "\n"@),
            Piece::Text("  - g: "@ + g + "\n"@),
            Piece::Text("  - b: "@ + b + " \n"@),
        ],
{
    lemma_color3uint8_braces(r, g, b);
    lemma_color3uint8_fields(r, g, b);
}

/// Every value that names `Vector3` but not `CFrame` gets the `x`, `y` and
/// `z` lines of its first `{...}`.
pub proof fn lemma_vector_fields(v: Seq<char>)
    ensures
        contains(v, "Vector3"@) && !contains(v, "CFrame"@) ==> complex_pieces(v) == braced_pieces(
            v,
            ("x: "@, "y: "@, "z: "@),
            ("  - x: "@, "  - y: "@, "  - z: "@),
        ),
{
}

} // verus!
