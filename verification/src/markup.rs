//! The rendered document: runs of text, and the number slots whose digits
//! are the decimal rendering of a parsed `f32`, which this library does not compute.

use vstd::prelude::*;

use crate::text::string_of;
use vstd::string::StringExecFns;

verus! {

/// A run of the rendered markdown.
#[derive(Debug)]
pub enum Segment {
    /// Text that stands in the output as it is.
    Text(String),
    /// A vector component: the trimmed text that was found for it, or
    /// `None` where none was found. It stands in the output as the `f32`
    /// that the text parses to, or `0` where it does not parse.
    Number(Option<String>),
}

/// What a [`Segment`] holds, as character sequences.
pub enum Piece {
    Text(Seq<char>),
    Number(Option<Seq<char>>),
}

impl View for Segment {
    type V = Piece;

    open spec fn view(&self) -> Piece {
        match self {
            Segment::Text(t) => Piece::Text(t@),
            Segment::Number(None) => Piece::Number(None),
            Segment::Number(Some(t)) => Piece::Number(Some(t@)),
        }
    }
}

/// The pieces of a list of segments.
pub open spec fn pieces(v: Seq<Segment>) -> Seq<Piece> {
    v.map_values(|s: Segment| s@)
}

/// Appends a text run holding `t`.
pub fn push_text(out: &mut Vec<Segment>, t: &Vec<char>)
    ensures
        pieces(final(out)@) == pieces(old(out)@).push(Piece::Text(t@)),
{
    out.push(Segment::Text(string_of(t)));
    assert(pieces(out@) =~= pieces(old(out)@).push(Piece::Text(t@)));
}

/// Appends a number slot holding `t`.
pub fn push_number(out: &mut Vec<Segment>, t: Option<Vec<char>>)
    ensures
        pieces(final(out)@) == pieces(old(out)@).push(
            Piece::Number(
                match t {
                    Some(x) => Some(x@),
                    None => None,
                },
            ),
        ),
{
    let seg = match t {
        Some(x) => Segment::Number(Some(string_of(&x))),
        None => Segment::Number(None),
    };
    out.push(seg);
    assert(pieces(out@) =~= pieces(old(out)@).push(seg@));
}

/// Appends every segment of `src` to `out`.
pub fn push_segments(out: &mut Vec<Segment>, src: Vec<Segment>)
    ensures
        pieces(final(out)@) == pieces(old(out)@) + pieces(src@),
{
    let mut src = src;
    let ghost s0 = src@;
    out.append(&mut src);
    assert(pieces(out@) =~= pieces(old(out)@) + pieces(s0));
}

/// The number of number slots among `p`.
pub open spec fn number_slots(p: Seq<Piece>) -> nat
    decreases p.len(),
{
    if p.len() == 0 {
        0
    } else {
        number_slots(p.drop_last()) + match p.last() {
            Piece::Number(_) => 1nat,
            Piece::Text(_) => 0nat,
        }
    }
}

/// The text of `p`, with the `k`-th number slot written as `numbers[k]`.
pub open spec fn rendered(p: Seq<Piece>, numbers: Seq<Seq<char>>) -> Seq<char>
    decreases p.len(),
{
    if p.len() == 0 {
        Seq::empty()
    } else {
        match p.last() {
            Piece::Text(t) => rendered(p.drop_last(), numbers) + t,
            Piece::Number(_) => rendered(p.drop_last(), numbers.drop_last()) + numbers.last(),
        }
    }
}


/// A list of text runs holds no number slot.
pub proof fn lemma_text_only(p: Seq<Piece>)
    requires
        forall|i: int| 0 <= i < p.len() ==> #[trigger] p[i] is Text,
    ensures
        number_slots(p) == 0,
    decreases p.len(),
{
    if p.len() > 0 {
        assert(forall|i: int| 0 <= i < p.drop_last().len() ==> #[trigger] p.drop_last()[i] == p[i]);
        lemma_text_only(p.drop_last());
    }
}

proof fn lemma_slots_monotone(p: Seq<Piece>, i: int, j: int)
    requires
        0 <= i <= j <= p.len(),
    ensures
        number_slots(p.take(i)) <= number_slots(p.take(j)),
    decreases j - i,
{
    if i < j {
        lemma_slots_monotone(p, i, j - 1);
        assert(p.take(j).drop_last() =~= p.take(j - 1));
    }
}

/// The markdown text: the text runs as they are and the `k`-th number slot
/// as `numbers[k]`, the rendering of its `f32`.
pub fn render_markdown(segments: &Vec<Segment>, numbers: &Vec<String>) -> (s: String)
    requires
        numbers.len() == number_slots(pieces(segments@)),
    ensures
        s@ == rendered(pieces(segments@), numbers@.map_values(|t: String| t@)),
{
    let ghost p = pieces(segments@);
    let ghost ns = numbers@.map_values(|t: String| t@);
    let mut out = String::new();
    let mut i: usize = 0;
    let mut n: usize = 0;
    assert(p.take(0) =~= Seq::<Piece>::empty());
    assert(ns.take(0) =~= Seq::<Seq<char>>::empty());
    while i < segments.len()
        invariant
            i <= segments.len(),
            p == pieces(segments@),
            ns == numbers@.map_values(|t: String| t@),
            numbers.len() == number_slots(p),
            n == number_slots(p.take(i as int)),
            out@ == rendered(p.take(i as int), ns.take(n as int)),
        decreases segments.len() - i,
    {
        proof { lemma_slots_monotone(p, i + 1, p.len() as int); }
        assert(p.take(i + 1).drop_last() =~= p.take(i as int));
        assert(p.take(i + 1).last() == segments@[i as int]@);
        assert(p.take(p.len() as int) =~= p);
        match &segments[i] {
            Segment::Text(t) => {
                out.append(t.as_str());
            },
            Segment::Number(_) => {
                assert(ns.take(n + 1).drop_last() =~= ns.take(n as int));
                out.append(numbers[n].as_str());
                n += 1;
            },
        }
        i += 1;
    }
    assert(p.take(segments.len() as int) =~= p);
    assert(ns.take(n as int) =~= ns);
    out
}

} // verus!
