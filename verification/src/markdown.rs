//! The markdown of an instance tree: one block per instance, its path and
//! identifier, its properties one per line (complex values as nested
//! items), a blank line, then the blocks of its children.

use vstd::prelude::*;

use crate::instance::{
    all_properties, get_all_properties, get_instance_path, instance_path, lemma_heading_identifier,
    lookup, lookup_in, unique_id_ok, InstanceData,
};
use crate::values::unique_id_text;
use crate::markup::{Piece, Segment, number_slots, pieces, push_segments, push_text, rendered};
use crate::order::{entry_views, Entry};
use crate::property::{complex_pieces, format_complex_property, should_split, should_split_property};
use crate::text::{push_all, to_chars};

verus! {

/// The identifier in an instance's heading: its `UniqueId` property, or
/// its class name, `-` and its name where it has none.
pub open spec fn unique_id_label(props: Seq<Entry>, node: InstanceData) -> Seq<char> {
    match lookup(props, "UniqueId"@) {
        Some(u) => u,
        None => node.class_name@ + "-"@ + node.name@,
    }
}

/// The line of one property; a complex value on a line of its own,
/// followed by its nested items.
pub open spec fn property_line(e: Entry) -> Seq<Piece> {
    if should_split(e.1) {
        seq![Piece::Text("- "@ + e.0 + ": \n"@)] + complex_pieces(e.1)
    } else {
        seq![Piece::Text("- "@ + e.0 + ": "@ + e.1 + "\n"@)]
    }
}

/// The lines of a list of properties, in order.
pub open spec fn property_lines(props: Seq<Entry>) -> Seq<Piece>
    decreases props.len(),
{
    if props.len() == 0 {
        Seq::empty()
    } else {
        property_lines(props.drop_last()) + property_line(props.last())
    }
}

/// The markdown of an instance and its descendants, depth first.
pub open spec fn instance_markdown(node: InstanceData) -> Seq<Piece>
    decreases node,
{
    let props = all_properties(node);
    seq![Piece::Text(instance_path(node) + " ("@ + unique_id_label(props, node) + ")\n"@)]
        + property_lines(props) + seq![Piece::Text("\n"@)] + children_markdown(node.children@)
}

/// The markdown of a list of instances, one after the other.
pub open spec fn children_markdown(cs: Seq<InstanceData>) -> Seq<Piece>
    decreases cs,
{
    if cs.len() == 0 {
        Seq::empty()
    } else {
        children_markdown(cs.drop_last()) + instance_markdown(cs.last())
    }
}

/// Every instance of the tree has a `UniqueId` that can be formatted, or none.
pub open spec fn markdown_defined(node: InstanceData) -> bool
    decreases node,
{
    unique_id_ok(node) && children_defined(node.children@)
}

pub open spec fn children_defined(cs: Seq<InstanceData>) -> bool
    decreases cs,
{
    cs.len() == 0 || (children_defined(cs.drop_last()) && markdown_defined(cs.last()))
}

/// The number of levels of the tree.
pub open spec fn tree_height(node: InstanceData) -> nat
    decreases node,
{
    1 + children_height(node.children@)
}

pub open spec fn children_height(cs: Seq<InstanceData>) -> nat
    decreases cs,
{
    if cs.len() == 0 {
        0
    } else {
        let a = children_height(cs.drop_last());
        let b = tree_height(cs.last());
        if a < b {
            b
        } else {
            a
        }
    }
}

proof fn lemma_child(cs: Seq<InstanceData>, i: int)
    requires
        0 <= i < cs.len(),
    ensures
        children_defined(cs) ==> markdown_defined(cs[i]),
        children_height(cs) >= tree_height(cs[i]),
    decreases cs.len(),
{
    if i < cs.len() - 1 {
        lemma_child(cs.drop_last(), i);
    }
}

/// `a` stands in `b` from index `off` on.
pub open spec fn occurs_at(a: Seq<Piece>, b: Seq<Piece>, off: int) -> bool {
    0 <= off && off + a.len() <= b.len() && b.subrange(off, off + a.len()) == a
}

/// `a` stands somewhere in `b`, as a run of consecutive pieces.
pub open spec fn is_infix(a: Seq<Piece>, b: Seq<Piece>) -> bool {
    exists|off: int| #[trigger] occurs_at(a, b, off)
}

/// A run of a run of `c` is a run of `c`.
pub proof fn lemma_infix_transitive(a: Seq<Piece>, b: Seq<Piece>, c: Seq<Piece>)
    requires
        is_infix(a, b),
        is_infix(b, c),
    ensures
        is_infix(a, c),
{
    let o1 = choose|off: int| occurs_at(a, b, off);
    let o2 = choose|off: int| occurs_at(b, c, off);
    assert(c.subrange(o2 + o1, o2 + o1 + a.len()) =~= a);
    assert(occurs_at(a, c, o2 + o1));
}

proof fn lemma_children_include(cs: Seq<InstanceData>, i: int)
    requires
        0 <= i < cs.len(),
    ensures
        is_infix(instance_markdown(cs[i]), children_markdown(cs)),
    decreases cs.len(),
{
    let d = cs.drop_last();
    let whole = children_markdown(cs);
    let m = instance_markdown(cs[i]);
    if i == cs.len() - 1 {
        let off = children_markdown(d).len() as int;
        assert(whole.subrange(off, off + m.len()) =~= m);
        assert(occurs_at(m, whole, off));
    } else {
        lemma_children_include(d, i);
        assert(d[i] == cs[i]);
        let off = choose|off: int| occurs_at(m, children_markdown(d), off);
        assert(whole.subrange(off, off + m.len()) =~= m);
        assert(occurs_at(m, whole, off));
    }
}

/// The markdown of every child is part of the markdown of its parent,
/// whatever the parent's depth: so, step by step, every descendant's block
/// stands in the markdown of the tree.
pub proof fn lemma_child_markdown_included(node: InstanceData, i: int)
    requires
        0 <= i < node.children.len(),
    ensures
        is_infix(instance_markdown(node.children@[i]), instance_markdown(node)),
{
    let cs = node.children@;
    lemma_children_include(cs, i);
    let m = instance_markdown(cs[i]);
    let cm = children_markdown(cs);
    let whole = instance_markdown(node);
    let head = whole.len() - cm.len();
    assert(whole.subrange(head, whole.len() as int) =~= cm);
    let off = choose|off: int| occurs_at(m, cm, off);
    assert(whole.subrange(head + off, head + off + m.len()) =~= m);
    assert(occurs_at(m, whole, head + off));
}

/// The markdown of an instance opens with its heading: its path, then in
/// brackets its formatted `UniqueId`, or its class name, `-` and its name
/// where it has none.
pub proof fn lemma_markdown_heading(node: InstanceData)
    ensures
        instance_markdown(node).len() > 0,
        instance_markdown(node)[0] == Piece::Text(
            instance_path(node) + " ("@ + match lookup(entry_views(node.properties@), "UniqueId"@) {
                Some(raw) => unique_id_text(raw),
                None => node.class_name@ + "-"@ + node.name@,
            } + ")\n"@,
        ),
{
    lemma_heading_identifier(node);
}

/// Renders an instance and its descendants as markdown.
pub fn instance_to_markdown(instance: &InstanceData, depth: usize) -> (md: Vec<Segment>)
    requires
        markdown_defined(*instance),
        depth + tree_height(*instance) <= usize::MAX + 1,
    ensures
        pieces(md@) == instance_markdown(*instance),
    decreases instance,
{
    let path = get_instance_path(instance);
    let props = get_all_properties(instance);
    let ghost pv = entry_views(props@);
    let unique_id = match lookup_in(&props, "UniqueId") {
        Some(u) => u,
        None => instance.class_name.clone().concat("-").concat(instance.name.as_str()),
    };
    let mut result: Vec<Segment> = Vec::new();
    let mut heading = to_chars(path.as_str());
    push_all(&mut heading, &to_chars(" ("));
    push_all(&mut heading, &to_chars(unique_id.as_str()));
    push_all(&mut heading, &to_chars(")\n"));
    push_text(&mut result, &heading);
    let ghost head = pieces(result@);
    let mut i: usize = 0;
    assert(pv.take(0) =~= Seq::<Entry>::empty());
    while i < props.len()
        invariant
            i <= props.len(),
            pv == entry_views(props@),
            pieces(result@) == head + property_lines(pv.take(i as int)),
        decreases props.len() - i,
    {
        assert(pv.take(i + 1).drop_last() =~= pv.take(i as int));
        assert(pv.take(i + 1).last() == pv[i as int]);
        let name = props[i].0.as_str();
        let value = props[i].1.as_str();
        if should_split_property(value) {
            let mut line = to_chars("- ");
            push_all(&mut line, &to_chars(name));
            push_all(&mut line, &to_chars(": \n"));
            push_text(&mut result, &line);
            format_complex_property(&mut result, value);
        } else {
            let mut line = to_chars("- ");
            push_all(&mut line, &to_chars(name));
            push_all(&mut line, &to_chars(": "));
            push_all(&mut line, &to_chars(value));
            push_all(&mut line, &to_chars("\n"));
            push_text(&mut result, &line);
        }
        assert(pieces(result@) =~= head + property_lines(pv.take(i + 1)));
        i += 1;
    }
    assert(pv.take(props.len() as int) =~= pv);
    push_text(&mut result, &to_chars("\n"));
    let ghost body = pieces(result@);
    let ghost cs = instance.children@;
    let mut c: usize = 0;
    assert(cs.take(0) =~= Seq::<InstanceData>::empty());
    while c < instance.children.len()
        invariant
            c <= instance.children.len(),
            cs == instance.children@,
            children_defined(cs),
            depth + 1 + children_height(cs) <= usize::MAX + 1,
            pieces(result@) == body + children_markdown(cs.take(c as int)),
        decreases instance.children.len() - c,
    {
        proof {
            lemma_child(cs, c as int);
            assert(tree_height(cs[c as int]) >= 1);
        }
        assert(cs.take(c + 1).drop_last() =~= cs.take(c as int));
        assert(cs.take(c + 1).last() == cs[c as int]);
        let child_md = instance_to_markdown(&instance.children[c], depth + 1);
        push_segments(&mut result, child_md);
        assert(pieces(result@) =~= body + children_markdown(cs.take(c + 1)));
        c += 1;
    }
    assert(cs.take(cs.len() as int) =~= cs);
    result
}

} // verus!
