//! The names in an instance's property list are distinct when its
//! attribute names are, so the sorted list is in strictly ascending order.

use vstd::prelude::*;

use crate::instance::{
    all_properties, checked_entries, checked_names, collected_properties, debug_list_text,
    lemma_checked_entries_skip, lemma_lookup_append, lemma_lookup_none, lemma_lookup_sorted,
    lookup, property_text, strings, unique_id_entries, InstanceData,
};
use crate::order::{
    entry_views, lemma_distinct_named, lemma_named_distinct, lemma_named_member,
    lemma_sort_by_name_strict, named, names_distinct, strictly_sorted_by_name, Entry,
};

verus! {

broadcast use Seq::filter_distributes_over_add;

/// The attribute names of an instance are distinct, as the keys of lune's
/// attribute map are.
pub open spec fn attribute_names_distinct(node: InstanceData) -> bool {
    forall|i: int, j: int|
        0 <= i < j < node.attributes.len() ==> #[trigger] node.attributes@[i].0@
            != #[trigger] node.attributes@[j].0@
}

/// A name that an attribute is listed under: `Attribute.` and more.
pub open spec fn is_attribute_name(k: Seq<char>) -> bool {
    k.len() >= 10 && k.take(10) == "Attribute."@
}

/// The length and the first two characters of a name.
pub open spec fn signature(k: Seq<char>) -> (nat, char, char) {
    (k.len(), k[0], k[1])
}

/// The signatures of the looked-up property names, in order.
pub open spec fn checked_signatures() -> Seq<(nat, char, char)> {
    seq![
        (8nat, 'P', 'o'),
        (4nat, 'S', 'i'),
        (6nat, 'C', 'F'),
        (8nat, 'A', 'n'),
        (10nat, 'C', 'a'),
        (12nat, 'T', 'r'),
        (8nat, 'M', 'a'),
        (5nat, 'C', 'o'),
        (4nat, 'T', 'e'),
        (4nat, 'F', 'o'),
        (8nat, 'T', 'e'),
        (16nat, 'B', 'a'),
        (12nat, 'B', 'o'),
        (15nat, 'B', 'o'),
        (6nat, 'Z', 'I'),
        (7nat, 'E', 'n'),
        (7nat, 'V', 'i'),
        (5nat, 'V', 'a'),
        (6nat, 'S', 'o'),
        (10nat, 'M', 'a'),
    ]
}

spec fn absent_below(s: Seq<(nat, char, char)>, x: (nat, char, char), n: nat) -> bool
    decreases n,
{
    n == 0 || (s[n - 1] != x && absent_below(s, x, (n - 1) as nat))
}

spec fn different_below(s: Seq<(nat, char, char)>, n: nat) -> bool
    decreases n,
{
    n == 0 || (absent_below(s, s[n - 1], (n - 1) as nat) && different_below(s, (n - 1) as nat))
}

proof fn lemma_absent_below(s: Seq<(nat, char, char)>, x: (nat, char, char), n: nat)
    requires
        absent_below(s, x, n),
    ensures
        forall|i: int| 0 <= i < n ==> s[i] != x,
    decreases n,
{
    if n > 0 {
        lemma_absent_below(s, x, (n - 1) as nat);
    }
}

proof fn lemma_different_below(s: Seq<(nat, char, char)>, n: nat)
    requires
        different_below(s, n),
    ensures
        forall|i: int, j: int| 0 <= i < j < n ==> s[i] != s[j],
    decreases n,
{
    if n > 0 {
        lemma_different_below(s, (n - 1) as nat);
        lemma_absent_below(s, s[n - 1], (n - 1) as nat);
    }
}

proof fn lemma_checked_signatures()
    ensures
        checked_names().len() == 20,
        forall|j: int| 0 <= j < 20 ==> signature(#[trigger] checked_names()[j]) == checked_signatures()[j],
{
    reveal_strlit("Position");
    reveal_strlit("Size");
    reveal_strlit("CFrame");
    reveal_strlit("Anchored");
    reveal_strlit("CanCollide");
    reveal_strlit("Transparency");
    reveal_strlit("Material");
    reveal_strlit("Color");
    reveal_strlit("Text");
    reveal_strlit("Font");
    reveal_strlit("TextSize");
    reveal_strlit("BackgroundColor3");
    reveal_strlit("BorderColor3");
    reveal_strlit("BorderSizePixel");
    reveal_strlit("ZIndex");
    reveal_strlit("Enabled");
    reveal_strlit("Visible");
    reveal_strlit("Value");
    reveal_strlit("Source");
    reveal_strlit("MaxPlayers");
    assert(checked_names().map_values(|k: Seq<char>| signature(k)) =~= checked_signatures());
    assert forall|j: int| 0 <= j < 20 implies signature(#[trigger] checked_names()[j])
        == checked_signatures()[j] by {
        assert(checked_names().map_values(|k: Seq<char>| signature(k))[j] == signature(
            checked_names()[j],
        ));
    }
}

/// A name whose signature differs from those of all looked-up names is not
/// one of them.
proof fn lemma_not_checked(k: Seq<char>)
    requires
        absent_below(checked_signatures(), signature(k), 20),
    ensures
        !checked_names().contains(k),
{
    lemma_checked_signatures();
    lemma_absent_below(checked_signatures(), signature(k), 20);
    if checked_names().contains(k) {
        let j = choose|j: int| 0 <= j < checked_names().len() && checked_names()[j] == k;
        assert(signature(checked_names()[j]) == checked_signatures()[j]);
    }
}

proof fn lemma_checked_distinct()
    ensures
        checked_names().no_duplicates(),
{
    lemma_checked_signatures();
    reveal_with_fuel(different_below, 21);
    reveal_with_fuel(absent_below, 21);
    assert(different_below(checked_signatures(), 20));
    lemma_different_below(checked_signatures(), 20);
    assert forall|i: int, j: int|
        0 <= i < checked_names().len() && 0 <= j < checked_names().len() && i != j implies checked_names()[i]
        != checked_names()[j] by {
        if i < j {
            assert(checked_signatures()[i] != checked_signatures()[j]);
        } else {
            assert(checked_signatures()[j] != checked_signatures()[i]);
        }
    }
}

/// The entries of the looked-up names have names among `names`, and
/// distinct ones where `names` are.
proof fn lemma_checked_entries_names(names: Seq<Seq<char>>, props: Seq<Entry>)
    ensures
        forall|i: int|
            0 <= i < checked_entries(names, props).len() ==> names.contains(
                #[trigger] checked_entries(names, props)[i].0,
            ),
        names.no_duplicates() ==> names_distinct(checked_entries(names, props)),
    decreases names.len(),
{
    if names.len() > 0 {
        let d = names.drop_last();
        let l = names.last();
        lemma_checked_entries_names(d, props);
        let c = checked_entries(d, props);
        let tail: Seq<Entry> = match lookup(props, l) {
            Some(raw) => seq![(l, property_text(l, raw))],
            None => Seq::empty(),
        };
        let all = checked_entries(names, props);
        assert(all == c + tail);
        assert forall|i: int| 0 <= i < all.len() implies names.contains(#[trigger] all[i].0) by {
            if i < c.len() {
                assert(all[i] == c[i]);
                let j = choose|j: int| 0 <= j < d.len() && d[j] == c[i].0;
                assert(names[j] == d[j]);
            } else {
                assert(all[i].0 == names[names.len() - 1]);
            }
        }
        if names.no_duplicates() {
            assert(d.no_duplicates()) by {
                assert forall|i: int, j: int|
                    0 <= i < d.len() && 0 <= j < d.len() && i != j implies d[i] != d[j] by {
                    assert(d[i] == names[i] && d[j] == names[j]);
                }
            }
            assert forall|i: int, j: int| 0 <= i < j < all.len() implies #[trigger] all[i].0
                != #[trigger] all[j].0 by {
                if j >= c.len() {
                    assert(all[j].0 == l);
                    assert(all[i] == c[i]);
                    let m = choose|m: int| 0 <= m < d.len() && d[m] == c[i].0;
                    assert(names[m] == d[m]);
                    assert(names[m] != names[names.len() - 1]);
                } else {
                    assert(all[i] == c[i] && all[j] == c[j]);
                }
            }
        }
    }
}

/// At most one entry of `s` is named `k`, and where one is, `k` passes `group`.
pub open spec fn held_once_in(s: Seq<Entry>, k: Seq<char>, group: bool) -> bool {
    &&& s.filter(named(k)).len() <= 1
    &&& s.filter(named(k)).len() > 0 ==> group
}

proof fn lemma_held(s: Seq<Entry>, k: Seq<char>, group: spec_fn(Seq<char>) -> bool)
    requires
        names_distinct(s),
        forall|i: int| 0 <= i < s.len() ==> group(#[trigger] s[i].0),
    ensures
        held_once_in(s, k, group(k)),
{
    lemma_distinct_named(s, k);
    lemma_named_member(s, k);
}

/// Where an instance's attribute names are distinct, all the names in its
/// collected property list are distinct.
pub proof fn lemma_collected_names_distinct(node: InstanceData)
    requires
        attribute_names_distinct(node),
    ensures
        names_distinct(collected_properties(node)),
{
    reveal_strlit("ClassName");
    reveal_strlit("Name");
    reveal_strlit("UniqueId");
    reveal_strlit("Tags");
    reveal_strlit("Parent");
    reveal_strlit("Attribute.");
    reveal_with_fuel(absent_below, 21);
    let pv = entry_views(node.properties@);
    let a: Seq<Entry> = seq![("ClassName"@, node.class_name@), ("Name"@, node.name@)];
    let u = unique_id_entries(node);
    let ch = checked_entries(checked_names(), pv);
    let at = entry_views(node.attributes@).map_values(|e: Entry| ("Attribute."@ + e.0, e.1));
    let t: Seq<Entry> = if node.tags.len() > 0 {
        seq![("Tags"@, debug_list_text(strings(node.tags@)))]
    } else {
        Seq::empty()
    };
    let pa: Seq<Entry> = seq![
        (
            "Parent"@,
            if node.ancestors.len() > 0 {
                node.ancestors@[0]@
            } else {
                "nil"@
            },
        ),
    ];
    let c = collected_properties(node);
    assert(c =~= a + u + ch + at + t + pa);
    lemma_checked_distinct();
    lemma_checked_entries_names(checked_names(), pv);
    assert(signature("ClassName"@) == (9nat, 'C', 'l'));
    assert(signature("Name"@) == (4nat, 'N', 'a'));
    assert(signature("UniqueId"@) == (8nat, 'U', 'n'));
    assert(signature("Tags"@) == (4nat, 'T', 'a'));
    assert(signature("Parent"@) == (6nat, 'P', 'a'));
    lemma_not_checked("ClassName"@);
    lemma_not_checked("Name"@);
    lemma_not_checked("UniqueId"@);
    lemma_not_checked("Tags"@);
    lemma_not_checked("Parent"@);
    assert forall|i: int| 0 <= i < at.len() implies is_attribute_name(#[trigger] at[i].0) by {
        assert(at[i].0.take(10) =~= "Attribute."@);
    }
    assert(names_distinct(at)) by {
        assert forall|i: int, j: int| 0 <= i < j < at.len() implies #[trigger] at[i].0
            != #[trigger] at[j].0 by {
            let x = node.attributes@[i].0@;
            let y = node.attributes@[j].0@;
            if at[i].0 == at[j].0 {
                assert(at[i].0.skip(10) =~= x);
                assert(at[j].0.skip(10) =~= y);
            }
        }
    }
    assert forall|k: Seq<char>| is_attribute_name(k) implies !checked_names().contains(k) by {
        assert(k[0] == "Attribute."@[0]) by {
            assert(k.take(10)[0] == k[0]);
        }
        assert(k[1] == "Attribute."@[1]) by {
            assert(k.take(10)[1] == k[1]);
        }
        assert(signature(k) == (k.len(), 'A', 't'));
        lemma_not_checked(k);
    }
    assert forall|k: Seq<char>| #[trigger] c.filter(named(k)).len() <= 1 by {
        lemma_held(a, k, |x: Seq<char>| x == "ClassName"@ || x == "Name"@);
        lemma_held(u, k, |x: Seq<char>| x == "UniqueId"@);
        lemma_held(ch, k, |x: Seq<char>| checked_names().contains(x));
        lemma_held(at, k, |x: Seq<char>| is_attribute_name(x));
        lemma_held(t, k, |x: Seq<char>| x == "Tags"@);
        lemma_held(pa, k, |x: Seq<char>| x == "Parent"@);
        if is_attribute_name(k) {
            assert(k.take(10)[0] == k[0]);
            assert(k.take(10)[1] == k[1]);
        }
        assert(c.filter(named(k)) =~= a.filter(named(k)) + u.filter(named(k)) + ch.filter(
            named(k),
        ) + at.filter(named(k)) + t.filter(named(k)) + pa.filter(named(k)));
    }
    lemma_named_distinct(c);
}

/// Where an instance's attribute names are distinct, its property list is
/// in strictly ascending order of names.
pub proof fn lemma_properties_strictly_sorted(node: InstanceData)
    requires
        attribute_names_distinct(node),
    ensures
        strictly_sorted_by_name(all_properties(node)),
{
    lemma_collected_names_distinct(node);
    lemma_sort_by_name_strict(collected_properties(node));
}


/// The `Parent` entry of an instance's property list is the name of its
/// direct parent, the first of its ancestors, or `nil` where it has none.
pub proof fn lemma_parent_entry(node: InstanceData)
    ensures
        lookup(all_properties(node), "Parent"@) == Some(
            if node.ancestors.len() > 0 {
                node.ancestors@[0]@
            } else {
                "nil"@
            },
        ),
{
    let k = "Parent"@;
    reveal_strlit("Parent");
    reveal_strlit("ClassName");
    reveal_strlit("Name");
    reveal_strlit("UniqueId");
    reveal_strlit("Tags");
    reveal_with_fuel(absent_below, 21);
    let pv = entry_views(node.properties@);
    let a: Seq<Entry> = seq![("ClassName"@, node.class_name@), ("Name"@, node.name@)];
    let u = unique_id_entries(node);
    let ch = checked_entries(checked_names(), pv);
    let at = entry_views(node.attributes@).map_values(|e: Entry| ("Attribute."@ + e.0, e.1));
    let t: Seq<Entry> = if node.tags.len() > 0 {
        seq![("Tags"@, debug_list_text(strings(node.tags@)))]
    } else {
        Seq::empty()
    };
    let parent = if node.ancestors.len() > 0 {
        node.ancestors@[0]@
    } else {
        "nil"@
    };
    let pa: Seq<Entry> = seq![(k, parent)];
    let c = collected_properties(node);
    assert(c =~= a + (u + (ch + (at + (t + pa)))));
    lemma_lookup_sorted(c, k);
    assert("ClassName"@[0] != k[0]);
    assert("Name"@[0] != k[0]);
    lemma_lookup_none(a, k);
    assert forall|i: int| 0 <= i < u.len() implies #[trigger] u[i].0 != k by {
        assert(u[i].0[0] != k[0]);
    }
    lemma_lookup_none(u, k);
    assert(signature(k) == (6nat, 'P', 'a'));
    lemma_not_checked(k);
    assert forall|j: int| 0 <= j < checked_names().len() implies #[trigger] checked_names()[j] != k by {
        assert(checked_names().contains(checked_names()[j]));
    }
    lemma_checked_entries_skip(checked_names(), pv, k);
    assert forall|i: int| 0 <= i < at.len() implies #[trigger] at[i].0 != k by {
        assert(at[i].0.len() >= 10) by {
            reveal_strlit("Attribute.");
        }
    }
    lemma_lookup_none(at, k);
    assert forall|i: int| 0 <= i < t.len() implies #[trigger] t[i].0 != k by {
        assert(t[i].0[0] != k[0]);
    }
    lemma_lookup_none(t, k);
    lemma_lookup_append(a, u + (ch + (at + (t + pa))), k);
    lemma_lookup_append(u, ch + (at + (t + pa)), k);
    lemma_lookup_append(ch, at + (t + pa), k);
    lemma_lookup_append(at, t + pa, k);
    lemma_lookup_append(t, pa, k);
}

} // verus!
