//! The snapshot of an instance that the markdown is written from, its path,
//! and its list of properties.

use vstd::prelude::*;

use crate::order::{
    entry_views, lemma_sort_by_name_sorted, lemma_sort_by_name_stable, named, sort_by_name,
    sort_properties, sorted_by_name, Entry,
};
use vstd::string::StringExecFns;
use crate::property::opt_string_view;
use crate::text::{contains, contains_seq, to_chars};
use crate::values::{
    enum_value_text, format_enum_value, format_unique_id, unique_id_formattable, unique_id_text,
};

verus! {

/// What is read of an instance: its class and name, the names of its
/// ancestors, the debug text of the properties that were looked up, its
/// attributes, its tags and its children.
#[derive(Debug)]
pub struct InstanceData {
    pub class_name: String,
    pub name: String,
    /// The names of the instance's ancestors, its parent first.
    pub ancestors: Vec<String>,
    /// The debug text of each property that the instance has, by property
    /// name; where a name occurs twice the first counts.
    pub properties: Vec<(String, String)>,
    /// The attributes in the order that the instance keeps them (by name):
    /// the name and the debug text of the value.
    pub attributes: Vec<(String, String)>,
    pub tags: Vec<String>,
    pub children: Vec<InstanceData>,
}

/// The texts of a list of strings.
pub open spec fn strings(v: Seq<String>) -> Seq<Seq<char>> {
    v.map_values(|s: String| s@)
}

/// The text of the first entry named `key`.
pub open spec fn lookup(entries: Seq<Entry>, key: Seq<char>) -> Option<Seq<char>>
    decreases entries.len(),
{
    if entries.len() == 0 {
        None
    } else if entries[0].0 == key {
        Some(entries[0].1)
    } else {
        lookup(entries.drop_first(), key)
    }
}

/// Whether two texts are equal.
pub fn same_text(a: &str, b: &str) -> (r: bool)
    ensures
        r == (a@ == b@),
{
    let x = to_chars(a);
    let y = to_chars(b);
    if x.len() != y.len() {
        return false;
    }
    let mut i: usize = 0;
    while i < x.len()
        invariant
            i <= x.len(),
            x.len() == y.len(),
            x@ == a@,
            y@ == b@,
            forall|k: int| 0 <= k < i ==> x@[k] == y@[k],
        decreases x.len() - i,
    {
        if x[i] != y[i] {
            assert(x@[i as int] != y@[i as int]);
            return false;
        }
        i += 1;
    }
    assert(x@ =~= y@);
    true
}

/// The text of the first entry named `key`.
pub fn lookup_in(entries: &Vec<(String, String)>, key: &str) -> (r: Option<String>)
    ensures
        opt_string_view(r) == lookup(entry_views(entries@), key@),
{
    let ghost e = entry_views(entries@);
    let mut i: usize = 0;
    assert(e.skip(0) =~= e);
    while i < entries.len()
        invariant
            i <= entries.len(),
            e == entry_views(entries@),
            lookup(e, key@) == lookup(e.skip(i as int), key@),
        decreases entries.len() - i,
    {
        assert(e.skip(i as int)[0] == e[i as int]);
        if same_text(entries[i].0.as_str(), key) {
            return Some(entries[i].1.clone());
        }
        assert(e.skip(i as int).drop_first() =~= e.skip(i + 1));
        i += 1;
    }
    None
}

/// `parts` joined with `sep` between them (`[String]::join`).
pub open spec fn join(parts: Seq<Seq<char>>, sep: Seq<char>) -> Seq<char>
    decreases parts.len(),
{
    if parts.len() == 0 {
        Seq::empty()
    } else if parts.len() == 1 {
        parts[0]
    } else {
        join(parts.drop_last(), sep) + sep + parts.last()
    }
}

/// The names from the root down to the instance itself.
pub open spec fn path_parts(node: InstanceData) -> Seq<Seq<char>> {
    strings(node.ancestors@).reverse().push(node.name@)
}

/// The full path of an instance: the names from the root down, joined by `/`.
pub open spec fn instance_path(node: InstanceData) -> Seq<char> {
    join(path_parts(node), "/"@)
}

/// Gets the full path of an instance.
pub fn get_instance_path(instance: &InstanceData) -> (path: String)
    ensures
        path@ == instance_path(*instance),
{
    let ghost parts = path_parts(*instance);
    let m = instance.ancestors.len();
    let mut out = String::new();
    let mut k: usize = 0;
    assert(parts.take(0) =~= Seq::<Seq<char>>::empty());
    while k < m
        invariant
            k <= m,
            m == instance.ancestors.len(),
            parts == path_parts(*instance),
            out@ == join(parts.take(k as int), "/"@),
        decreases m - k,
    {
        assert(parts.take(k + 1).drop_last() =~= parts.take(k as int));
        assert(parts[k as int] == instance.ancestors@[m - 1 - k]@);
        if k > 0 {
            out.append("/");
        }
        out.append(instance.ancestors[m - 1 - k].as_str());
        k += 1;
    }
    assert(parts.take(m as int + 1) =~= parts);
    assert(parts.take(m as int + 1).drop_last() =~= parts.take(m as int));
    if m > 0 {
        out.append("/");
    }
    out.append(instance.name.as_str());
    out
}

/// `child` stands under `parent`: its ancestors are `parent` and the
/// ancestors of `parent`.
pub open spec fn is_child_of(child: InstanceData, parent: InstanceData) -> bool {
    strings(child.ancestors@) == seq![parent.name@] + strings(parent.ancestors@)
}

/// The path of a child is the path of its parent, `/` and the child's name.
pub proof fn lemma_child_path(parent: InstanceData, child: InstanceData)
    requires
        is_child_of(child, parent),
    ensures
        instance_path(child) == instance_path(parent) + "/"@ + child.name@,
{
    assert((seq![parent.name@] + strings(parent.ancestors@)).reverse() =~= strings(
        parent.ancestors@,
    ).reverse().push(parent.name@));
    assert(path_parts(child).drop_last() =~= path_parts(parent));
}


/// The text that `format!("{:?}", tags)` gives for a list of strings.
pub uninterp spec fn debug_list_text(tags: Seq<Seq<char>>) -> Seq<char>;

/// `format!("{:?}", tags)`: the `Debug` text of a list of strings, which
/// depends on the strings alone. What that text is (brackets, quotes and
/// escapes) is named, not stated.
#[verifier::external_body]
fn debug_list(tags: &Vec<String>) -> (s: String)
    ensures
        s@ == debug_list_text(strings(tags@)),
{
    format!("{:?}", tags)
}

/// The properties that are looked up by name on every instance, in order.
pub open spec fn checked_names() -> Seq<Seq<char>> {
    seq![
        "Position"@,
        "Size"@,
        "CFrame"@,
        "Anchored"@,
        "CanCollide"@,
        "Transparency"@,
        "Material"@,
        "Color"@,
        "Text"@,
        "Font"@,
        "TextSize"@,
        "BackgroundColor3"@,
        "BorderColor3"@,
        "BorderSizePixel"@,
        "ZIndex"@,
        "Enabled"@,
        "Visible"@,
        "Value"@,
        "Source"@,
        "MaxPlayers"@,
    ]
}

/// The texts of a list of string slices.
pub open spec fn strs(v: Seq<&str>) -> Seq<Seq<char>> {
    v.map_values(|s: &str| s@)
}

/// The names of the properties that are looked up on every instance
/// besides `UniqueId`, in the order in which they are listed.
pub fn checked_property_names() -> (v: Vec<&'static str>)
    ensures
        strs(v@) == checked_names(),
{
    let mut v: Vec<&'static str> = Vec::new();
    v.push("Position");
    v.push("Size");
    v.push("CFrame");
    v.push("Anchored");
    v.push("CanCollide");
    v.push("Transparency");
    v.push("Material");
    v.push("Color");
    v.push("Text");
    v.push("Font");
    v.push("TextSize");
    v.push("BackgroundColor3");
    v.push("BorderColor3");
    v.push("BorderSizePixel");
    v.push("ZIndex");
    v.push("Enabled");
    v.push("Visible");
    v.push("Value");
    v.push("Source");
    v.push("MaxPlayers");
    assert(strs(v@) =~= checked_names());
    v
}

/// Whether a property holds an enum, whose debug text is cut down to its value.
pub open spec fn is_enum_property(name: Seq<char>) -> bool {
    name == "Material"@ || contains(name, "State"@) || contains(name, "Type"@)
}

/// The text of a looked-up property.
pub open spec fn property_text(name: Seq<char>, raw: Seq<char>) -> Seq<char> {
    if is_enum_property(name) {
        enum_value_text(raw)
    } else {
        raw
    }
}

/// The entries of the names in `names` that the instance has, in order.
pub open spec fn checked_entries(names: Seq<Seq<char>>, props: Seq<Entry>) -> Seq<Entry>
    decreases names.len(),
{
    if names.len() == 0 {
        Seq::empty()
    } else {
        checked_entries(names.drop_last(), props) + match lookup(props, names.last()) {
            Some(raw) => seq![(names.last(), property_text(names.last(), raw))],
            None => Seq::empty(),
        }
    }
}

/// The `UniqueId` entry, where the instance has that property.
pub open spec fn unique_id_entries(node: InstanceData) -> Seq<Entry> {
    match lookup(entry_views(node.properties@), "UniqueId"@) {
        Some(raw) => seq![("UniqueId"@, unique_id_text(raw))],
        None => Seq::empty(),
    }
}

/// The properties of an instance, before sorting: class name, name,
/// `UniqueId`, the looked-up properties, the attributes (named
/// `Attribute.` and their name), the tags where there are any, and the
/// parent's name (`nil` for none).
pub open spec fn collected_properties(node: InstanceData) -> Seq<Entry> {
    seq![("ClassName"@, node.class_name@), ("Name"@, node.name@)] + unique_id_entries(node)
        + checked_entries(checked_names(), entry_views(node.properties@)) + entry_views(
        node.attributes@,
    ).map_values(|a: Entry| ("Attribute."@ + a.0, a.1)) + (if node.tags.len() > 0 {
        seq![("Tags"@, debug_list_text(strings(node.tags@)))]
    } else {
        Seq::empty()
    }) + seq![
        (
            "Parent"@,
            if node.ancestors.len() > 0 {
                node.ancestors@[0]@
            } else {
                "nil"@
            },
        ),
    ]
}

/// The properties of an instance, sorted by name.
pub open spec fn all_properties(node: InstanceData) -> Seq<Entry> {
    sort_by_name(collected_properties(node))
}

/// The `UniqueId` of the instance, if it has one, can be formatted.
pub open spec fn unique_id_ok(node: InstanceData) -> bool {
    lookup(entry_views(node.properties@), "UniqueId"@) matches Some(raw) ==> unique_id_formattable(
        raw,
    )
}

fn push_entry(props: &mut Vec<(String, String)>, name: &str, text: String)
    ensures
        entry_views(final(props)@) == entry_views(old(props)@).push((name@, text@)),
{
    let ghost t = text@;
    props.push((String::from_str(name), text));
    assert(entry_views(props@) =~= entry_views(old(props)@).push((name@, t)));
}

/// Whether a property holds an enum.
fn is_enum_name(name: &str) -> (b: bool)
    ensures
        b == is_enum_property(name@),
{
    let v = to_chars(name);
    same_text(name, "Material") || contains_seq(&v, &to_chars("State")) || contains_seq(
        &v,
        &to_chars("Type"),
    )
}

fn push_checked(props: &mut Vec<(String, String)>, instance: &InstanceData)
    ensures
        entry_views(final(props)@) == entry_views(old(props)@) + checked_entries(
            checked_names(),
            entry_views(instance.properties@),
        ),
{
    let names = checked_property_names();
    let ghost ns = strs(names@);
    let ghost pv = entry_views(instance.properties@);
    let mut k: usize = 0;
    assert(ns.take(0) =~= Seq::<Seq<char>>::empty());
    assert(entry_views(props@) =~= entry_views(old(props)@) + checked_entries(ns.take(0), pv));
    while k < names.len()
        invariant
            k <= names.len(),
            ns == strs(names@),
            ns == checked_names(),
            pv == entry_views(instance.properties@),
            entry_views(props@) == entry_views(old(props)@) + checked_entries(ns.take(k as int), pv),
        decreases names.len() - k,
    {
        let name = names[k];
        assert(ns.take(k + 1).drop_last() =~= ns.take(k as int));
        assert(ns.take(k + 1).last() == name@);
        match lookup_in(&instance.properties, name) {
            Some(raw) => {
                let text = if is_enum_name(name) {
                    format_enum_value(raw.as_str())
                } else {
                    raw
                };
                push_entry(props, name, text);
                assert(entry_views(props@) =~= entry_views(old(props)@) + checked_entries(
                    ns.take(k + 1),
                    pv,
                ));
            },
            None => {
                assert(entry_views(props@) =~= entry_views(old(props)@) + checked_entries(
                    ns.take(k + 1),
                    pv,
                ));
            },
        }
        k += 1;
    }
    assert(ns.take(names.len() as int) =~= ns);
}

fn push_attributes(props: &mut Vec<(String, String)>, instance: &InstanceData)
    ensures
        entry_views(final(props)@) == entry_views(old(props)@) + entry_views(
            instance.attributes@,
        ).map_values(|a: Entry| ("Attribute."@ + a.0, a.1)),
{
    let ghost all = entry_views(instance.attributes@).map_values(
        |a: Entry| ("Attribute."@ + a.0, a.1),
    );
    let mut i: usize = 0;
    while i < instance.attributes.len()
        invariant
            i <= instance.attributes.len(),
            all == entry_views(instance.attributes@).map_values(
                |a: Entry| ("Attribute."@ + a.0, a.1),
            ),
            entry_views(props@) == entry_views(old(props)@) + all.take(i as int),
        decreases instance.attributes.len() - i,
    {
        let key = String::from_str("Attribute.").concat(instance.attributes[i].0.as_str());
        let ghost k = key@;
        let value = instance.attributes[i].1.clone();
        let ghost v = value@;
        let ghost before = entry_views(props@);
        assert(all[i as int] == (k, v));
        props.push((key, value));
        assert(entry_views(props@) =~= before.push((k, v)));
        assert(all.take(i + 1) =~= all.take(i as int).push(all[i as int]));
        assert(entry_views(props@) =~= entry_views(old(props)@) + all.take(i + 1));
        i += 1;
    }
    assert(all.take(instance.attributes.len() as int) =~= all);
}

/// Gets the properties of an instance as name and text, sorted by name.
pub fn get_all_properties(instance: &InstanceData) -> (props: Vec<(String, String)>)
    requires
        unique_id_ok(*instance),
    ensures
        entry_views(props@) == all_properties(*instance),
{
    let mut props: Vec<(String, String)> = Vec::new();
    push_entry(&mut props, "ClassName", instance.class_name.clone());
    push_entry(&mut props, "Name", instance.name.clone());
    let ghost p1 = entry_views(props@);
    if let Some(raw) = lookup_in(&instance.properties, "UniqueId") {
        let formatted = format_unique_id(raw.as_str());
        push_entry(&mut props, "UniqueId", formatted);
    }
    let ghost p2 = entry_views(props@);
    assert(p2 == p1 + unique_id_entries(*instance));
    push_checked(&mut props, instance);
    push_attributes(&mut props, instance);
    if instance.tags.len() > 0 {
        push_entry(&mut props, "Tags", debug_list(&instance.tags));
    }
    let parent = if instance.ancestors.len() > 0 {
        instance.ancestors[0].clone()
    } else {
        String::from_str("nil")
    };
    push_entry(&mut props, "Parent", parent);
    assert(entry_views(props@) =~= collected_properties(*instance));
    sort_properties(&props)
}


/// A step of looking up a name.
pub proof fn lemma_lookup_append(a: Seq<Entry>, b: Seq<Entry>, k: Seq<char>)
    ensures
        lookup(a + b, k) == match lookup(a, k) {
            Some(t) => Some(t),
            None => lookup(b, k),
        },
    decreases a.len(),
{
    if a.len() > 0 {
        assert((a + b).drop_first() =~= a.drop_first() + b);
        lemma_lookup_append(a.drop_first(), b, k);
    } else {
        assert(a + b =~= b);
    }
}

/// A step of looking up a name.
pub proof fn lemma_lookup_none(s: Seq<Entry>, k: Seq<char>)
    requires
        forall|i: int| 0 <= i < s.len() ==> #[trigger] s[i].0 != k,
    ensures
        lookup(s, k) is None,
    decreases s.len(),
{
    if s.len() > 0 {
        assert(forall|i: int| 0 <= i < s.drop_first().len() ==> #[trigger] s.drop_first()[i] == s[i + 1]);
        lemma_lookup_none(s.drop_first(), k);
    }
}

proof fn lemma_lookup_filter(s: Seq<Entry>, k: Seq<char>)
    ensures
        lookup(s, k) == if s.filter(named(k)).len() > 0 {
            Some(s.filter(named(k))[0].1)
        } else {
            None
        },
    decreases s.len(),
{
    broadcast use Seq::lemma_filter_prepend;

    if s.len() > 0 {
        lemma_lookup_filter(s.drop_first(), k);
        assert(s =~= seq![s[0]] + s.drop_first());
        assert((seq![s[0]] + s.drop_first()).filter(named(k)) == (if named(k)(s[0]) {
            seq![s[0]]
        } else {
            Seq::empty()
        }) + s.drop_first().filter(named(k)));
    } else {
        reveal_with_fuel(Seq::filter, 1);
    }
}

/// An instance's property list is in name order, and holds for every name
/// the collected entries of that name in the order they were collected.
pub proof fn lemma_properties_sorted(node: InstanceData, k: Seq<char>)
    ensures
        sorted_by_name(all_properties(node)),
        all_properties(node).filter(named(k)) == collected_properties(node).filter(named(k)),
{
    lemma_sort_by_name_sorted(collected_properties(node));
    lemma_sort_by_name_stable(collected_properties(node), k);
}

/// Sorting by name does not change the text that the first entry of each
/// name holds.
pub proof fn lemma_lookup_sorted(s: Seq<Entry>, k: Seq<char>)
    ensures
        lookup(sort_by_name(s), k) == lookup(s, k),
{
    lemma_lookup_filter(s, k);
    lemma_lookup_filter(sort_by_name(s), k);
    lemma_sort_by_name_stable(s, k);
}

/// The property list of an instance holds its class name under
/// `ClassName` and its name under `Name`.
pub proof fn lemma_class_and_name(node: InstanceData)
    ensures
        lookup(all_properties(node), "ClassName"@) == Some(node.class_name@),
        lookup(all_properties(node), "Name"@) == Some(node.name@),
{
    let c = collected_properties(node);
    lemma_lookup_sorted(c, "ClassName"@);
    lemma_lookup_sorted(c, "Name"@);
    reveal_strlit("ClassName");
    reveal_strlit("Name");
    assert(c[0] == ("ClassName"@, node.class_name@));
    assert(c.drop_first()[0] == ("Name"@, node.name@));
    assert("ClassName"@[0] != "Name"@[0]);
    reveal_with_fuel(lookup, 2);
}

/// The looked-up entries hold no name outside `names`.
pub proof fn lemma_checked_entries_skip(names: Seq<Seq<char>>, props: Seq<Entry>, k: Seq<char>)
    requires
        forall|j: int| 0 <= j < names.len() ==> #[trigger] names[j] != k,
    ensures
        lookup(checked_entries(names, props), k) is None,
    decreases names.len(),
{
    if names.len() > 0 {
        assert(forall|j: int| 0 <= j < names.drop_last().len() ==> #[trigger] names.drop_last()[j] == names[j]);
        lemma_checked_entries_skip(names.drop_last(), props, k);
        let tail: Seq<Entry> = match lookup(props, names.last()) {
            Some(raw) => seq![(names.last(), property_text(names.last(), raw))],
            None => Seq::empty(),
        };
        lemma_lookup_none(tail, k);
        lemma_lookup_append(checked_entries(names.drop_last(), props), tail, k);
    }
}

/// The identifier in an instance's heading is its `UniqueId` property,
/// formatted, where it has one, and otherwise its class name, `-` and its name.
pub proof fn lemma_heading_identifier(node: InstanceData)
    ensures
        match lookup(all_properties(node), "UniqueId"@) {
            Some(u) => u,
            None => node.class_name@ + "-"@ + node.name@,
        } == match lookup(entry_views(node.properties@), "UniqueId"@) {
            Some(raw) => unique_id_text(raw),
            None => node.class_name@ + "-"@ + node.name@,
        },
{
    let k = "UniqueId"@;
    let pv = entry_views(node.properties@);
    let a: Seq<Entry> = seq![("ClassName"@, node.class_name@), ("Name"@, node.name@)];
    let u = unique_id_entries(node);
    let ch = checked_entries(checked_names(), pv);
    let at = entry_views(node.attributes@).map_values(|e: Entry| ("Attribute."@ + e.0, e.1));
    let t: Seq<Entry> = if node.tags.len() > 0 {
        seq![("Tags"@, debug_list_text(strings(node.tags@)))]
    } else {
        Seq::empty()
    };
    let pa: Seq<Entry> = seq![
        (
            "Parent"@,
            if node.ancestors.len() > 0 {
                node.ancestors@[0]@
            } else {
                "nil"@
            },
        ),
    ];
    let c = collected_properties(node);
    assert(c =~= a + u + ch + at + t + pa);
    lemma_lookup_sorted(c, k);
    reveal_strlit("UniqueId");
    reveal_strlit("ClassName");
    reveal_strlit("Name");
    reveal_strlit("Tags");
    reveal_strlit("Parent");
    reveal_strlit("Attribute.");
    reveal_strlit("Position");
    reveal_strlit("Size");
    reveal_strlit("CFrame");
    reveal_strlit("Anchored");
    reveal_strlit("CanCollide");
    reveal_strlit("Transparency");
    reveal_strlit("Material");
    reveal_strlit("Color");
    reveal_strlit("Text");
    reveal_strlit("Font");
    reveal_strlit("TextSize");
    reveal_strlit("BackgroundColor3");
    reveal_strlit("BorderColor3");
    reveal_strlit("BorderSizePixel");
    reveal_strlit("ZIndex");
    reveal_strlit("Enabled");
    reveal_strlit("Visible");
    reveal_strlit("Value");
    reveal_strlit("Source");
    reveal_strlit("MaxPlayers");
    assert("Position"@[0] != 'U');
    assert("Size"@[0] != 'U');
    assert("CFrame"@[0] != 'U');
    assert("Anchored"@[0] != 'U');
    assert("CanCollide"@[0] != 'U');
    assert("Transparency"@[0] != 'U');
    assert("Material"@[0] != 'U');
    assert("Color"@[0] != 'U');
    assert("Text"@[0] != 'U');
    assert("Font"@[0] != 'U');
    assert("TextSize"@[0] != 'U');
    assert("BackgroundColor3"@[0] != 'U');
    assert("BorderColor3"@[0] != 'U');
    assert("BorderSizePixel"@[0] != 'U');
    assert("ZIndex"@[0] != 'U');
    assert("Enabled"@[0] != 'U');
    assert("Visible"@[0] != 'U');
    assert("Value"@[0] != 'U');
    assert("Source"@[0] != 'U');
    assert("MaxPlayers"@[0] != 'U');
    assert("ClassName"@[0] != k[0]);
    assert("Name"@[0] != k[0]);
    lemma_lookup_none(a, k);
    assert forall|j: int| 0 <= j < checked_names().len() implies #[trigger] checked_names()[j] != k by {
        assert(checked_names()[j][0] != k[0]);
    }
    lemma_checked_entries_skip(checked_names(), pv, k);
    assert forall|i: int| 0 <= i < at.len() implies #[trigger] at[i].0 != k by {
        assert(at[i].0.len() >= 10);
    }
    lemma_lookup_none(at, k);
    assert forall|i: int| 0 <= i < t.len() implies #[trigger] t[i].0 != k by {
        assert(t[i].0[0] != k[0]);
    }
    lemma_lookup_none(t, k);
    assert("Parent"@[0] != k[0]);
    lemma_lookup_none(pa, k);
    let r4 = t + pa;
    let r3 = at + r4;
    let r2 = ch + r3;
    let r1 = u + r2;
    assert(c =~= a + r1);
    lemma_lookup_append(a, r1, k);
    lemma_lookup_append(u, r2, k);
    lemma_lookup_append(ch, r3, k);
    lemma_lookup_append(at, r4, k);
    lemma_lookup_append(t, pa, k);
    assert(lookup(r2, k) is None);
    reveal_with_fuel(lookup, 2);
}

} // verus!
