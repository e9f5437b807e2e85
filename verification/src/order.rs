//! The order of property names and the stable sort of property lists by name.

use vstd::prelude::*;

use crate::text::to_chars;

verus! {

/// A property: its name and its text.
pub type Entry = (Seq<char>, Seq<char>);

/// `a` comes before `b` in the order of `String`'s `Ord`, which compares the
/// UTF-8 bytes and so orders as the code points do.
pub open spec fn lex_lt(a: Seq<char>, b: Seq<char>) -> bool
    decreases a.len(),
{
    if a.len() == 0 {
        b.len() > 0
    } else if b.len() == 0 {
        false
    } else if a[0] != b[0] {
        a[0] < b[0]
    } else {
        lex_lt(a.drop_first(), b.drop_first())
    }
}

/// `a` does not come after `b`.
pub open spec fn lex_le(a: Seq<char>, b: Seq<char>) -> bool {
    !lex_lt(b, a)
}

/// No sequence comes before itself.
pub proof fn lemma_lex_irreflexive(a: Seq<char>)
    ensures
        !lex_lt(a, a),
    decreases a.len(),
{
    if a.len() > 0 {
        lemma_lex_irreflexive(a.drop_first());
    }
}

/// Of two different sequences, one comes before the other, and not both.
pub proof fn lemma_lex_total(a: Seq<char>, b: Seq<char>)
    ensures
        a != b ==> (lex_lt(a, b) || lex_lt(b, a)),
        !(lex_lt(a, b) && lex_lt(b, a)),
    decreases a.len(),
{
    if a.len() > 0 && b.len() > 0 && a[0] == b[0] {
        lemma_lex_total(a.drop_first(), b.drop_first());
        if a != b {
            assert(a =~= seq![a[0]] + a.drop_first());
            assert(b =~= seq![b[0]] + b.drop_first());
        }
    } else if a.len() == 0 && b.len() == 0 {
        assert(a =~= b);
    }
}

/// The order is transitive.
pub proof fn lemma_lex_transitive(a: Seq<char>, b: Seq<char>, c: Seq<char>)
    requires
        lex_lt(a, b),
        lex_lt(b, c),
    ensures
        lex_lt(a, c),
    decreases a.len(),
{
    if a.len() > 0 && b.len() > 0 && c.len() > 0 && a[0] == b[0] && b[0] == c[0] {
        lemma_lex_transitive(a.drop_first(), b.drop_first(), c.drop_first());
    }
}

/// Not coming after is transitive.
pub proof fn lemma_lex_le_transitive(a: Seq<char>, b: Seq<char>, c: Seq<char>)
    requires
        lex_le(a, b),
        lex_le(b, c),
    ensures
        lex_le(a, c),
{
    if lex_lt(c, a) {
        lemma_lex_total(b, c);
        if b == c {
        } else {
            lemma_lex_transitive(b, c, a);
        }
    }
}

/// Whether `a` comes before `b` in `String`'s order.
pub fn name_less(a: &str, b: &str) -> (r: bool)
    ensures
        r == lex_lt(a@, b@),
{
    let x = to_chars(a);
    let y = to_chars(b);
    let mut i: usize = 0;
    assert(x@.skip(0) =~= x@);
    assert(y@.skip(0) =~= y@);
    while i < x.len() && i < y.len() && x[i] == y[i]
        invariant
            i <= x.len(),
            i <= y.len(),
            lex_lt(x@, y@) == lex_lt(x@.skip(i as int), y@.skip(i as int)),
        decreases x.len() - i,
    {
        assert(x@.skip(i as int).drop_first() =~= x@.skip(i + 1));
        assert(y@.skip(i as int).drop_first() =~= y@.skip(i + 1));
        i += 1;
    }
    assert(x@.skip(0) =~= x@);
    assert(y@.skip(0) =~= y@);
    if i == x.len() {
        i < y.len()
    } else if i == y.len() {
        false
    } else {
        x[i] < y[i]
    }
}

/// `e` put into `s` after the last entry whose name does not come after
/// `e`'s: the step of a stable insertion sort.
pub open spec fn insert_by_name(s: Seq<Entry>, e: Entry) -> Seq<Entry>
    decreases s.len(),
{
    if s.len() > 0 && lex_lt(e.0, s.last().0) {
        insert_by_name(s.drop_last(), e).push(s.last())
    } else {
        s.push(e)
    }
}

/// `s` sorted by name, entries with equal names keeping their order
/// (`slice::sort_by` comparing names).
pub open spec fn sort_by_name(s: Seq<Entry>) -> Seq<Entry>
    decreases s.len(),
{
    if s.len() == 0 {
        s
    } else {
        insert_by_name(sort_by_name(s.drop_last()), s.last())
    }
}

/// No entry's name comes after that of an entry behind it.
pub open spec fn sorted_by_name(s: Seq<Entry>) -> bool {
    forall|i: int, j: int| 0 <= i < j < s.len() ==> lex_le(#[trigger] s[i].0, #[trigger] s[j].0)
}

/// The test for the name `k`.
pub open spec fn named(k: Seq<char>) -> spec_fn(Entry) -> bool {
    |e: Entry| e.0 == k
}

proof fn lemma_insert_contents(s: Seq<Entry>, e: Entry)
    ensures
        insert_by_name(s, e).len() == s.len() + 1,
        forall|x: Entry| #[trigger] insert_by_name(s, e).contains(x) ==> x == e || s.contains(x),
    decreases s.len(),
{
    if s.len() > 0 && lex_lt(e.0, s.last().0) {
        lemma_insert_contents(s.drop_last(), e);
        let r = insert_by_name(s.drop_last(), e);
        assert forall|x: Entry| #[trigger] r.push(s.last()).contains(x) implies x == e || s.contains(
            x,
        ) by {
            let i = choose|i: int| 0 <= i < r.len() + 1 && r.push(s.last())[i] == x;
            if i < r.len() {
                assert(r.contains(x));
                if x != e {
                    let k = choose|k: int| 0 <= k < s.drop_last().len() && s.drop_last()[k] == x;
                    assert(s[k] == x);
                }
            } else {
                assert(s[s.len() - 1] == x);
            }
        }
    } else {
        assert forall|x: Entry| #[trigger] s.push(e).contains(x) implies x == e || s.contains(x) by {
            let i = choose|i: int| 0 <= i < s.len() + 1 && s.push(e)[i] == x;
            if i < s.len() {
                assert(s[i] == x);
            }
        }
    }
}

proof fn lemma_insert_sorted(s: Seq<Entry>, e: Entry)
    requires
        sorted_by_name(s),
    ensures
        sorted_by_name(insert_by_name(s, e)),
    decreases s.len(),
{
    if s.len() > 0 && lex_lt(e.0, s.last().0) {
        let d = s.drop_last();
        let l = s.last();
        assert(sorted_by_name(d));
        lemma_insert_sorted(d, e);
        lemma_insert_contents(d, e);
        let r = insert_by_name(d, e);
        lemma_lex_total(e.0, l.0);
        assert forall|i: int, j: int| 0 <= i < j < r.push(l).len() implies lex_le(
            #[trigger] r.push(l)[i].0,
            #[trigger] r.push(l)[j].0,
        ) by {
            if j == r.len() {
                let x = r[i];
                assert(r.contains(x));
                if x != e {
                    let k = choose|k: int| 0 <= k < d.len() && d[k] == x;
                    assert(s[k] == x);
                    assert(lex_le(s[k].0, s[s.len() - 1].0));
                }
            }
        }
    } else {
        assert forall|i: int, j: int| 0 <= i < j < s.push(e).len() implies lex_le(
            #[trigger] s.push(e)[i].0,
            #[trigger] s.push(e)[j].0,
        ) by {
            if j == s.len() {
                if i == s.len() - 1 {
                    lemma_lex_irreflexive(s[i].0);
                }
                assert(lex_le(s[i].0, s[s.len() - 1].0));
                lemma_lex_le_transitive(s[i].0, s[s.len() - 1].0, e.0);
            }
        }
    }
}

proof fn lemma_insert_filter(s: Seq<Entry>, e: Entry, k: Seq<char>)
    ensures
        insert_by_name(s, e).filter(named(k)) == if e.0 == k {
            s.filter(named(k)).push(e)
        } else {
            s.filter(named(k))
        },
    decreases s.len(),
{
    broadcast use Seq::lemma_filter_push;

    if s.len() > 0 && lex_lt(e.0, s.last().0) {
        let d = s.drop_last();
        lemma_insert_filter(d, e, k);
        assert(s =~= d.push(s.last()));
        lemma_lex_irreflexive(e.0);
        reveal_with_fuel(Seq::filter, 1);
        assert(d.push(s.last()).filter(named(k)) == if named(k)(s.last()) {
            d.filter(named(k)).push(s.last())
        } else {
            d.filter(named(k))
        });
        assert(insert_by_name(d, e).push(s.last()).filter(named(k)) == if named(k)(s.last()) {
            insert_by_name(d, e).filter(named(k)).push(s.last())
        } else {
            insert_by_name(d, e).filter(named(k))
        });
    } else {
        assert(s.push(e).filter(named(k)) == if named(k)(e) {
            s.filter(named(k)).push(e)
        } else {
            s.filter(named(k))
        });
    }
}

/// Sorting by name puts the names in order.
pub proof fn lemma_sort_by_name_sorted(s: Seq<Entry>)
    ensures
        sorted_by_name(sort_by_name(s)),
    decreases s.len(),
{
    if s.len() > 0 {
        lemma_sort_by_name_sorted(s.drop_last());
        lemma_insert_sorted(sort_by_name(s.drop_last()), s.last());
    }
}

/// Sorting by name keeps, for every name, the entries of that name and
/// their order: the sort is a stable permutation.
pub proof fn lemma_sort_by_name_stable(s: Seq<Entry>, k: Seq<char>)
    ensures
        sort_by_name(s).filter(named(k)) == s.filter(named(k)),
    decreases s.len(),
{
    broadcast use Seq::lemma_filter_push;

    if s.len() > 0 {
        let d = s.drop_last();
        lemma_sort_by_name_stable(d, k);
        lemma_insert_filter(sort_by_name(d), s.last(), k);
        assert(s =~= d.push(s.last()));
        assert(d.push(s.last()).filter(named(k)) == if named(k)(s.last()) {
            d.filter(named(k)).push(s.last())
        } else {
            d.filter(named(k))
        });
    }
}


/// No two entries have the same name.
pub open spec fn names_distinct(s: Seq<Entry>) -> bool {
    forall|i: int, j: int| 0 <= i < j < s.len() ==> #[trigger] s[i].0 != #[trigger] s[j].0
}

/// Every entry's name comes before the names of the entries behind it.
pub open spec fn strictly_sorted_by_name(s: Seq<Entry>) -> bool {
    forall|i: int, j: int| 0 <= i < j < s.len() ==> lex_lt(#[trigger] s[i].0, #[trigger] s[j].0)
}

/// Where some entry is named `k`, one is.
pub proof fn lemma_named_member(s: Seq<Entry>, k: Seq<char>)
    ensures
        s.filter(named(k)).len() > 0 ==> exists|i: int| 0 <= i < s.len() && s[i].0 == k,
{
    broadcast use Seq::lemma_filter_contains_rev, Seq::lemma_filter_pred;

    let f = s.filter(named(k));
    if f.len() > 0 {
        assert(named(k)(f[0]));
        assert(f.contains(f[0]));
        assert(s.contains(f[0]));
    }
}

proof fn lemma_named_once(s: Seq<Entry>, k: Seq<char>, i: int)
    requires
        0 <= i < s.len(),
        s[i].0 == k,
    ensures
        s.filter(named(k)).len() >= 1,
{
    broadcast use Seq::lemma_filter_contains;

    assert(named(k)(s[i]));
    assert(s.filter(named(k)).contains(s[i]));
}

proof fn lemma_named_twice(s: Seq<Entry>, k: Seq<char>, i: int, j: int)
    requires
        0 <= i < j < s.len(),
        s[i].0 == k,
        s[j].0 == k,
    ensures
        s.filter(named(k)).len() >= 2,
    decreases s.len(),
{
    broadcast use Seq::lemma_filter_push;

    let d = s.drop_last();
    assert(s =~= d.push(s.last()));
    if j < s.len() - 1 {
        lemma_named_twice(d, k, i, j);
    } else {
        lemma_named_once(d, k, i);
    }
}

/// Where names are distinct, each name is held by at most one entry.
pub proof fn lemma_distinct_named(s: Seq<Entry>, k: Seq<char>)
    requires
        names_distinct(s),
    ensures
        s.filter(named(k)).len() <= 1,
    decreases s.len(),
{
    broadcast use Seq::lemma_filter_push;

    if s.len() > 0 {
        let d = s.drop_last();
        assert(s =~= d.push(s.last()));
        assert(names_distinct(d)) by {
            assert forall|i: int, j: int| 0 <= i < j < d.len() implies #[trigger] d[i].0 != #[trigger] d[j].0 by {
                assert(d[i] == s[i] && d[j] == s[j]);
            }
        }
        lemma_distinct_named(d, k);
        if s.last().0 == k {
            lemma_named_member(d, k);
            if d.filter(named(k)).len() > 0 {
                let i = choose|i: int| 0 <= i < d.len() && d[i].0 == k;
                assert(s[i].0 != s[s.len() - 1].0);
            }
        }
    }
}

/// Where each name is held by at most one entry, names are distinct.
pub proof fn lemma_named_distinct(s: Seq<Entry>)
    requires
        forall|k: Seq<char>| (#[trigger] s.filter(named(k))).len() <= 1,
    ensures
        names_distinct(s),
{
    assert forall|i: int, j: int| 0 <= i < j < s.len() implies #[trigger] s[i].0 != #[trigger] s[j].0 by {
        if s[i].0 == s[j].0 {
            lemma_named_twice(s, s[i].0, i, j);
        }
    }
}

/// Sorting entries with distinct names puts the names in strictly
/// ascending order.
pub proof fn lemma_sort_by_name_strict(s: Seq<Entry>)
    requires
        names_distinct(s),
    ensures
        strictly_sorted_by_name(sort_by_name(s)),
{
    let r = sort_by_name(s);
    lemma_sort_by_name_sorted(s);
    assert forall|i: int, j: int| 0 <= i < j < r.len() implies lex_lt(#[trigger] r[i].0, #[trigger] r[j].0) by {
        assert(lex_le(r[i].0, r[j].0));
        if r[i].0 == r[j].0 {
            let k = r[i].0;
            lemma_named_twice(r, k, i, j);
            lemma_sort_by_name_stable(s, k);
            lemma_distinct_named(s, k);
        }
        lemma_lex_total(r[i].0, r[j].0);
    }
}

/// The names and texts of a list of properties.
pub open spec fn entry_views(v: Seq<(String, String)>) -> Seq<Entry> {
    v.map_values(|e: (String, String)| (e.0@, e.1@))
}

/// Sorts properties by name, stably (`sort_by(|a, b| a.0.cmp(&b.0))`).
pub fn sort_properties(v: &Vec<(String, String)>) -> (r: Vec<(String, String)>)
    ensures
        entry_views(r@) == sort_by_name(entry_views(v@)),
{
    let ghost vv = entry_views(v@);
    let mut out: Vec<(String, String)> = Vec::new();
    let mut i: usize = 0;
    assert(vv.take(0) =~= Seq::<Entry>::empty());
    while i < v.len()
        invariant
            i <= v.len(),
            vv == entry_views(v@),
            entry_views(out@) == sort_by_name(vv.take(i as int)),
        decreases v.len() - i,
    {
        let e = (v[i].0.clone(), v[i].1.clone());
        let ghost ev = (e.0@, e.1@);
        assert(ev == vv[i as int]);
        let ghost o = entry_views(out@);
        let mut j = out.len();
        assert(o.take(j as int) =~= o);
        assert(o.skip(j as int) =~= Seq::<Entry>::empty());
        while j > 0 && name_less(e.0.as_str(), out[j - 1].0.as_str())
            invariant
                j <= out.len(),
                o == entry_views(out@),
                ev == (e.0@, e.1@),
                insert_by_name(o, ev) == insert_by_name(o.take(j as int), ev) + o.skip(j as int),
            decreases j,
        {
            assert(o.take(j as int).drop_last() =~= o.take(j - 1));
            assert(o.take(j as int).last() == o[j - 1]);
            assert(o.skip(j - 1) =~= seq![o[j - 1]] + o.skip(j as int));
            assert(insert_by_name(o.take(j - 1), ev).push(o[j - 1]) + o.skip(j as int)
                =~= insert_by_name(o.take(j - 1), ev) + o.skip(j - 1));
            j -= 1;
        }
        out.insert(j, e);
        assert(entry_views(out@) =~= o.take(j as int).push(ev) + o.skip(j as int));
        assert(vv.take(i + 1).drop_last() =~= vv.take(i as int));
        i += 1;
    }
    assert(vv.take(v.len() as int) =~= vv);
    out
}

} // verus!
