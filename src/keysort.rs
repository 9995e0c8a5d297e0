//! A stable sort of rows by a two-part integer key.
//!
//! Rows are handed over as entries `(major, minor, position)`: the key and
//! the place of the row in its table. The order is lexicographic on the key;
//! entries with equal keys keep their relative order.

use vstd::prelude::*;

verus! {

/// An entry to sort: the two parts of the key and the row's position.
pub type KeyEntry = (i64, i64, usize);

/// `a` comes strictly before `b`.
pub open spec fn key_lt(a: KeyEntry, b: KeyEntry) -> bool {
    a.0 < b.0 || (a.0 == b.0 && a.1 < b.1)
}

/// Every entry comes strictly before the next one.
pub open spec fn strictly_sorted(s: Seq<KeyEntry>) -> bool {
    forall|i: int, j: int| 0 <= i < j < s.len() ==> key_lt(s[i], s[j])
}

/// `x` placed into `s` after every entry that does not come after it.
pub open spec fn insert_entry(s: Seq<KeyEntry>, x: KeyEntry) -> Seq<KeyEntry>
    decreases s.len(),
{
    if s.len() == 0 {
        seq![x]
    } else if key_lt(x, s.last()) {
        insert_entry(s.drop_last(), x).push(s.last())
    } else {
        s.push(x)
    }
}

/// The entries of `s` in key order, equal keys in their original order.
pub open spec fn sort_entries(s: Seq<KeyEntry>) -> Seq<KeyEntry>
    decreases s.len(),
{
    if s.len() == 0 {
        s
    } else {
        insert_entry(sort_entries(s.drop_last()), s.last())
    }
}

/// Inserting after the last entry that does not come after `x` is the
/// recursive insertion.
proof fn lemma_insert_at(s: Seq<KeyEntry>, x: KeyEntry, j: int)
    requires
        0 <= j <= s.len(),
        forall|k: int| j <= k < s.len() ==> key_lt(x, #[trigger] s[k]),
        j == 0 || !key_lt(x, s[j - 1]),
    ensures
        insert_entry(s, x) == s.insert(j, x),
    decreases s.len(),
{
    if s.len() == j {
        if s.len() == 0 {
            assert(s.insert(j, x) =~= seq![x]);
        } else {
            assert(s.insert(j, x) =~= s.push(x));
        }
    } else {
        lemma_insert_at(s.drop_last(), x, j);
        assert(s.insert(j, x) =~= s.drop_last().insert(j, x).push(s.last()));
    }
}

/// A sequence already in strict key order is left as it is.
pub proof fn lemma_sorted_unchanged(s: Seq<KeyEntry>)
    requires
        strictly_sorted(s),
    ensures
        sort_entries(s) == s,
    decreases s.len(),
{
    if s.len() > 0 {
        let d = s.drop_last();
        assert(strictly_sorted(d));
        lemma_sorted_unchanged(d);
        if d.len() > 0 {
            assert(key_lt(d.last(), s.last()));
        }
        assert(d.push(s.last()) =~= s);
    }
}

/// Sorting moves entries but makes none: a property of every entry of `s`
/// holds of every entry of the sorted sequence, which is as long.
pub proof fn lemma_sort_keeps(s: Seq<KeyEntry>, p: spec_fn(KeyEntry) -> bool)
    requires
        forall|k: int| 0 <= k < s.len() ==> p(#[trigger] s[k]),
    ensures
        forall|k: int| 0 <= k < sort_entries(s).len() ==> p(#[trigger] sort_entries(s)[k]),
        sort_entries(s).len() == s.len(),
    decreases s.len(),
{
    if s.len() > 0 {
        lemma_sort_keeps(s.drop_last(), p);
        lemma_insert_keeps(sort_entries(s.drop_last()), s.last(), p);
    }
}

proof fn lemma_insert_keeps(s: Seq<KeyEntry>, x: KeyEntry, p: spec_fn(KeyEntry) -> bool)
    requires
        forall|k: int| 0 <= k < s.len() ==> p(#[trigger] s[k]),
        p(x),
    ensures
        forall|k: int| 0 <= k < insert_entry(s, x).len() ==> p(#[trigger] insert_entry(s, x)[k]),
        insert_entry(s, x).len() == s.len() + 1,
    decreases s.len(),
{
    if s.len() > 0 && key_lt(x, s.last()) {
        lemma_insert_keeps(s.drop_last(), x, p);
    }
}

/// No entry comes strictly before an earlier one.
pub open spec fn sorted(s: Seq<KeyEntry>) -> bool {
    forall|i: int, j: int| 0 <= i < j < s.len() ==> !key_lt(s[j], s[i])
}

proof fn lemma_insert_sorted(s: Seq<KeyEntry>, x: KeyEntry)
    requires
        sorted(s),
    ensures
        sorted(insert_entry(s, x)),
        insert_entry(s, x).to_multiset() == s.to_multiset().insert(x),
        insert_entry(s, x).len() == s.len() + 1,
        forall|k: int| 0 <= k < insert_entry(s, x).len() ==> (#[trigger] insert_entry(s, x)[k]) == x || s.contains(insert_entry(s, x)[k]),
    decreases s.len(),
{
    broadcast use vstd::seq_lib::group_to_multiset_ensures;

    if s.len() == 0 {
        assert(seq![x] =~= Seq::<KeyEntry>::empty().push(x));
    } else if key_lt(x, s.last()) {
        let d = s.drop_last();
        lemma_insert_sorted(d, x);
        let t = insert_entry(d, x);
        assert(s =~= d.push(s.last()));
        assert forall|k: int| 0 <= k < t.len() implies !key_lt(s.last(), #[trigger] t[k]) by {
            if t[k] != x {
                assert(d.contains(t[k]));
                let m = choose|m: int| 0 <= m < d.len() && d[m] == t[k];
                assert(s[m] == d[m]);
            }
        }
        assert(t.push(s.last()).to_multiset() =~= s.to_multiset().insert(x));
        assert forall|k: int| 0 <= k < insert_entry(s, x).len() implies (#[trigger] insert_entry(s, x)[k]) == x || s.contains(insert_entry(s, x)[k]) by {
            if k < t.len() && t[k] != x {
                let m = choose|m: int| 0 <= m < d.len() && d[m] == t[k];
                assert(s[m] == d[m]);
            } else if k == t.len() {
                assert(s[s.len() - 1] == s.last());
            }
        }
    } else {
        assert forall|k: int| 0 <= k < s.len() implies !key_lt(x, #[trigger] s[k]) by {
            if k < s.len() - 1 {
                assert(!key_lt(s.last(), s[k]));
            }
        }
        assert forall|k: int| 0 <= k < s.push(x).len() - 1 implies s.contains(#[trigger] s.push(x)[k]) by {
            assert(s.push(x)[k] == s[k]);
        }
    }
}

/// The sort puts the entries in key order, and keeps every entry as often
/// as it occurs.
pub proof fn lemma_sort_entries_sorted(s: Seq<KeyEntry>)
    ensures
        sorted(sort_entries(s)),
        sort_entries(s).to_multiset() == s.to_multiset(),
    decreases s.len(),
{
    broadcast use vstd::seq_lib::group_to_multiset_ensures;

    if s.len() > 0 {
        lemma_sort_entries_sorted(s.drop_last());
        lemma_insert_sorted(sort_entries(s.drop_last()), s.last());
        assert(s =~= s.drop_last().push(s.last()));
    }
}

proof fn lemma_insert_map(t: Seq<KeyEntry>, x: KeyEntry, f: spec_fn(KeyEntry) -> KeyEntry, p: spec_fn(KeyEntry) -> bool)
    requires
        forall|k: int| 0 <= k < t.len() ==> p(#[trigger] t[k]),
        p(x),
        forall|a: KeyEntry, b: KeyEntry| #![trigger key_lt(a, b)] p(a) && p(b) ==> (key_lt(a, b) == key_lt(f(a), f(b))),
    ensures
        insert_entry(t.map_values(f), f(x)) == insert_entry(t, x).map_values(f),
    decreases t.len(),
{
    let tm = t.map_values(f);
    if t.len() == 0 {
        assert(insert_entry(t, x).map_values(f) =~= seq![f(x)]);
    } else {
        assert(tm.last() == f(t.last()));
        assert(p(t[t.len() - 1]));
        assert(key_lt(x, t.last()) == key_lt(f(x), f(t.last())));
        assert(tm.drop_last() =~= t.drop_last().map_values(f));
        if key_lt(x, t.last()) {
            lemma_insert_map(t.drop_last(), x, f, p);
            assert(insert_entry(t, x).map_values(f) =~= insert_entry(t.drop_last(), x).map_values(f).push(f(t.last())));
        } else {
            assert(insert_entry(t, x).map_values(f) =~= tm.push(f(x)));
        }
    }
}

/// Sorting commutes with a map that keeps the order between the entries it
/// is applied to.
pub proof fn lemma_sort_map(s: Seq<KeyEntry>, f: spec_fn(KeyEntry) -> KeyEntry, p: spec_fn(KeyEntry) -> bool)
    requires
        forall|k: int| 0 <= k < s.len() ==> p(#[trigger] s[k]),
        forall|a: KeyEntry, b: KeyEntry| #![trigger key_lt(a, b)] p(a) && p(b) ==> (key_lt(a, b) == key_lt(f(a), f(b))),
    ensures
        sort_entries(s.map_values(f)) == sort_entries(s).map_values(f),
    decreases s.len(),
{
    if s.len() == 0 {
        assert(sort_entries(s).map_values(f) =~= s.map_values(f));
    } else {
        let d = s.drop_last();
        assert(s.map_values(f).drop_last() =~= d.map_values(f));
        assert(s.map_values(f).last() == f(s.last()));
        lemma_sort_map(d, f, p);
        lemma_sort_keeps(d, p);
        assert(p(s[s.len() - 1]));
        lemma_insert_map(sort_entries(d), s.last(), f, p);
    }
}

/// Sorts the entries by key, keeping entries with equal keys in order.
pub fn sort_by_key(v: &Vec<KeyEntry>) -> (r: Vec<KeyEntry>)
    ensures
        r@ == sort_entries(v@),
        sorted(r@),
        r@.to_multiset() == v@.to_multiset(),
{
    proof {
        lemma_sort_entries_sorted(v@);
    }
    let mut r: Vec<KeyEntry> = Vec::new();
    let mut i: usize = 0;
    while i < v.len()
        invariant
            i <= v@.len(),
            r@ == sort_entries(v@.take(i as int)),
        decreases v@.len() - i,
    {
        let x = v[i];
        let mut j: usize = r.len();
        while j > 0 && (x.0 < r[j - 1].0 || (x.0 == r[j - 1].0 && x.1 < r[j - 1].1))
            invariant
                j <= r@.len(),
                forall|k: int| j <= k < r@.len() ==> key_lt(x, #[trigger] r@[k]),
            decreases j,
        {
            j = j - 1;
        }
        proof {
            lemma_insert_at(r@, x, j as int);
            assert(v@.take(i + 1).drop_last() =~= v@.take(i as int));
        }
        r.insert(j, x);
        i = i + 1;
    }
    proof {
        assert(v@.take(i as int) =~= v@);
    }
    r
}

/// The entries of `s` from last to first.
pub open spec fn reversed(s: Seq<KeyEntry>) -> Seq<KeyEntry> {
    Seq::new(s.len(), |k: int| s[s.len() - 1 - k])
}

/// The entries from last to first.
pub fn reverse_entries(v: &Vec<KeyEntry>) -> (r: Vec<KeyEntry>)
    ensures
        r@ == reversed(v@),
{
    let mut r: Vec<KeyEntry> = Vec::new();
    let mut i: usize = v.len();
    while i > 0
        invariant
            i <= v@.len(),
            r@ =~= Seq::new((v@.len() - i) as nat, |k: int| v@[v@.len() - 1 - k]),
        decreases i,
    {
        i = i - 1;
        r.push(v[i]);
    }
    r
}

} // verus!
