//! The entries of an ordered map, in the order of their keys.
use crate::types::ObjectID;
use std::collections::BTreeMap;
use vstd::laws_cmp::obeys_cmp;
use vstd::prelude::*;
use vstd::std_specs::cmp::OrdSpec;
use vstd::std_specs::iter::IteratorSpec;

verus! {

broadcast use {
    vstd::std_specs::btree::group_btree_axioms,
    vstd::laws_cmp::group_laws_cmp,
};

/// A key of an ordered map, with what it means to come before another key.
pub trait Key: Sized {
    spec fn before(self, other: Self) -> bool;

    proof fn never_before_itself(self)
        ensures
            !self.before(self),
    ;

    proof fn before_is_transitive(self, b: Self, c: Self)
        requires
            self.before(b),
            b.before(c),
        ensures
            self.before(c),
    ;

    proof fn any_two_are_ordered(self, other: Self)
        ensures
            self.before(other) || other.before(self) || self == other,
    ;
}

impl Key for u64 {
    open spec fn before(self, other: u64) -> bool {
        self < other
    }

    proof fn never_before_itself(self) {
    }

    proof fn before_is_transitive(self, b: u64, c: u64) {
    }

    proof fn any_two_are_ordered(self, other: u64) {
    }
}

impl Key for (u128, u128) {
    open spec fn before(self, other: (u128, u128)) -> bool {
        self.0 < other.0 || (self.0 == other.0 && self.1 < other.1)
    }

    proof fn never_before_itself(self) {
    }

    proof fn before_is_transitive(self, b: (u128, u128), c: (u128, u128)) {
    }

    proof fn any_two_are_ordered(self, other: (u128, u128)) {
    }
}

impl Key for ((u128, u128), u64) {
    open spec fn before(self, other: ((u128, u128), u64)) -> bool {
        self.0.before(other.0) || (self.0 == other.0 && self.1 < other.1)
    }

    proof fn never_before_itself(self) {
    }

    proof fn before_is_transitive(self, b: ((u128, u128), u64), c: ((u128, u128), u64)) {
    }

    proof fn any_two_are_ordered(self, other: ((u128, u128), u64)) {
    }
}

/// Whether a sequence holds the entries of a map, each once, in the order of their keys.
pub open spec fn is_listing<K: Key, V>(m: Map<K, V>, entries: Seq<(K, V)>) -> bool {
    &&& forall|i: int, j: int|
        0 <= i < j < entries.len() ==> (#[trigger] entries[i]).0.before((#[trigger] entries[j]).0)
    &&& forall|i: int|
        0 <= i < entries.len() ==> m.contains_key((#[trigger] entries[i]).0) && m[entries[i].0]
            == entries[i].1
    &&& forall|k: K| #[trigger]
        m.contains_key(k) ==> exists|i: int| 0 <= i < entries.len() && (#[trigger] entries[i]).0 == k
}

/// The entries of a map, in the order of their keys.
pub open spec fn listing<K: Key, V>(m: Map<K, V>) -> Seq<(K, V)> {
    choose|entries: Seq<(K, V)>| is_listing(m, entries)
}

/// The values of a map, in the order of their keys.
pub open spec fn values_in_order<K: Key, V>(m: Map<K, V>) -> Seq<V> {
    listing(m).map_values(|entry: (K, V)| entry.1)
}

/// A map has only one listing.
pub proof fn lemma_listing_is_unique<K: Key, V>(m: Map<K, V>, s: Seq<(K, V)>, t: Seq<(K, V)>)
    requires
        is_listing(m, s),
        is_listing(m, t),
    ensures
        s == t,
    decreases s.len(),
{
    if s.len() == 0 {
        if t.len() > 0 {
            assert(m.contains_key(t[0].0));
        }
        assert(s =~= t);
    } else {
        assert(m.contains_key(s[0].0));
        let i = choose|i: int| 0 <= i < t.len() && (#[trigger] t[i]).0 == s[0].0;
        assert(m.contains_key(t[0].0));
        let j = choose|j: int| 0 <= j < s.len() && (#[trigger] s[j]).0 == t[0].0;
        if i > 0 && j > 0 {
            s[0].0.before_is_transitive(s[j].0, s[0].0);
            s[0].0.never_before_itself();
        }
        assert(i == 0 || j == 0);
        assert(s[0] == t[0]);
        let rest = m.remove(s[0].0);
        lemma_listing_without_first(m, s);
        lemma_listing_without_first(m, t);
        lemma_listing_is_unique(rest, s.skip(1), t.skip(1));
        assert(s =~= seq![s[0]] + s.skip(1));
        assert(t =~= seq![t[0]] + t.skip(1));
    }
}

proof fn lemma_listing_without_first<K: Key, V>(m: Map<K, V>, s: Seq<(K, V)>)
    requires
        is_listing(m, s),
        s.len() > 0,
    ensures
        is_listing(m.remove(s[0].0), s.skip(1)),
{
    let rest = m.remove(s[0].0);
    let tail = s.skip(1);
    assert forall|i: int, j: int| 0 <= i < j < tail.len() implies (#[trigger] tail[i]).0.before(
        (#[trigger] tail[j]).0,
    ) by {
        assert(s[i + 1].0.before(s[j + 1].0));
    }
    assert forall|i: int| 0 <= i < tail.len() implies rest.contains_key((#[trigger] tail[i]).0)
        && rest[tail[i].0] == tail[i].1 by {
        assert(tail[i] == s[i + 1]);
        assert(s[0].0.before(s[i + 1].0));
        s[0].0.never_before_itself();
    }
    assert forall|k: K| #[trigger] rest.contains_key(k) implies exists|i: int|
        0 <= i < tail.len() && (#[trigger] tail[i]).0 == k by {
        assert(m.contains_key(k));
        let i = choose|i: int| 0 <= i < s.len() && (#[trigger] s[i]).0 == k;
        assert(tail[i - 1] == s[i]);
    }
}

/// A listing of a map is the listing of that map.
pub proof fn lemma_is_the_listing<K: Key, V>(m: Map<K, V>, s: Seq<(K, V)>)
    requires
        is_listing(m, s),
    ensures
        s == listing(m),
{
    lemma_listing_is_unique(m, s, listing(m));
}

/// A listing goes on with a key that comes after all others.
proof fn lemma_listing_with_last<K: Key, V>(m: Map<K, V>, s: Seq<(K, V)>, k: K, v: V)
    requires
        is_listing(m, s),
        forall|other: K| #[trigger] m.contains_key(other) ==> other.before(k),
    ensures
        is_listing(m.insert(k, v), s.push((k, v))),
{
    let all = m.insert(k, v);
    let t = s.push((k, v));
    assert forall|i: int, j: int| 0 <= i < j < t.len() implies (#[trigger] t[i]).0.before(
        (#[trigger] t[j]).0,
    ) by {
        assert(t[i] == s[i]);
        assert(m.contains_key(s[i].0));
        if j < s.len() {
            assert(t[j] == s[j]);
        }
    }
    assert forall|i: int| 0 <= i < t.len() implies all.contains_key((#[trigger] t[i]).0)
        && all[t[i].0] == t[i].1 by {
        if i < s.len() {
            assert(t[i] == s[i]);
            assert(m.contains_key(s[i].0));
            k.never_before_itself();
        }
    }
    assert forall|other: K| #[trigger] all.contains_key(other) implies exists|i: int|
        0 <= i < t.len() && (#[trigger] t[i]).0 == other by {
        if other == k {
            assert(t[s.len() as int].0 == k);
        } else {
            assert(m.contains_key(other));
            let i = choose|i: int| 0 <= i < s.len() && (#[trigger] s[i]).0 == other;
            assert(t[i] == s[i]);
        }
    }
}

/// A listing without its last entry lists the rest of the map, whose keys all come before.
proof fn lemma_listing_without_last<K: Key, V>(m: Map<K, V>, s: Seq<(K, V)>)
    requires
        is_listing(m, s),
        s.len() > 0,
    ensures
        is_listing(m.remove(s.last().0), s.drop_last()),
        forall|k: K| #[trigger]
            m.remove(s.last().0).contains_key(k) ==> k.before(s.last().0),
{
    let rest = m.remove(s.last().0);
    let head = s.drop_last();
    assert forall|i: int| 0 <= i < head.len() implies rest.contains_key((#[trigger] head[i]).0)
        && rest[head[i].0] == head[i].1 by {
        assert(head[i] == s[i]);
        assert(s[i].0.before(s[s.len() - 1].0));
        s.last().0.never_before_itself();
    }
    assert forall|k: K| #[trigger] rest.contains_key(k) implies exists|i: int|
        0 <= i < head.len() && (#[trigger] head[i]).0 == k by {
        assert(m.contains_key(k));
        let i = choose|i: int| 0 <= i < s.len() && (#[trigger] s[i]).0 == k;
        assert(head[i] == s[i]);
    }
    assert forall|k: K| #[trigger] rest.contains_key(k) implies k.before(s.last().0) by {
        assert(m.contains_key(k));
        let i = choose|i: int| 0 <= i < s.len() && (#[trigger] s[i]).0 == k;
        assert(s[i].0.before(s[s.len() - 1].0));
    }
}

/// A map with one more key has a listing if the map has one.
proof fn lemma_listing_with_one_more<K: Key, V>(m: Map<K, V>, s: Seq<(K, V)>, k: K, v: V)
    requires
        is_listing(m, s),
        !m.contains_key(k),
    ensures
        exists|t: Seq<(K, V)>| is_listing(m.insert(k, v), t),
    decreases s.len(),
{
    if s.len() == 0 {
        lemma_listing_with_last(m, s, k, v);
    } else {
        let (last, value) = s.last();
        assert(m.contains_key(s[s.len() - 1].0));
        lemma_listing_without_last(m, s);
        let rest = m.remove(last);
        last.any_two_are_ordered(k);
        if last.before(k) {
            assert forall|other: K| #[trigger] m.contains_key(other) implies other.before(k) by {
                if other != last {
                    assert(rest.contains_key(other));
                    other.before_is_transitive(last, k);
                }
            }
            lemma_listing_with_last(m, s, k, v);
        } else {
            lemma_listing_with_one_more(rest, s.drop_last(), k, v);
            let t = choose|t: Seq<(K, V)>| is_listing(rest.insert(k, v), t);
            assert forall|other: K| #[trigger] rest.insert(k, v).contains_key(
                other,
            ) implies other.before(last) by {
                if other != k {
                    assert(rest.contains_key(other));
                }
            }
            lemma_listing_with_last(rest.insert(k, v), t, last, value);
            assert(rest.insert(k, v).insert(last, value) =~= m.insert(k, v));
        }
    }
}

/// Every finite map has a listing: `listing` gives it.
pub proof fn law_every_map_has_its_listing<K: Key, V>(m: Map<K, V>)
    requires
        m.dom().finite(),
    ensures
        is_listing(m, listing(m)),
    decreases m.dom().len(),
{
    if m.dom().len() == 0 {
        assert(m.dom() =~= Set::empty());
        assert forall|k: K| #[trigger] m.contains_key(k) implies false by {
            assert(m.dom().contains(k));
        }
        assert(is_listing(m, Seq::<(K, V)>::empty()));
    } else {
        let k = m.dom().choose();
        let rest = m.remove(k);
        assert(rest.dom() =~= m.dom().remove(k));
        law_every_map_has_its_listing(rest);
        lemma_listing_with_one_more(rest, listing(rest), k, m[k]);
        assert(rest.insert(k, m[k]) =~= m);
    }
}

/// Whether the order of the standard library on a type of keys is that of `before`.
pub open spec fn ordered_by_before<K: Key + Ord>() -> bool {
    &&& obeys_cmp::<K>()
    &&& forall|a: K, b: K| (#[trigger] a.cmp_spec(&b) is Less) <==> a.before(b)
}

pub proof fn lemma_numbers_are_ordered()
    ensures
        ordered_by_before::<u64>(),
{
}

pub proof fn lemma_ids_are_ordered()
    ensures
        ordered_by_before::<ObjectID>(),
{
}

pub proof fn lemma_keys_are_ordered()
    ensures
        ordered_by_before::<(ObjectID, u64)>(),
{
    lemma_ids_are_ordered();
}

/// The view of a list of entries whose values are borrowed.
pub open spec fn borrowed_entries<K, V>(entries: Seq<(K, &V)>) -> Seq<(K, V)> {
    entries.map_values(|entry: (K, &V)| (entry.0, *entry.1))
}

/// The entries of a map, in the order of their keys.
pub fn entries<'a, K: Key + Ord + Copy, V>(m: &'a BTreeMap<K, V>) -> (r: Vec<(K, &'a V)>)
    requires
        ordered_by_before::<K>(),
    ensures
        is_listing(m@, borrowed_entries(r@)),
        borrowed_entries(r@) == listing(m@),
{
    let mut out: Vec<(K, &'a V)> = Vec::new();
    let walk = m.iter();
    let ghost all = walk.remaining();
    let ghost keys = all.map_values(|kv: (&K, &V)| *kv.0);
    for kv in it: walk
        invariant
            it.seq() == all,
            out@.len() == it.index(),
            forall|i: int| 0 <= i < out@.len() ==> #[trigger] out@[i] == (*all[i].0, all[i].1),
    {
        out.push((*kv.0, kv.1));
    }
    proof {
        let got = borrowed_entries(out@);
        assert forall|i: int, j: int| 0 <= i < j < got.len() implies (
        #[trigger] got[i]).0.before((#[trigger] got[j]).0) by {
            assert(out@[i].0 == keys[i] && out@[j].0 == keys[j]);
            assert(keys[i].cmp_spec(&keys[j]) is Less);
        }
        assert forall|i: int| 0 <= i < got.len() implies m@.contains_key((#[trigger] got[i]).0)
            && m@[got[i].0] == got[i].1 by {
            assert(out@[i] == (*all[i].0, all[i].1));
            assert(m@.contains_key(*all[i].0));
        }
        assert forall|k: K| #[trigger] m@.contains_key(k) implies exists|i: int|
            0 <= i < got.len() && (#[trigger] got[i]).0 == k by {
            assert(all.contains((&k, &m@[k])));
            let i = choose|i: int| 0 <= i < all.len() && all[i] == (&k, &m@[k]);
            assert(out@[i] == (*all[i].0, all[i].1));
            assert(got[i].0 == k);
        }
        lemma_is_the_listing(m@, got);
    }
    out
}

/// The entries that are listed are those of the map, each once, and their keys go up in the
/// order of the standard library.
pub proof fn law_entries_go_up<K: Key + Ord + Copy, V>(
    m: &BTreeMap<K, V>,
    r: Vec<(K, &V)>,
    i: int,
    j: int,
    k: K,
)
    requires
        ordered_by_before::<K>(),
        call_ensures(entries::<K, V>, (m,), r),
    ensures
        0 <= i < j < r@.len() ==> r@[i].0.cmp_spec(&r@[j].0) is Less,
        0 <= i < r@.len() ==> m@.contains_key(r@[i].0) && m@[r@[i].0] == *r@[i].1,
        m@.contains_key(k) <==> exists|l: int| 0 <= l < r@.len() && (#[trigger] r@[l]).0 == k,
{
    let all = borrowed_entries(r@);
    assert(forall|l: int| 0 <= l < r@.len() ==> #[trigger] all[l] == (r@[l].0, *r@[l].1));
    if 0 <= i < j < r@.len() {
        assert(all[i].0.before(all[j].0));
    }
    if 0 <= i < r@.len() {
        assert(m@.contains_key(all[i].0));
    }
    if m@.contains_key(k) {
        let l = choose|l: int| 0 <= l < all.len() && (#[trigger] all[l]).0 == k;
        assert(r@[l].0 == k);
    }
    if exists|l: int| 0 <= l < r@.len() && (#[trigger] r@[l]).0 == k {
        let l = choose|l: int| 0 <= l < r@.len() && (#[trigger] r@[l]).0 == k;
        assert(all[l].0 == k);
    }
}

} // verus!
