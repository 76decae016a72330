//! Ordered maps as mathematics: a finite map from names to values, and the one
//! sequence that lists its entries by increasing name.
use vstd::prelude::*;

use crate::order;

verus! {

/// The names of the entries increase strictly.
pub open spec fn increasing<V>(s: Seq<(Seq<char>, V)>) -> bool {
    forall|i: int, j: int|
        0 <= i < j < s.len() ==> order::before((#[trigger] s[i]).0, (#[trigger] s[j]).0)
}

/// Some entry has the name `k`.
pub open spec fn has_name<V>(s: Seq<(Seq<char>, V)>, k: Seq<char>) -> bool {
    exists|i: int| 0 <= i < s.len() && (#[trigger] s[i]).0 == k
}

/// Where an entry with the name `k` stands.
pub open spec fn position_of<V>(s: Seq<(Seq<char>, V)>, k: Seq<char>) -> int {
    choose|i: int| 0 <= i < s.len() && (#[trigger] s[i]).0 == k
}

/// The map that a list of entries describes.
pub open spec fn to_map<V>(s: Seq<(Seq<char>, V)>) -> Map<Seq<char>, V> {
    Map::new(|k: Seq<char>| has_name(s, k), |k: Seq<char>| s[position_of(s, k)].1)
}

/// The entries of a map by increasing name.
pub open spec fn in_order<V>(m: Map<Seq<char>, V>) -> Seq<(Seq<char>, V)> {
    choose|s: Seq<(Seq<char>, V)>| increasing(s) && #[trigger] to_map(s) == m
}

/// What a map holds for a name.
pub open spec fn lookup<V>(m: Map<Seq<char>, V>, k: Seq<char>) -> Option<V> {
    if m.contains_key(k) {
        Some(m[k])
    } else {
        None
    }
}

/// Every entry of an increasing list is found in its map.
pub proof fn lemma_to_map_at<V>(s: Seq<(Seq<char>, V)>, i: int)
    requires
        increasing(s),
        0 <= i < s.len(),
    ensures
        to_map(s).contains_key(s[i].0),
        to_map(s)[s[i].0] == s[i].1,
{
    let k = s[i].0;
    assert(has_name(s, k));
    let p = position_of(s, k);
    order::lemma_before_irreflexive(k);
    if p < i {
        assert(order::before(s[p].0, s[i].0));
    } else if i < p {
        assert(order::before(s[i].0, s[p].0));
    }
}

/// An increasing list is determined by its map.
pub proof fn lemma_increasing_unique<V>(s: Seq<(Seq<char>, V)>, t: Seq<(Seq<char>, V)>)
    requires
        increasing(s),
        increasing(t),
        to_map(s) == to_map(t),
    ensures
        s == t,
    decreases s.len(),
{
    if s.len() == 0 {
        if t.len() > 0 {
            lemma_to_map_at(t, 0);
            assert(has_name(s, t[0].0));
        }
        assert(s =~= t);
    } else {
        lemma_to_map_at(s, 0);
        assert(has_name(t, s[0].0));
        let j = position_of(t, s[0].0);
        lemma_to_map_at(t, 0);
        assert(has_name(s, t[0].0));
        let i = position_of(s, t[0].0);
        if j != 0 {
            assert(order::before(t[0].0, t[j].0));
            if i != 0 {
                assert(order::before(s[0].0, s[i].0));
                order::lemma_before_transitive(s[0].0, s[i].0, t[j].0);
            }
            order::lemma_before_irreflexive(s[0].0);
        }
        assert(j == 0);
        assert(s[0] == t[0]);
        let s1 = s.remove(0);
        let t1 = t.remove(0);
        lemma_remove_at(s, 0);
        lemma_remove_at(t, 0);
        lemma_increasing_unique(s1, t1);
        assert(s =~= seq![s[0]] + s1);
        assert(t =~= seq![t[0]] + t1);
    }
}

/// An increasing list lists its own map in order.
pub proof fn lemma_in_order<V>(s: Seq<(Seq<char>, V)>)
    requires
        increasing(s),
    ensures
        in_order(to_map(s)) == s,
{
    lemma_increasing_unique(in_order(to_map(s)), s);
}

/// A new name is inserted where the smaller names end.
pub proof fn lemma_insert_at<V>(s: Seq<(Seq<char>, V)>, p: int, k: Seq<char>, v: V)
    requires
        increasing(s),
        0 <= p <= s.len(),
        forall|i: int| 0 <= i < p ==> order::before((#[trigger] s[i]).0, k),
        forall|i: int| p <= i < s.len() ==> order::before(k, (#[trigger] s[i]).0),
    ensures
        increasing(s.insert(p, (k, v))),
        to_map(s.insert(p, (k, v))) == to_map(s).insert(k, v),
        !to_map(s).contains_key(k),
{
    let t = s.insert(p, (k, v));
    assert(t[p] == (k, v));
    assert forall|i: int| 0 <= i < t.len() implies #[trigger] t[i] == (if i < p {
        s[i]
    } else if i == p {
        (k, v)
    } else {
        s[i - 1]
    }) by {}
    assert(increasing(t));
    assert forall|i: int| 0 <= i < s.len() implies (#[trigger] s[i]).0 != k by {
        order::lemma_before_irreflexive(k);
    }
    assert forall|n: Seq<char>| #[trigger]
        to_map(t).contains_key(n) <==> to_map(s).insert(k, v).contains_key(n) by {
        if has_name(s, n) {
            let i = position_of(s, n);
            assert(t[if i < p { i } else { i + 1 }].0 == n);
        }
        if has_name(t, n) && n != k {
            let i = position_of(t, n);
            assert(s[if i < p { i } else { i - 1 }].0 == n);
        }
    }
    assert forall|n: Seq<char>| #[trigger] to_map(t).contains_key(n) implies to_map(t)[n]
        == to_map(s).insert(k, v)[n] by {
        if n == k {
            lemma_to_map_at(t, p);
        } else {
            let i = position_of(t, n);
            lemma_to_map_at(t, i);
            lemma_to_map_at(s, if i < p { i } else { i - 1 });
        }
    }
    assert(to_map(t) =~= to_map(s).insert(k, v));
}

/// Replacing the value of an entry replaces it in the map.
pub proof fn lemma_update_at<V>(s: Seq<(Seq<char>, V)>, p: int, v: V)
    requires
        increasing(s),
        0 <= p < s.len(),
    ensures
        increasing(s.update(p, (s[p].0, v))),
        to_map(s.update(p, (s[p].0, v))) == to_map(s).insert(s[p].0, v),
{
    let k = s[p].0;
    let t = s.update(p, (k, v));
    assert forall|i: int| 0 <= i < t.len() implies (#[trigger] t[i]).0 == s[i].0 by {}
    assert(increasing(t));
    assert forall|n: Seq<char>| #[trigger]
        to_map(t).contains_key(n) <==> to_map(s).insert(k, v).contains_key(n) by {
        if has_name(s, n) {
            assert(t[position_of(s, n)].0 == n);
        }
        if has_name(t, n) {
            assert(s[position_of(t, n)].0 == n);
        }
        assert(t[p].0 == k);
    }
    assert forall|n: Seq<char>| #[trigger] to_map(t).contains_key(n) implies to_map(t)[n]
        == to_map(s).insert(k, v)[n] by {
        let i = position_of(t, n);
        lemma_to_map_at(t, i);
        lemma_to_map_at(s, i);
        if n == k {
            lemma_to_map_at(t, p);
        }
    }
    assert(to_map(t) =~= to_map(s).insert(k, v));
}

/// Removing an entry removes its name from the map.
pub proof fn lemma_remove_at<V>(s: Seq<(Seq<char>, V)>, p: int)
    requires
        increasing(s),
        0 <= p < s.len(),
    ensures
        increasing(s.remove(p)),
        to_map(s.remove(p)) == to_map(s).remove(s[p].0),
{
    let k = s[p].0;
    let t = s.remove(p);
    assert forall|i: int| 0 <= i < t.len() implies #[trigger] t[i] == s[if i < p {
        i
    } else {
        i + 1
    }] by {}
    assert(increasing(t));
    assert forall|n: Seq<char>| #[trigger]
        to_map(t).contains_key(n) <==> to_map(s).remove(k).contains_key(n) by {
        if has_name(s, n) && n != k {
            let i = position_of(s, n);
            assert(t[if i < p { i } else { i - 1 }].0 == n);
        }
        if has_name(t, n) {
            let i = position_of(t, n);
            let j = if i < p { i } else { i + 1 };
            assert(s[j].0 == n);
            order::lemma_before_irreflexive(k);
            if n == k {
                if j < p {
                    assert(order::before(s[j].0, s[p].0));
                } else {
                    assert(order::before(s[p].0, s[j].0));
                }
            }
        }
    }
    assert forall|n: Seq<char>| #[trigger] to_map(t).contains_key(n) implies to_map(t)[n]
        == to_map(s).remove(k)[n] by {
        let i = position_of(t, n);
        lemma_to_map_at(t, i);
        lemma_to_map_at(s, if i < p { i } else { i + 1 });
    }
    assert(to_map(t) =~= to_map(s).remove(k));
}

/// Where the names of the first `n` entries that come before `k` end.
proof fn lemma_place_exists<V>(s: Seq<(Seq<char>, V)>, k: Seq<char>, n: int) -> (p: int)
    requires
        increasing(s),
        0 <= n <= s.len(),
        !has_name(s, k),
        forall|i: int| n <= i < s.len() ==> order::before(k, (#[trigger] s[i]).0),
    ensures
        0 <= p <= n,
        forall|i: int| 0 <= i < p ==> order::before((#[trigger] s[i]).0, k),
        forall|i: int| p <= i < s.len() ==> order::before(k, (#[trigger] s[i]).0),
    decreases n,
{
    if n == 0 {
        0
    } else {
        order::lemma_before_total(s[n - 1].0, k);
        if order::before(s[n - 1].0, k) {
            assert forall|i: int| 0 <= i < n implies order::before((#[trigger] s[i]).0, k) by {
                if i < n - 1 {
                    order::lemma_before_transitive(s[i].0, s[n - 1].0, k);
                }
            }
            n
        } else {
            lemma_place_exists(s, k, n - 1)
        }
    }
}

/// Every finite map can be listed in order.
pub proof fn lemma_in_order_lists<V>(m: Map<Seq<char>, V>)
    requires
        m.dom().finite(),
    ensures
        increasing(in_order(m)),
        to_map(in_order(m)) == m,
    decreases m.dom().len(),
{
    if m.dom().len() == 0 {
        let s = Seq::<(Seq<char>, V)>::empty();
        assert(m.dom() =~= Set::empty());
        assert(to_map(s) =~= m);
    } else {
        let k = m.dom().choose();
        let rest = m.remove(k);
        lemma_in_order_lists(rest);
        let s = in_order(rest);
        assert(!to_map(s).contains_key(k));
        let p = lemma_place_exists(s, k, s.len() as int);
        lemma_insert_at(s, p, k, m[k]);
        assert(rest.insert(k, m[k]) =~= m);
        assert(to_map(s.insert(p, (k, m[k]))) == m);
    }
}

/// The map of a list is finite.
pub proof fn lemma_to_map_finite<V>(s: Seq<(Seq<char>, V)>)
    ensures
        to_map(s).dom().finite(),
{
    let names = s.map_values(|e: (Seq<char>, V)| e.0);
    assert forall|k: Seq<char>| #[trigger]
        to_map(s).dom().contains(k) implies names.to_set().contains(k) by {
        assert(names[position_of(s, k)] == k);
    }
    vstd::seq_lib::seq_to_set_is_finite(names);
    vstd::set_lib::lemma_set_subset_finite(names.to_set(), to_map(s).dom());
}

/// An increasing list has as many entries as its map has names.
pub proof fn lemma_to_map_len<V>(s: Seq<(Seq<char>, V)>)
    requires
        increasing(s),
    ensures
        to_map(s).len() == s.len(),
    decreases s.len(),
{
    if s.len() == 0 {
        assert(to_map(s).dom() =~= Set::empty());
    } else {
        lemma_remove_at(s, 0);
        lemma_to_map_at(s, 0);
        lemma_to_map_len(s.remove(0));
        lemma_to_map_finite(s);
    }
}

} // verus!
