//! A map from names to parameter values that lists its entries by name.
use vstd::prelude::*;

use crate::model;
use crate::order;
use crate::order::Place;
use crate::value;
use crate::value::{ParameterValue, ValueView};

verus! {

/// A map from names to parameter values, kept as a list by increasing name.
#[derive(Debug)]
pub struct ParameterMap {
    entries: Vec<(String, ParameterValue)>,
}

/// What a list of entries stands for.
pub open spec fn listed(entries: Seq<(String, ParameterValue)>) -> Seq<(Seq<char>, ValueView)> {
    entries.map_values(|e: (String, ParameterValue)| (e.0@, e.1@))
}

/// What an optional reference to a value stands for.
pub open spec fn found(value: Option<&ParameterValue>) -> Option<ValueView> {
    match value {
        Some(v) => Some(v@),
        None => None,
    }
}

/// What an optional value stands for.
pub open spec fn taken(value: Option<ParameterValue>) -> Option<ValueView> {
    match value {
        Some(v) => Some(v@),
        None => None,
    }
}

impl View for ParameterMap {
    type V = Map<Seq<char>, ValueView>;

    closed spec fn view(&self) -> Map<Seq<char>, ValueView> {
        model::to_map(listed(self.entries@))
    }
}

impl ParameterMap {
    #[verifier::type_invariant]
    spec fn inv(self) -> bool {
        model::increasing(listed(self.entries@))
    }

    /// A map has finitely many names, and a machine can hold its values.
    pub proof fn lemma_finite(&self)
        ensures
            self@.dom().finite(),
            forall|k: Seq<char>| #[trigger] self@.contains_key(k) ==> self@[k].holdable(),
    {
        let list = listed(self.entries@);
        model::lemma_to_map_finite(list);
        assert forall|k: Seq<char>| #[trigger]
            self@.contains_key(k) implies self@[k].holdable() by {
            let i = model::position_of(list, k);
            value::lemma_holdable(self.entries@[i].1);
        }
    }

    /// An empty map.
    pub fn new() -> (res: Self)
        ensures
            res@ == Map::<Seq<char>, ValueView>::empty(),
    {
        let entries: Vec<(String, ParameterValue)> = Vec::new();
        assert(model::to_map(listed(entries@)) =~= Map::empty());
        ParameterMap { entries }
    }

    /// Where `name` stands, or where it would be inserted.
    fn find(&self, name: &str) -> (res: Result<usize, usize>)
        ensures
            match res {
                Ok(i) => {
                    &&& i < self.entries@.len()
                    &&& listed(self.entries@)[i as int].0 == name@
                },
                Err(p) => {
                    let list = listed(self.entries@);
                    &&& p <= list.len()
                    &&& forall|i: int| 0 <= i < p ==> order::before((#[trigger] list[i]).0, name@)
                    &&& forall|i: int|
                        p <= i < list.len() ==> order::before(name@, (#[trigger] list[i]).0)
                },
            },
    {
        proof {
            use_type_invariant(self);
        }
        let ghost list = listed(self.entries@);
        let mut low: usize = 0;
        let mut high: usize = self.entries.len();
        while low < high
            invariant
                low <= high <= self.entries.len(),
                list == listed(self.entries@),
                model::increasing(list),
                forall|i: int| 0 <= i < low ==> order::before((#[trigger] list[i]).0, name@),
                forall|i: int|
                    high <= i < list.len() ==> order::before(name@, (#[trigger] list[i]).0),
            decreases high - low,
        {
            let mid: usize = low + (high - low) / 2;
            assert(list[mid as int].0 == self.entries@[mid as int].0@);
            match order::place(self.entries[mid].0.as_str(), name) {
                Place::Same => {
                    return Ok(mid);
                },
                Place::Before => {
                    assert forall|i: int| 0 <= i < mid + 1 implies order::before(
                        (#[trigger] list[i]).0,
                        name@,
                    ) by {
                        if i < mid {
                            order::lemma_before_transitive(list[i].0, list[mid as int].0, name@);
                        }
                    }
                    low = mid + 1;
                },
                Place::After => {
                    assert forall|i: int| mid <= i < list.len() implies order::before(
                        name@,
                        (#[trigger] list[i]).0,
                    ) by {
                        if i > mid {
                            order::lemma_before_transitive(name@, list[mid as int].0, list[i].0);
                        }
                    }
                    high = mid;
                },
            }
        }
        Err(low)
    }

    /// The value of `name`.
    pub fn get(&self, name: &str) -> (res: Option<&ParameterValue>)
        ensures
            found(res) == model::lookup(self@, name@),
    {
        proof {
            use_type_invariant(self);
        }
        match self.find(name) {
            Ok(i) => {
                proof {
                    model::lemma_to_map_at(listed(self.entries@), i as int);
                }
                Some(&self.entries[i].1)
            },
            Err(p) => {
                proof {
                    lemma_absent(listed(self.entries@), p as int, name@);
                }
                None
            },
        }
    }

    /// Whether `name` has a value.
    pub fn contains_key(&self, name: &str) -> (res: bool)
        ensures
            res == self@.contains_key(name@),
    {
        self.get(name).is_some()
    }

    /// Gives `name` the value and returns the one it had.
    pub fn insert(&mut self, name: String, value: ParameterValue) -> (res: Option<ParameterValue>)
        ensures
            final(self)@ == old(self)@.insert(name@, value@),
            taken(res) == model::lookup(old(self)@, name@),
    {
        proof {
            use_type_invariant(&*self);
        }
        let place = self.find(name.as_str());
        let ghost list = listed(self.entries@);
        let mut entries: Vec<(String, ParameterValue)> = Vec::new();
        assert(model::increasing(listed(entries@)));
        std::mem::swap(&mut entries, &mut self.entries);
        match place {
            Ok(i) => {
                proof {
                    model::lemma_update_at(list, i as int, value@);
                    model::lemma_to_map_at(list, i as int);
                }
                let mut entry = (name, value);
                let ghost new = entry;
                std::mem::swap(&mut entry, &mut entries[i]);
                assert(listed(entries@) =~= list.update(i as int, (new.0@, new.1@)));
                self.entries = entries;
                Some(entry.1)
            },
            Err(p) => {
                proof {
                    model::lemma_insert_at(list, p as int, name@, value@);
                }
                let ghost new = (name@, value@);
                entries.insert(p, (name, value));
                assert(listed(entries@) =~= list.insert(p as int, new));
                self.entries = entries;
                None
            },
        }
    }

    /// Takes `name` out and returns its value.
    pub fn remove(&mut self, name: &str) -> (res: Option<ParameterValue>)
        ensures
            final(self)@ == old(self)@.remove(name@),
            taken(res) == model::lookup(old(self)@, name@),
    {
        proof {
            use_type_invariant(&*self);
        }
        let ghost list = listed(self.entries@);
        match self.find(name) {
            Ok(i) => {
                let mut entries: Vec<(String, ParameterValue)> = Vec::new();
                assert(model::increasing(listed(entries@)));
                std::mem::swap(&mut entries, &mut self.entries);
                proof {
                    model::lemma_remove_at(list, i as int);
                    model::lemma_to_map_at(list, i as int);
                }
                let entry = entries.remove(i);
                assert(listed(entries@) =~= list.remove(i as int));
                self.entries = entries;
                Some(entry.1)
            },
            Err(p) => {
                proof {
                    lemma_absent(list, p as int, name@);
                    assert(self@.remove(name@) =~= self@);
                }
                None
            },
        }
    }

    /// Takes everything out.
    pub fn clear(&mut self)
        ensures
            final(self)@ == Map::<Seq<char>, ValueView>::empty(),
    {
        *self = ParameterMap::new();
    }

    /// How many names have a value.
    pub fn len(&self) -> (res: usize)
        ensures
            res == self@.len(),
            res == model::in_order(self@).len(),
    {
        proof {
            use_type_invariant(self);
            model::lemma_in_order(listed(self.entries@));
            model::lemma_to_map_len(listed(self.entries@));
        }
        self.entries.len()
    }

    /// Whether no name has a value.
    pub fn is_empty(&self) -> (res: bool)
        ensures
            res == (self@ == Map::<Seq<char>, ValueView>::empty()),
    {
        proof {
            use_type_invariant(self);
            if self.entries@.len() > 0 {
                model::lemma_to_map_at(listed(self.entries@), 0);
            } else {
                assert(self@ =~= Map::empty());
            }
        }
        self.entries.len() == 0
    }

    /// The entries by increasing name.
    pub fn entries(&self) -> (res: &Vec<(String, ParameterValue)>)
        ensures
            listed(res@) == model::in_order(self@),
            model::increasing(listed(res@)),
            model::to_map(listed(res@)) == self@,
    {
        proof {
            use_type_invariant(self);
            model::lemma_in_order(listed(self.entries@));
        }
        &self.entries
    }

    /// Goes through the entries by increasing name.
    pub fn iter(&self) -> (res: std::slice::Iter<'_, (String, ParameterValue)>)
        ensures
            listed(vstd::std_specs::iter::IteratorSpec::remaining(&res).unref()) == model::in_order(
                self@,
            ),
    {
        proof {
            use_type_invariant(self);
            model::lemma_in_order(listed(self.entries@));
        }
        let res = self.entries.iter();
        assert(vstd::std_specs::iter::IteratorSpec::remaining(&res).unref() =~= self.entries@);
        res
    }
}

impl ParameterMap {
    /// Takes over the entries of `other`, whose values win.
    pub fn extend(&mut self, other: ParameterMap)
        ensures
            final(self)@ == old(self)@.union_prefer_right(other@),
    {
        proof {
            use_type_invariant(&other);
        }
        let ghost goal = self@.union_prefer_right(other@);
        let mut rest = other.entries;
        while rest.len() > 0
            invariant
                model::increasing(listed(rest@)),
                goal == self@.union_prefer_right(model::to_map(listed(rest@))),
            decreases rest.len(),
        {
            let ghost list = listed(rest@);
            let ghost last = rest@.len() - 1;
            let ghost before = self@;
            match rest.pop() {
                Some(entry) => {
                    proof {
                        model::lemma_remove_at(list, last);
                        model::lemma_to_map_at(list, last);
                        assert(listed(rest@) =~= list.remove(last));
                    }
                    self.insert(entry.0, entry.1);
                    assert(self@.union_prefer_right(model::to_map(listed(rest@)))
                        =~= before.union_prefer_right(model::to_map(list)));
                },
                None => {},
            }
        }
        assert(self@ =~= goal) by {
            assert(model::to_map(listed(rest@)) =~= Map::empty());
        }
    }

    /// Copies the entries of `other`, whose values win.
    pub fn extend_from(&mut self, other: &ParameterMap)
        ensures
            final(self)@ == old(self)@.union_prefer_right(other@),
    {
        self.extend(other.clone());
    }
}

impl Clone for ParameterMap {
    fn clone(&self) -> (res: Self)
        ensures
            res@ == self@,
    {
        proof {
            use_type_invariant(self);
        }
        let mut entries: Vec<(String, ParameterValue)> = Vec::new();
        let mut i: usize = 0;
        while i < self.entries.len()
            invariant
                i <= self.entries.len(),
                listed(entries@) == listed(self.entries@).take(i as int),
            decreases self.entries.len() - i,
        {
            let ghost before = entries@;
            let name = self.entries[i].0.clone();
            let value = self.entries[i].1.clone();
            entries.push((name, value));
            assert(listed(entries@) =~= listed(before).push(listed(self.entries@)[i as int]));
            assert(listed(entries@) =~= listed(self.entries@).take(i + 1));
            i += 1;
        }
        assert(listed(entries@) =~= listed(self.entries@));
        ParameterMap { entries }
    }
}

impl PartialEq for ParameterMap {
    fn eq(&self, other: &Self) -> (res: bool) {
        proof {
            use_type_invariant(self);
            use_type_invariant(other);
            model::lemma_in_order(listed(self.entries@));
            model::lemma_in_order(listed(other.entries@));
        }
        let ghost mine = listed(self.entries@);
        let ghost theirs = listed(other.entries@);
        if self.entries.len() != other.entries.len() {
            assert(mine.len() != theirs.len());
            return false;
        }
        let mut i: usize = 0;
        while i < self.entries.len()
            invariant
                i <= self.entries.len(),
                self.entries.len() == other.entries.len(),
                mine == listed(self.entries@),
                theirs == listed(other.entries@),
                model::in_order(self@) == mine,
                model::in_order(other@) == theirs,
                forall|j: int| 0 <= j < i ==> mine[j] == theirs[j],
            decreases self.entries.len() - i,
        {
            if self.entries[i].0 != other.entries[i].0 || self.entries[i].1 != other.entries[i].1 {
                assert(mine[i as int] != theirs[i as int]);
                return false;
            }
            i += 1;
        }
        assert(mine =~= theirs);
        true
    }
}

impl vstd::std_specs::cmp::PartialEqSpecImpl for ParameterMap {
    open spec fn obeys_eq_spec() -> bool {
        true
    }

    open spec fn eq_spec(&self, other: &Self) -> bool {
        self@ == other@
    }
}

/// A name that would be inserted between two entries has no value.
proof fn lemma_absent(list: Seq<(Seq<char>, ValueView)>, p: int, name: Seq<char>)
    requires
        model::increasing(list),
        0 <= p <= list.len(),
        forall|i: int| 0 <= i < p ==> order::before((#[trigger] list[i]).0, name),
        forall|i: int| p <= i < list.len() ==> order::before(name, (#[trigger] list[i]).0),
    ensures
        !model::to_map(list).contains_key(name),
{
    if model::has_name(list, name) {
        let i = model::position_of(list, name);
        order::lemma_before_irreflexive(name);
        assert(list[i].0 == name);
    }
}

} // verus!
