//! The parameters of a session.
use std::collections::hash_map::DefaultHasher;
use std::hash::Hasher;
use vstd::prelude::*;

use crate::error::Error;
use crate::fingerprint;
use crate::model;
use crate::ordered;
use crate::ordered::ParameterMap;
use crate::query;
use crate::query::Query;
use crate::state;
use crate::state::State;
use crate::text;
use crate::tracking;
use crate::value;
use crate::value::{Parameter, ParameterValue, ValueView};

verus! {

/// `From<T> for T`, which returns its argument: a `ParameterValue` goes in as
/// it is where anything that converts into one is taken.
pub assume_specification<Any>[ <Any as std::convert::From<Any>>::from ](t: Any) -> (res: Any)
    ensures
        res == t,
;

/// The parameters of a session.
#[derive(Debug)]
pub struct Parameters {
    /// Set at connection startup, or with `SET` outside a transaction.
    params: ParameterMap,
    /// Set with `SET` inside a transaction. They are kept or thrown away as the
    /// transaction ends.
    transaction_params: ParameterMap,
    /// Set with `SET LOCAL`. They are thrown away however the transaction ends.
    transaction_local_params: ParameterMap,
    /// Taken out of `params` by a reset, to be put back on `ROLLBACK`.
    reset_params: ParameterMap,
    /// The fingerprint last taken of `params`, to tell whether a client and a
    /// server agree.
    hash: u64,
}

impl View for Parameters {
    type V = State;

    closed spec fn view(&self) -> State {
        State {
            params: self.params@,
            transaction: self.transaction_params@,
            local: self.transaction_local_params@,
            reset: self.reset_params@,
            hash: self.hash,
        }
    }
}

impl Parameters {
    /// A session has finitely many parameters, and a machine can hold their
    /// values.
    pub proof fn lemma_finite(&self)
        ensures
            self@.finite(),
            forall|k: Seq<char>| #[trigger]
                self@.params.contains_key(k) ==> self@.params[k].holdable(),
    {
        self.params.lemma_finite();
        self.transaction_params.lemma_finite();
        self.transaction_local_params.lemma_finite();
        self.reset_params.lemma_finite();
    }
}

impl Default for Parameters {
    fn default() -> (res: Self)
        ensures
            res@ == State::empty(),
    {
        Parameters {
            params: ParameterMap::new(),
            transaction_params: ParameterMap::new(),
            transaction_local_params: ParameterMap::new(),
            reset_params: ParameterMap::new(),
            hash: 0,
        }
    }
}

impl Clone for Parameters {
    fn clone(&self) -> (res: Self)
        ensures
            res@ == self@,
    {
        Parameters {
            params: self.params.clone(),
            transaction_params: self.transaction_params.clone(),
            transaction_local_params: self.transaction_local_params.clone(),
            reset_params: self.reset_params.clone(),
            hash: self.hash,
        }
    }
}

impl PartialEq for Parameters {
    fn eq(&self, other: &Self) -> (res: bool) {
        self.params == other.params && self.transaction_params == other.transaction_params
            && self.transaction_local_params == other.transaction_local_params
            && self.reset_params == other.reset_params && self.hash == other.hash
    }
}

impl vstd::std_specs::cmp::PartialEqSpecImpl for Parameters {
    open spec fn obeys_eq_spec() -> bool {
        true
    }

    open spec fn eq_spec(&self, other: &Self) -> bool {
        self@ == other@
    }
}

impl core::ops::Deref for Parameters {
    type Target = ParameterMap;

    fn deref(&self) -> (res: &ParameterMap)
        ensures
            res@ == self@.params,
    {
        &self.params
    }
}

impl core::ops::DerefMut for Parameters {
    fn deref_mut(&mut self) -> (res: &mut ParameterMap)
        ensures
            res@ == old(self)@.params,
            final(self)@ == (State { params: final(res)@, ..old(self)@ }),
    {
        &mut self.params
    }
}

impl From<Vec<Parameter>> for Parameters {
    fn from(list: Vec<Parameter>) -> (res: Self)
        ensures
            res@ == State::empty().with_params(
                state::collected(list@.map_values(|p: Parameter| p@)),
            ),
    {
        let ghost all = list@.map_values(|p: Parameter| p@);
        let mut params = ParameterMap::new();
        for p in it: list
            invariant
                all == it.seq().map_values(|p: Parameter| p@),
                params@ == state::collected(all.take(it.index() as int)),
        {
            proof {
                let i = it.index() as int;
                assert(all[i] == p@);
                assert(all.take(i + 1).drop_last() =~= all.take(i));
            }
            params.insert(p.name, p.value);
        }
        assert(all.take(all.len() as int) =~= all);
        let hash = Parameters::compute_hash(&params);
        Parameters {
            params,
            transaction_params: ParameterMap::new(),
            transaction_local_params: ParameterMap::new(),
            reset_params: ParameterMap::new(),
            hash,
        }
    }
}

impl vstd::std_specs::convert::FromSpecImpl<Vec<Parameter>> for Parameters {
    open spec fn obeys_from_spec() -> bool {
        false
    }

    open spec fn from_spec(list: Vec<Parameter>) -> Self {
        arbitrary()
    }
}

impl<'a> From<&'a Parameters> for Vec<Parameter> {
    fn from(params: &'a Parameters) -> (res: Self)
        ensures
            res@.map_values(|p: Parameter| p@) == model::in_order(params@.params),
    {
        let list = params.params.entries();
        let ghost all = ordered::listed(list@);
        let mut res: Vec<Parameter> = Vec::new();
        let mut i: usize = 0;
        while i < list.len()
            invariant
                i <= list.len(),
                all == ordered::listed(list@),
                res@.map_values(|p: Parameter| p@) == all.take(i as int),
            decreases list.len() - i,
        {
            let ghost before = res@;
            res.push(Parameter { name: list[i].0.clone(), value: list[i].1.clone() });
            assert(res@.map_values(|p: Parameter| p@) =~= before.map_values(
                |p: Parameter| p@,
            ).push(all[i as int]));
            assert(res@.map_values(|p: Parameter| p@) =~= all.take(i + 1));
            i += 1;
        }
        assert(all.take(i as int) =~= all);
        res
    }
}

impl<'a> vstd::std_specs::convert::FromSpecImpl<&'a Parameters> for Vec<Parameter> {
    open spec fn obeys_from_spec() -> bool {
        false
    }

    open spec fn from_spec(params: &'a Parameters) -> Self {
        arbitrary()
    }
}

impl Parameters {
    /// Sets a parameter for the session, under its lowercase name, and returns
    /// the value that it had.
    pub fn insert<V: Into<ParameterValue>>(&mut self, name: &str, value: V) -> (res: Option<
        ParameterValue,
    >)
        ensures
            exists|v: ParameterValue| #[trigger]
                call_ensures(V::into, (value,), v) && final(self)@ == old(self)@.put(
                    text::lowercase(name@),
                    v@,
                ),
            ordered::taken(res) == model::lookup(old(self)@.params, text::lowercase(name@)),
            text::lowercase_ascii(name@),
    {
        let name = text::to_lowercase(name);
        self.put(name, value.into())
    }

    /// Sets a parameter for the session under the name given, and returns the
    /// value that it had.
    pub fn put(&mut self, name: String, value: ParameterValue) -> (res: Option<ParameterValue>)
        ensures
            final(self)@ == old(self)@.put(name@, value@),
            ordered::taken(res) == model::lookup(old(self)@.params, name@),
    {
        let result = self.params.insert(name, value);
        self.hash = Self::compute_hash(&self.params);
        result
    }

    /// Forgets the parameters of the session.
    pub fn clear(&mut self)
        ensures
            final(self)@ == old(self)@.cleared(),
    {
        self.params.clear();
        self.hash = Self::compute_hash(&self.params);
    }

    /// The value of a parameter: one set with `SET LOCAL` comes before one of
    /// the transaction, and that before one of the session.
    pub fn get(&self, name: &str) -> (res: Option<&ParameterValue>)
        ensures
            ordered::found(res) == self@.visible(name@),
    {
        if let Some(param) = self.transaction_local_params.get(name) {
            Some(param)
        } else if let Some(param) = self.transaction_params.get(name) {
            Some(param)
        } else {
            self.params.get(name)
        }
    }

    /// Goes through the parameters of the transaction by name.
    pub fn in_transaction_iter(&self) -> (res: std::slice::Iter<'_, (String, ParameterValue)>)
        ensures
            ordered::listed(vstd::std_specs::iter::IteratorSpec::remaining(&res).unref())
                == model::in_order(self@.transaction),
    {
        self.transaction_params.iter()
    }

    /// Sets a parameter for the duration of the transaction, under its
    /// lowercase name, and returns the value of the same kind that it had.
    pub fn insert_transaction<V: Into<ParameterValue>>(
        &mut self,
        name: &str,
        value: V,
        local: bool,
    ) -> (res: Option<ParameterValue>)
        ensures
            exists|v: ParameterValue| #[trigger]
                call_ensures(V::into, (value,), v) && final(self)@ == old(self)@.put_transaction(
                    text::lowercase(name@),
                    v@,
                    local,
                ),
            ordered::taken(res) == model::lookup(
                if local {
                    old(self)@.local
                } else {
                    old(self)@.transaction
                },
                text::lowercase(name@),
            ),
            text::lowercase_ascii(name@),
    {
        let name = text::to_lowercase(name);
        self.put_transaction(name, value.into(), local)
    }

    /// Sets a parameter for the duration of the transaction under the name
    /// given, and returns the value of the same kind that it had.
    pub fn put_transaction(&mut self, name: String, value: ParameterValue, local: bool) -> (res:
        Option<ParameterValue>)
        ensures
            final(self)@ == old(self)@.put_transaction(name@, value@, local),
            ordered::taken(res) == model::lookup(
                if local {
                    old(self)@.local
                } else {
                    old(self)@.transaction
                },
                name@,
            ),
    {
        if local {
            self.transaction_local_params.insert(name, value)
        } else {
            self.transaction_params.insert(name, value)
        }
    }

    /// Removes a parameter for now, by its lowercase name. With a commit it is
    /// removed for good.
    pub fn reset(&mut self, name: &str)
        ensures
            final(self)@ == old(self)@.reset_name(text::lowercase(name@)),
            text::lowercase_ascii(name@),
    {
        let name = text::to_lowercase(name);
        self.reset_name(name);
    }

    /// Removes a parameter for now, by the name given.
    pub fn reset_name(&mut self, name: String)
        ensures
            final(self)@ == old(self)@.reset_name(name@),
    {
        let ghost key = name@;
        let ghost only = set![name@];
        self.transaction_params.remove(name.as_str());
        self.transaction_local_params.remove(name.as_str());
        proof {
            assert(only.contains(key));
            assert(old(self)@.params.remove_keys(only) =~= old(self)@.params.remove(key));
            assert(old(self)@.transaction.remove_keys(only) =~= old(self)@.transaction.remove(key));
            assert(old(self)@.local.remove_keys(only) =~= old(self)@.local.remove(key));
        }
        if let Some(value) = self.params.remove(name.as_str()) {
            proof {
                assert(!old(self)@.params.dom().disjoint(only));
                assert(old(self)@.reset.union_prefer_right(old(self)@.params.restrict(only))
                    =~= old(self)@.reset.insert(key, value@));
            }
            self.reset_params.insert(name, value);
            self.hash = Self::compute_hash(&self.params);
        } else {
            proof {
                assert(old(self)@.params.dom().disjoint(only));
                assert(old(self)@.reset.union_prefer_right(old(self)@.params.restrict(only))
                    =~= old(self)@.reset);
                assert(old(self)@.params.remove(key) =~= old(self)@.params);
            }
        }
        assert(self@ =~= old(self)@.reset_name(key));
    }

    /// Removes parameters for now, by the names given.
    pub fn reset_names(&mut self, names: Vec<String>)
        ensures
            final(self)@ == old(self)@.reset_names(value::texts(names@).to_set()),
    {
        let ghost all = value::texts(names@);
        let ghost start = self@;
        proof {
            state::lemma_reset_none(start);
            assert(all.take(0).to_set() =~= Set::empty());
        }
        for name in it: names
            invariant
                all == value::texts(it.seq()),
                self@ == start.reset_names(all.take(it.index() as int).to_set()),
        {
            proof {
                let i = it.index() as int;
                assert(all[i] == name@);
                assert(all.take(i + 1) =~= all.take(i).push(name@));
                lemma_to_set_push(all.take(i), name@);
                state::lemma_reset_one_more(start, all.take(i).to_set(), name@);
            }
            self.reset_name(name);
        }
        assert(all.take(all.len() as int) =~= all);
    }

    /// Removes every tracked parameter for now.
    pub fn reset_all(&mut self)
        ensures
            final(self)@ == old(self)@.reset_everything(),
    {
        let mut names: Vec<String> = Vec::new();
        let params = self.params.entries();
        let transaction = self.transaction_params.entries();
        let local = self.transaction_local_params.entries();
        push_tracked(&mut names, params);
        push_tracked(&mut names, transaction);
        push_tracked(&mut names, local);
        assert(value::texts(names@).to_set() =~= self@.resettable());
        self.reset_names(names);
    }

    /// Keeps what the transaction has set. Returns whether there was anything
    /// to keep.
    pub fn commit(&mut self) -> (res: bool)
        ensures
            final(self)@ == old(self)@.committed(),
            res == old(self)@.pending(),
    {
        let changed = !self.transaction_params.is_empty() || !self.reset_params.is_empty();
        let mut kept = ParameterMap::new();
        std::mem::swap(&mut kept, &mut self.transaction_params);
        self.params.extend(kept);
        self.transaction_local_params.clear();
        self.reset_params.clear();
        if changed {
            self.hash = Self::compute_hash(&self.params);
        }
        assert(self@ =~= old(self)@.committed());
        changed
    }

    /// Forgets what the transaction has set, and puts back what it has reset.
    pub fn rollback(&mut self)
        ensures
            final(self)@ == old(self)@.rolled_back(),
    {
        self.transaction_params.clear();
        self.transaction_local_params.clear();
        let mut back = ParameterMap::new();
        std::mem::swap(&mut back, &mut self.reset_params);
        let reset = !back.is_empty();
        self.params.extend(back);
        if reset {
            self.hash = Self::compute_hash(&self.params);
        }
        assert(self@ =~= old(self)@.rolled_back());
    }

    /// Computes the fingerprint of a set of parameters.
    pub fn compute_hash(params: &ParameterMap) -> (res: u64)
        ensures
            res == fingerprint::fingerprint(params@),
    {
        let list = params.entries();
        let ghost all = ordered::listed(list@);
        let mut hasher = DefaultHasher::new();
        let mut any: bool = false;
        let mut i: usize = 0;
        assert(all.skip(0) =~= all);
        while i < list.len()
            invariant
                i <= list.len(),
                all == ordered::listed(list@),
                fingerprint::entries_fed(tracking::tracked_entries(all)) == hasher@
                    + fingerprint::entries_fed(tracking::tracked_entries(all.skip(i as int))),
                any == (tracking::tracked_entries(all).len() > tracking::tracked_entries(
                    all.skip(i as int),
                ).len()),
                tracking::tracked_entries(all).len() >= tracking::tracked_entries(
                    all.skip(i as int),
                ).len(),
            decreases list.len() - i,
        {
            let ghost before = hasher@;
            let ghost rest = all.skip(i as int);
            assert(rest.drop_first() =~= all.skip(i + 1));
            if !tracking::is_untracked(list[i].0.as_str()) {
                any = true;
                fingerprint::feed_text(&mut hasher, list[i].0.as_str());
                fingerprint::feed_value(&mut hasher, &list[i].1);
                proof {
                    let kept = tracking::tracked_entries(rest);
                    assert(kept.drop_first() =~= tracking::tracked_entries(all.skip(i + 1)));
                    assert(hasher@ + fingerprint::entries_fed(
                        tracking::tracked_entries(all.skip(i + 1)),
                    ) =~= before + fingerprint::entries_fed(kept));
                }
            }
            i += 1;
        }
        proof {
            tracking::lemma_tracked_entries(all);
            assert(hasher@ + fingerprint::entries_fed(
                tracking::tracked_entries(all.skip(i as int)),
            ) =~= hasher@);
        }
        if any {
            hasher.finish()
        } else {
            0
        }
    }

    /// The tracked parameters of the session.
    pub fn tracked_params(&self) -> (res: Parameters)
        ensures
            res@ == self@.tracked_only(),
    {
        let list = self.params.entries();
        let ghost all = ordered::listed(list@);
        let mut params = ParameterMap::new();
        let mut i: usize = 0;
        while i < list.len()
            invariant
                i <= list.len(),
                all == ordered::listed(list@),
                model::increasing(all),
                forall|k: Seq<char>| #[trigger]
                    params@.contains_key(k) <==> !tracking::untracked(k) && model::has_name(
                        all.take(i as int),
                        k,
                    ),
                forall|k: Seq<char>| #[trigger]
                    params@.contains_key(k) ==> params@[k] == model::to_map(all)[k],
            decreases list.len() - i,
        {
            let ghost before = params@;
            proof {
                model::lemma_to_map_at(all, i as int);
                assert forall|k: Seq<char>| model::has_name(all.take(i + 1), k)
                    <==> model::has_name(all.take(i as int), k) || k == all[i as int].0 by {
                    if model::has_name(all.take(i as int), k) {
                        let j = model::position_of(all.take(i as int), k);
                        assert(all.take(i + 1)[j] == all.take(i as int)[j]);
                    }
                    if model::has_name(all.take(i + 1), k) {
                        let j = model::position_of(all.take(i + 1), k);
                        if j < i {
                            assert(all.take(i as int)[j] == all.take(i + 1)[j]);
                        }
                    }
                    assert(all.take(i + 1)[i as int] == all[i as int]);
                }
            }
            if !tracking::is_untracked(list[i].0.as_str()) {
                params.insert(list[i].0.clone(), list[i].1.clone());
            }
            i += 1;
        }
        assert(all.take(i as int) =~= all);
        assert(params@ =~= tracking::tracked_part(self@.params));
        let hash = Self::compute_hash(&params);
        Parameters { params, hash, ..Default::default() }
    }

    /// Whether two sets of parameters have the same fingerprint.
    pub fn identical(&self, other: &Self) -> (res: bool)
        ensures
            res == (self@.hash == other@.hash),
    {
        self.hash == other.hash
    }

    /// The `SET` statements that bring a server up to these parameters, or,
    /// with `transaction_only`, up to those of the transaction.
    pub fn set_queries(&self, transaction_only: bool) -> (res: Vec<Query>)
        ensures
            query::statements(res@) == query::statements_of(self@.set_changes(transaction_only)),
    {
        let mut queries: Vec<Query> = Vec::new();
        if transaction_only {
            query::push_sets(&mut queries, self.transaction_params.entries(), false);
            query::push_sets(&mut queries, self.transaction_local_params.entries(), true);
        } else {
            query::push_sets(&mut queries, self.params.entries(), false);
        }
        assert(query::statements(queries@) =~= query::statements_of(
            self@.set_changes(transaction_only),
        ));
        queries
    }

    /// The `RESET` statements for the parameters of the session.
    pub fn reset_queries(&self) -> (res: Vec<Query>)
        ensures
            query::statements(res@) == query::statements_of(
                query::reset_all(model::in_order(self@.params)),
            ),
    {
        let list = self.params.entries();
        let ghost all = query::reset_all(ordered::listed(list@));
        let mut queries: Vec<Query> = Vec::new();
        let mut i: usize = 0;
        while i < list.len()
            invariant
                i <= list.len(),
                all == query::reset_all(ordered::listed(list@)),
                query::statements(queries@) == query::statements_of(all.take(i as int)),
            decreases list.len() - i,
        {
            let ghost before = queries@;
            queries.push(query::reset_query(list[i].0.as_str()));
            assert(query::statements(queries@) =~= query::statements(before).push(
                all[i as int].statement(),
            ));
            assert(query::statements(queries@) =~= query::statements_of(all.take(i + 1)));
            i += 1;
        }
        assert(all.take(i as int) =~= all);
        queries
    }

    /// The fewest statements that turn the `current` state of a server into
    /// this one. A parameter that the server has and that is not wanted is
    /// reset, one that it lacks or has with another value is set.
    pub fn diff_queries(&self, current: &Self) -> (res: Vec<Query>)
        ensures
            query::statements(res@) == query::statements_of(
                query::difference(self@.params, current@.params),
            ),
    {
        let mut queries: Vec<Query> = Vec::new();
        query::push_resets(&mut queries, current.params.entries(), &self.params);
        query::push_differing(&mut queries, self.params.entries(), &current.params);
        assert(query::statements(queries@) =~= query::statements_of(
            query::difference(self@.params, current@.params),
        ));
        queries
    }

    /// The text of a parameter, or an error where it has none.
    pub fn get_required(&self, name: &str) -> (res: Result<&str, Error>)
        ensures
            match res {
                Ok(s) => self@.visible_text(name@) == Some(s@),
                Err(Error::MissingParameter(n)) => self@.visible_text(name@) is None && n@ == name@,
            },
    {
        match self.get(name) {
            Some(value) => match value.as_str() {
                Some(s) => Ok(s),
                None => Err(Error::MissingParameter(name.to_string())),
            },
            None => Err(Error::MissingParameter(name.to_string())),
        }
    }

    /// The text of a parameter, or `default_value` where it has none.
    pub fn get_default<'a>(&'a self, name: &str, default_value: &'a str) -> (res: &'a str)
        ensures
            res@ == match self@.visible_text(name@) {
                Some(s) => s,
                None => default_value@,
            },
    {
        match self.get(name) {
            Some(value) => match value.as_str() {
                Some(s) => s,
                None => default_value,
            },
            None => default_value,
        }
    }

    /// Merges `other` into these parameters.
    pub fn merge(&mut self, other: Self)
        ensures
            final(self)@ == old(self)@.merged(other@),
    {
        self.params.extend(other.params);
        self.transaction_params.extend(other.transaction_params);
        self.transaction_local_params.extend(other.transaction_local_params);
        self.hash = Self::compute_hash(&self.params);
    }

    /// Copies what `other` has set inside its transaction.
    pub fn copy_in_transaction(&mut self, other: &Self)
        ensures
            final(self)@ == old(self)@.with_transaction_of(other@),
    {
        self.transaction_params.extend_from(&other.transaction_params);
        self.transaction_local_params.extend_from(&other.transaction_local_params);
    }

    /// The value of `search_path`.
    pub fn search_path(&self) -> (res: Option<&ParameterValue>)
        ensures
            ordered::found(res) == self@.visible("search_path"@),
    {
        self.get("search_path")
    }

    /// The memory that the parameters of the session and their fingerprint
    /// take, by a measure for each.
    pub fn memory_usage<M, H>(&self, of_params: M, of_hash: H) -> (res: usize) where
        M: Fn(&ParameterMap) -> usize,
        H: Fn(&u64) -> usize,

        requires
            forall|m: &ParameterMap| m@ == self@.params ==> #[trigger] call_requires(
                of_params,
                (m,),
            ),
            call_requires(of_hash, (&self@.hash,)),
            forall|m: &ParameterMap, a: usize, b: usize|
                m@ == self@.params && #[trigger] call_ensures(of_params, (m,), a)
                    && #[trigger] call_ensures(of_hash, (&self@.hash,), b) ==> a + b <= usize::MAX,
        ensures
            exists|m: &ParameterMap, a: usize, b: usize|
                m@ == self@.params && #[trigger] call_ensures(of_params, (m,), a)
                    && #[trigger] call_ensures(of_hash, (&self@.hash,), b) && res == a + b,
    {
        let a = of_params(&self.params);
        let b = of_hash(&self.hash);
        a + b
    }

    /// The parameters of the session as text.
    pub fn to_string(&self) -> (res: String)
        ensures
            res@ == self@.shown(),
    {
        let list = self.params.entries();
        let ghost parts = ordered::listed(list@).map_values(
            |e: (Seq<char>, ValueView)| e.0 + "="@ + e.1.rendered(),
        );
        let mut res = String::new();
        let mut i: usize = 0;
        while i < list.len()
            invariant
                i <= list.len(),
                parts == ordered::listed(list@).map_values(
                    |e: (Seq<char>, ValueView)| e.0 + "="@ + e.1.rendered(),
                ),
                res@ == text::joined(parts.take(i as int), ", "@),
            decreases list.len() - i,
        {
            if i > 0 {
                res.append(", ");
            }
            res.append(list[i].0.as_str());
            res.append("=");
            res.append(list[i].1.to_string().as_str());
            proof {
                assert(parts.take(i + 1) =~= parts.take(i as int).push(parts[i as int]));
                text::lemma_joined_push(parts.take(i as int), parts[i as int], ", "@);
                assert(res@ =~= text::joined(parts.take(i + 1), ", "@));
            }
            i += 1;
        }
        assert(parts.take(i as int) =~= parts);
        res
    }
}

/// The tracked names of a list.
spec fn tracked_names(list: Seq<(Seq<char>, ValueView)>) -> Set<Seq<char>> {
    Set::new(|n: Seq<char>| model::has_name(list, n) && !tracking::untracked(n))
}

proof fn lemma_to_set_push(s: Seq<Seq<char>>, x: Seq<char>)
    ensures
        s.push(x).to_set() == s.to_set().insert(x),
{
    let t = s.push(x);
    assert forall|n: Seq<char>| #[trigger] t.to_set().contains(n) <==> s.to_set().insert(
        x,
    ).contains(n) by {
        if s.contains(n) {
            let i = choose|i: int| 0 <= i < s.len() && s[i] == n;
            assert(t[i] == n);
        }
        assert(t[s.len() as int] == x);
    }
    assert(t.to_set() =~= s.to_set().insert(x));
}

/// Adds the tracked names of a list.
fn push_tracked(names: &mut Vec<String>, entries: &Vec<(String, ParameterValue)>)
    ensures
        value::texts(final(names)@).to_set() == value::texts(old(names)@).to_set().union(
            tracked_names(ordered::listed(entries@)),
        ),
{
    let ghost list = ordered::listed(entries@);
    let ghost start = value::texts(names@).to_set();
    let mut i: usize = 0;
    assert(start.union(tracked_names(list.take(0))) =~= start);
    while i < entries.len()
        invariant
            i <= entries.len(),
            list == ordered::listed(entries@),
            value::texts(names@).to_set() == start.union(tracked_names(list.take(i as int))),
        decreases entries.len() - i,
    {
        let ghost before = names@;
        let ghost now = list.take(i as int);
        let ghost next = list.take(i + 1);
        let ghost key = list[i as int].0;
        proof {
            assert forall|n: Seq<char>| model::has_name(next, n) <==> model::has_name(now, n) || n
                == key by {
                if model::has_name(now, n) {
                    let j = model::position_of(now, n);
                    assert(next[j] == now[j]);
                }
                if model::has_name(next, n) {
                    let j = model::position_of(next, n);
                    if j < i {
                        assert(now[j] == next[j]);
                    }
                }
                assert(next[i as int].0 == key);
            }
        }
        if !tracking::is_untracked(entries[i].0.as_str()) {
            names.push(entries[i].0.clone());
            proof {
                assert(value::texts(names@) =~= value::texts(before).push(key));
                lemma_to_set_push(value::texts(before), key);
            }
        }
        assert(value::texts(names@).to_set() =~= start.union(tracked_names(next)));
        i += 1;
    }
    assert(list.take(i as int) =~= list);
}

} // verus!
