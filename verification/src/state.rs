//! The state of a session's parameters, and what each operation makes of it.
use vstd::prelude::*;

use crate::fingerprint;
use crate::model;
use crate::query;
use crate::query::Change;
use crate::text;
use crate::tracking;
use crate::value::ValueView;

verus! {

/// What a session knows of its parameters.
#[verifier::ext_equal]
pub struct State {
    /// Set at startup, or by `SET` outside a transaction.
    pub params: Map<Seq<char>, ValueView>,
    /// Set by `SET` inside the transaction.
    pub transaction: Map<Seq<char>, ValueView>,
    /// Set by `SET LOCAL` inside the transaction.
    pub local: Map<Seq<char>, ValueView>,
    /// Taken out of `params` by `RESET`, and put back by `ROLLBACK`.
    pub reset: Map<Seq<char>, ValueView>,
    /// The fingerprint that was last taken of `params`.
    pub hash: u64,
}

impl State {
    /// Nothing is set.
    pub open spec fn empty() -> State {
        State {
            params: Map::empty(),
            transaction: Map::empty(),
            local: Map::empty(),
            reset: Map::empty(),
            hash: 0,
        }
    }

    /// The fingerprint is the one of the parameters.
    pub open spec fn in_step(self) -> bool {
        self.hash == fingerprint::fingerprint(self.params)
    }

    /// Only finitely many parameters are set.
    pub open spec fn finite(self) -> bool {
        &&& self.params.dom().finite()
        &&& self.transaction.dom().finite()
        &&& self.local.dom().finite()
        &&& self.reset.dom().finite()
    }

    /// No transaction has left a mark.
    pub open spec fn settled(self) -> bool {
        &&& self.transaction == Map::<Seq<char>, ValueView>::empty()
        &&& self.local == Map::<Seq<char>, ValueView>::empty()
        &&& self.reset == Map::<Seq<char>, ValueView>::empty()
    }

    /// The value of a parameter as the session sees it: a local value comes
    /// before one of the transaction, and that before one of the session.
    pub open spec fn visible(self, name: Seq<char>) -> Option<ValueView> {
        if self.local.contains_key(name) {
            Some(self.local[name])
        } else if self.transaction.contains_key(name) {
            Some(self.transaction[name])
        } else {
            model::lookup(self.params, name)
        }
    }

    /// The text of a parameter as the session sees it.
    pub open spec fn visible_text(self, name: Seq<char>) -> Option<Seq<char>> {
        match self.visible(name) {
            Some(v) => v.as_text(),
            None => None,
        }
    }

    /// Other parameters, with their fingerprint.
    pub open spec fn with_params(self, params: Map<Seq<char>, ValueView>) -> State {
        State { params, hash: fingerprint::fingerprint(params), ..self }
    }

    /// A parameter is set for the session.
    pub open spec fn put(self, name: Seq<char>, value: ValueView) -> State {
        self.with_params(self.params.insert(name, value))
    }

    /// The parameters of the session are forgotten.
    pub open spec fn cleared(self) -> State {
        self.with_params(Map::empty())
    }

    /// A parameter is set for the transaction.
    pub open spec fn put_transaction(
        self,
        name: Seq<char>,
        value: ValueView,
        local: bool,
    ) -> State {
        if local {
            State { local: self.local.insert(name, value), ..self }
        } else {
            State { transaction: self.transaction.insert(name, value), ..self }
        }
    }

    /// Every parameter in `names` is reset: what the session has of it is set
    /// aside, what the transaction has of it is forgotten.
    pub open spec fn reset_names(self, names: Set<Seq<char>>) -> State {
        let params = self.params.remove_keys(names);
        State {
            params,
            transaction: self.transaction.remove_keys(names),
            local: self.local.remove_keys(names),
            reset: self.reset.union_prefer_right(self.params.restrict(names)),
            hash: if self.params.dom().disjoint(names) {
                self.hash
            } else {
                fingerprint::fingerprint(params)
            },
        }
    }

    /// A parameter is reset.
    pub open spec fn reset_name(self, name: Seq<char>) -> State {
        self.reset_names(set![name])
    }

    /// A parameter has a value of any kind.
    pub open spec fn has(self, name: Seq<char>) -> bool {
        ||| self.params.contains_key(name)
        ||| self.transaction.contains_key(name)
        ||| self.local.contains_key(name)
    }

    /// What a reset of everything resets: every tracked parameter that has a
    /// value.
    pub open spec fn resettable(self) -> Set<Seq<char>> {
        Set::new(|n: Seq<char>| self.has(n) && !tracking::untracked(n))
    }

    /// Every tracked parameter is reset.
    pub open spec fn reset_everything(self) -> State {
        self.reset_names(self.resettable())
    }

    /// A commit would change the parameters of the session.
    pub open spec fn pending(self) -> bool {
        self.transaction != Map::<Seq<char>, ValueView>::empty() || self.reset != Map::<
            Seq<char>,
            ValueView,
        >::empty()
    }

    /// The transaction is committed.
    pub open spec fn committed(self) -> State {
        let params = self.params.union_prefer_right(self.transaction);
        State {
            params,
            transaction: Map::empty(),
            local: Map::empty(),
            reset: Map::empty(),
            hash: if self.pending() {
                fingerprint::fingerprint(params)
            } else {
                self.hash
            },
        }
    }

    /// The transaction is rolled back.
    pub open spec fn rolled_back(self) -> State {
        let params = self.params.union_prefer_right(self.reset);
        State {
            params,
            transaction: Map::empty(),
            local: Map::empty(),
            reset: Map::empty(),
            hash: if self.reset == Map::<Seq<char>, ValueView>::empty() {
                self.hash
            } else {
                fingerprint::fingerprint(params)
            },
        }
    }

    /// The tracked parameters of the session, and nothing else.
    pub open spec fn tracked_only(self) -> State {
        State::empty().with_params(tracking::tracked_part(self.params))
    }

    /// What `other` has set comes on top, and the fingerprint is taken anew.
    /// What was set aside stays as it was.
    pub open spec fn merged(self, other: State) -> State {
        State {
            params: self.params.union_prefer_right(other.params),
            transaction: self.transaction.union_prefer_right(other.transaction),
            local: self.local.union_prefer_right(other.local),
            hash: fingerprint::fingerprint(self.params.union_prefer_right(other.params)),
            ..self
        }
    }

    /// What `other` has set in its transaction comes on top.
    pub open spec fn with_transaction_of(self, other: State) -> State {
        State {
            transaction: self.transaction.union_prefer_right(other.transaction),
            local: self.local.union_prefer_right(other.local),
            ..self
        }
    }

    /// The changes that bring a server up to this state.
    pub open spec fn set_changes(self, transaction_only: bool) -> Seq<Change> {
        if transaction_only {
            query::set_all(model::in_order(self.transaction)) + query::set_all_local(
                model::in_order(self.local),
            )
        } else {
            query::set_all(model::in_order(self.params))
        }
    }

    /// The parameters of the session as text.
    pub open spec fn shown(self) -> Seq<char> {
        text::joined(
            model::in_order(self.params).map_values(
                |e: (Seq<char>, ValueView)| e.0 + "="@ + e.1.rendered(),
            ),
            ", "@,
        )
    }
}

/// The parameters that a list sets, one after another: the last value of a
/// name is the one that counts.
pub open spec fn collected(list: Seq<(Seq<char>, ValueView)>) -> Map<Seq<char>, ValueView>
    decreases list.len(),
{
    if list.len() == 0 {
        Map::empty()
    } else {
        collected(list.drop_last()).insert(list.last().0, list.last().1)
    }
}

/// Resetting one name more.
pub proof fn lemma_reset_one_more(s: State, names: Set<Seq<char>>, name: Seq<char>)
    ensures
        s.reset_names(names).reset_name(name) == s.reset_names(names.insert(name)),
{
    let t = s.reset_names(names);
    let more = names.insert(name);
    let u = t.reset_name(name);
    let v = s.reset_names(more);
    assert(u.params =~= v.params);
    assert(u.transaction =~= v.transaction);
    assert(u.local =~= v.local);
    assert(u.reset =~= v.reset);
    if s.params.contains_key(name) {
        assert(more.contains(name));
        assert(!s.params.dom().disjoint(more));
        if !names.contains(name) {
            assert(t.params.contains_key(name));
            assert(set![name].contains(name));
            assert(!t.params.dom().disjoint(set![name]));
        } else {
            assert(t.params.dom().disjoint(set![name]));
            assert(!s.params.dom().disjoint(names));
            assert(t.params =~= v.params);
        }
    } else {
        assert(t.params.dom().disjoint(set![name]));
        assert(t.params =~= v.params);
        if s.params.dom().disjoint(names) {
            assert(s.params.dom().disjoint(more));
        } else {
            let n = choose|n: Seq<char>| s.params.dom().contains(n) && names.contains(n);
            assert(more.contains(n));
            assert(!s.params.dom().disjoint(more));
        }
    }
    assert(u =~= v);
}

/// Resetting no name changes nothing.
pub proof fn lemma_reset_none(s: State)
    ensures
        s.reset_names(Set::empty()) == s,
{
    assert(s.reset_names(Set::empty()) =~= s);
}

/// The fingerprint of no parameters is zero.
pub proof fn lemma_fingerprint_empty()
    ensures
        fingerprint::fingerprint(Map::empty()) == 0,
{
    let none = Seq::<(Seq<char>, ValueView)>::empty();
    assert(model::to_map(none) =~= Map::empty());
    model::lemma_in_order(none);
    assert(tracking::tracked_part(Map::<Seq<char>, ValueView>::empty()) =~= Map::empty());
}

} // verus!
