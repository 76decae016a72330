//! Laws of the session state: what is visible when, and how a transaction ends.
use vstd::prelude::*;

use crate::fingerprint;
use crate::laws::quoting;
use crate::model;
use crate::order;
use crate::state;
use crate::state::State;
use crate::tracking;
use crate::value::ValueView;

verus! {

/// What can happen inside a transaction.
pub enum Step {
    /// A parameter is set, for the transaction or locally.
    Put(Seq<char>, ValueView, bool),
    /// Parameters are reset.
    Reset(Set<Seq<char>>),
    /// What another session has set in its transaction is copied.
    Copy(State),
}

impl Step {
    /// What the step makes of a state.
    pub open spec fn taken(self, s: State) -> State {
        match self {
            Step::Put(name, value, local) => s.put_transaction(name, value, local),
            Step::Reset(names) => s.reset_names(names),
            Step::Copy(other) => s.with_transaction_of(other),
        }
    }
}

/// What a list of steps makes of a state.
pub open spec fn all_taken(steps: Seq<Step>, s: State) -> State
    decreases steps.len(),
{
    if steps.len() == 0 {
        s
    } else {
        steps.last().taken(all_taken(steps.drop_last(), s))
    }
}

/// Inside a transaction, what the session had is still there: set aside or in
/// its place.
proof fn lemma_nothing_lost(steps: Seq<Step>, s: State)
    requires
        s.params.dom().disjoint(s.reset.dom()),
    ensures
        ({
            let t = all_taken(steps, s);
            &&& t.params.union_prefer_right(t.reset) == s.params.union_prefer_right(s.reset)
            &&& t.params.dom().disjoint(t.reset.dom())
            &&& s.in_step() ==> t.in_step()
        }),
    decreases steps.len(),
{
    let t = all_taken(steps, s);
    if steps.len() > 0 {
        let u = all_taken(steps.drop_last(), s);
        lemma_nothing_lost(steps.drop_last(), s);
        if let Step::Reset(names) = steps.last() {
            assert(t.params.union_prefer_right(t.reset) =~= u.params.union_prefer_right(u.reset));
            if u.params.dom().disjoint(names) {
                assert(t.params =~= u.params);
            }
        }
    }
}

/// A rollback undoes a transaction: whatever was set, reset or copied in it,
/// the session is where a rollback before it would have left it; where nothing
/// was pending, that is where it was. No parameter may be set again for the
/// session while a reset of it is pending.
pub proof fn law_rollback_undoes(steps: Seq<Step>, s: State)
    requires
        s.params.dom().disjoint(s.reset.dom()),
    ensures
        all_taken(steps, s).rolled_back().params == s.rolled_back().params,
        all_taken(steps, s).rolled_back().settled(),
        s.in_step() ==> all_taken(steps, s).rolled_back() == s.rolled_back(),
        s.settled() ==> s.rolled_back() == s,
{
    lemma_nothing_lost(steps, s);
    let t = all_taken(steps, s);
    if t.reset == Map::<Seq<char>, ValueView>::empty() {
        assert(t.params.union_prefer_right(t.reset) =~= t.params);
    }
    if s.reset == Map::<Seq<char>, ValueView>::empty() {
        assert(s.params.union_prefer_right(s.reset) =~= s.params);
    }
    if s.in_step() {
        assert(t.rolled_back() =~= s.rolled_back());
    }
    if s.settled() {
        assert(s.rolled_back() =~= s);
    }
}

/// What a list of steps makes of the parameters of a session outside a
/// transaction, where a local value has no effect.
pub open spec fn all_kept(
    steps: Seq<Step>,
    params: Map<Seq<char>, ValueView>,
) -> Map<Seq<char>, ValueView>
    decreases steps.len(),
{
    if steps.len() == 0 {
        params
    } else {
        let before = all_kept(steps.drop_last(), params);
        match steps.last() {
            Step::Put(name, value, local) => if local {
                before
            } else {
                before.insert(name, value)
            },
            Step::Reset(names) => before.remove_keys(names),
            Step::Copy(other) => before.union_prefer_right(other.transaction),
        }
    }
}

/// A commit makes of the session what the steps of the transaction would have
/// made of it outside one.
pub proof fn law_commit_keeps_all(steps: Seq<Step>, s: State)
    ensures
        all_taken(steps, s).committed().params == all_kept(steps, s.committed().params),
    decreases steps.len(),
{
    if steps.len() > 0 {
        let t = all_taken(steps, s);
        law_commit_keeps_all(steps.drop_last(), s);
        assert(t.committed().params =~= all_kept(steps, s.committed().params));
    }
}

/// A commit is final: neither a rollback nor another commit after it changes
/// anything.
pub proof fn law_commit_is_final(s: State)
    ensures
        s.committed().settled(),
        s.committed().rolled_back() == s.committed(),
        s.committed().committed() == s.committed(),
        !s.committed().pending(),
{
    let c = s.committed();
    assert(c.rolled_back() =~= c);
    assert(c.committed() =~= c);
}

/// A rollback is final too.
pub proof fn law_rollback_is_final(s: State)
    ensures
        s.rolled_back().settled(),
        s.rolled_back().rolled_back() == s.rolled_back(),
        s.rolled_back().committed() == s.rolled_back(),
        !s.rolled_back().pending(),
{
    let r = s.rolled_back();
    assert(r.rolled_back() =~= r);
    assert(r.committed() =~= r);
}

/// A commit keeps what the transaction has set and throws away what is local:
/// what is not hidden by a local value looks the same after it.
pub proof fn law_commit_keeps(s: State, name: Seq<char>)
    ensures
        s.committed().visible(name) == (if s.transaction.contains_key(name) {
            Some(s.transaction[name])
        } else {
            model::lookup(s.params, name)
        }),
        !s.local.contains_key(name) ==> s.committed().visible(name) == s.visible(name),
{
}

/// A rollback throws away what the transaction has set, local or not: only
/// what the session had, in its place or set aside, is visible after it.
pub proof fn law_rollback_throws_away(s: State, name: Seq<char>)
    ensures
        s.rolled_back().visible(name) == (if s.reset.contains_key(name) {
            Some(s.reset[name])
        } else {
            model::lookup(s.params, name)
        }),
{
}

/// A commit that has nothing to keep leaves the parameters of the session and
/// their fingerprint as they are.
pub proof fn law_empty_commit(s: State)
    requires
        !s.pending(),
    ensures
        s.committed().params == s.params,
        s.committed().hash == s.hash,
{
    assert(s.committed().params =~= s.params);
}

/// What is reset has no value, and nothing else is touched.
pub proof fn law_reset_removes(s: State, names: Set<Seq<char>>, name: Seq<char>)
    ensures
        names.contains(name) ==> s.reset_names(names).visible(name) is None,
        !names.contains(name) ==> s.reset_names(names).visible(name) == s.visible(name),
{
}

/// Resetting a parameter that has no value changes nothing.
pub proof fn law_reset_of_nothing(s: State, name: Seq<char>)
    requires
        !s.has(name),
    ensures
        s.reset_name(name) == s,
{
    assert(s.reset_name(name) =~= s);
}

/// A rollback puts back the values of the session that were reset.
pub proof fn law_reset_then_rollback(s: State, names: Set<Seq<char>>, name: Seq<char>)
    ensures
        s.params.contains_key(name) && names.contains(name) ==> s.reset_names(
            names,
        ).rolled_back().visible(name) == Some(s.params[name]),
        s.reset == Map::<Seq<char>, ValueView>::empty() ==> s.reset_names(
            names,
        ).rolled_back().params == s.params,
{
    if s.reset == Map::<Seq<char>, ValueView>::empty() {
        assert(s.reset_names(names).rolled_back().params =~= s.params);
    }
}

/// A commit makes a reset permanent: no rollback brings the value back.
pub proof fn law_reset_then_commit(s: State, names: Set<Seq<char>>, name: Seq<char>)
    requires
        names.contains(name),
    ensures
        s.reset_names(names).committed().visible(name) is None,
        s.reset_names(names).committed().rolled_back().visible(name) is None,
{
}

/// Resetting everything removes every tracked parameter and leaves the
/// untracked ones.
pub proof fn law_reset_everything(s: State, name: Seq<char>)
    ensures
        tracking::untracked(name) ==> s.reset_everything().visible(name) == s.visible(name),
        !tracking::untracked(name) ==> s.reset_everything().visible(name) is None,
        s.reset_everything().params == Map::new(
            |k: Seq<char>| s.params.contains_key(k) && tracking::untracked(k),
            |k: Seq<char>| s.params[k],
        ),
{
    assert(s.reset_everything().params =~= Map::new(
        |k: Seq<char>| s.params.contains_key(k) && tracking::untracked(k),
        |k: Seq<char>| s.params[k],
    ));
}

/// With every parameter tracked, nothing is left to set after everything is
/// reset.
pub proof fn law_reset_everything_leaves_no_statement(s: State)
    requires
        forall|k: Seq<char>| #[trigger] s.has(k) ==> !tracking::untracked(k),
    ensures
        s.reset_everything().set_changes(false).len() == 0,
        s.reset_everything().set_changes(true).len() == 0,
{
    let t = s.reset_everything();
    let none = Map::<Seq<char>, ValueView>::empty();
    assert forall|k: Seq<char>| #[trigger] s.params.contains_key(k) implies s.has(k) by {}
    assert forall|k: Seq<char>| #[trigger] s.transaction.contains_key(k) implies s.has(k) by {}
    assert forall|k: Seq<char>| #[trigger] s.local.contains_key(k) implies s.has(k) by {}
    assert(t.params =~= none);
    assert(t.transaction =~= none);
    assert(t.local =~= none);
    let empty = Seq::<(Seq<char>, ValueView)>::empty();
    assert(model::to_map(empty) =~= none);
    model::lemma_in_order(empty);
}

/// What is set is what is read, unless a value of the transaction hides it;
/// the other parameters read as before.
pub proof fn law_set_then_get(s: State, name: Seq<char>, value: ValueView, other: Seq<char>)
    ensures
        !s.transaction.contains_key(name) && !s.local.contains_key(name) ==> s.put(
            name,
            value,
        ).visible(name) == Some(value),
        other != name ==> s.put(name, value).visible(other) == s.visible(other),
{
}

/// A local value is read before one of the transaction, and that before one of
/// the session; the other parameters read as before.
pub proof fn law_transaction_priority(
    s: State,
    name: Seq<char>,
    value: ValueView,
    other: Seq<char>,
)
    ensures
        s.put_transaction(name, value, true).visible(name) == Some(value),
        !s.local.contains_key(name) ==> s.put_transaction(name, value, false).visible(name)
            == Some(value),
        s.local.contains_key(name) ==> s.put_transaction(name, value, false).visible(name)
            == Some(s.local[name]),
        other != name ==> s.put_transaction(name, value, true).visible(other) == s.visible(other),
        other != name ==> s.put_transaction(name, value, false).visible(other) == s.visible(other),
{
}

/// The order in which two different parameters are set does not matter.
pub proof fn law_set_order(
    s: State,
    a: Seq<char>,
    x: ValueView,
    b: Seq<char>,
    y: ValueView,
)
    requires
        a != b,
    ensures
        s.put(a, x).put(b, y) == s.put(b, y).put(a, x),
{
    assert(s.params.insert(a, x).insert(b, y) =~= s.params.insert(b, y).insert(a, x));
}

/// After a merge, each kind of value is the other side's where it has one, and
/// what it was elsewhere. What was set aside stays, and the fingerprint is the
/// one of the merged parameters.
pub proof fn law_merge(s: State, other: State, name: Seq<char>)
    ensures
        s.merged(other).params.contains_key(name) <==> other.params.contains_key(name)
            || s.params.contains_key(name),
        other.params.contains_key(name) ==> s.merged(other).params[name] == other.params[name],
        !other.params.contains_key(name) && s.params.contains_key(name) ==> s.merged(
            other,
        ).params[name] == s.params[name],
        s.merged(other).transaction.contains_key(name) <==> other.transaction.contains_key(name)
            || s.transaction.contains_key(name),
        other.transaction.contains_key(name) ==> s.merged(other).transaction[name]
            == other.transaction[name],
        !other.transaction.contains_key(name) && s.transaction.contains_key(name) ==> s.merged(
            other,
        ).transaction[name] == s.transaction[name],
        s.merged(other).local.contains_key(name) <==> other.local.contains_key(name)
            || s.local.contains_key(name),
        other.local.contains_key(name) ==> s.merged(other).local[name] == other.local[name],
        !other.local.contains_key(name) && s.local.contains_key(name) ==> s.merged(
            other,
        ).local[name] == s.local[name],
        s.merged(other).reset == s.reset,
        s.merged(other).in_step(),
        s.merged(other).hash == fingerprint::fingerprint(s.merged(other).params),
{
}

/// After a merge, a local value is read before one of the transaction and that
/// before one of the session, and of each kind the other side's first, whatever
/// either side has set.
pub proof fn law_merge_visible(s: State, other: State, name: Seq<char>)
    ensures
        s.merged(other).visible(name) == (if other.local.contains_key(name) {
            Some(other.local[name])
        } else if s.local.contains_key(name) {
            Some(s.local[name])
        } else if other.transaction.contains_key(name) {
            Some(other.transaction[name])
        } else if s.transaction.contains_key(name) {
            Some(s.transaction[name])
        } else if other.params.contains_key(name) {
            Some(other.params[name])
        } else if s.params.contains_key(name) {
            Some(s.params[name])
        } else {
            None
        }),
        s.settled() ==> s.merged(other).visible(name) == (if other.visible(name) is Some {
            other.visible(name)
        } else {
            s.visible(name)
        }),
{
}

/// A copied transaction is visible as the other side sees it, and nothing else
/// of the other side is.
pub proof fn law_copy_in_transaction(s: State, other: State, name: Seq<char>)
    requires
        s.settled(),
    ensures
        s.with_transaction_of(other).visible(name) == (if other.local.contains_key(name)
            || other.transaction.contains_key(name) {
            other.visible(name)
        } else {
            s.visible(name)
        }),
        s.with_transaction_of(other).params == s.params,
{
}

/// Whatever either side has set, a copy takes the values of the other side's
/// transaction over its own, local or not, and leaves the rest as it was.
pub proof fn law_copy_exact(s: State, other: State, name: Seq<char>)
    ensures
        s.with_transaction_of(other).transaction.contains_key(name)
            <==> other.transaction.contains_key(name) || s.transaction.contains_key(name),
        other.transaction.contains_key(name) ==> s.with_transaction_of(other).transaction[name]
            == other.transaction[name],
        !other.transaction.contains_key(name) && s.transaction.contains_key(name)
            ==> s.with_transaction_of(other).transaction[name] == s.transaction[name],
        s.with_transaction_of(other).local.contains_key(name) <==> other.local.contains_key(name)
            || s.local.contains_key(name),
        other.local.contains_key(name) ==> s.with_transaction_of(other).local[name]
            == other.local[name],
        !other.local.contains_key(name) && s.local.contains_key(name) ==> s.with_transaction_of(
            other,
        ).local[name] == s.local[name],
        s.with_transaction_of(other).params == s.params,
        s.with_transaction_of(other).reset == s.reset,
        s.with_transaction_of(other).hash == s.hash,
{
}

/// A session sees a local value before one of its transaction, and that before
/// one of its own; it sees a text where that value is one.
pub proof fn law_seen(s: State, name: Seq<char>)
    ensures
        s.local.contains_key(name) ==> s.visible(name) == Some(s.local[name]),
        !s.local.contains_key(name) && s.transaction.contains_key(name) ==> s.visible(name) == Some(
            s.transaction[name],
        ),
        !s.local.contains_key(name) && !s.transaction.contains_key(name) && s.params.contains_key(
            name,
        ) ==> s.visible(name) == Some(s.params[name]),
        s.visible(name) is None <==> !s.local.contains_key(name) && !s.transaction.contains_key(
            name,
        ) && !s.params.contains_key(name),
        forall|t: Seq<char>| #[trigger]
            ValueView::Text(t).as_text() == Some(t) && (s.visible_text(name) == Some(t)
                <==> s.visible(name) == Some(ValueView::Text(t))),
        s.visible_text(name) is Some ==> s.visible(name) == Some(
            ValueView::Text(s.visible_text(name)->Some_0),
        ),
        forall|list: Seq<Seq<char>>| #[trigger] ValueView::List(list).as_text() is None,
        forall|i: int| #[trigger] ValueView::Number(i).as_text() is None,
{
}

/// A new session has nothing, and the fingerprint zero; one that is made from
/// parameters has these and nothing else.
pub proof fn law_new_session(params: Map<Seq<char>, ValueView>)
    ensures
        State::empty().params == Map::<Seq<char>, ValueView>::empty(),
        State::empty().transaction == Map::<Seq<char>, ValueView>::empty(),
        State::empty().local == Map::<Seq<char>, ValueView>::empty(),
        State::empty().reset == Map::<Seq<char>, ValueView>::empty(),
        State::empty().hash == 0,
        State::empty().with_params(params).params == params,
        State::empty().with_params(params).transaction == Map::<Seq<char>, ValueView>::empty(),
        State::empty().with_params(params).local == Map::<Seq<char>, ValueView>::empty(),
        State::empty().with_params(params).reset == Map::<Seq<char>, ValueView>::empty(),
        State::empty().with_params(params).hash == fingerprint::fingerprint(params),
{
}

/// Setting a parameter for the session gives it that value and changes nothing
/// else but the fingerprint, which is taken anew.
pub proof fn law_put_exact(s: State, name: Seq<char>, value: ValueView, k: Seq<char>)
    ensures
        s.put(name, value).params.contains_key(name),
        s.put(name, value).params[name] == value,
        k != name ==> (s.put(name, value).params.contains_key(k) <==> s.params.contains_key(k)),
        k != name && s.params.contains_key(k) ==> s.put(name, value).params[k] == s.params[k],
        s.put(name, value).transaction == s.transaction,
        s.put(name, value).local == s.local,
        s.put(name, value).reset == s.reset,
        s.put(name, value).hash == fingerprint::fingerprint(s.put(name, value).params),
{
}

/// Forgetting the parameters of the session leaves none of them and the
/// fingerprint zero, and touches nothing of the transaction.
pub proof fn law_cleared_exact(s: State, k: Seq<char>)
    ensures
        !s.cleared().params.contains_key(k),
        s.cleared().transaction == s.transaction,
        s.cleared().local == s.local,
        s.cleared().reset == s.reset,
        s.cleared().hash == 0,
{
    state::lemma_fingerprint_empty();
}

/// Setting a parameter for the transaction, or locally, gives it that value
/// there and changes nothing else.
pub proof fn law_put_transaction_exact(
    s: State,
    name: Seq<char>,
    value: ValueView,
    k: Seq<char>,
)
    ensures
        s.put_transaction(name, value, false).transaction.contains_key(name),
        s.put_transaction(name, value, false).transaction[name] == value,
        k != name ==> (s.put_transaction(name, value, false).transaction.contains_key(k)
            <==> s.transaction.contains_key(k)),
        k != name && s.transaction.contains_key(k) ==> s.put_transaction(
            name,
            value,
            false,
        ).transaction[k] == s.transaction[k],
        s.put_transaction(name, value, false).local == s.local,
        s.put_transaction(name, value, true).local.contains_key(name),
        s.put_transaction(name, value, true).local[name] == value,
        k != name ==> (s.put_transaction(name, value, true).local.contains_key(k)
            <==> s.local.contains_key(k)),
        k != name && s.local.contains_key(k) ==> s.put_transaction(name, value, true).local[k]
            == s.local[k],
        s.put_transaction(name, value, true).transaction == s.transaction,
        forall|local: bool|
            {
                &&& (#[trigger] s.put_transaction(name, value, local)).params == s.params
                &&& s.put_transaction(name, value, local).reset == s.reset
                &&& s.put_transaction(name, value, local).hash == s.hash
            },
{
}

/// A reset takes the names out of the session, the transaction and the local
/// values, sets the values of the session aside, and leaves every other name as
/// it was. The fingerprint is taken anew where the session had one of them.
pub proof fn law_reset_exact(s: State, names: Set<Seq<char>>, k: Seq<char>)
    ensures
        names.contains(k) ==> !s.reset_names(names).params.contains_key(k)
            && !s.reset_names(names).transaction.contains_key(k) && !s.reset_names(
            names,
        ).local.contains_key(k),
        !names.contains(k) ==> (s.reset_names(names).params.contains_key(k)
            <==> s.params.contains_key(k)) && (s.reset_names(names).transaction.contains_key(k)
            <==> s.transaction.contains_key(k)) && (s.reset_names(names).local.contains_key(k)
            <==> s.local.contains_key(k)),
        !names.contains(k) && s.params.contains_key(k) ==> s.reset_names(names).params[k]
            == s.params[k],
        !names.contains(k) && s.transaction.contains_key(k) ==> s.reset_names(names).transaction[k]
            == s.transaction[k],
        !names.contains(k) && s.local.contains_key(k) ==> s.reset_names(names).local[k]
            == s.local[k],
        s.reset_names(names).reset.contains_key(k) <==> s.reset.contains_key(k) || (names.contains(
            k,
        ) && s.params.contains_key(k)),
        names.contains(k) && s.params.contains_key(k) ==> s.reset_names(names).reset[k]
            == s.params[k],
        !(names.contains(k) && s.params.contains_key(k)) && s.reset.contains_key(k)
            ==> s.reset_names(names).reset[k] == s.reset[k],
        names.contains(k) && s.params.contains_key(k) ==> s.reset_names(names).hash
            == fingerprint::fingerprint(s.reset_names(names).params),
        (forall|n: Seq<char>| #[trigger] names.contains(n) ==> !s.params.contains_key(n))
            ==> s.reset_names(names).hash == s.hash,
{
    if names.contains(k) && s.params.contains_key(k) {
        assert(s.params.dom().contains(k));
        assert(!s.params.dom().disjoint(names));
    }
    if forall|n: Seq<char>| #[trigger] names.contains(n) ==> !s.params.contains_key(n) {
        assert(s.params.dom().disjoint(names));
    }
}

/// Resetting one parameter is resetting a set that has it alone, and resetting
/// everything is resetting the tracked parameters that have a value.
pub proof fn law_reset_which(s: State, name: Seq<char>, names: Set<Seq<char>>)
    ensures
        (forall|n: Seq<char>| #[trigger] names.contains(n) <==> n == name) ==> s.reset_name(name)
            == s.reset_names(names),
        (forall|n: Seq<char>| #[trigger]
            names.contains(n) <==> !tracking::untracked(n) && (s.params.contains_key(n)
                || s.transaction.contains_key(n) || s.local.contains_key(n)))
            ==> s.reset_everything() == s.reset_names(names),
{
    if forall|n: Seq<char>| #[trigger] names.contains(n) <==> n == name {
        assert(names =~= set![name]);
    }
    if forall|n: Seq<char>| #[trigger]
        names.contains(n) <==> !tracking::untracked(n) && (s.params.contains_key(n)
            || s.transaction.contains_key(n) || s.local.contains_key(n)) {
        assert(names =~= s.resettable());
    }
}

/// A commit is owed a new fingerprint exactly where the transaction has set or
/// reset something.
pub proof fn law_pending(s: State)
    ensures
        s.pending() <==> (exists|k: Seq<char>| #[trigger] s.transaction.contains_key(k)) || (exists|
            k: Seq<char>,
        | #[trigger]
            s.reset.contains_key(k)),
{
    if s.transaction != Map::<Seq<char>, ValueView>::empty() {
        assert(exists|k: Seq<char>| #[trigger] s.transaction.contains_key(k)) by {
            if forall|k: Seq<char>| !#[trigger] s.transaction.contains_key(k) {
                assert(s.transaction =~= Map::empty());
            }
        }
    }
    if s.reset != Map::<Seq<char>, ValueView>::empty() {
        assert(exists|k: Seq<char>| #[trigger] s.reset.contains_key(k)) by {
            if forall|k: Seq<char>| !#[trigger] s.reset.contains_key(k) {
                assert(s.reset =~= Map::empty());
            }
        }
    }
}

/// A commit lays what the transaction has set over what the session has, and
/// leaves no mark of the transaction.
pub proof fn law_commit_exact(s: State, k: Seq<char>)
    ensures
        s.committed().params.contains_key(k) <==> s.transaction.contains_key(k)
            || s.params.contains_key(k),
        s.transaction.contains_key(k) ==> s.committed().params[k] == s.transaction[k],
        !s.transaction.contains_key(k) && s.params.contains_key(k) ==> s.committed().params[k]
            == s.params[k],
        !s.committed().transaction.contains_key(k),
        !s.committed().local.contains_key(k),
        !s.committed().reset.contains_key(k),
        s.transaction.contains_key(k) || s.reset.contains_key(k) ==> s.committed().hash
            == fingerprint::fingerprint(s.committed().params),
        (forall|n: Seq<char>| !#[trigger] s.transaction.contains_key(n)) && (forall|n: Seq<char>|
            !#[trigger] s.reset.contains_key(n)) ==> s.committed().hash == s.hash,
{
    if (forall|n: Seq<char>| !#[trigger] s.transaction.contains_key(n)) && (forall|n: Seq<char>|
        !#[trigger] s.reset.contains_key(n)) {
        assert(s.transaction =~= Map::empty());
        assert(s.reset =~= Map::empty());
    }
}

/// A rollback puts back what was set aside, and leaves no other mark of the
/// transaction.
pub proof fn law_rollback_exact(s: State, k: Seq<char>)
    ensures
        s.rolled_back().params.contains_key(k) <==> s.reset.contains_key(k)
            || s.params.contains_key(k),
        s.reset.contains_key(k) ==> s.rolled_back().params[k] == s.reset[k],
        !s.reset.contains_key(k) && s.params.contains_key(k) ==> s.rolled_back().params[k]
            == s.params[k],
        !s.rolled_back().transaction.contains_key(k),
        !s.rolled_back().local.contains_key(k),
        !s.rolled_back().reset.contains_key(k),
        s.reset.contains_key(k) ==> s.rolled_back().hash == fingerprint::fingerprint(
            s.rolled_back().params,
        ),
        (forall|n: Seq<char>| !#[trigger] s.reset.contains_key(n)) ==> s.rolled_back().hash
            == s.hash,
{
    if forall|n: Seq<char>| !#[trigger] s.reset.contains_key(n) {
        assert(s.reset =~= Map::empty());
    }
}

/// The tracked parameters of a session are those of its parameters that are not
/// left alone, with their values and their fingerprint, and nothing of a
/// transaction.
pub proof fn law_tracked_exact(s: State, k: Seq<char>)
    ensures
        s.tracked_only().params.contains_key(k) <==> s.params.contains_key(k)
            && !tracking::untracked(k),
        s.tracked_only().params.contains_key(k) ==> s.tracked_only().params[k] == s.params[k],
        !s.tracked_only().transaction.contains_key(k),
        !s.tracked_only().local.contains_key(k),
        !s.tracked_only().reset.contains_key(k),
        s.tracked_only().hash == fingerprint::fingerprint(s.tracked_only().params),
{
}

/// A list sets no parameter but those that it names.
pub proof fn law_only_listed(list: Seq<(Seq<char>, ValueView)>, k: Seq<char>)
    ensures
        state::collected(list).contains_key(k) <==> exists|i: int|
            0 <= i < list.len() && (#[trigger] list[i]).0 == k,
    decreases list.len(),
{
    if list.len() > 0 {
        let rest = list.drop_last();
        law_only_listed(rest, k);
        if state::collected(rest).contains_key(k) {
            let i = choose|i: int| 0 <= i < rest.len() && (#[trigger] rest[i]).0 == k;
            assert(list[i].0 == k);
        }
        if exists|i: int| 0 <= i < list.len() && (#[trigger] list[i]).0 == k {
            let i = choose|i: int| 0 <= i < list.len() && (#[trigger] list[i]).0 == k;
            if i < rest.len() {
                assert(rest[i].0 == k);
            }
        }
        assert(list[list.len() - 1].0 == list.last().0);
    }
}

/// As text, a session shows the parameter with the least name first, as the
/// name, an equals sign and the value, then, after a comma and a space, what it
/// would show without that parameter; without any, it shows nothing.
pub proof fn law_shown(s: State, least: Seq<char>, rest: State)
    requires
        s.params.dom().finite(),
    ensures
        (forall|k: Seq<char>| !#[trigger] s.params.contains_key(k)) ==> s.shown() == Seq::<
            char,
        >::empty(),
        s.params.contains_key(least) && rest.params == s.params.remove(least) && (forall|k: Seq<
            char,
        >| #[trigger] s.params.contains_key(k) && k != least ==> order::before(least, k))
            ==> s.shown() == least + seq!['='] + s.params[least].rendered() + (
        if s.params.dom().len() == 1 {
            Seq::empty()
        } else {
            seq![',', ' '] + rest.shown()
        }),
{
    reveal_strlit(", ");
    reveal_strlit("=");
    assert(", "@ =~= seq![',', ' ']);
    assert("="@ =~= seq!['=']);
    model::lemma_in_order_lists(s.params);
    let list = model::in_order(s.params);
    let write = |e: (Seq<char>, ValueView)| e.0 + "="@ + e.1.rendered();
    model::lemma_to_map_len(list);
    if forall|k: Seq<char>| !#[trigger] s.params.contains_key(k) {
        if list.len() > 0 {
            model::lemma_to_map_at(list, 0);
        }
        assert(s.shown() =~= Seq::<char>::empty());
    }
    if s.params.contains_key(least) && rest.params == s.params.remove(least) && (forall|k: Seq<
        char,
    >| #[trigger] s.params.contains_key(k) && k != least ==> order::before(least, k)) {
        assert(model::has_name(list, least));
        let p = model::position_of(list, least);
        if p > 0 {
            model::lemma_to_map_at(list, 0);
            assert(order::before(list[0].0, list[p].0));
            order::lemma_before_irreflexive(least);
            assert(s.params.contains_key(list[0].0));
            order::lemma_before_transitive(least, list[0].0, least);
        }
        model::lemma_to_map_at(list, 0);
        model::lemma_remove_at(list, 0);
        let others = list.remove(0);
        model::lemma_in_order(others);
        assert(model::in_order(rest.params) == others);
        assert(list.map_values(write) =~= seq![write(list[0])] + others.map_values(write));
        if others.len() == 0 {
            assert(list.map_values(write) =~= seq![write(list[0])]);
            assert(s.shown() =~= write(list[0]));
        } else {
            quoting::lemma_joined_front(write(list[0]), others.map_values(write), ", "@);
        }
        assert(s.shown() =~= least + seq!['='] + s.params[least].rendered() + (
        if s.params.dom().len() == 1 {
            Seq::empty()
        } else {
            seq![',', ' '] + rest.shown()
        }));
    }
}

/// The parameters written out as a list and read in again are the same.
pub proof fn law_list_round_trip(params: Map<Seq<char>, ValueView>)
    requires
        params.dom().finite(),
    ensures
        state::collected(model::in_order(params)) == params,
{
    model::lemma_in_order_lists(params);
    lemma_collected(model::in_order(params));
}

proof fn lemma_collected(list: Seq<(Seq<char>, ValueView)>)
    requires
        model::increasing(list),
    ensures
        state::collected(list) == model::to_map(list),
    decreases list.len(),
{
    if list.len() == 0 {
        assert(model::to_map(list) =~= Map::empty());
    } else {
        let last = list.len() - 1;
        assert(list.drop_last() =~= list.remove(last));
        model::lemma_remove_at(list, last);
        model::lemma_to_map_at(list, last);
        lemma_collected(list.drop_last());
        assert(model::to_map(list) =~= model::to_map(list.drop_last()).insert(
            list.last().0,
            list.last().1,
        ));
    }
}

/// Of a name that a list sets twice, the last value counts.
pub proof fn law_last_value_counts(list: Seq<(Seq<char>, ValueView)>, i: int)
    requires
        0 <= i < list.len(),
        forall|j: int| i < j < list.len() ==> (#[trigger] list[j]).0 != list[i].0,
    ensures
        model::lookup(state::collected(list), list[i].0) == Some(list[i].1),
    decreases list.len(),
{
    if i < list.len() - 1 {
        assert forall|j: int| i < j < list.drop_last().len() implies (
        #[trigger] list.drop_last()[j]).0 != list[i].0 by {
            assert(list.drop_last()[j] == list[j]);
        }
        law_last_value_counts(list.drop_last(), i);
    }
}

} // verus!
