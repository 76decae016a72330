//! Laws of the statements that bring a server up to a state.
use vstd::prelude::*;

use crate::model;
use crate::query;
use crate::query::Change;
use crate::state::State;
use crate::value::ValueView;

verus! {

proof fn lemma_applied_append(
    a: Seq<Change>,
    b: Seq<Change>,
    params: Map<Seq<char>, ValueView>,
)
    ensures
        query::all_applied(a + b, params) == query::all_applied(b, query::all_applied(a, params)),
    decreases b.len(),
{
    if b.len() == 0 {
        assert(a + b =~= a);
    } else {
        assert((a + b).drop_last() =~= a + b.drop_last());
        lemma_applied_append(a, b.drop_last(), params);
    }
}

/// What setting a list of parameters makes of a session.
proof fn lemma_set_all_applied(
    list: Seq<(Seq<char>, ValueView)>,
    params: Map<Seq<char>, ValueView>,
)
    requires
        model::increasing(list),
    ensures
        query::all_applied(query::set_all(list), params) == params.union_prefer_right(
            model::to_map(list),
        ),
    decreases list.len(),
{
    let changes = query::set_all(list);
    if list.len() == 0 {
        assert(model::to_map(list) =~= Map::empty());
        assert(params.union_prefer_right(model::to_map(list)) =~= params);
    } else {
        let last = list.len() - 1;
        let rest = list.drop_last();
        assert(rest =~= list.remove(last));
        model::lemma_remove_at(list, last);
        model::lemma_to_map_at(list, last);
        assert(changes.drop_last() =~= query::set_all(rest));
        lemma_set_all_applied(rest, params);
        assert(query::all_applied(changes, params) =~= params.union_prefer_right(
            model::to_map(list),
        ));
    }
}

/// What resetting a list of parameters makes of a session.
proof fn lemma_reset_all_applied(
    list: Seq<(Seq<char>, ValueView)>,
    params: Map<Seq<char>, ValueView>,
)
    requires
        model::increasing(list),
    ensures
        query::all_applied(query::reset_all(list), params) == params.remove_keys(
            model::to_map(list).dom(),
        ),
    decreases list.len(),
{
    let changes = query::reset_all(list);
    if list.len() == 0 {
        assert(model::to_map(list) =~= Map::empty());
        assert(params.remove_keys(model::to_map(list).dom()) =~= params);
    } else {
        let last = list.len() - 1;
        let rest = list.drop_last();
        assert(rest =~= list.remove(last));
        model::lemma_remove_at(list, last);
        model::lemma_to_map_at(list, last);
        assert(changes.drop_last() =~= query::reset_all(rest));
        lemma_reset_all_applied(rest, params);
        assert(query::all_applied(changes, params) =~= params.remove_keys(
            model::to_map(list).dom(),
        ));
    }
}

/// Leaving out entries of an increasing list.
proof fn lemma_filtered(
    list: Seq<(Seq<char>, ValueView)>,
    keep: spec_fn((Seq<char>, ValueView)) -> bool,
)
    requires
        model::increasing(list),
    ensures
        model::increasing(list.filter(keep)),
        forall|e: (Seq<char>, ValueView)| #[trigger]
            list.filter(keep).contains(e) <==> list.contains(e) && keep(e),
        forall|k: Seq<char>| #[trigger]
            model::to_map(list.filter(keep)).contains_key(k) <==> model::to_map(list).contains_key(
                k,
            ) && keep((k, model::to_map(list)[k])),
        forall|k: Seq<char>| #[trigger]
            model::to_map(list.filter(keep)).contains_key(k) ==> model::to_map(
                list.filter(keep),
            )[k] == model::to_map(list)[k],
    decreases list.len(),
{
    let kept = list.filter(keep);
    reveal(Seq::filter);
    if list.len() > 0 {
        let last = list.len() - 1;
        let rest = list.drop_last();
        assert(rest =~= list.remove(last));
        model::lemma_remove_at(list, last);
        model::lemma_to_map_at(list, last);
        lemma_filtered(rest, keep);
        let some = rest.filter(keep);
        assert forall|i: int| 0 <= i < some.len() implies crate::order::before(
            (#[trigger] some[i]).0,
            list[last].0,
        ) by {
            assert(some.contains(some[i]));
            assert(rest.contains(some[i]));
            let j = choose|j: int| 0 <= j < rest.len() && rest[j] == some[i];
            assert(rest[j] == list[j]);
            assert(crate::order::before(list[j].0, list[last].0));
        }
        model::lemma_insert_at(some, some.len() as int, list[last].0, list[last].1);
        assert(some.insert(some.len() as int, (list[last].0, list[last].1)) =~= some.push(
            list[last],
        ));
        assert forall|e: (Seq<char>, ValueView)| #[trigger]
            kept.contains(e) <==> list.contains(e) && keep(e) by {
            if rest.contains(e) {
                let j = choose|j: int| 0 <= j < rest.len() && rest[j] == e;
                assert(list[j] == e);
            }
            if list.contains(e) {
                let j = choose|j: int| 0 <= j < list.len() && list[j] == e;
                if j < last {
                    assert(rest[j] == e);
                }
            }
            if keep(list[last]) {
                assert(kept == some.push(list[last]));
                if some.contains(e) {
                    let j = choose|j: int| 0 <= j < some.len() && some[j] == e;
                    assert(kept[j] == e);
                }
                assert(kept[some.len() as int] == list[last]);
                if kept.contains(e) {
                    let j = choose|j: int| 0 <= j < kept.len() && kept[j] == e;
                    if j < some.len() {
                        assert(some[j] == e);
                    }
                }
            }
            assert(list[last] == list.last());
        }
    }
}

/// The statements between two states turn the one into the other.
pub proof fn law_difference_reaches(
    wanted: Map<Seq<char>, ValueView>,
    current: Map<Seq<char>, ValueView>,
)
    requires
        wanted.dom().finite(),
        current.dom().finite(),
    ensures
        query::all_applied(query::difference(wanted, current), current) == wanted,
{
    model::lemma_in_order_lists(wanted);
    model::lemma_in_order_lists(current);
    let lost = |e: (Seq<char>, ValueView)| !wanted.contains_key(e.0);
    let new = |e: (Seq<char>, ValueView)| model::lookup(current, e.0) != Some(e.1);
    let a = query::dropped(model::in_order(current), wanted);
    let b = query::differing(model::in_order(wanted), current);
    lemma_filtered(model::in_order(current), lost);
    lemma_filtered(model::in_order(wanted), new);
    lemma_applied_append(query::reset_all(a), query::set_all(b), current);
    lemma_reset_all_applied(a, current);
    let between = current.remove_keys(model::to_map(a).dom());
    lemma_set_all_applied(b, between);
    assert(between.union_prefer_right(model::to_map(b)) =~= wanted);
}

/// No statement is needed between equal states.
pub proof fn law_no_difference(params: Map<Seq<char>, ValueView>)
    requires
        params.dom().finite(),
    ensures
        query::difference(params, params).len() == 0,
{
    model::lemma_in_order_lists(params);
    let list = model::in_order(params);
    let lost = |e: (Seq<char>, ValueView)| !params.contains_key(e.0);
    let new = |e: (Seq<char>, ValueView)| model::lookup(params, e.0) != Some(e.1);
    lemma_filtered(list, lost);
    lemma_filtered(list, new);
    let a = query::dropped(list, params);
    let b = query::differing(list, params);
    if a.len() > 0 {
        assert(a.contains(a[0]));
        let i = choose|i: int| 0 <= i < list.len() && list[i] == a[0];
        model::lemma_to_map_at(list, i);
    }
    if b.len() > 0 {
        assert(b.contains(b[0]));
        let i = choose|i: int| 0 <= i < list.len() && list[i] == b[0];
        model::lemma_to_map_at(list, i);
    }
}

/// The names on which two states differ.
pub open spec fn differing_names(
    wanted: Map<Seq<char>, ValueView>,
    current: Map<Seq<char>, ValueView>,
) -> Set<Seq<char>> {
    Set::new(|k: Seq<char>| model::lookup(wanted, k) != model::lookup(current, k))
}

/// The names that a list of changes touches.
pub open spec fn touched(changes: Seq<Change>) -> Set<Seq<char>> {
    changes.map_values(|c: Change| c.name()).to_set()
}

/// The statements between two states touch each parameter on which they
/// differ once, and no other.
pub proof fn law_difference_touches_changes_only(
    wanted: Map<Seq<char>, ValueView>,
    current: Map<Seq<char>, ValueView>,
)
    requires
        wanted.dom().finite(),
        current.dom().finite(),
    ensures
        touched(query::difference(wanted, current)) == differing_names(wanted, current),
        query::difference(wanted, current).map_values(|c: Change| c.name()).no_duplicates(),
        query::difference(wanted, current).len() == differing_names(wanted, current).len(),
{
    model::lemma_in_order_lists(wanted);
    model::lemma_in_order_lists(current);
    let lost = |e: (Seq<char>, ValueView)| !wanted.contains_key(e.0);
    let new = |e: (Seq<char>, ValueView)| model::lookup(current, e.0) != Some(e.1);
    let a = query::dropped(model::in_order(current), wanted);
    let b = query::differing(model::in_order(wanted), current);
    lemma_filtered(model::in_order(current), lost);
    lemma_filtered(model::in_order(wanted), new);
    let names = query::difference(wanted, current).map_values(|c: Change| c.name());
    let n = a.len() as int;
    assert forall|i: int| 0 <= i < names.len() implies #[trigger] names[i] == (if i < n {
        a[i].0
    } else {
        b[i - n].0
    }) by {}
    assert forall|i: int, j: int| 0 <= i < j < names.len() implies names[i] != names[j] by {
        if j < n {
            crate::order::lemma_before_irreflexive(names[i]);
            assert(crate::order::before(a[i].0, a[j].0));
        } else if i >= n {
            crate::order::lemma_before_irreflexive(names[i]);
            assert(crate::order::before(b[i - n].0, b[j - n].0));
        } else {
            model::lemma_to_map_at(a, i);
            model::lemma_to_map_at(b, j - n);
        }
    }
    assert(names.no_duplicates());
    assert forall|k: Seq<char>| #[trigger]
        names.to_set().contains(k) <==> differing_names(wanted, current).contains(k) by {
        if names.contains(k) {
            let i = choose|i: int| 0 <= i < names.len() && names[i] == k;
            if i < n {
                model::lemma_to_map_at(a, i);
            } else {
                model::lemma_to_map_at(b, i - n);
            }
        }
        if differing_names(wanted, current).contains(k) {
            if wanted.contains_key(k) {
                assert(model::to_map(b).contains_key(k));
                let i = model::position_of(b, k);
                assert(names[n + i] == k);
            } else {
                assert(model::to_map(a).contains_key(k));
                let i = model::position_of(a, k);
                assert(names[i] == k);
            }
        }
    }
    assert(names.to_set() =~= differing_names(wanted, current));
    names.unique_seq_to_set();
}

/// A change touches at most the parameter that it names.
proof fn lemma_untouched(changes: Seq<Change>, params: Map<Seq<char>, ValueView>, k: Seq<char>)
    requires
        !touched(changes).contains(k),
    ensures
        model::lookup(query::all_applied(changes, params), k) == model::lookup(params, k),
    decreases changes.len(),
{
    if changes.len() > 0 {
        let names = changes.map_values(|c: Change| c.name());
        let rest = changes.drop_last().map_values(|c: Change| c.name());
        assert(names[names.len() - 1] == changes.last().name());
        if rest.contains(k) {
            let i = choose|i: int| 0 <= i < rest.len() && rest[i] == k;
            assert(names[i] == k);
        }
        lemma_untouched(changes.drop_last(), params, k);
    }
}

/// No shorter list of changes turns the one state into the other.
pub proof fn law_difference_is_minimal(
    wanted: Map<Seq<char>, ValueView>,
    current: Map<Seq<char>, ValueView>,
    changes: Seq<Change>,
)
    requires
        wanted.dom().finite(),
        current.dom().finite(),
        query::all_applied(changes, current) == wanted,
    ensures
        query::difference(wanted, current).len() <= changes.len(),
{
    law_difference_touches_changes_only(wanted, current);
    let names = changes.map_values(|c: Change| c.name());
    assert forall|k: Seq<char>| #[trigger]
        differing_names(wanted, current).contains(k) implies touched(changes).contains(k) by {
        if !touched(changes).contains(k) {
            lemma_untouched(changes, current, k);
        }
    }
    vstd::seq_lib::seq_to_set_is_finite(names);
    vstd::set_lib::lemma_len_subset(differing_names(wanted, current), touched(changes));
    names.lemma_cardinality_of_set();
}

/// The statements that set a session's parameters give a server all of them,
/// and nothing but them where it had none.
pub proof fn law_set_changes_reach(s: State, server: Map<Seq<char>, ValueView>)
    requires
        s.finite(),
    ensures
        query::all_applied(s.set_changes(false), server) == server.union_prefer_right(s.params),
        query::all_applied(s.set_changes(false), Map::empty()) == s.params,
{
    model::lemma_in_order_lists(s.params);
    lemma_set_all_applied(model::in_order(s.params), server);
    lemma_set_all_applied(model::in_order(s.params), Map::empty());
    assert(Map::<Seq<char>, ValueView>::empty().union_prefer_right(s.params) =~= s.params);
}

/// The statements for the transaction give a server what a commit would give
/// the session; a local value leaves nothing behind.
pub proof fn law_transaction_changes_reach(s: State)
    requires
        s.finite(),
    ensures
        query::all_applied(s.set_changes(true), s.params) == s.committed().params,
{
    model::lemma_in_order_lists(s.transaction);
    let a = query::set_all(model::in_order(s.transaction));
    let b = query::set_all_local(model::in_order(s.local));
    lemma_applied_append(a, b, s.params);
    lemma_set_all_applied(model::in_order(s.transaction), s.params);
    lemma_local_applied(model::in_order(s.local), query::all_applied(a, s.params));
}

proof fn lemma_local_applied(
    list: Seq<(Seq<char>, ValueView)>,
    params: Map<Seq<char>, ValueView>,
)
    ensures
        query::all_applied(query::set_all_local(list), params) == params,
    decreases list.len(),
{
    if list.len() > 0 {
        assert(query::set_all_local(list).drop_last() =~= query::set_all_local(list.drop_last()));
        lemma_local_applied(list.drop_last(), params);
    }
}

/// The statements that reset a session's parameters leave a server with none
/// of them, and touch no other.
pub proof fn law_reset_changes_reach(
    params: Map<Seq<char>, ValueView>,
    server: Map<Seq<char>, ValueView>,
)
    requires
        params.dom().finite(),
    ensures
        query::all_applied(query::reset_all(model::in_order(params)), server)
            == server.remove_keys(params.dom()),
        query::all_applied(query::reset_all(model::in_order(params)), params)
            == Map::<Seq<char>, ValueView>::empty(),
{
    model::lemma_in_order_lists(params);
    lemma_reset_all_applied(model::in_order(params), server);
    lemma_reset_all_applied(model::in_order(params), params);
    assert(params.remove_keys(params.dom()) =~= Map::empty());
}

/// A server inside a transaction: it keeps the values that end with the
/// transaction apart from those of the session.
pub struct Server {
    pub session: Map<Seq<char>, ValueView>,
    pub local: Map<Seq<char>, ValueView>,
}

/// What a server makes of a change.
pub open spec fn obeyed(c: Change, server: Server) -> Server {
    match c {
        Change::Reset(name) => Server {
            session: server.session.remove(name),
            local: server.local.remove(name),
        },
        Change::Assign(name, value) => Server {
            session: server.session.insert(name, value),
            ..server
        },
        Change::AssignLocal(name, value) => Server {
            local: server.local.insert(name, value),
            ..server
        },
    }
}

/// What a server makes of a list of changes.
pub open spec fn all_obeyed(changes: Seq<Change>, server: Server) -> Server
    decreases changes.len(),
{
    if changes.len() == 0 {
        server
    } else {
        obeyed(changes.last(), all_obeyed(changes.drop_last(), server))
    }
}

proof fn lemma_obeyed_append(a: Seq<Change>, b: Seq<Change>, server: Server)
    ensures
        all_obeyed(a + b, server) == all_obeyed(b, all_obeyed(a, server)),
    decreases b.len(),
{
    if b.len() == 0 {
        assert(a + b =~= a);
    } else {
        assert((a + b).drop_last() =~= a + b.drop_last());
        lemma_obeyed_append(a, b.drop_last(), server);
    }
}

proof fn lemma_sets_obeyed(list: Seq<(Seq<char>, ValueView)>, server: Server)
    requires
        model::increasing(list),
    ensures
        all_obeyed(query::set_all(list), server) == (Server {
            session: server.session.union_prefer_right(model::to_map(list)),
            ..server
        }),
        all_obeyed(query::set_all_local(list), server) == (Server {
            local: server.local.union_prefer_right(model::to_map(list)),
            ..server
        }),
    decreases list.len(),
{
    if list.len() == 0 {
        assert(model::to_map(list) =~= Map::empty());
        assert(server.session.union_prefer_right(model::to_map(list)) =~= server.session);
        assert(server.local.union_prefer_right(model::to_map(list)) =~= server.local);
    } else {
        let last = list.len() - 1;
        let rest = list.drop_last();
        assert(rest =~= list.remove(last));
        model::lemma_remove_at(list, last);
        model::lemma_to_map_at(list, last);
        assert(query::set_all(list).drop_last() =~= query::set_all(rest));
        assert(query::set_all_local(list).drop_last() =~= query::set_all_local(rest));
        lemma_sets_obeyed(rest, server);
        assert(all_obeyed(query::set_all(list), server).session
            =~= server.session.union_prefer_right(model::to_map(list)));
        assert(all_obeyed(query::set_all_local(list), server).local
            =~= server.local.union_prefer_right(model::to_map(list)));
    }
}

/// The statements for the transaction bring a server up to it: what the
/// transaction has set is set for the session, what it has set locally is set
/// locally, whether or not it has set anything else.
pub proof fn law_transaction_changes_obeyed(s: State, server: Server)
    requires
        s.transaction.dom().finite(),
        s.local.dom().finite(),
    ensures
        all_obeyed(s.set_changes(true), server).session == server.session.union_prefer_right(
            s.transaction,
        ),
        all_obeyed(s.set_changes(true), server).local == server.local.union_prefer_right(s.local),
        server.local == Map::<Seq<char>, ValueView>::empty() ==> all_obeyed(
            s.set_changes(true),
            server,
        ).local == s.local,
{
    model::lemma_in_order_lists(s.transaction);
    model::lemma_in_order_lists(s.local);
    let a = model::in_order(s.transaction);
    let b = model::in_order(s.local);
    lemma_obeyed_append(query::set_all(a), query::set_all_local(b), server);
    lemma_sets_obeyed(a, server);
    lemma_sets_obeyed(b, all_obeyed(query::set_all(a), server));
    if server.local == Map::<Seq<char>, ValueView>::empty() {
        assert(server.local.union_prefer_right(s.local) =~= s.local);
    }
}

/// The statements for the session set what it has, and touch nothing local.
pub proof fn law_session_changes_obeyed(s: State, server: Server)
    requires
        s.params.dom().finite(),
    ensures
        all_obeyed(s.set_changes(false), server).session == server.session.union_prefer_right(
            s.params,
        ),
        all_obeyed(s.set_changes(false), server).local == server.local,
{
    model::lemma_in_order_lists(s.params);
    lemma_sets_obeyed(model::in_order(s.params), server);
}

/// The entries of a map in order: each of them once, and no other.
proof fn lemma_each_once(m: Map<Seq<char>, ValueView>)
    requires
        m.dom().finite(),
    ensures
        model::in_order(m).len() == m.dom().len(),
        model::increasing(model::in_order(m)),
        forall|i: int|
            0 <= i < model::in_order(m).len() ==> m.contains_key(
                (#[trigger] model::in_order(m)[i]).0,
            ) && m[model::in_order(m)[i].0] == model::in_order(m)[i].1,
        forall|k: Seq<char>| #[trigger]
            m.contains_key(k) ==> model::in_order(m).contains((k, m[k])),
{
    model::lemma_in_order_lists(m);
    let list = model::in_order(m);
    model::lemma_to_map_len(list);
    assert forall|i: int| 0 <= i < list.len() implies m.contains_key((#[trigger] list[i]).0)
        && m[list[i].0] == list[i].1 by {
        model::lemma_to_map_at(list, i);
    }
    assert forall|k: Seq<char>| #[trigger] m.contains_key(k) implies list.contains((k, m[k])) by {
        assert(model::has_name(list, k));
        let i = model::position_of(list, k);
        model::lemma_to_map_at(list, i);
        assert(list[i] == (k, m[k]));
    }
}

proof fn lemma_mapped<A, B>(list: Seq<A>, f: spec_fn(A) -> B, y: B)
    ensures
        list.map_values(f).contains(y) <==> exists|x: A| #[trigger] list.contains(x) && f(x) == y,
{
    let out = list.map_values(f);
    if out.contains(y) {
        let i = choose|i: int| 0 <= i < out.len() && out[i] == y;
        assert(list.contains(list[i]));
    }
    if exists|x: A| #[trigger] list.contains(x) && f(x) == y {
        let x = choose|x: A| #[trigger] list.contains(x) && f(x) == y;
        let i = choose|i: int| 0 <= i < list.len() && list[i] == x;
        assert(out[i] == y);
    }
}

/// The statements for the session set each of its parameters to its value, once
/// and by increasing name, and do nothing else.
pub proof fn law_session_changes_exact(s: State)
    requires
        s.params.dom().finite(),
    ensures
        s.set_changes(false).len() == s.params.dom().len(),
        forall|k: Seq<char>, v: ValueView| #[trigger]
            s.set_changes(false).contains(Change::Assign(k, v)) <==> s.params.contains_key(k)
                && s.params[k] == v,
        forall|i: int|
            0 <= i < s.set_changes(false).len() ==> #[trigger] s.set_changes(false)[i] is Assign,
        forall|i: int, j: int|
            0 <= i < j < s.set_changes(false).len() ==> crate::order::before(
                (#[trigger] s.set_changes(false)[i])->Assign_0,
                (#[trigger] s.set_changes(false)[j])->Assign_0,
            ),
{
    lemma_each_once(s.params);
    let list = model::in_order(s.params);
    let changes = s.set_changes(false);
    assert forall|k: Seq<char>, v: ValueView| #[trigger]
        changes.contains(Change::Assign(k, v)) <==> s.params.contains_key(k) && s.params[k]
            == v by {
        lemma_assigns(list, k, v);
        if list.contains((k, v)) {
            let i = choose|i: int| 0 <= i < list.len() && list[i] == (k, v);
        }
    }
}

proof fn lemma_assigns(list: Seq<(Seq<char>, ValueView)>, k: Seq<char>, v: ValueView)
    ensures
        query::set_all(list).contains(Change::Assign(k, v)) <==> list.contains((k, v)),
        query::set_all_local(list).contains(Change::AssignLocal(k, v)) <==> list.contains((k, v)),
{
    lemma_mapped(list, |e: (Seq<char>, ValueView)| Change::Assign(e.0, e.1), Change::Assign(k, v));
    lemma_mapped(
        list,
        |e: (Seq<char>, ValueView)| Change::AssignLocal(e.0, e.1),
        Change::AssignLocal(k, v),
    );
}

/// The statements for the transaction set each of its parameters to its value
/// and each local one to its value until the transaction ends, once and by
/// increasing name, and do nothing else.
pub proof fn law_transaction_changes_exact(s: State)
    requires
        s.transaction.dom().finite(),
        s.local.dom().finite(),
    ensures
        s.set_changes(true).len() == s.transaction.dom().len() + s.local.dom().len(),
        forall|k: Seq<char>, v: ValueView| #[trigger]
            s.set_changes(true).contains(Change::Assign(k, v)) <==> s.transaction.contains_key(k)
                && s.transaction[k] == v,
        forall|k: Seq<char>, v: ValueView| #[trigger]
            s.set_changes(true).contains(Change::AssignLocal(k, v)) <==> s.local.contains_key(k)
                && s.local[k] == v,
        forall|i: int|
            0 <= i < s.set_changes(true).len() ==> if i < s.transaction.dom().len() {
                #[trigger] s.set_changes(true)[i] is Assign
            } else {
                s.set_changes(true)[i] is AssignLocal
            },
        forall|i: int, j: int|
            0 <= i < j < s.transaction.dom().len() ==> crate::order::before(
                (#[trigger] s.set_changes(true)[i])->Assign_0,
                (#[trigger] s.set_changes(true)[j])->Assign_0,
            ),
        forall|i: int, j: int|
            s.transaction.dom().len() <= i < j < s.set_changes(true).len() ==> crate::order::before(
                (#[trigger] s.set_changes(true)[i])->AssignLocal_0,
                (#[trigger] s.set_changes(true)[j])->AssignLocal_0,
            ),
{
    lemma_each_once(s.transaction);
    lemma_each_once(s.local);
    let a = model::in_order(s.transaction);
    let b = model::in_order(s.local);
    let n = a.len() as int;
    let x = query::set_all(a);
    let y = query::set_all_local(b);
    let changes = s.set_changes(true);
    assert forall|i: int| 0 <= i < changes.len() implies #[trigger] changes[i] == (if i < n {
        Change::Assign(a[i].0, a[i].1)
    } else {
        Change::AssignLocal(b[i - n].0, b[i - n].1)
    }) by {}
    assert forall|k: Seq<char>, v: ValueView| #[trigger]
        changes.contains(Change::Assign(k, v)) <==> s.transaction.contains_key(k)
            && s.transaction[k] == v by {
        lemma_assigns(a, k, v);
        if changes.contains(Change::Assign(k, v)) {
            let i = choose|i: int| 0 <= i < changes.len() && changes[i] == Change::Assign(k, v);
            assert(a[i] == (k, v));
        }
        if x.contains(Change::Assign(k, v)) {
            let i = choose|i: int| 0 <= i < x.len() && x[i] == Change::Assign(k, v);
            assert(changes[i] == x[i]);
        }
    }
    assert forall|k: Seq<char>, v: ValueView| #[trigger]
        changes.contains(Change::AssignLocal(k, v)) <==> s.local.contains_key(k) && s.local[k]
            == v by {
        lemma_assigns(b, k, v);
        if changes.contains(Change::AssignLocal(k, v)) {
            let i = choose|i: int|
                0 <= i < changes.len() && changes[i] == Change::AssignLocal(k, v);
            assert(b[i - n] == (k, v));
        }
        if y.contains(Change::AssignLocal(k, v)) {
            let i = choose|i: int| 0 <= i < y.len() && y[i] == Change::AssignLocal(k, v);
            assert(changes[n + i] == y[i]);
        }
    }
}

/// The statements that reset a session's parameters reset each of them, once
/// and by increasing name, and do nothing else.
pub proof fn law_reset_changes_exact(params: Map<Seq<char>, ValueView>)
    requires
        params.dom().finite(),
    ensures
        query::reset_all(model::in_order(params)).len() == params.dom().len(),
        forall|k: Seq<char>| #[trigger]
            query::reset_all(model::in_order(params)).contains(Change::Reset(k))
                <==> params.contains_key(k),
        forall|i: int|
            0 <= i < query::reset_all(model::in_order(params)).len() ==> #[trigger] query::reset_all(
                model::in_order(params),
            )[i] is Reset,
        forall|i: int, j: int|
            0 <= i < j < query::reset_all(model::in_order(params)).len() ==> crate::order::before(
                (#[trigger] query::reset_all(model::in_order(params))[i])->Reset_0,
                (#[trigger] query::reset_all(model::in_order(params))[j])->Reset_0,
            ),
{
    lemma_each_once(params);
    let list = model::in_order(params);
    let changes = query::reset_all(list);
    assert forall|k: Seq<char>| #[trigger] changes.contains(Change::Reset(k))
        <==> params.contains_key(k) by {
        if changes.contains(Change::Reset(k)) {
            let i = choose|i: int| 0 <= i < changes.len() && changes[i] == Change::Reset(k);
            assert(params.contains_key(list[i].0));
        }
        if params.contains_key(k) {
            let i = choose|i: int| 0 <= i < list.len() && list[i] == (k, params[k]);
            assert(changes[i] == Change::Reset(k));
        }
    }
}

/// Between two states, what the server has and the client does not want is
/// reset, and what the client wants and the server has not, or not with that
/// value, is set. Nothing else is done; the resets come first, and both go by
/// increasing name.
pub proof fn law_difference_exact(
    wanted: Map<Seq<char>, ValueView>,
    current: Map<Seq<char>, ValueView>,
)
    requires
        wanted.dom().finite(),
        current.dom().finite(),
    ensures
        forall|k: Seq<char>| #[trigger]
            query::difference(wanted, current).contains(Change::Reset(k)) <==> current.contains_key(
                k,
            ) && !wanted.contains_key(k),
        forall|k: Seq<char>, v: ValueView| #[trigger]
            query::difference(wanted, current).contains(Change::Assign(k, v))
                <==> wanted.contains_key(k) && wanted[k] == v && !(current.contains_key(k)
                && current[k] == v),
        forall|i: int|
            0 <= i < query::difference(wanted, current).len() ==> !(#[trigger] query::difference(
                wanted,
                current,
            )[i] is AssignLocal),
        forall|i: int, j: int|
            0 <= i < j < query::difference(wanted, current).len() ==> match (
                #[trigger] query::difference(wanted, current)[i],
                #[trigger] query::difference(wanted, current)[j],
            ) {
                (Change::Reset(m), Change::Reset(n)) => crate::order::before(m, n),
                (Change::Assign(m, _), Change::Assign(n, _)) => crate::order::before(m, n),
                (Change::Reset(_), Change::Assign(_, _)) => true,
                _ => false,
            },
{
    lemma_each_once(wanted);
    lemma_each_once(current);
    let lost = |e: (Seq<char>, ValueView)| !wanted.contains_key(e.0);
    let new = |e: (Seq<char>, ValueView)| model::lookup(current, e.0) != Some(e.1);
    let a = query::dropped(model::in_order(current), wanted);
    let b = query::differing(model::in_order(wanted), current);
    lemma_filtered(model::in_order(current), lost);
    lemma_filtered(model::in_order(wanted), new);
    let n = a.len() as int;
    let changes = query::difference(wanted, current);
    assert forall|i: int| 0 <= i < changes.len() implies #[trigger] changes[i] == (if i < n {
        Change::Reset(a[i].0)
    } else {
        Change::Assign(b[i - n].0, b[i - n].1)
    }) by {}
    assert forall|k: Seq<char>| #[trigger] changes.contains(Change::Reset(k))
        <==> current.contains_key(k) && !wanted.contains_key(k) by {
        if changes.contains(Change::Reset(k)) {
            let i = choose|i: int| 0 <= i < changes.len() && changes[i] == Change::Reset(k);
            assert(a.contains(a[i]));
            let j = choose|j: int|
                0 <= j < model::in_order(current).len() && model::in_order(current)[j] == a[i];
        }
        if current.contains_key(k) && !wanted.contains_key(k) {
            assert(a.contains((k, current[k])));
            let i = choose|i: int| 0 <= i < a.len() && a[i] == (k, current[k]);
            assert(changes[i] == Change::Reset(k));
        }
    }
    assert forall|k: Seq<char>, v: ValueView| #[trigger]
        changes.contains(Change::Assign(k, v)) <==> wanted.contains_key(k) && wanted[k] == v && !(
        current.contains_key(k) && current[k] == v) by {
        if changes.contains(Change::Assign(k, v)) {
            let i = choose|i: int| 0 <= i < changes.len() && changes[i] == Change::Assign(k, v);
            assert(b.contains(b[i - n]));
            let j = choose|j: int|
                0 <= j < model::in_order(wanted).len() && model::in_order(wanted)[j] == b[i - n];
        }
        if wanted.contains_key(k) && wanted[k] == v && !(current.contains_key(k) && current[k]
            == v) {
            assert(b.contains((k, v)));
            let i = choose|i: int| 0 <= i < b.len() && b[i] == (k, v);
            assert(changes[n + i] == Change::Assign(k, v));
        }
    }
    assert forall|i: int, j: int| 0 <= i < j < changes.len() implies match (
        #[trigger] changes[i],
        #[trigger] changes[j],
    ) {
        (Change::Reset(m), Change::Reset(n)) => crate::order::before(m, n),
        (Change::Assign(m, _), Change::Assign(n, _)) => crate::order::before(m, n),
        (Change::Reset(_), Change::Assign(_, _)) => true,
        _ => false,
    } by {
        if j < n {
            assert(crate::order::before(a[i].0, a[j].0));
        } else if i >= n {
            assert(crate::order::before(b[i - n].0, b[j - n].0));
        }
    }
}

} // verus!
