//! Which parameters are tracked.
use vstd::prelude::*;

use crate::model;
use crate::order;
use crate::order::Place;

verus! {

/// Parameters that either cannot be changed or whose changes are of no
/// concern, since they are not passed on to the server connection.
pub open spec fn untracked(name: Seq<char>) -> bool {
    ||| name == "database"@
    ||| name == "user"@
    ||| name == "client_encoding"@
    ||| name == "replication"@
    ||| name == "is_superuser"@
    ||| name == "server_version"@
    ||| name == "server_encoding"@
    ||| name == "integer_datetimes"@
    ||| name == "session_authorization"@
    ||| name == "in_hot_standby"@
    ||| name == "pgdog.role"@
    ||| name == "pgdog.shard"@
    ||| name == "pgdog.sharding_key"@
}

/// The part of a map whose names are tracked.
pub open spec fn tracked_part<V>(m: Map<Seq<char>, V>) -> Map<Seq<char>, V> {
    Map::new(|k: Seq<char>| m.contains_key(k) && !untracked(k), |k: Seq<char>| m[k])
}

/// The entries of a list whose names are tracked.
pub open spec fn tracked_entries<V>(s: Seq<(Seq<char>, V)>) -> Seq<(Seq<char>, V)>
    decreases s.len(),
{
    if s.len() == 0 {
        Seq::empty()
    } else if untracked(s[0].0) {
        tracked_entries(s.drop_first())
    } else {
        seq![s[0]] + tracked_entries(s.drop_first())
    }
}

/// The tracked entries of an increasing list are the tracked part of its map,
/// in order.
pub proof fn lemma_tracked_entries<V>(s: Seq<(Seq<char>, V)>)
    requires
        model::increasing(s),
    ensures
        model::increasing(tracked_entries(s)),
        model::to_map(tracked_entries(s)) == tracked_part(model::to_map(s)),
        tracked_entries(s) == model::in_order(tracked_part(model::to_map(s))),
        forall|i: int|
            0 <= i < tracked_entries(s).len() ==> model::has_name(
                s,
                (#[trigger] tracked_entries(s)[i]).0,
            ),
    decreases s.len(),
{
    let t = tracked_entries(s);
    if s.len() == 0 {
        assert(model::to_map(t) =~= tracked_part(model::to_map(s)));
    } else {
        let rest = s.drop_first();
        let u = tracked_entries(rest);
        assert(rest =~= s.remove(0));
        model::lemma_remove_at(s, 0);
        model::lemma_to_map_at(s, 0);
        lemma_tracked_entries(rest);
        assert forall|i: int| 0 <= i < u.len() implies order::before(s[0].0, (#[trigger] u[i]).0)
            && model::has_name(s, u[i].0) by {
            assert(model::has_name(rest, u[i].0));
            let j = model::position_of(rest, u[i].0);
            assert(s[j + 1] == rest[j]);
        }
        if untracked(s[0].0) {
            assert(tracked_part(model::to_map(s)) =~= tracked_part(model::to_map(rest)));
        } else {
            model::lemma_insert_at(u, 0, s[0].0, s[0].1);
            assert(t =~= u.insert(0, (s[0].0, s[0].1)));
            assert(model::to_map(t) =~= tracked_part(model::to_map(s)));
            assert forall|i: int| 0 <= i < t.len() implies model::has_name(
                s,
                (#[trigger] t[i]).0,
            ) by {
                if i == 0 {
                    assert(s[0].0 == t[0].0);
                } else {
                    assert(t[i] == u[i - 1]);
                }
            }
        }
    }
    model::lemma_in_order(t);
}

fn same_name(a: &str, b: &str) -> (res: bool)
    ensures
        res == (a@ == b@),
{
    proof {
        order::lemma_before_irreflexive(a@);
    }
    match order::place(a, b) {
        Place::Same => true,
        _ => false,
    }
}

/// Whether a parameter is left alone.
pub fn is_untracked(name: &str) -> (res: bool)
    ensures
        res == untracked(name@),
{
    same_name(name, "database") || same_name(name, "user") || same_name(name, "client_encoding")
        || same_name(name, "replication") || same_name(name, "is_superuser") || same_name(
        name,
        "server_version",
    ) || same_name(name, "server_encoding") || same_name(name, "integer_datetimes") || same_name(
        name,
        "session_authorization",
    ) || same_name(name, "in_hot_standby") || same_name(name, "pgdog.role") || same_name(
        name,
        "pgdog.shard",
    ) || same_name(name, "pgdog.sharding_key")
}

} // verus!
