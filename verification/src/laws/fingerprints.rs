//! Laws of the fingerprint, by which it is told whether two sessions agree.
use std::collections::hash_map::DefaultHasher;
use vstd::prelude::*;
use vstd::utf8;

use crate::fingerprint;
use crate::model;
use crate::order;
use crate::state;
use crate::state::State;
use crate::tracking;
use crate::value::ValueView;

verus! {

/// What sets the parameters of the session anew takes their fingerprint.
pub proof fn law_fingerprint_taken(
    s: State,
    name: Seq<char>,
    value: ValueView,
    params: Map<Seq<char>, ValueView>,
    other: State,
)
    ensures
        State::empty().in_step(),
        s.put(name, value).in_step(),
        s.cleared().in_step(),
        s.tracked_only().in_step(),
        s.merged(other).in_step(),
        State::empty().with_params(params).in_step(),
{
    state::lemma_fingerprint_empty();
}

/// The fingerprint stays in step with the parameters of the session through a
/// transaction and its end.
pub proof fn law_fingerprint_kept(
    s: State,
    name: Seq<char>,
    value: ValueView,
    local: bool,
    names: Set<Seq<char>>,
    other: State,
)
    requires
        s.in_step(),
    ensures
        s.put_transaction(name, value, local).in_step(),
        s.with_transaction_of(other).in_step(),
        s.reset_names(names).in_step(),
        s.reset_everything().in_step(),
        s.committed().in_step(),
        s.rolled_back().in_step(),
{
    lemma_reset_in_step(s, names);
    lemma_reset_in_step(s, s.resettable());
    if !s.pending() {
        assert(s.committed().params =~= s.params);
    }
    if s.reset == Map::<Seq<char>, ValueView>::empty() {
        assert(s.rolled_back().params =~= s.params);
    }
}

proof fn lemma_reset_in_step(s: State, names: Set<Seq<char>>)
    requires
        s.in_step(),
    ensures
        s.reset_names(names).in_step(),
{
    if s.params.dom().disjoint(names) {
        assert(s.params.remove_keys(names) =~= s.params);
    }
}

/// What can happen to a session.
pub enum Event {
    /// A parameter is set for the session.
    Put(Seq<char>, ValueView),
    /// The parameters of the session are forgotten.
    Clear,
    /// A parameter is set for the transaction or locally.
    PutTransaction(Seq<char>, ValueView, bool),
    /// What another session has set in its transaction is copied.
    Copy(State),
    /// Another session is merged in.
    Merge(State),
    /// Parameters are reset.
    Reset(Set<Seq<char>>),
    /// Every tracked parameter is reset.
    ResetEverything,
    /// The transaction is committed.
    Commit,
    /// The transaction is rolled back.
    Rollback,
}

impl Event {
    /// What the event makes of a state.
    pub open spec fn happened(self, s: State) -> State {
        match self {
            Event::Put(name, value) => s.put(name, value),
            Event::Clear => s.cleared(),
            Event::PutTransaction(name, value, local) => s.put_transaction(name, value, local),
            Event::Copy(other) => s.with_transaction_of(other),
            Event::Merge(other) => s.merged(other),
            Event::Reset(names) => s.reset_names(names),
            Event::ResetEverything => s.reset_everything(),
            Event::Commit => s.committed(),
            Event::Rollback => s.rolled_back(),
        }
    }
}

/// What a list of events makes of a state.
pub open spec fn all_happened(events: Seq<Event>, s: State) -> State
    decreases events.len(),
{
    if events.len() == 0 {
        s
    } else {
        events.last().happened(all_happened(events.drop_last(), s))
    }
}

/// Whatever happens to a session, its fingerprint is the one of its parameters,
/// as long as its map is not reached into.
pub proof fn law_always_in_step(events: Seq<Event>, s: State)
    requires
        s.in_step(),
    ensures
        all_happened(events, s).in_step(),
    decreases events.len(),
{
    if events.len() > 0 {
        let t = all_happened(events.drop_last(), s);
        law_always_in_step(events.drop_last(), s);
        match events.last() {
            Event::PutTransaction(name, value, local) => {
                law_fingerprint_kept(t, name, value, local, Set::empty(), t);
            },
            Event::Reset(names) => {
                lemma_reset_in_step(t, names);
            },
            Event::ResetEverything => {
                lemma_reset_in_step(t, t.resettable());
            },
            Event::Commit => {
                law_fingerprint_kept(t, Seq::empty(), ValueView::Number(0), false, Set::empty(), t);
            },
            Event::Rollback => {
                law_fingerprint_kept(t, Seq::empty(), ValueView::Number(0), false, Set::empty(), t);
            },
            _ => {},
        }
    }
}

/// Sessions with the same tracked parameters have the same fingerprint.
pub proof fn law_same_parameters_identical(a: State, b: State)
    requires
        a.in_step(),
        b.in_step(),
        tracking::tracked_part(a.params) == tracking::tracked_part(b.params),
    ensures
        a.hash == b.hash,
{
}

/// An untracked parameter has no part in the fingerprint.
pub proof fn law_untracked_ignored(
    params: Map<Seq<char>, ValueView>,
    name: Seq<char>,
    value: ValueView,
)
    requires
        tracking::untracked(name),
    ensures
        fingerprint::fingerprint(params.insert(name, value)) == fingerprint::fingerprint(params),
        fingerprint::fingerprint(params.remove(name)) == fingerprint::fingerprint(params),
{
    assert(tracking::tracked_part(params.insert(name, value)) =~= tracking::tracked_part(params));
    assert(tracking::tracked_part(params.remove(name)) =~= tracking::tracked_part(params));
}

/// The tracked parameters of a session have its fingerprint, and taking them
/// twice is taking them once.
pub proof fn law_tracked_only(s: State)
    ensures
        s.in_step() ==> s.tracked_only().hash == s.hash,
        s.tracked_only().tracked_only() == s.tracked_only(),
        forall|k: Seq<char>| #[trigger]
            s.tracked_only().visible(k) == (if tracking::untracked(k) {
                None
            } else {
                model::lookup(s.params, k)
            }),
{
    let part = tracking::tracked_part(s.params);
    assert(tracking::tracked_part(part) =~= part);
}

/// A session whose parameters are cleared has the fingerprint of one without
/// any.
pub proof fn law_cleared(s: State)
    ensures
        s.cleared().hash == State::empty().hash,
{
    state::lemma_fingerprint_empty();
}

/// The values of a list can be held by a machine.
pub open spec fn all_holdable(s: Seq<(Seq<char>, ValueView)>) -> bool {
    forall|i: int| 0 <= i < s.len() ==> (#[trigger] s[i]).1.holdable()
}

proof fn lemma_text_fed(a: Seq<char>, b: Seq<char>, x: Seq<Seq<u8>>, y: Seq<Seq<u8>>)
    requires
        fingerprint::text_fed(a) + x == fingerprint::text_fed(b) + y,
    ensures
        a == b,
        x == y,
{
    let p = fingerprint::text_fed(a) + x;
    let q = fingerprint::text_fed(b) + y;
    assert(p[0] == q[0]);
    order::lemma_encode_injective(a, b);
    assert(x =~= p.skip(2));
    assert(y =~= q.skip(2));
}

proof fn lemma_texts_fed(
    a: Seq<Seq<char>>,
    b: Seq<Seq<char>>,
    x: Seq<Seq<u8>>,
    y: Seq<Seq<u8>>,
)
    requires
        a.len() == b.len(),
        fingerprint::texts_fed(a) + x == fingerprint::texts_fed(b) + y,
    ensures
        a == b,
        x == y,
    decreases a.len(),
{
    if a.len() == 0 {
        assert(fingerprint::texts_fed(a) + x =~= x);
        assert(fingerprint::texts_fed(b) + y =~= y);
        assert(a =~= b);
    } else {
        let r = fingerprint::texts_fed(a.drop_first());
        let s = fingerprint::texts_fed(b.drop_first());
        assert(fingerprint::texts_fed(a) + x =~= fingerprint::text_fed(a[0]) + (r + x));
        assert(fingerprint::texts_fed(b) + y =~= fingerprint::text_fed(b[0]) + (s + y));
        lemma_text_fed(a[0], b[0], r + x, s + y);
        lemma_texts_fed(a.drop_first(), b.drop_first(), x, y);
        assert(a =~= seq![a[0]] + a.drop_first());
        assert(b =~= seq![b[0]] + b.drop_first());
    }
}

proof fn lemma_word(m: u64, n: u64)
    requires
        fingerprint::word(m) == fingerprint::word(n),
    ensures
        m == n,
{
    vstd::bytes::lemma_auto_spec_u64_to_from_le_bytes();
    assert(vstd::bytes::spec_u64_to_le_bytes(m).len() == 8);
    assert(vstd::bytes::spec_u64_to_le_bytes(n).len() == 8);
}

proof fn lemma_half_word(m: u32, n: u32)
    requires
        vstd::bytes::spec_u32_to_le_bytes(m) == vstd::bytes::spec_u32_to_le_bytes(n),
    ensures
        m == n,
{
    vstd::bytes::lemma_auto_spec_u32_to_from_le_bytes();
    assert(vstd::bytes::spec_u32_to_le_bytes(m).len() == 4);
    assert(vstd::bytes::spec_u32_to_le_bytes(n).len() == 4);
}

proof fn lemma_value_fed(v: ValueView, w: ValueView, x: Seq<Seq<u8>>, y: Seq<Seq<u8>>)
    requires
        v.holdable(),
        w.holdable(),
        fingerprint::value_fed(v) + x == fingerprint::value_fed(w) + y,
    ensures
        v == w,
        x == y,
{
    let p = fingerprint::value_fed(v) + x;
    let q = fingerprint::value_fed(w) + y;
    assert(p[0] == q[0]);
    let kind = |u: ValueView| -> u64
        {
            match u {
                ValueView::Text(_) => 0u64,
                ValueView::List(_) => 1u64,
                ValueView::Number(_) => 2u64,
            }
        };
    assert(p[0] == fingerprint::word(kind(v)));
    assert(q[0] == fingerprint::word(kind(w)));
    lemma_word(kind(v), kind(w));
    match (v, w) {
        (ValueView::Text(a), ValueView::Text(b)) => {
            assert(fingerprint::text_fed(a) + x =~= p.skip(1));
            assert(fingerprint::text_fed(b) + y =~= q.skip(1));
            lemma_text_fed(a, b, x, y);
        },
        (ValueView::List(a), ValueView::List(b)) => {
            assert(p[1] == q[1]);
            lemma_word(a.len() as u64, b.len() as u64);
            assert(fingerprint::texts_fed(a) + x =~= p.skip(2));
            assert(fingerprint::texts_fed(b) + y =~= q.skip(2));
            lemma_texts_fed(a, b, x, y);
        },
        (ValueView::Number(a), ValueView::Number(b)) => {
            assert(p[1] == q[1]);
            let i = a as i32;
            let j = b as i32;
            let m = #[verifier::truncate] (i as u32);
            let n = #[verifier::truncate] (j as u32);
            assert(fingerprint::value_fed(v)[1] == vstd::bytes::spec_u32_to_le_bytes(m));
            assert(fingerprint::value_fed(w)[1] == vstd::bytes::spec_u32_to_le_bytes(n));
            lemma_half_word(m, n);
            assert(i == j) by (bit_vector)
                requires
                    i as u32 == m,
                    j as u32 == m,
            ;
            assert(x =~= p.skip(2));
            assert(y =~= q.skip(2));
        },
        _ => {},
    }
}

/// What is fed to the hasher tells any two lists of parameters apart: only a
/// collision of the hash itself gives different parameters one fingerprint.
pub proof fn law_nothing_else_collides(
    a: Seq<(Seq<char>, ValueView)>,
    b: Seq<(Seq<char>, ValueView)>,
)
    requires
        all_holdable(a),
        all_holdable(b),
        fingerprint::entries_fed(a) == fingerprint::entries_fed(b),
    ensures
        a == b,
    decreases a.len(),
{
    if a.len() == 0 {
        if b.len() > 0 {
            assert(fingerprint::entries_fed(b).len() > 0);
        }
        assert(a =~= b);
    } else if b.len() == 0 {
        assert(fingerprint::entries_fed(a).len() > 0);
    } else {
        let r = fingerprint::entries_fed(a.drop_first());
        let s = fingerprint::entries_fed(b.drop_first());
        assert(fingerprint::entries_fed(a) =~= fingerprint::text_fed(a[0].0) + (
        fingerprint::value_fed(a[0].1) + r));
        assert(fingerprint::entries_fed(b) =~= fingerprint::text_fed(b[0].0) + (
        fingerprint::value_fed(b[0].1) + s));
        lemma_text_fed(
            a[0].0,
            b[0].0,
            fingerprint::value_fed(a[0].1) + r,
            fingerprint::value_fed(b[0].1) + s,
        );
        lemma_value_fed(a[0].1, b[0].1, r, s);
        assert forall|i: int| 0 <= i < a.drop_first().len() implies (
        #[trigger] a.drop_first()[i]).1.holdable() by {
            assert(a.drop_first()[i] == a[i + 1]);
        }
        assert forall|i: int| 0 <= i < b.drop_first().len() implies (
        #[trigger] b.drop_first()[i]).1.holdable() by {
            assert(b.drop_first()[i] == b[i + 1]);
        }
        law_nothing_else_collides(a.drop_first(), b.drop_first());
        assert(a =~= seq![a[0]] + a.drop_first());
        assert(b =~= seq![b[0]] + b.drop_first());
    }
}

/// Sessions whose tracked parameters are fed alike to the hasher have the same
/// tracked parameters.
pub proof fn law_fed_alike_same_parameters(
    a: Map<Seq<char>, ValueView>,
    b: Map<Seq<char>, ValueView>,
)
    requires
        a.dom().finite(),
        b.dom().finite(),
        forall|k: Seq<char>| #[trigger] a.contains_key(k) ==> a[k].holdable(),
        forall|k: Seq<char>| #[trigger] b.contains_key(k) ==> b[k].holdable(),
        fingerprint::entries_fed(model::in_order(tracking::tracked_part(a)))
            == fingerprint::entries_fed(model::in_order(tracking::tracked_part(b))),
    ensures
        tracking::tracked_part(a) == tracking::tracked_part(b),
{
    lemma_part_listed(a);
    lemma_part_listed(b);
    law_nothing_else_collides(
        model::in_order(tracking::tracked_part(a)),
        model::in_order(tracking::tracked_part(b)),
    );
}

proof fn lemma_part_listed(m: Map<Seq<char>, ValueView>)
    requires
        m.dom().finite(),
        forall|k: Seq<char>| #[trigger] m.contains_key(k) ==> m[k].holdable(),
    ensures
        model::to_map(model::in_order(tracking::tracked_part(m))) == tracking::tracked_part(m),
        all_holdable(model::in_order(tracking::tracked_part(m))),
{
    let part = tracking::tracked_part(m);
    vstd::set_lib::lemma_set_subset_finite(m.dom(), part.dom());
    model::lemma_in_order_lists(part);
    let list = model::in_order(part);
    assert forall|i: int| 0 <= i < list.len() implies (#[trigger] list[i]).1.holdable() by {
        model::lemma_to_map_at(list, i);
        assert(part.contains_key(list[i].0));
        assert(m.contains_key(list[i].0));
    }
}

/// Reads a text from what a hasher was fed. Gives the text and what follows.
pub open spec fn fed_text(f: Seq<Seq<u8>>) -> Option<(Seq<char>, Seq<Seq<u8>>)> {
    if f.len() >= 2 && utf8::valid_utf8(f[0]) && f[1] == seq![255u8] {
        Some((utf8::decode_utf8(f[0]), f.skip(2)))
    } else {
        None
    }
}

/// Reads `n` texts from what a hasher was fed.
pub open spec fn fed_texts(f: Seq<Seq<u8>>, n: nat) -> Option<(Seq<Seq<char>>, Seq<Seq<u8>>)>
    decreases n,
{
    if n == 0 {
        Some((Seq::empty(), f))
    } else {
        match fed_text(f) {
            Some((first, after)) => match fed_texts(after, (n - 1) as nat) {
                Some((others, end)) => Some((seq![first] + others, end)),
                None => None,
            },
            None => None,
        }
    }
}

/// Reads a value from what a hasher was fed: its kind, then what it holds.
pub open spec fn fed_value(f: Seq<Seq<u8>>) -> Option<(ValueView, Seq<Seq<u8>>)> {
    if f.len() < 2 || f[0].len() != 8 {
        None
    } else {
        let kind = vstd::bytes::spec_u64_from_le_bytes(f[0]);
        if kind == 0 {
            match fed_text(f.skip(1)) {
                Some((text, end)) => Some((ValueView::Text(text), end)),
                None => None,
            }
        } else if kind == 1 && f[1].len() == 8 {
            match fed_texts(f.skip(2), vstd::bytes::spec_u64_from_le_bytes(f[1]) as nat) {
                Some((texts, end)) => Some((ValueView::List(texts), end)),
                None => None,
            }
        } else if kind == 2 && f[1].len() == 4 {
            let bits = vstd::bytes::spec_u32_from_le_bytes(f[1]) as int;
            Some(
                (
                    ValueView::Number(
                        if bits < 0x8000_0000 {
                            bits
                        } else {
                            bits - 0x1_0000_0000
                        },
                    ),
                    f.skip(2),
                ),
            )
        } else {
            None
        }
    }
}

/// Reads parameters, one after another to the end, from what a hasher was fed.
pub open spec fn fed_parameters(f: Seq<Seq<u8>>) -> Option<Seq<(Seq<char>, ValueView)>>
    decreases f.len(),
{
    if f.len() == 0 {
        Some(Seq::empty())
    } else {
        match fed_text(f) {
            Some((name, after)) => match fed_value(after) {
                Some((value, end)) => if end.len() < f.len() {
                    match fed_parameters(end) {
                        Some(others) => Some(seq![(name, value)] + others),
                        None => None,
                    }
                } else {
                    None
                },
                None => None,
            },
            None => None,
        }
    }
}

/// What a hasher was fed tells the tracked parameters of a set: each of them
/// with its value, by increasing name, and no other.
pub open spec fn tells(f: Seq<Seq<u8>>, params: Map<Seq<char>, ValueView>) -> bool {
    match fed_parameters(f) {
        Some(list) => {
            &&& forall|i: int, j: int|
                0 <= i < j < list.len() ==> order::before(
                    (#[trigger] list[i]).0,
                    (#[trigger] list[j]).0,
                )
            &&& forall|k: Seq<char>, v: ValueView| #[trigger]
                list.contains((k, v)) <==> params.contains_key(k) && params[k] == v
                    && !tracking::untracked(k)
        },
        None => false,
    }
}

proof fn lemma_read_text(s: Seq<char>, after: Seq<Seq<u8>>)
    ensures
        fed_text(fingerprint::text_fed(s) + after) == Some((s, after)),
{
    let f = fingerprint::text_fed(s) + after;
    utf8::encode_utf8_valid_utf8(s);
    utf8::encode_utf8_decode_utf8(s);
    assert(f[0] == utf8::encode_utf8(s));
    assert(f[1] =~= seq![255u8]);
    assert(f.skip(2) =~= after);
}

proof fn lemma_read_texts(list: Seq<Seq<char>>, after: Seq<Seq<u8>>)
    ensures
        fed_texts(fingerprint::texts_fed(list) + after, list.len()) == Some((list, after)),
    decreases list.len(),
{
    if list.len() == 0 {
        assert(fingerprint::texts_fed(list) + after =~= after);
        assert(list =~= Seq::empty());
    } else {
        let rest = fingerprint::texts_fed(list.drop_first()) + after;
        lemma_read_texts(list.drop_first(), after);
        lemma_read_text(list[0], rest);
        assert(fingerprint::texts_fed(list) + after =~= fingerprint::text_fed(list[0]) + rest);
        assert(list =~= seq![list[0]] + list.drop_first());
    }
}

proof fn lemma_read_word(n: u64)
    ensures
        fingerprint::word(n).len() == 8,
        vstd::bytes::spec_u64_from_le_bytes(fingerprint::word(n)) == n,
{
    vstd::bytes::lemma_auto_spec_u64_to_from_le_bytes();
    assert(vstd::bytes::spec_u64_to_le_bytes(n).len() == 8);
}

proof fn lemma_read_value(v: ValueView, after: Seq<Seq<u8>>)
    requires
        v.holdable(),
    ensures
        fed_value(fingerprint::value_fed(v) + after) == Some((v, after)),
        fingerprint::value_fed(v).len() > 0,
{
    let f = fingerprint::value_fed(v) + after;
    lemma_read_word(0);
    lemma_read_word(1);
    lemma_read_word(2);
    match v {
        ValueView::Text(s) => {
            assert(f[0] == fingerprint::word(0));
            assert(f.skip(1) =~= fingerprint::text_fed(s) + after);
            lemma_read_text(s, after);
        },
        ValueView::List(t) => {
            assert(f[0] == fingerprint::word(1));
            assert(f[1] == fingerprint::word(t.len() as u64));
            lemma_read_word(t.len() as u64);
            assert(f.skip(2) =~= fingerprint::texts_fed(t) + after);
            lemma_read_texts(t, after);
        },
        ValueView::Number(n) => {
            let i = n as i32;
            let m = #[verifier::truncate] (i as u32);
            assert(f[0] == fingerprint::word(2));
            assert(f[1] == vstd::bytes::spec_u32_to_le_bytes(m));
            vstd::bytes::lemma_auto_spec_u32_to_from_le_bytes();
            assert(vstd::bytes::spec_u32_to_le_bytes(m).len() == 4);
            assert(m < 0x8000_0000 ==> m as i64 == i as i64) by (bit_vector)
                requires
                    m == i as u32,
            ;
            assert(m >= 0x8000_0000 ==> m as i64 - 0x1_0000_0000i64 == i as i64) by (bit_vector)
                requires
                    m == i as u32,
            ;
            assert(f.skip(2) =~= after);
        },
    }
}

proof fn lemma_read_parameters(list: Seq<(Seq<char>, ValueView)>)
    requires
        all_holdable(list),
    ensures
        fed_parameters(fingerprint::entries_fed(list)) == Some(list),
    decreases list.len(),
{
    if list.len() == 0 {
        assert(list =~= Seq::empty());
    } else {
        let others = list.drop_first();
        assert forall|i: int| 0 <= i < others.len() implies (#[trigger] others[i]).1.holdable() by {
            assert(others[i] == list[i + 1]);
        }
        lemma_read_parameters(others);
        let end = fingerprint::entries_fed(others);
        let after = fingerprint::value_fed(list[0].1) + end;
        lemma_read_value(list[0].1, end);
        lemma_read_text(list[0].0, after);
        assert(fingerprint::entries_fed(list) =~= fingerprint::text_fed(list[0].0) + after);
        assert(list =~= seq![list[0]] + others);
    }
}

/// The fingerprint is the hash of a feed that tells every tracked parameter and
/// its value, and is zero where there is none.
pub proof fn law_fingerprint_covers(params: Map<Seq<char>, ValueView>)
    requires
        params.dom().finite(),
        forall|k: Seq<char>| #[trigger] params.contains_key(k) ==> params[k].holdable(),
    ensures
        (forall|k: Seq<char>| #[trigger] params.contains_key(k) ==> tracking::untracked(k))
            ==> fingerprint::fingerprint(params) == 0,
        (exists|k: Seq<char>| #[trigger] params.contains_key(k) && !tracking::untracked(k))
            ==> exists|f: Seq<Seq<u8>>| #[trigger]
            tells(f, params) && fingerprint::fingerprint(params) == <DefaultHasher as vstd::std_specs::hash::DefaultHasherAdditionalSpecFns>::spec_finish(
                f,
            ),
{
    let part = tracking::tracked_part(params);
    lemma_part_listed(params);
    vstd::set_lib::lemma_set_subset_finite(params.dom(), part.dom());
    model::lemma_in_order_lists(part);
    let list = model::in_order(part);
    lemma_read_parameters(list);
    let f = fingerprint::entries_fed(list);
    assert forall|k: Seq<char>, v: ValueView| #[trigger]
        list.contains((k, v)) <==> params.contains_key(k) && params[k] == v && !tracking::untracked(
            k,
        ) by {
        if list.contains((k, v)) {
            let i = choose|i: int| 0 <= i < list.len() && list[i] == (k, v);
            model::lemma_to_map_at(list, i);
        }
        if part.contains_key(k) {
            assert(model::has_name(list, k));
            let i = model::position_of(list, k);
            model::lemma_to_map_at(list, i);
            assert(list[i] == (k, part[k]));
        }
    }
    assert(tells(f, params));
    if list.len() > 0 {
        model::lemma_to_map_at(list, 0);
        assert(params.contains_key(list[0].0));
    }
    if exists|k: Seq<char>| #[trigger] params.contains_key(k) && !tracking::untracked(k) {
        let k = choose|k: Seq<char>| #[trigger] params.contains_key(k) && !tracking::untracked(k);
        assert(list.contains((k, params[k])));
    }
}

/// Two sets of parameters agree on those that are tracked.
pub open spec fn agree(
    a: Map<Seq<char>, ValueView>,
    b: Map<Seq<char>, ValueView>,
) -> bool {
    forall|k: Seq<char>|
        !tracking::untracked(k) ==> (#[trigger] a.contains_key(k) <==> b.contains_key(k)) && (
        a.contains_key(k) ==> a[k] == b[k])
}

/// A feed tells the tracked parameters of one set only.
proof fn lemma_tells_one(
    f: Seq<Seq<u8>>,
    a: Map<Seq<char>, ValueView>,
    b: Map<Seq<char>, ValueView>,
)
    requires
        tells(f, a),
        tells(f, b),
    ensures
        agree(a, b),
{
    let list = fed_parameters(f)->Some_0;
    assert forall|k: Seq<char>| !tracking::untracked(k) implies (#[trigger] a.contains_key(k)
        <==> b.contains_key(k)) && (a.contains_key(k) ==> a[k] == b[k]) by {
        if a.contains_key(k) {
            assert(list.contains((k, a[k])));
        }
        if b.contains_key(k) {
            assert(list.contains((k, b[k])));
        }
    }
}

/// Sets of parameters with one fingerprint agree on every tracked parameter,
/// unless the hash collides: two different feeds, each of which tells one of
/// the sets, have one hash, or the hash of one of them is zero where the other
/// set has no tracked parameter.
pub proof fn law_same_fingerprint_agree(
    a: Map<Seq<char>, ValueView>,
    b: Map<Seq<char>, ValueView>,
)
    requires
        a.dom().finite(),
        b.dom().finite(),
        forall|k: Seq<char>| #[trigger] a.contains_key(k) ==> a[k].holdable(),
        forall|k: Seq<char>| #[trigger] b.contains_key(k) ==> b[k].holdable(),
        fingerprint::fingerprint(a) == fingerprint::fingerprint(b),
    ensures
        agree(a, b) || (exists|f: Seq<Seq<u8>>, g: Seq<Seq<u8>>| #[trigger]
            tells(f, a) && #[trigger] tells(g, b) && f != g && <DefaultHasher as vstd::std_specs::hash::DefaultHasherAdditionalSpecFns>::spec_finish(
                f,
            ) == <DefaultHasher as vstd::std_specs::hash::DefaultHasherAdditionalSpecFns>::spec_finish(
                g,
            )) || (agree(a, Map::empty()) && exists|g: Seq<Seq<u8>>| #[trigger]
            tells(g, b) && <DefaultHasher as vstd::std_specs::hash::DefaultHasherAdditionalSpecFns>::spec_finish(
                g,
            ) == 0) || (agree(b, Map::empty()) && exists|f: Seq<Seq<u8>>| #[trigger]
            tells(f, a) && <DefaultHasher as vstd::std_specs::hash::DefaultHasherAdditionalSpecFns>::spec_finish(
                f,
            ) == 0),
{
    law_fingerprint_covers(a);
    law_fingerprint_covers(b);
    let any_a = exists|k: Seq<char>| #[trigger] a.contains_key(k) && !tracking::untracked(k);
    let any_b = exists|k: Seq<char>| #[trigger] b.contains_key(k) && !tracking::untracked(k);
    if any_a && any_b {
        let f = choose|f: Seq<Seq<u8>>| #[trigger]
            tells(f, a) && fingerprint::fingerprint(a) == <DefaultHasher as vstd::std_specs::hash::DefaultHasherAdditionalSpecFns>::spec_finish(
                f,
            );
        let g = choose|g: Seq<Seq<u8>>| #[trigger]
            tells(g, b) && fingerprint::fingerprint(b) == <DefaultHasher as vstd::std_specs::hash::DefaultHasherAdditionalSpecFns>::spec_finish(
                g,
            );
        if f == g {
            lemma_tells_one(f, a, b);
        }
    } else {
        if !any_a {
            assert(agree(a, Map::empty()));
        }
        if !any_b {
            assert(agree(b, Map::empty()));
        }
        if !any_a && !any_b {
            assert(agree(a, b)) by {
                assert forall|k: Seq<char>| !tracking::untracked(k) implies (
                #[trigger] a.contains_key(k) <==> b.contains_key(k)) && (a.contains_key(k) ==> a[k]
                    == b[k]) by {}
            }
        }
    }
}

/// Sets of parameters that agree on those that are tracked have one
/// fingerprint.
pub proof fn law_agree_same_fingerprint(
    a: Map<Seq<char>, ValueView>,
    b: Map<Seq<char>, ValueView>,
)
    requires
        agree(a, b),
    ensures
        fingerprint::fingerprint(a) == fingerprint::fingerprint(b),
{
    assert forall|k: Seq<char>| !tracking::untracked(k) && #[trigger]
        b.contains_key(k) implies a.contains_key(k) by {
        assert(a.contains_key(k) <==> b.contains_key(k));
    }
    assert(tracking::tracked_part(a) =~= tracking::tracked_part(b));
}

/// The parameters that are left alone are these, and no others.
pub proof fn law_untracked_names(name: Seq<char>)
    ensures
        tracking::untracked(name) <==> seq![
            "client_encoding"@,
            "database"@,
            "in_hot_standby"@,
            "integer_datetimes"@,
            "is_superuser"@,
            "pgdog.role"@,
            "pgdog.shard"@,
            "pgdog.sharding_key"@,
            "replication"@,
            "server_encoding"@,
            "server_version"@,
            "session_authorization"@,
            "user"@,
        ].contains(name),
{
    let names = seq![
        "client_encoding"@,
        "database"@,
        "in_hot_standby"@,
        "integer_datetimes"@,
        "is_superuser"@,
        "pgdog.role"@,
        "pgdog.shard"@,
        "pgdog.sharding_key"@,
        "replication"@,
        "server_encoding"@,
        "server_version"@,
        "session_authorization"@,
        "user"@,
    ];
    assert(names[0] == "client_encoding"@);
    assert(names[1] == "database"@);
    assert(names[2] == "in_hot_standby"@);
    assert(names[3] == "integer_datetimes"@);
    assert(names[4] == "is_superuser"@);
    assert(names[5] == "pgdog.role"@);
    assert(names[6] == "pgdog.shard"@);
    assert(names[7] == "pgdog.sharding_key"@);
    assert(names[8] == "replication"@);
    assert(names[9] == "server_encoding"@);
    assert(names[10] == "server_version"@);
    assert(names[11] == "session_authorization"@);
    assert(names[12] == "user"@);
    if names.contains(name) {
        let i = choose|i: int| 0 <= i < names.len() && names[i] == name;
    }
}

} // verus!
