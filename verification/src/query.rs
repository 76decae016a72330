//! Statements that change the parameters of a session.
use vstd::prelude::*;

use crate::model;
use crate::ordered;
use crate::value::{ParameterValue, ValueView};

verus! {

/// A statement to send to a server.
#[derive(Debug)]
pub struct Query {
    query: String,
}

impl View for Query {
    type V = Seq<char>;

    closed spec fn view(&self) -> Seq<char> {
        self.query@
    }
}

impl Clone for Query {
    fn clone(&self) -> (res: Self)
        ensures
            res@ == self@,
    {
        Query { query: self.query.clone() }
    }
}

impl Query {
    /// The statement with this text.
    pub fn new(query: String) -> (res: Self)
        ensures
            res@ == query@,
    {
        Query { query }
    }

    /// The text of the statement.
    pub fn query(&self) -> (res: &str)
        ensures
            res@ == self@,
    {
        self.query.as_str()
    }
}

/// The outcome of a merge: the statements it takes, and how many parameters
/// they change.
#[derive(Debug)]
pub struct MergeResult {
    pub queries: Vec<Query>,
    pub changed_params: usize,
}

impl Clone for MergeResult {
    fn clone(&self) -> (res: Self)
        ensures
            statements(res.queries@) == statements(self.queries@),
            res.changed_params == self.changed_params,
    {
        let queries = self.queries.clone();
        assert(statements(queries@) =~= statements(self.queries@));
        MergeResult { queries, changed_params: self.changed_params }
    }
}

/// A change to one parameter of a session.
pub enum Change {
    /// Back to what the server has by itself.
    Reset(Seq<char>),
    /// A new value.
    Assign(Seq<char>, ValueView),
    /// A new value until the transaction ends.
    AssignLocal(Seq<char>, ValueView),
}

impl Change {
    /// The statement that makes the change.
    pub open spec fn statement(self) -> Seq<char> {
        match self {
            Change::Reset(name) => "RESET \""@ + name + "\""@,
            Change::Assign(name, value) => "SET"@ + " \""@ + name + "\" TO "@ + value.rendered(),
            Change::AssignLocal(name, value) => "SET LOCAL"@ + " \""@ + name + "\" TO "@
                + value.rendered(),
        }
    }

    /// The parameter that is changed.
    pub open spec fn name(self) -> Seq<char> {
        match self {
            Change::Reset(name) => name,
            Change::Assign(name, _) => name,
            Change::AssignLocal(name, _) => name,
        }
    }

    /// What the change makes of the parameters that a session keeps. A local
    /// value is gone with its transaction.
    pub open spec fn applied(self, params: Map<Seq<char>, ValueView>) -> Map<
        Seq<char>,
        ValueView,
    > {
        match self {
            Change::Reset(name) => params.remove(name),
            Change::Assign(name, value) => params.insert(name, value),
            Change::AssignLocal(_, _) => params,
        }
    }
}

/// What a list of changes makes of the parameters that a session keeps.
pub open spec fn all_applied(
    changes: Seq<Change>,
    params: Map<Seq<char>, ValueView>,
) -> Map<Seq<char>, ValueView>
    decreases changes.len(),
{
    if changes.len() == 0 {
        params
    } else {
        changes.last().applied(all_applied(changes.drop_last(), params))
    }
}

/// The texts of a list of statements.
pub open spec fn statements(queries: Seq<Query>) -> Seq<Seq<char>> {
    queries.map_values(|q: Query| q@)
}

/// The statements that make a list of changes.
pub open spec fn statements_of(changes: Seq<Change>) -> Seq<Seq<char>> {
    changes.map_values(|c: Change| c.statement())
}

/// Sets every parameter of a list.
pub open spec fn set_all(entries: Seq<(Seq<char>, ValueView)>) -> Seq<Change> {
    entries.map_values(|e: (Seq<char>, ValueView)| Change::Assign(e.0, e.1))
}

/// Sets every parameter of a list until the transaction ends.
pub open spec fn set_all_local(entries: Seq<(Seq<char>, ValueView)>) -> Seq<Change> {
    entries.map_values(|e: (Seq<char>, ValueView)| Change::AssignLocal(e.0, e.1))
}

/// Resets every parameter of a list.
pub open spec fn reset_all(entries: Seq<(Seq<char>, ValueView)>) -> Seq<Change> {
    entries.map_values(|e: (Seq<char>, ValueView)| Change::Reset(e.0))
}

/// The entries of a list whose names a map does not have.
pub open spec fn dropped(
    entries: Seq<(Seq<char>, ValueView)>,
    wanted: Map<Seq<char>, ValueView>,
) -> Seq<(Seq<char>, ValueView)> {
    entries.filter(|e: (Seq<char>, ValueView)| !wanted.contains_key(e.0))
}

/// The entries of a list that a map does not hold with the same value.
pub open spec fn differing(
    entries: Seq<(Seq<char>, ValueView)>,
    current: Map<Seq<char>, ValueView>,
) -> Seq<(Seq<char>, ValueView)> {
    entries.filter(|e: (Seq<char>, ValueView)| model::lookup(current, e.0) != Some(e.1))
}

/// The changes that turn `current` into `wanted`.
pub open spec fn difference(
    wanted: Map<Seq<char>, ValueView>,
    current: Map<Seq<char>, ValueView>,
) -> Seq<Change> {
    reset_all(dropped(model::in_order(current), wanted)) + set_all(
        differing(model::in_order(wanted), current),
    )
}

/// The statement that sets a parameter.
pub fn set_query(name: &str, value: &ParameterValue, local: bool) -> (res: Query)
    ensures
        res@ == (if local {
            Change::AssignLocal(name@, value@)
        } else {
            Change::Assign(name@, value@)
        }).statement(),
{
    let mut text = String::new();
    text.append(
        if local {
            "SET LOCAL"
        } else {
            "SET"
        },
    );
    text.append(" \"");
    text.append(name);
    text.append("\" TO ");
    text.append(value.to_string().as_str());
    assert(text@ =~= (if local {
        Change::AssignLocal(name@, value@)
    } else {
        Change::Assign(name@, value@)
    }).statement());
    Query::new(text)
}

/// The statement that resets a parameter.
pub fn reset_query(name: &str) -> (res: Query)
    ensures
        res@ == Change::Reset(name@).statement(),
{
    let mut text = String::new();
    text.append("RESET \"");
    text.append(name);
    text.append("\"");
    assert(text@ =~= Change::Reset(name@).statement());
    Query::new(text)
}

/// Adds the statements that set the parameters of a list.
pub(crate) fn push_sets(
    queries: &mut Vec<Query>,
    entries: &Vec<(String, ParameterValue)>,
    local: bool,
)
    ensures
        statements(final(queries)@) == statements(old(queries)@) + statements_of(
            if local {
                set_all_local(ordered::listed(entries@))
            } else {
                set_all(ordered::listed(entries@))
            },
        ),
{
    let ghost list = ordered::listed(entries@);
    let ghost all = if local {
        set_all_local(list)
    } else {
        set_all(list)
    };
    let ghost start = queries@;
    let mut i: usize = 0;
    while i < entries.len()
        invariant
            i <= entries.len(),
            list == ordered::listed(entries@),
            all == (if local {
                set_all_local(list)
            } else {
                set_all(list)
            }),
            statements(queries@) == statements(start) + statements_of(all.take(i as int)),
        decreases entries.len() - i,
    {
        let ghost before = queries@;
        queries.push(set_query(entries[i].0.as_str(), &entries[i].1, local));
        assert(statements(queries@) =~= statements(before).push(all[i as int].statement()));
        assert(statements(queries@) =~= statements(start) + statements_of(all.take(i + 1)));
        i += 1;
    }
    assert(all.take(i as int) =~= all);
    assert(statements(queries@) =~= statements(start) + statements_of(all));
}

/// Adds the statements that reset the parameters of a list, but for those
/// that are wanted.
pub(crate) fn push_resets(
    queries: &mut Vec<Query>,
    entries: &Vec<(String, ParameterValue)>,
    wanted: &ordered::ParameterMap,
)
    ensures
        statements(final(queries)@) == statements(old(queries)@) + statements_of(
            reset_all(dropped(ordered::listed(entries@), wanted@)),
        ),
{
    let ghost list = ordered::listed(entries@);
    let ghost start = queries@;
    let ghost keep = |e: (Seq<char>, ValueView)| !wanted@.contains_key(e.0);
    let mut i: usize = 0;
    while i < entries.len()
        invariant
            i <= entries.len(),
            list == ordered::listed(entries@),
            keep == (|e: (Seq<char>, ValueView)| !wanted@.contains_key(e.0)),
            statements(queries@) == statements(start) + statements_of(
                reset_all(list.take(i as int).filter(keep)),
            ),
        decreases entries.len() - i,
    {
        let ghost before = queries@;
        let name = entries[i].0.as_str();
        proof {
            reveal(Seq::filter);
            assert(list.take(i + 1).drop_last() =~= list.take(i as int));
        }
        if !wanted.contains_key(name) {
            queries.push(reset_query(name));
            assert(statements(queries@) =~= statements(before).push(
                Change::Reset(name@).statement(),
            ));
        }
        assert(statements(queries@) =~= statements(start) + statements_of(
            reset_all(list.take(i + 1).filter(keep)),
        ));
        i += 1;
    }
    assert(list.take(i as int) =~= list);
}

/// Adds the statements that set the parameters of a list, but for those that
/// have their value already.
pub(crate) fn push_differing(
    queries: &mut Vec<Query>,
    entries: &Vec<(String, ParameterValue)>,
    current: &ordered::ParameterMap,
)
    ensures
        statements(final(queries)@) == statements(old(queries)@) + statements_of(
            set_all(differing(ordered::listed(entries@), current@)),
        ),
{
    let ghost list = ordered::listed(entries@);
    let ghost start = queries@;
    let ghost keep = |e: (Seq<char>, ValueView)| model::lookup(current@, e.0) != Some(e.1);
    let mut i: usize = 0;
    while i < entries.len()
        invariant
            i <= entries.len(),
            list == ordered::listed(entries@),
            keep == (|e: (Seq<char>, ValueView)| model::lookup(current@, e.0) != Some(e.1)),
            statements(queries@) == statements(start) + statements_of(
                set_all(list.take(i as int).filter(keep)),
            ),
        decreases entries.len() - i,
    {
        let ghost before = queries@;
        let name = entries[i].0.as_str();
        let value = &entries[i].1;
        proof {
            reveal(Seq::filter);
            assert(list.take(i + 1).drop_last() =~= list.take(i as int));
        }
        let same = match current.get(name) {
            Some(v) => *v == *value,
            None => false,
        };
        if !same {
            queries.push(set_query(name, value, false));
            assert(statements(queries@) =~= statements(before).push(
                Change::Assign(name@, value@).statement(),
            ));
        }
        assert(statements(queries@) =~= statements(start) + statements_of(
            set_all(list.take(i + 1).filter(keep)),
        ));
        i += 1;
    }
    assert(list.take(i as int) =~= list);
}

} // verus!
