//! Laws of reading: a server that reads a statement learns what it is to change.
use vstd::prelude::*;

use crate::laws::quoting;
use crate::query;
use crate::query::{Change, Query};
use crate::text;
use crate::value::ValueView;

verus! {

/// One item of the value in a statement.
pub enum Item {
    /// A quoted identifier or a string literal.
    Text(Seq<char>),
    /// A number.
    Number(int),
}

/// What a statement tells a server to do.
pub enum Command {
    /// `RESET` and a name.
    Reset(Seq<char>),
    /// `SET`, a name and the items of its value.
    Assign(Seq<char>, Seq<Item>),
    /// `SET LOCAL`, a name and the items of its value.
    AssignLocal(Seq<char>, Seq<Item>),
}

/// Reads a word. Gives what follows.
pub open spec fn word(s: Seq<char>, w: Seq<char>) -> Option<Seq<char>> {
    if s.len() >= w.len() && s.take(w.len() as int) == w {
        Some(s.skip(w.len() as int))
    } else {
        None
    }
}

/// Reads a quoted identifier. Gives its name and what follows.
pub open spec fn identifier(s: Seq<char>) -> Option<(Seq<char>, Seq<char>)> {
    if s.len() > 0 && s[0] == '"' {
        quoting::token(s)
    } else {
        None
    }
}

/// Reads quoted items with commas between them, one at least, to the end.
pub open spec fn items(s: Seq<char>) -> Option<Seq<Item>>
    decreases s.len(),
{
    match quoting::token(s) {
        None => None,
        Some((first, after)) => if after.len() == 0 {
            Some(seq![Item::Text(first)])
        } else if 2 <= after.len() <= s.len() && after[0] == ',' && after[1] == ' ' {
            match items(after.skip(2)) {
                Some(others) => Some(seq![Item::Text(first)] + others),
                None => None,
            }
        } else {
            None
        },
    }
}

/// Reads a value to the end: quoted items, a number or nothing.
pub open spec fn value_items(s: Seq<char>) -> Option<Seq<Item>> {
    if s.len() == 0 {
        Some(Seq::empty())
    } else if s[0] == '"' || s[0] == '\'' {
        items(s)
    } else {
        match quoting::number(s) {
            Some(i) => Some(seq![Item::Number(i)]),
            None => None,
        }
    }
}

/// Reads a name, the word `TO` and a value to the end.
pub open spec fn assignment(s: Seq<char>) -> Option<(Seq<char>, Seq<Item>)> {
    match identifier(s) {
        Some((name, after)) => match word(after, seq![' ', 'T', 'O', ' ']) {
            Some(rest) => match value_items(rest) {
                Some(list) => Some((name, list)),
                None => None,
            },
            None => None,
        },
        None => None,
    }
}

/// Reads a statement to the end.
pub open spec fn command(s: Seq<char>) -> Option<Command> {
    if let Some(rest) = word(s, seq!['R', 'E', 'S', 'E', 'T', ' ']) {
        match identifier(rest) {
            Some((name, after)) => if after.len() == 0 {
                Some(Command::Reset(name))
            } else {
                None
            },
            None => None,
        }
    } else if let Some(rest) = word(s, seq!['S', 'E', 'T', ' ', 'L', 'O', 'C', 'A', 'L', ' ']) {
        match assignment(rest) {
            Some((name, list)) => Some(Command::AssignLocal(name, list)),
            None => None,
        }
    } else if let Some(rest) = word(s, seq!['S', 'E', 'T', ' ']) {
        match assignment(rest) {
            Some((name, list)) => Some(Command::Assign(name, list)),
            None => None,
        }
    } else {
        None
    }
}

/// The items by which a server learns of a value: one for a text, one for each
/// item of a list, and a number for a number.
pub open spec fn told_by(value: ValueView, list: Seq<Item>) -> bool {
    match value {
        ValueView::Text(s) => {
            &&& list.len() == 1
            &&& list[0] matches Item::Text(t) && quoting::stands_for(s, t)
        },
        ValueView::List(texts) => {
            &&& list.len() == texts.len()
            &&& forall|i: int|
                0 <= i < texts.len() ==> (#[trigger] list[i] matches Item::Text(t)
                    && quoting::stands_for(texts[i], t))
        },
        ValueView::Number(n) => list == seq![Item::Number(n)],
    }
}

proof fn lemma_word(w: Seq<char>, rest: Seq<char>)
    ensures
        word(w + rest, w) == Some(rest),
{
    assert((w + rest).take(w.len() as int) =~= w);
    assert((w + rest).skip(w.len() as int) =~= rest);
}

proof fn lemma_identifier(name: Seq<char>, after: Seq<char>)
    requires
        !name.contains('"'),
        after.len() > 0 ==> after[0] != '"',
    ensures
        identifier(seq!['"'] + name + seq!['"'] + after) == Some((name, after)),
{
    let s = seq!['"'] + name + seq!['"'] + after;
    text::lemma_doubled_plain(Seq::empty(), name, '"');
    assert(text::doubled(Seq::empty(), '"') + name =~= name);
    assert(Seq::empty() + name =~= name);
    quoting::law_doubled_read_back(name, '"', after);
    assert(s.skip(1) =~= text::doubled(name, '"') + seq!['"'] + after);
}

proof fn lemma_items(texts: Seq<Seq<char>>, list: Seq<Item>)
    requires
        texts.len() > 0,
        told_by(ValueView::List(texts), list),
    ensures
        items(ValueView::List(texts).rendered()) == Some(list),
        ValueView::List(texts).rendered().len() > 0,
        ValueView::List(texts).rendered()[0] == '"' || ValueView::List(texts).rendered()[0] == '\'',
    decreases texts.len(),
{
    let r = ValueView::List(texts).rendered();
    let others = texts.skip(1);
    let q = text::quoted(texts[0]);
    assert(texts =~= seq![texts[0]] + others);
    quoting::law_value_written(texts[0], others);
    let t = list[0]->Text_0;
    assert(quoting::stands_for(texts[0], t));
    if texts.len() == 1 {
        assert(texts =~= seq![texts[0]]);
        lemma_token(texts[0], t, Seq::empty());
        assert(r =~= q + Seq::empty());
        assert(list =~= seq![Item::Text(t)]);
    } else {
        let rest = ValueView::List(others).rendered();
        let after = seq![',', ' '] + rest;
        assert forall|i: int| 0 <= i < others.len() implies (
        #[trigger] list.skip(1)[i] matches Item::Text(u) && quoting::stands_for(others[i], u)) by {
            assert(list.skip(1)[i] == list[i + 1]);
            assert(others[i] == texts[i + 1]);
        }
        lemma_items(others, list.skip(1));
        lemma_token(texts[0], t, after);
        assert(r =~= q + after);
        assert(after.skip(2) =~= rest);
        assert(list =~= seq![Item::Text(t)] + list.skip(1));
    }
}

proof fn lemma_token(s: Seq<char>, t: Seq<char>, after: Seq<char>)
    requires
        quoting::stands_for(s, t),
        after.len() > 0 ==> after[0] != '"' && after[0] != '\'',
    ensures
        quoting::token(text::quoted(s) + after) == Some((t, after)),
        text::quoted(s).len() > 0,
        text::quoted(s)[0] == '"' || text::quoted(s)[0] == '\'',
{
    if s.len() > 0 && s[0] == '"' && s[s.len() - 1] == '"' {
        quoting::law_wrapped_read_back(t, after);
        if s.len() == 1 {
            assert(s =~= seq!['"']);
            assert(t =~= Seq::empty());
        }
    } else {
        quoting::law_quoted_read_back(s, after);
    }
}

/// The text of a value tells what it is.
pub proof fn law_value_told(value: ValueView, list: Seq<Item>)
    requires
        told_by(value, list),
    ensures
        value_items(value.rendered()) == Some(list),
{
    let r = value.rendered();
    match value {
        ValueView::Text(s) => {
            quoting::law_value_written(s, Seq::empty());
            assert(told_by(ValueView::List(seq![s]), list));
            lemma_items(seq![s], list);
        },
        ValueView::List(texts) => {
            if texts.len() == 0 {
                quoting::law_value_written(Seq::empty(), Seq::empty());
                assert(texts =~= Seq::empty());
                assert(list =~= Seq::empty());
            } else {
                lemma_items(texts, list);
            }
        },
        ValueView::Number(n) => {
            quoting::law_number_read_back(n);
            assert(r.len() > 0 && r[0] != '"' && r[0] != '\'') by {
                if r.len() > 0 && (r[0] == '"' || r[0] == '\'') {
                    lemma_natural_digits(r);
                }
            }
        },
    }
}

proof fn lemma_natural_digits(s: Seq<char>)
    requires
        quoting::natural(s) is Some,
    ensures
        s.len() > 0,
        '0' <= s[0] <= '9',
    decreases s.len(),
{
    if s.len() > 1 {
        lemma_natural_digits(s.drop_last());
    }
}

/// For every value there are items that tell it, and none but these.
pub proof fn law_told_by_one(value: ValueView, a: Seq<Item>, b: Seq<Item>)
    ensures
        exists|list: Seq<Item>| told_by(value, list),
        told_by(value, a) && told_by(value, b) ==> a == b,
{
    match value {
        ValueView::Text(s) => {
            quoting::law_stands_for_one(s, Seq::empty(), Seq::empty());
            let t = choose|t: Seq<char>| quoting::stands_for(s, t);
            assert(told_by(value, seq![Item::Text(t)]));
        },
        ValueView::List(texts) => {
            let list = Seq::new(
                texts.len(),
                |i: int| Item::Text(choose|t: Seq<char>| quoting::stands_for(texts[i], t)),
            );
            assert forall|i: int| 0 <= i < texts.len() implies (#[trigger] list[i] matches
                Item::Text(t) && quoting::stands_for(texts[i], t)) by {
                quoting::law_stands_for_one(texts[i], Seq::empty(), Seq::empty());
            }
            assert(told_by(value, list));
        },
        ValueView::Number(n) => {
            assert(told_by(value, seq![Item::Number(n)]));
        },
    }
    if told_by(value, a) && told_by(value, b) {
        law_value_told(value, a);
        law_value_told(value, b);
    }
}

proof fn lemma_assignment(name: Seq<char>, value: ValueView, list: Seq<Item>)
    requires
        !name.contains('"'),
        told_by(value, list),
    ensures
        assignment(
            seq!['"'] + name + seq!['"'] + (seq![' ', 'T', 'O', ' '] + value.rendered()),
        ) == Some((name, list)),
{
    let to = seq![' ', 'T', 'O', ' '];
    lemma_identifier(name, to + value.rendered());
    lemma_word(to, value.rendered());
    law_value_told(value, list);
}

proof fn lemma_set_word(rest: Seq<char>)
    requires
        rest.len() > 0,
        rest[0] == '"',
    ensures
        command(seq!['S', 'E', 'T', ' '] + rest) == (match assignment(rest) {
            Some((name, list)) => Some(Command::Assign(name, list)),
            None => None,
        }),
{
    let set = seq!['S', 'E', 'T', ' '];
    let s = set + rest;
    lemma_word(set, rest);
    if s.len() >= 6 {
        assert(s.take(6)[0] != seq!['R', 'E', 'S', 'E', 'T', ' '][0]);
    }
    if s.len() >= 10 {
        assert(s.take(10)[4] != seq!['S', 'E', 'T', ' ', 'L', 'O', 'C', 'A', 'L', ' '][4]);
    }
}

proof fn lemma_local_word(rest: Seq<char>)
    ensures
        command(seq!['S', 'E', 'T', ' ', 'L', 'O', 'C', 'A', 'L', ' '] + rest) == (match assignment(
            rest,
        ) {
            Some((name, list)) => Some(Command::AssignLocal(name, list)),
            None => None,
        }),
{
    let local = seq!['S', 'E', 'T', ' ', 'L', 'O', 'C', 'A', 'L', ' '];
    let s = local + rest;
    lemma_word(local, rest);
    assert(s.take(6)[0] != seq!['R', 'E', 'S', 'E', 'T', ' '][0]);
}

/// A statement that sets a parameter is read as the word `SET`, with or without
/// `LOCAL`, the name in double quotes, the word `TO`, and then, to the end, the
/// items of the value and nothing else.
pub proof fn law_set_statement_read(name: Seq<char>, value: ValueView, list: Seq<Item>)
    requires
        !name.contains('"'),
        told_by(value, list),
    ensures
        command(Change::Assign(name, value).statement()) == Some(Command::Assign(name, list)),
        command(Change::AssignLocal(name, value).statement()) == Some(
            Command::AssignLocal(name, list),
        ),
{
    law_statement_holds_name_and_value(name, value);
    let rest = seq!['"'] + name + seq!['"'] + (seq![' ', 'T', 'O', ' '] + value.rendered());
    lemma_assignment(name, value, list);
    assert(Change::Assign(name, value).statement() =~= seq!['S', 'E', 'T', ' '] + rest);
    lemma_set_word(rest);
    assert(Change::AssignLocal(name, value).statement() =~= seq!['S', 'E', 'T', ' ', 'L', 'O', 'C',
        'A', 'L', ' '] + rest);
    lemma_local_word(rest);
}

/// A statement that resets a parameter is read as the word `RESET` and the name
/// in double quotes.
pub proof fn law_reset_statement_read(name: Seq<char>)
    requires
        !name.contains('"'),
    ensures
        command(Change::Reset(name).statement()) == Some(Command::Reset(name)),
{
    reveal_strlit("RESET \"");
    reveal_strlit("\"");
    let reset = seq!['R', 'E', 'S', 'E', 'T', ' '];
    let rest = seq!['"'] + name + seq!['"'] + Seq::empty();
    lemma_identifier(name, Seq::empty());
    assert(Change::Reset(name).statement() =~= reset + rest);
    lemma_word(reset, rest);
}

/// Whatever is in a name, a statement holds it as it is, between the same two
/// texts, and ends with the value as it is written.
pub proof fn law_statement_holds_name_and_value(name: Seq<char>, value: ValueView)
    ensures
        Change::Assign(name, value).statement() == seq!['S', 'E', 'T', ' ', '"'] + name + seq![
            '"',
            ' ',
            'T',
            'O',
            ' ',
        ] + value.rendered(),
        Change::AssignLocal(name, value).statement() == seq!['S', 'E', 'T', ' ', 'L', 'O', 'C', 'A',
            'L', ' ', '"'] + name + seq!['"', ' ', 'T', 'O', ' '] + value.rendered(),
        Change::Reset(name).statement() == seq!['R', 'E', 'S', 'E', 'T', ' ', '"'] + name + seq![
            '"',
        ],
{
    reveal_strlit("SET");
    reveal_strlit("SET LOCAL");
    reveal_strlit(" \"");
    reveal_strlit("\" TO ");
    reveal_strlit("RESET \"");
    reveal_strlit("\"");
    assert(Change::Assign(name, value).statement() =~= seq!['S', 'E', 'T', ' ', '"'] + name + seq![
        '"',
        ' ',
        'T',
        'O',
        ' ',
    ] + value.rendered());
    assert(Change::AssignLocal(name, value).statement() =~= seq!['S', 'E', 'T', ' ', 'L', 'O', 'C',
        'A', 'L', ' ', '"'] + name + seq!['"', ' ', 'T', 'O', ' '] + value.rendered());
    assert(Change::Reset(name).statement() =~= seq!['R', 'E', 'S', 'E', 'T', ' ', '"'] + name
        + seq!['"']);
}

/// A list of statements has one for each change, in their order.
pub proof fn law_one_statement_each(changes: Seq<Change>, queries: Seq<Query>)
    ensures
        query::statements_of(changes).len() == changes.len(),
        forall|i: int|
            0 <= i < changes.len() ==> #[trigger] query::statements_of(changes)[i]
                == changes[i].statement(),
        query::statements(queries).len() == queries.len(),
        forall|i: int|
            0 <= i < queries.len() ==> #[trigger] query::statements(queries)[i] == queries[i]@,
{
}

} // verus!
