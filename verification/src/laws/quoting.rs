//! Laws of quoting: what is quoted is read back, and cannot break out.
use vstd::prelude::*;

use crate::query::Change;
use crate::text;
use crate::value::ValueView;

verus! {

/// Reads on inside a token as SQL does, up to the quote that ends it: a quote
/// written twice stands for itself. Gives what was read and what follows.
pub open spec fn rest_of_token(s: Seq<char>, q: char) -> Option<(Seq<char>, Seq<char>)>
    decreases s.len(),
{
    if s.len() == 0 {
        None
    } else if s[0] != q {
        match rest_of_token(s.skip(1), q) {
            Some((inner, after)) => Some((seq![s[0]] + inner, after)),
            None => None,
        }
    } else if s.len() >= 2 && s[1] == q {
        match rest_of_token(s.skip(2), q) {
            Some((inner, after)) => Some((seq![q] + inner, after)),
            None => None,
        }
    } else {
        Some((Seq::empty(), s.skip(1)))
    }
}

/// Reads a quoted identifier or a string literal as SQL does. Gives what it
/// stands for and what follows.
pub open spec fn token(s: Seq<char>) -> Option<(Seq<char>, Seq<char>)> {
    if s.len() > 0 && (s[0] == '"' || s[0] == '\'') {
        rest_of_token(s.skip(1), s[0])
    } else {
        None
    }
}

/// Reads `n` tokens with a comma and a space between them. Gives what they
/// stand for and what follows.
pub open spec fn tokens(s: Seq<char>, n: nat) -> Option<(Seq<Seq<char>>, Seq<char>)>
    decreases n,
{
    if n == 0 {
        Some((Seq::empty(), s))
    } else {
        match token(s) {
            None => None,
            Some((first, after)) => if n == 1 {
                Some((seq![first], after))
            } else if after.len() >= 2 && after[0] == ',' && after[1] == ' ' {
                match tokens(after.skip(2), (n - 1) as nat) {
                    Some((others, end)) => Some((seq![first] + others, end)),
                    None => None,
                }
            } else {
                None
            },
        }
    }
}

proof fn lemma_doubled_front(c: char, s: Seq<char>, q: char)
    ensures
        text::doubled(seq![c] + s, q) == (if c == q {
            seq![q, q]
        } else {
            seq![c]
        }) + text::doubled(s, q),
    decreases s.len(),
{
    let t = seq![c] + s;
    let front = if c == q {
        seq![q, q]
    } else {
        seq![c]
    };
    if s.len() == 0 {
        assert(t.drop_last() =~= Seq::empty());
        assert(t.last() == c);
        assert(text::doubled(t.drop_last(), q) =~= Seq::empty());
    } else {
        lemma_doubled_front(c, s.drop_last(), q);
        assert(t.drop_last() =~= seq![c] + s.drop_last());
        assert(t.last() == s.last());
    }
    assert(text::doubled(t, q) =~= front + text::doubled(s, q));
}

/// A text with its quotes doubled is read back as it was, up to the quote that
/// ends it.
pub proof fn law_doubled_read_back(s: Seq<char>, q: char, after: Seq<char>)
    requires
        after.len() > 0 ==> after[0] != q,
    ensures
        rest_of_token(text::doubled(s, q) + seq![q] + after, q) == Some((s, after)),
    decreases s.len(),
{
    let t = text::doubled(s, q) + seq![q] + after;
    if s.len() == 0 {
        assert(t =~= seq![q] + after);
        assert(t.skip(1) =~= after);
        assert(s =~= Seq::empty());
    } else {
        let rest = s.skip(1);
        let d = text::doubled(rest, q) + seq![q] + after;
        assert(s =~= seq![s[0]] + rest);
        lemma_doubled_front(s[0], rest, q);
        law_doubled_read_back(rest, q, after);
        if s[0] == q {
            assert(t =~= seq![q, q] + d);
            assert(t.skip(2) =~= d);
        } else {
            assert(t =~= seq![s[0]] + d);
            assert(t.skip(1) =~= d);
        }
    }
}

proof fn lemma_quoted_read(s: Seq<char>, after: Seq<char>)
    requires
        after.len() > 0 ==> after[0] != '"' && after[0] != '\'',
    ensures
        token(text::quoted(s) + after) == Some((text::stripped(s), after)),
{
    let v = text::stripped(s);
    let t = text::quoted(s) + after;
    if v.len() == 0 || v.contains('"') {
        law_doubled_read_back(v, '\'', after);
        assert(t.skip(1) =~= text::doubled(v, '\'') + seq!['\''] + after);
    } else {
        text::lemma_doubled_plain(Seq::empty(), v, '"');
        assert(text::doubled(Seq::empty(), '"') + v =~= v);
        assert(Seq::empty() + v =~= v);
        law_doubled_read_back(v, '"', after);
        assert(t.skip(1) =~= text::doubled(v, '"') + seq!['"'] + after);
    }
}

/// A quoted value is one token, and is read back as the value, unless it both
/// begins and ends with a double quote. Nothing in a value ends its token early.
pub proof fn law_quoted_read_back(s: Seq<char>, after: Seq<char>)
    requires
        after.len() > 0 ==> after[0] != '"' && after[0] != '\'',
        !(s.len() > 0 && s[0] == '"' && s[s.len() - 1] == '"'),
    ensures
        token(text::quoted(s) + after) == Some((s, after)),
{
    lemma_quoted_read(s, after);
    assert(text::stripped(s) =~= s);
}

/// A value that comes in double quotes is one token, and is read back as what
/// stands between them, whatever that is. A lone double quote is read back as
/// nothing.
pub proof fn law_wrapped_read_back(inner: Seq<char>, after: Seq<char>)
    requires
        after.len() > 0 ==> after[0] != '"' && after[0] != '\'',
    ensures
        token(text::quoted(seq!['"'] + inner + seq!['"']) + after) == Some((inner, after)),
        token(text::quoted(seq!['"']) + after) == Some((Seq::<char>::empty(), after)),
{
    let s = seq!['"'] + inner + seq!['"'];
    lemma_quoted_read(s, after);
    assert(text::stripped(s) =~= inner);
    lemma_quoted_read(seq!['"'], after);
    assert(text::stripped(seq!['"']) =~= Seq::<char>::empty());
}

/// A value is written as a string literal where it is empty or holds a double
/// quote, and as an identifier elsewhere; double quotes that it comes in do not
/// count.
pub proof fn law_quote_style(s: Seq<char>)
    ensures
        !(s.len() > 0 && s[0] == '"' && s[s.len() - 1] == '"') ==> text::quoted(s)[0] == (
        if s.len() == 0 || s.contains('"') {
            '\''
        } else {
            '"'
        }),
        text::quoted(seq!['"'] + s + seq!['"'])[0] == (if s.len() == 0 || s.contains('"') {
            '\''
        } else {
            '"'
        }),
        text::quoted(seq!['"'])[0] == '\'',
{
    if !(s.len() > 0 && s[0] == '"' && s[s.len() - 1] == '"') {
        assert(text::stripped(s) =~= s);
    }
    assert(text::stripped(seq!['"'] + s + seq!['"']) =~= s);
    assert(text::stripped(seq!['"']) =~= Seq::<char>::empty());
}

/// What a text is read back as: itself, or what stands between the double
/// quotes that it comes in.
pub open spec fn stands_for(s: Seq<char>, t: Seq<char>) -> bool {
    if s.len() > 0 && s[0] == '"' && s[s.len() - 1] == '"' {
        s == seq!['"'] + t + seq!['"'] || (s.len() == 1 && t.len() == 0)
    } else {
        t == s
    }
}

/// Every text stands for exactly one.
pub proof fn law_stands_for_one(s: Seq<char>, t: Seq<char>, u: Seq<char>)
    ensures
        exists|x: Seq<char>| stands_for(s, x),
        stands_for(s, t) && stands_for(s, u) ==> t == u,
{
    let x = text::stripped(s);
    if s.len() > 1 && s[0] == '"' && s[s.len() - 1] == '"' {
        assert(s =~= seq!['"'] + x + seq!['"']);
    }
    assert(stands_for(s, x));
    if stands_for(s, t) {
        lemma_stands_for(s, t);
    }
    if stands_for(s, u) {
        lemma_stands_for(s, u);
    }
}

proof fn lemma_stands_for(s: Seq<char>, t: Seq<char>)
    requires
        stands_for(s, t),
    ensures
        t == text::stripped(s),
{
    assert(t =~= text::stripped(s));
}

/// The digits of a text as a natural number, in decimal.
pub open spec fn natural(s: Seq<char>) -> Option<nat>
    decreases s.len(),
{
    if s.len() == 0 || !('0' <= s.last() <= '9') {
        None
    } else {
        let d = (s.last() as int - '0' as int) as nat;
        if s.len() == 1 {
            Some(d)
        } else {
            match natural(s.drop_last()) {
                Some(n) => Some(10 * n + d),
                None => None,
            }
        }
    }
}

/// Reads an integer in decimal, with a minus sign where it is negative, and
/// without needless zeros.
pub open spec fn number(s: Seq<char>) -> Option<int> {
    if s.len() > 0 && s[0] == '-' {
        match natural(s.skip(1)) {
            Some(n) => if s[1] == '0' {
                None
            } else {
                Some(-(n as int))
            },
            None => None,
        }
    } else {
        match natural(s) {
            Some(n) => if s.len() > 1 && s[0] == '0' {
                None
            } else {
                Some(n as int)
            },
            None => None,
        }
    }
}

proof fn lemma_digits_read(n: nat)
    ensures
        natural(text::digits(n)) == Some(n),
        text::digits(n).len() > 0,
        text::digits(n)[0] == '0' <==> n == 0,
        n == 0 ==> text::digits(n).len() == 1,
        '0' <= text::digits(n)[0] <= '9',
    decreases n,
{
    let s = text::digits(n);
    let d = (n % 10) as int;
    assert('0' <= text::digit(d) <= '9' && text::digit(d) as int - '0' as int == d) by {
        assert(0 <= d < 10);
    }
    if n >= 10 {
        lemma_digits_read(n / 10);
        assert(s.drop_last() =~= text::digits(n / 10));
        assert(s[0] == text::digits(n / 10)[0]);
    }
}

/// An integer is read back as it was, and there is no other way to write it.
pub proof fn law_number_read_back(i: int)
    ensures
        number(ValueView::Number(i).rendered()) == Some(i),
        number(text::decimal(i)) == Some(i),
{
    let s = text::decimal(i);
    if i < 0 {
        lemma_digits_read((-i) as nat);
        assert(s.skip(1) =~= text::digits((-i) as nat));
    } else {
        lemma_digits_read(i as nat);
    }
}

/// Joining one part more, at the front.
pub proof fn lemma_joined_front<T>(first: Seq<T>, others: Seq<Seq<T>>, sep: Seq<T>)
    requires
        others.len() > 0,
    ensures
        text::joined(seq![first] + others, sep) == first + (sep + text::joined(others, sep)),
    decreases others.len(),
{
    let all = seq![first] + others;
    if others.len() == 1 {
        assert(all.drop_last() =~= seq![first]);
        assert(text::joined(all.drop_last(), sep) == first);
    } else {
        assert(all.drop_last() =~= seq![first] + others.drop_last());
        lemma_joined_front(first, others.drop_last(), sep);
    }
    assert(text::joined(all, sep) =~= first + (sep + text::joined(others, sep)));
}

/// A text is written as it is quoted; a list is written item by item from the
/// first to the last, each quoted, with a comma and a space between them and
/// nothing around them.
pub proof fn law_value_written(first: Seq<char>, others: Seq<Seq<char>>)
    ensures
        ValueView::Text(first).rendered() == text::quoted(first),
        ValueView::List(Seq::empty()).rendered() == Seq::<char>::empty(),
        ValueView::List(seq![first]).rendered() == text::quoted(first),
        others.len() > 0 ==> ValueView::List(seq![first] + others).rendered() == text::quoted(first)
            + seq![',', ' '] + ValueView::List(others).rendered(),
{
    reveal_strlit(", ");
    assert(", "@ =~= seq![',', ' ']);
    assert(ValueView::List(Seq::empty()).rendered() =~= Seq::<char>::empty());
    assert(ValueView::List(seq![first]).rendered() =~= text::quoted(first));
    if others.len() > 0 {
        let parts = others.map_values(|s: Seq<char>| text::quoted(s));
        assert((seq![first] + others).map_values(|s: Seq<char>| text::quoted(s)) =~= seq![
            text::quoted(first),
        ] + parts);
        lemma_joined_front(text::quoted(first), parts, ", "@);
        assert(ValueView::List(seq![first] + others).rendered() =~= text::quoted(first) + seq![
            ',',
            ' ',
        ] + ValueView::List(others).rendered());
    }
}

/// A list is read back item by item, and nothing is left over.
pub proof fn law_list_read_back(list: Seq<Seq<char>>, back: Seq<Seq<char>>)
    requires
        back.len() == list.len(),
        forall|i: int| 0 <= i < list.len() ==> stands_for(#[trigger] list[i], back[i]),
    ensures
        tokens(ValueView::List(list).rendered(), list.len()) == Some(
            (back, Seq::<char>::empty()),
        ),
    decreases list.len(),
{
    let r = ValueView::List(list).rendered();
    if list.len() == 0 {
        assert(r =~= Seq::empty());
        assert(back =~= Seq::empty());
    } else {
        lemma_stands_for(list[0], back[0]);
        let others = list.skip(1);
        assert(list =~= seq![list[0]] + others);
        law_value_written(list[0], others);
        if list.len() == 1 {
            lemma_quoted_read(list[0], Seq::empty());
            assert(list =~= seq![list[0]]);
            assert(r =~= text::quoted(list[0]) + Seq::empty());
            assert(back =~= seq![back[0]]);
        } else {
            let rest = ValueView::List(others).rendered();
            assert forall|i: int| 0 <= i < others.len() implies stands_for(
                #[trigger] others[i],
                back.skip(1)[i],
            ) by {
                assert(others[i] == list[i + 1]);
            }
            law_list_read_back(others, back.skip(1));
            let after = seq![',', ' '] + rest;
            lemma_quoted_read(list[0], after);
            assert(r =~= text::quoted(list[0]) + after);
            assert(after.skip(2) =~= rest);
            assert(back =~= seq![back[0]] + back.skip(1));
        }
    }
}

/// A value that is quoted already comes out as it went in.
pub proof fn law_already_quoted(s: Seq<char>)
    requires
        s.len() > 0,
        !s.contains('"'),
    ensures
        text::quoted(seq!['"'] + s + seq!['"']) == seq!['"'] + s + seq!['"'],
        text::quoted(s) == seq!['"'] + s + seq!['"'],
{
    let t = seq!['"'] + s + seq!['"'];
    assert(t.subrange(1, t.len() - 1) =~= s);
    assert(s.contains(s[0]));
    assert(text::stripped(s) == s);
    assert(text::stripped(t) == s);
}

/// Quoting an identifier twice is quoting it once.
pub proof fn law_quote_twice(s: Seq<char>)
    requires
        text::stripped(s).len() > 0,
        !text::stripped(s).contains('"'),
    ensures
        text::quoted(text::quoted(s)) == text::quoted(s),
{
    law_already_quoted(text::stripped(s));
}

/// Values of text that come out alike are alike, but for double quotes that
/// they came in.
pub proof fn law_quoted_tells_apart(s: Seq<char>, t: Seq<char>)
    requires
        text::quoted(s) == text::quoted(t),
    ensures
        text::stripped(s) == text::stripped(t),
{
    lemma_quoted_read(s, Seq::empty());
    lemma_quoted_read(t, Seq::empty());
}

/// On the wire, texts are told apart.
pub proof fn law_wire_tells_apart(s: Seq<char>, t: Seq<char>)
    requires
        ValueView::Text(s).wire() == ValueView::Text(t).wire(),
    ensures
        s == t,
{
    let p = ValueView::Text(s);
    let q = ValueView::Text(t);
    assert(p.wire().drop_last() =~= p.payload());
    assert(q.wire().drop_last() =~= q.payload());
    crate::order::lemma_encode_injective(s, t);
}

/// The part of a statement from its name on.
proof fn lemma_name_and_value(
    m: Seq<char>,
    x: Seq<char>,
    n: Seq<char>,
    y: Seq<char>,
    end: Seq<char>,
)
    requires
        !m.contains('"'),
        !n.contains('"'),
        end.len() > 0,
        end[0] == '"',
        m + end + x == n + end + y,
    ensures
        m == n,
        x == y,
{
    let p = m + end + x;
    let q = n + end + y;
    assert(p[m.len() as int] == '"');
    assert(q[n.len() as int] == '"');
    if m.len() < n.len() {
        assert(n[m.len() as int] == '"');
    } else if n.len() < m.len() {
        assert(m[n.len() as int] == '"');
    }
    assert(m =~= p.take(m.len() as int));
    assert(n =~= q.take(n.len() as int));
    assert(x =~= p.skip((m.len() + end.len()) as int));
    assert(y =~= q.skip((n.len() + end.len()) as int));
}

/// A statement tells what it changes and how, as long as there is no double
/// quote in the name.
pub proof fn law_statement_tells_the_change(c: Change, d: Change)
    requires
        !c.name().contains('"'),
        !d.name().contains('"'),
        c.statement() == d.statement(),
    ensures
        c.name() == d.name(),
        match (c, d) {
            (Change::Reset(_), Change::Reset(_)) => true,
            (Change::Assign(_, v), Change::Assign(_, w)) => v.rendered() == w.rendered(),
            (Change::AssignLocal(_, v), Change::AssignLocal(_, w)) => v.rendered()
                == w.rendered(),
            _ => false,
        },
{
    reveal_strlit("RESET \"");
    reveal_strlit("SET");
    reveal_strlit("SET LOCAL");
    reveal_strlit(" \"");
    reveal_strlit("\" TO ");
    reveal_strlit("\"");
    let s = c.statement();
    let t = d.statement();
    assert(s[0] == t[0]);
    assert(s[4] == t[4]);
    match (c, d) {
        (Change::Reset(m), Change::Reset(n)) => {
            assert(s.skip(7) =~= m + "\""@ + Seq::empty());
            assert(t.skip(7) =~= n + "\""@ + Seq::empty());
            lemma_name_and_value(m, Seq::empty(), n, Seq::empty(), "\""@);
        },
        (Change::Assign(m, v), Change::Assign(n, w)) => {
            assert(s.skip(5) =~= m + "\" TO "@ + v.rendered());
            assert(t.skip(5) =~= n + "\" TO "@ + w.rendered());
            lemma_name_and_value(m, v.rendered(), n, w.rendered(), "\" TO "@);
        },
        (Change::AssignLocal(m, v), Change::AssignLocal(n, w)) => {
            assert(s.skip(11) =~= m + "\" TO "@ + v.rendered());
            assert(t.skip(11) =~= n + "\" TO "@ + w.rendered());
            lemma_name_and_value(m, v.rendered(), n, w.rendered(), "\" TO "@);
        },
        _ => {},
    }
}

} // verus!
