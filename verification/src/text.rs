//! Text: lowercase, decimal numbers, joined lists and SQL quoting.
use vstd::prelude::*;
use vstd::utf8;

verus! {

/// The lowercase form of a text, as Unicode defines it.
pub uninterp spec fn lowercase(s: Seq<char>) -> Seq<char>;

/// The lowercase form of an ASCII character.
pub open spec fn ascii_lower(c: char) -> char {
    if 'A' <= c <= 'Z' {
        (c as u32 + 32) as char
    } else {
        c
    }
}

/// On ASCII text, lowercasing changes the letters `A` to `Z` and nothing else.
pub open spec fn lowercase_ascii(s: Seq<char>) -> bool {
    utf8::is_ascii_chars(s) ==> lowercase(s) == s.map_values(|c: char| ascii_lower(c))
}

/// Calls `str::to_lowercase`. Its result depends on the text alone; what it is
/// follows the Unicode tables and is only named here. On ASCII text it is the
/// text with the letters `A` to `Z` replaced by `a` to `z`.
#[verifier::external_body]
pub(crate) fn to_lowercase(s: &str) -> (res: String)
    ensures
        res@ == lowercase(s@),
        utf8::is_ascii_chars(s@) ==> res@ == s@.map_values(|c: char| ascii_lower(c)),
{
    s.to_lowercase()
}

/// The parts one after another with `sep` between them.
pub open spec fn joined<T>(parts: Seq<Seq<T>>, sep: Seq<T>) -> Seq<T>
    decreases parts.len(),
{
    if parts.len() <= 1 {
        if parts.len() == 0 {
            Seq::empty()
        } else {
            parts[0]
        }
    } else {
        joined(parts.drop_last(), sep) + (sep + parts.last())
    }
}

/// Joining one part more.
pub proof fn lemma_joined_push<T>(parts: Seq<Seq<T>>, part: Seq<T>, sep: Seq<T>)
    ensures
        joined(parts.push(part), sep) == if parts.len() == 0 {
            part
        } else {
            joined(parts, sep) + (sep + part)
        },
{
    assert(parts.push(part).drop_last() =~= parts);
}

/// The decimal digits.
pub open spec fn digit(d: int) -> char {
    seq!['0', '1', '2', '3', '4', '5', '6', '7', '8', '9'][d]
}

/// A natural number in decimal, without leading zeros.
pub open spec fn digits(n: nat) -> Seq<char>
    decreases n,
{
    if n < 10 {
        seq![digit(n as int)]
    } else {
        digits(n / 10).push(digit((n % 10) as int))
    }
}

/// An integer in decimal, with a minus sign where it is negative.
pub open spec fn decimal(i: int) -> Seq<char> {
    if i < 0 {
        seq!['-'] + digits((-i) as nat)
    } else {
        digits(i as nat)
    }
}

fn digit_text(d: u32) -> (res: &'static str)
    requires
        d < 10,
    ensures
        res@ == seq![digit(d as int)],
{
    proof {
        reveal_strlit("0");
        reveal_strlit("1");
        reveal_strlit("2");
        reveal_strlit("3");
        reveal_strlit("4");
        reveal_strlit("5");
        reveal_strlit("6");
        reveal_strlit("7");
        reveal_strlit("8");
        reveal_strlit("9");
    }
    let res = match d {
        0 => "0",
        1 => "1",
        2 => "2",
        3 => "3",
        4 => "4",
        5 => "5",
        6 => "6",
        7 => "7",
        8 => "8",
        _ => "9",
    };
    assert(res@ =~= seq![digit(d as int)]);
    res
}

fn append_digits(out: &mut String, n: u32)
    ensures
        final(out)@ == old(out)@ + digits(n as nat),
    decreases n,
{
    if n >= 10 {
        append_digits(out, n / 10);
    }
    out.append(digit_text(n % 10));
    assert(out@ =~= old(out)@ + digits(n as nat));
}

/// Writes an integer in decimal.
pub fn decimal_text(i: i32) -> (res: String)
    ensures
        res@ == decimal(i as int),
{
    let mut res = String::new();
    if i < 0 {
        proof {
            reveal_strlit("-");
        }
        res.append("-");
        append_digits(&mut res, (-(i as i64)) as u32);
        assert(res@ =~= decimal(i as int));
    } else {
        append_digits(&mut res, i as u32);
        assert(res@ =~= decimal(i as int));
    }
    res
}

/// The text with every `q` written twice.
pub open spec fn doubled(s: Seq<char>, q: char) -> Seq<char>
    decreases s.len(),
{
    if s.len() == 0 {
        Seq::empty()
    } else if s.last() == q {
        doubled(s.drop_last(), q) + seq![q, q]
    } else {
        doubled(s.drop_last(), q).push(s.last())
    }
}

/// Text without `q` is left as it is.
pub proof fn lemma_doubled_plain(s: Seq<char>, t: Seq<char>, q: char)
    requires
        !t.contains(q),
    ensures
        doubled(s + t, q) == doubled(s, q) + t,
    decreases t.len(),
{
    if t.len() == 0 {
        assert(s + t =~= s);
        assert(doubled(s, q) + t =~= doubled(s, q));
    } else {
        let u = s + t;
        assert(u.drop_last() =~= s + t.drop_last());
        assert(t.contains(t.last()));
        assert(!t.drop_last().contains(q)) by {
            if t.drop_last().contains(q) {
                let i = choose|i: int| 0 <= i < t.drop_last().len() && t.drop_last()[i] == q;
                assert(t[i] == q);
            }
        }
        lemma_doubled_plain(s, t.drop_last(), q);
        assert(doubled(u, q) =~= doubled(s, q) + t);
    }
}

/// Without the double quotes around it, where there is one on either side.
pub open spec fn stripped(s: Seq<char>) -> Seq<char> {
    if s.len() > 0 && s[0] == '"' && s.last() == '"' {
        if s.len() == 1 {
            Seq::empty()
        } else {
            s.subrange(1, s.len() - 1)
        }
    } else {
        s
    }
}

/// A text as SQL: a quoted identifier where nothing in it stands against that,
/// else a string literal. Double quotes that it comes in are taken off first.
pub open spec fn quoted(s: Seq<char>) -> Seq<char> {
    let v = stripped(s);
    if v.len() == 0 || v.contains('"') {
        seq!['\''] + doubled(v, '\'') + seq!['\'']
    } else {
        seq!['"'] + v + seq!['"']
    }
}

/// Whether a text holds a character.
pub fn contains_char(s: &str, c: char) -> (res: bool)
    ensures
        res == s@.contains(c),
{
    for x in it: s.chars()
        invariant
            it.seq() == s@,
            forall|j: int| 0 <= j < it.index() ==> s@[j] != c,
    {
        if x == c {
            assert(s@[it.index() as int] == c);
            return true;
        }
    }
    false
}

/// Appends `s` with every single quote written twice.
fn append_doubled(out: &mut String, s: &str)
    ensures
        final(out)@ == old(out)@ + doubled(s@, '\''),
{
    let n = s.unicode_len();
    let mut from: usize = 0;
    let mut i: usize = 0;
    let ghost start = out@;
    for c in it: s.chars()
        invariant
            it.seq() == s@,
            i == it.index(),
            n == s@.len(),
            from <= i <= n,
            !s@.subrange(from as int, i as int).contains('\''),
            out@ == start + doubled(s@.take(from as int), '\''),
    {
        if c == '\'' {
            proof {
                reveal_strlit("''");
                let plain = s@.subrange(from as int, i as int);
                lemma_doubled_plain(s@.take(from as int), plain, '\'');
                assert(s@.take(from as int) + plain =~= s@.take(i as int));
                assert(s@.take(i + 1).drop_last() =~= s@.take(i as int));
            }
            out.append(s.substring_char(from, i));
            out.append("''");
            from = i + 1;
            assert(out@ =~= start + doubled(s@.take(from as int), '\''));
        } else {
            assert(s@.subrange(from as int, i + 1) =~= s@.subrange(from as int, i as int).push(c));
        }
        i = i + 1;
    }
    proof {
        let plain = s@.subrange(from as int, n as int);
        lemma_doubled_plain(s@.take(from as int), plain, '\'');
        assert(s@.take(from as int) + plain =~= s@);
    }
    out.append(s.substring_char(from, n));
    assert(out@ =~= start + doubled(s@, '\''));
}

/// Quotes a text for a SQL statement.
pub fn quote(value: &str) -> (res: String)
    ensures
        res@ == quoted(value@),
{
    proof {
        reveal_strlit("'");
        reveal_strlit("\"");
        reveal_strlit("");
    }
    let n = value.unicode_len();
    let plain = if n > 0 && value.get_char(0) == '"' && value.get_char(n - 1) == '"' {
        if n == 1 {
            ""
        } else {
            value.substring_char(1, n - 1)
        }
    } else {
        value
    };
    assert(plain@ =~= stripped(value@));
    let mut res = String::new();
    if plain.is_empty() || contains_char(plain, '"') {
        res.append("'");
        append_doubled(&mut res, plain);
        res.append("'");
    } else {
        res.append("\"");
        res.append(plain);
        res.append("\"");
    }
    assert(res@ =~= quoted(value@));
    res
}

} // verus!
