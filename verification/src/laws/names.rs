//! Laws of names and maps: how names are ordered and lowercased, and what a map
//! holds.
use vstd::prelude::*;
use vstd::utf8;

use crate::model;
use crate::order;
use crate::ordered;
use crate::text;
use crate::value;
use crate::value::{Parameter, ParameterValue, ValueView};

verus! {

proof fn lemma_encode_append(a: Seq<char>, b: Seq<char>)
    ensures
        utf8::encode_utf8(a + b) == utf8::encode_utf8(a) + utf8::encode_utf8(b),
    decreases a.len(),
{
    if a.len() == 0 {
        assert(a + b =~= b);
        assert(utf8::encode_utf8(a) + utf8::encode_utf8(b) =~= utf8::encode_utf8(b));
    } else {
        assert((a + b).drop_first() =~= a.drop_first() + b);
        lemma_encode_append(a.drop_first(), b);
        assert(utf8::encode_utf8(a + b) =~= utf8::encode_utf8(a) + utf8::encode_utf8(b));
    }
}

/// The encodings of two characters differ first where that of the smaller one
/// has the smaller byte.
proof fn lemma_scalar_order(c: u32, d: u32) -> (i: int)
    requires
        utf8::is_scalar(c),
        utf8::is_scalar(d),
        c < d,
    ensures
        0 <= i < utf8::encode_scalar(c).len(),
        i < utf8::encode_scalar(d).len(),
        forall|j: int| 0 <= j < i ==> utf8::encode_scalar(c)[j] == utf8::encode_scalar(d)[j],
        utf8::encode_scalar(c)[i] < utf8::encode_scalar(d)[i],
{
    let x = utf8::encode_scalar(c);
    let y = utf8::encode_scalar(d);
    if utf8::has_width_1_encoding(c) {
        assert((c & 0x7f) as u8 <= 0x7f && (c <= 0x7f && d <= 0x7f && c < d ==> ((c & 0x7f) as u8)
            < ((d & 0x7f) as u8))) by (bit_vector);
        assert((0xc0u8 | ((d >> 6) & 0x1f) as u8) >= 0xc0) by (bit_vector);
        assert((0xe0u8 | ((d >> 12) & 0x0f) as u8) >= 0xe0) by (bit_vector);
        assert((0xf0u8 | ((d >> 18) & 0x7) as u8) >= 0xf0) by (bit_vector);
        0
    } else if utf8::has_width_2_encoding(c) {
        assert((0xc0u8 | ((c >> 6) & 0x1f) as u8) <= 0xdf) by (bit_vector);
        assert((0xe0u8 | ((d >> 12) & 0x0f) as u8) >= 0xe0) by (bit_vector);
        assert((0xf0u8 | ((d >> 18) & 0x7) as u8) >= 0xf0) by (bit_vector);
        if utf8::has_width_2_encoding(d) {
            assert((0xc0u8 | ((c >> 6) & 0x1f) as u8) < (0xc0u8 | ((d >> 6) & 0x1f) as u8) || ((
            0xc0u8 | ((c >> 6) & 0x1f) as u8) == (0xc0u8 | ((d >> 6) & 0x1f) as u8) && (0x80u8 | (c
                & 0x3f) as u8) < (0x80u8 | (d & 0x3f) as u8))) by (bit_vector)
                requires
                    c < d,
                    d <= 0x7ff,
            ;
        }
        if x[0] < y[0] {
            0
        } else {
            1
        }
    } else if utf8::has_width_3_encoding(c) {
        assert((0xe0u8 | ((c >> 12) & 0x0f) as u8) <= 0xef) by (bit_vector);
        assert((0xf0u8 | ((d >> 18) & 0x7) as u8) >= 0xf0) by (bit_vector);
        if utf8::has_width_3_encoding(d) {
            assert((0xe0u8 | ((c >> 12) & 0x0f) as u8) < (0xe0u8 | ((d >> 12) & 0x0f) as u8) || ((
            0xe0u8 | ((c >> 12) & 0x0f) as u8) == (0xe0u8 | ((d >> 12) & 0x0f) as u8) && ((0x80u8
                | ((c >> 6) & 0x3f) as u8) < (0x80u8 | ((d >> 6) & 0x3f) as u8) || ((0x80u8 | ((c
                >> 6) & 0x3f) as u8) == (0x80u8 | ((d >> 6) & 0x3f) as u8) && (0x80u8 | (c
                & 0x3f) as u8) < (0x80u8 | (d & 0x3f) as u8))))) by (bit_vector)
                requires
                    c < d,
                    d <= 0xffff,
            ;
        }
        if x[0] < y[0] {
            0
        } else if x[1] < y[1] {
            1
        } else {
            2
        }
    } else {
        assert((0xf0u8 | ((c >> 18) & 0x7) as u8) < (0xf0u8 | ((d >> 18) & 0x7) as u8) || ((0xf0u8
            | ((c >> 18) & 0x7) as u8) == (0xf0u8 | ((d >> 18) & 0x7) as u8) && ((0x80u8 | ((c
            >> 12) & 0x3f) as u8) < (0x80u8 | ((d >> 12) & 0x3f) as u8) || ((0x80u8 | ((c >> 12)
            & 0x3f) as u8) == (0x80u8 | ((d >> 12) & 0x3f) as u8) && ((0x80u8 | ((c >> 6)
            & 0x3f) as u8) < (0x80u8 | ((d >> 6) & 0x3f) as u8) || ((0x80u8 | ((c >> 6)
            & 0x3f) as u8) == (0x80u8 | ((d >> 6) & 0x3f) as u8) && (0x80u8 | (c & 0x3f) as u8) < (
        0x80u8 | (d & 0x3f) as u8))))))) by (bit_vector)
            requires
                c < d,
                d <= 0x10ffff,
        ;
        if x[0] < y[0] {
            0
        } else if x[1] < y[1] {
            1
        } else if x[2] < y[2] {
            2
        } else {
            3
        }
    }
}

/// Names are ordered as in a dictionary: by the first character in which they
/// differ, and a name comes before every longer one that begins with it.
pub proof fn law_name_order(
    start: Seq<char>,
    c: char,
    d: char,
    x: Seq<char>,
    y: Seq<char>,
)
    ensures
        x.len() > 0 ==> order::before(start, start + x),
        c < d ==> order::before(start + seq![c] + x, start + seq![d] + y),
{
    reveal(order::bytes_before);
    let e = utf8::encode_utf8(start);
    if x.len() > 0 {
        lemma_encode_append(start, x);
        utf8::char_is_scalar(x[0]);
        assert(utf8::encode_utf8(x).len() > 0);
        assert(order::smaller_from(e, utf8::encode_utf8(start + x), e.len() as int));
    }
    if c < d {
        utf8::char_is_scalar(c);
        utf8::char_is_scalar(d);
        let i = lemma_scalar_order(c as u32, d as u32);
        lemma_encode_append(start, seq![c] + x);
        lemma_encode_append(start, seq![d] + y);
        assert(start + seq![c] + x =~= start + (seq![c] + x));
        assert(start + seq![d] + y =~= start + (seq![d] + y));
        assert((seq![c] + x).drop_first() =~= x);
        assert((seq![d] + y).drop_first() =~= y);
        let a = utf8::encode_utf8(start + seq![c] + x);
        let b = utf8::encode_utf8(start + seq![d] + y);
        let u = utf8::encode_scalar(c as u32);
        let v = utf8::encode_scalar(d as u32);
        assert(a =~= e + u + utf8::encode_utf8(x));
        assert(b =~= e + v + utf8::encode_utf8(y));
        let n = e.len() as int;
        assert forall|j: int| 0 <= j < n + i implies a[j] == b[j] by {
            if j >= n {
                assert(a[j] == u[j - n]);
                assert(b[j] == v[j - n]);
            }
        }
        assert(a[n + i] == u[i]);
        assert(b[n + i] == v[i]);
        assert(order::smaller_from(a, b, n + i));
    }
}

/// Of two names at most one comes before the other, and none before itself.
pub proof fn law_name_order_strict(a: Seq<char>, b: Seq<char>, c: Seq<char>)
    ensures
        !(order::before(a, b) && order::before(b, a)),
        !order::before(a, a),
        order::before(a, b) && order::before(b, c) ==> order::before(a, c),
        order::before(a, b) || a == b || order::before(b, a),
{
    order::lemma_before_irreflexive(a);
    order::lemma_before_total(a, b);
    if order::before(a, b) && order::before(b, a) {
        order::lemma_before_transitive(a, b, a);
    }
    if order::before(a, b) && order::before(b, c) {
        order::lemma_before_transitive(a, b, c);
    }
}

/// A finite map is listed by increasing name, each of its entries once and no
/// other.
pub proof fn law_listed_in_order<V>(m: Map<Seq<char>, V>)
    requires
        m.dom().finite(),
    ensures
        model::in_order(m).len() == m.dom().len(),
        forall|i: int, j: int|
            0 <= i < j < model::in_order(m).len() ==> order::before(
                (#[trigger] model::in_order(m)[i]).0,
                (#[trigger] model::in_order(m)[j]).0,
            ),
        forall|k: Seq<char>, v: V| #[trigger]
            model::in_order(m).contains((k, v)) <==> m.contains_key(k) && m[k] == v,
{
    model::lemma_in_order_lists(m);
    let list = model::in_order(m);
    model::lemma_to_map_len(list);
    assert forall|k: Seq<char>, v: V| #[trigger]
        list.contains((k, v)) <==> m.contains_key(k) && m[k] == v by {
        if list.contains((k, v)) {
            let i = choose|i: int| 0 <= i < list.len() && list[i] == (k, v);
            model::lemma_to_map_at(list, i);
        }
        if m.contains_key(k) && m[k] == v {
            assert(model::has_name(list, k));
            let i = model::position_of(list, k);
            model::lemma_to_map_at(list, i);
            assert(list[i] == (k, v));
        }
    }
}

/// What is found in a map is what it holds, and where it holds nothing, nothing
/// is found.
pub proof fn law_lookup<V>(m: Map<Seq<char>, V>, k: Seq<char>)
    ensures
        m.contains_key(k) ==> model::lookup(m, k) == Some(m[k]),
        !m.contains_key(k) ==> model::lookup(m, k) is None,
{
}

/// What values, lists of them and parameters stand for: all that they hold.
pub proof fn law_stand_for_what_they_hold(
    s: String,
    list: Vec<String>,
    n: i32,
    v: ParameterValue,
    p: Parameter,
    entries: Seq<(String, ParameterValue)>,
)
    ensures
        ParameterValue::String(s)@ == ValueView::Text(s@),
        ParameterValue::Integer(n)@ == ValueView::Number(n as int),
        ParameterValue::Tuple(list)@ is List,
        ParameterValue::Tuple(list)@->List_0.len() == list@.len(),
        forall|i: int|
            0 <= i < list@.len() ==> (#[trigger] ParameterValue::Tuple(list)@->List_0[i])
                == list@[i]@,
        value::texts(list@).len() == list@.len(),
        forall|i: int| 0 <= i < list@.len() ==> (#[trigger] value::texts(list@)[i]) == list@[i]@,
        ordered::found(Some(&v)) == Some(v@),
        ordered::found(None) is None,
        ordered::taken(Some(v)) == Some(v@),
        ordered::taken(None) is None,
        p@ == (p.name@, p.value@),
        ordered::listed(entries).len() == entries.len(),
        forall|i: int|
            0 <= i < entries.len() ==> (#[trigger] ordered::listed(entries)[i]) == (
                entries[i].0@,
                entries[i].1@,
            ),
{
}

/// On ASCII text, lowercasing changes the letters `A` to `Z` into those that
/// stand 32 places after them, and leaves every other character as it is.
pub proof fn law_lowercase(s: Seq<char>)
    requires
        text::lowercase_ascii(s),
        utf8::is_ascii_chars(s),
    ensures
        text::lowercase(s).len() == s.len(),
        forall|i: int|
            0 <= i < s.len() ==> (#[trigger] text::lowercase(s)[i]) as int == (if 65 <= s[i] as int
                && s[i] as int <= 90 {
                s[i] as int + 32
            } else {
                s[i] as int
            }),
{
}

} // verus!
