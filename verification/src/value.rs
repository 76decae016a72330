//! Parameters and their values.
use bytes::{Bytes, BytesMut};
use vstd::prelude::*;
use vstd::utf8;

use crate::buffer;
use crate::text;

verus! {

/// What a parameter value stands for.
pub enum ValueView {
    Text(Seq<char>),
    List(Seq<Seq<char>>),
    Number(int),
}

/// A parameter value.
#[derive(Debug, Hash)]
pub enum ParameterValue {
    String(String),
    Tuple(Vec<String>),
    Integer(i32),
}

/// The texts of a list of strings.
pub open spec fn texts(list: Seq<String>) -> Seq<Seq<char>> {
    list.map_values(|s: String| s@)
}

impl View for ParameterValue {
    type V = ValueView;

    open spec fn view(&self) -> ValueView {
        match self {
            ParameterValue::String(s) => ValueView::Text(s@),
            ParameterValue::Tuple(t) => ValueView::List(texts(t@)),
            ParameterValue::Integer(i) => ValueView::Number(*i as int),
        }
    }
}

impl ValueView {
    /// The value as it stands in a SQL statement.
    pub open spec fn rendered(self) -> Seq<char> {
        match self {
            ValueView::Text(s) => text::quoted(s),
            ValueView::List(t) => text::joined(
                t.map_values(|s: Seq<char>| text::quoted(s)),
                ", "@,
            ),
            ValueView::Number(i) => text::decimal(i),
        }
    }

    /// The bytes of the value, without the byte that ends it on the wire.
    pub open spec fn payload(self) -> Seq<u8> {
        match self {
            ValueView::Text(s) => utf8::encode_utf8(s),
            ValueView::List(t) => text::joined(byte_parts(t), utf8::encode_utf8(", "@)),
            ValueView::Number(i) => utf8::encode_utf8(text::decimal(i)),
        }
    }

    /// The bytes of the value on the wire: it ends with a zero byte.
    pub open spec fn wire(self) -> Seq<u8> {
        self.payload().push(0u8)
    }

    /// A machine can hold the value: a list is no longer than a word can
    /// count, a number no larger than an `i32`.
    pub open spec fn holdable(self) -> bool {
        match self {
            ValueView::Text(_) => true,
            ValueView::List(t) => t.len() <= u64::MAX,
            ValueView::Number(i) => i32::MIN <= i <= i32::MAX,
        }
    }

    /// The text, where the value is one.
    pub open spec fn as_text(self) -> Option<Seq<char>> {
        match self {
            ValueView::Text(s) => Some(s),
            _ => None,
        }
    }
}

/// A startup parameter.
#[derive(Debug)]
pub struct Parameter {
    /// Its name.
    pub name: String,
    /// Its value.
    pub value: ParameterValue,
}

impl View for Parameter {
    type V = (Seq<char>, ValueView);

    open spec fn view(&self) -> (Seq<char>, ValueView) {
        (self.name@, self.value@)
    }
}

impl Clone for Parameter {
    fn clone(&self) -> (res: Self)
        ensures
            res@ == self@,
    {
        Parameter { name: self.name.clone(), value: self.value.clone() }
    }
}

impl PartialEq for Parameter {
    fn eq(&self, other: &Self) -> (res: bool) {
        self.name == other.name && self.value == other.value
    }
}

impl vstd::std_specs::cmp::PartialEqSpecImpl for Parameter {
    open spec fn obeys_eq_spec() -> bool {
        true
    }

    open spec fn eq_spec(&self, other: &Self) -> bool {
        self@ == other@
    }
}

impl<'a> From<(&'a str, &'a str)> for Parameter {
    fn from(pair: (&'a str, &'a str)) -> (res: Self)
        ensures
            res@ == (pair.0@, ValueView::Text(pair.1@)),
    {
        Parameter {
            name: pair.0.to_string(),
            value: ParameterValue::String(pair.1.to_string()),
        }
    }
}

impl<'a> vstd::std_specs::convert::FromSpecImpl<(&'a str, &'a str)> for Parameter {
    open spec fn obeys_from_spec() -> bool {
        false
    }

    open spec fn from_spec(pair: (&'a str, &'a str)) -> Self {
        arbitrary()
    }
}

impl From<(String, String)> for Parameter {
    fn from(pair: (String, String)) -> (res: Self)
        ensures
            res@ == (pair.0@, ValueView::Text(pair.1@)),
    {
        Parameter { name: pair.0, value: ParameterValue::String(pair.1) }
    }
}

impl vstd::std_specs::convert::FromSpecImpl<(String, String)> for Parameter {
    open spec fn obeys_from_spec() -> bool {
        true
    }

    open spec fn from_spec(pair: (String, String)) -> Self {
        Parameter { name: pair.0, value: ParameterValue::String(pair.1) }
    }
}

/// What a value is handed over as to be written into a column of a row.
#[derive(Debug)]
pub enum Column<'a> {
    /// Plain text.
    Text(&'a str),
    /// Bytes as they are.
    Raw(Bytes),
    /// A number.
    Integer(i32),
}

/// A machine can hold every parameter value.
pub proof fn lemma_holdable(v: ParameterValue)
    ensures
        v@.holdable(),
{
    if let ParameterValue::Tuple(t) = v {
        assert(texts(t@).len() == t.len());
    }
}

/// Whether two lists hold the same texts.
fn same_texts(a: &Vec<String>, b: &Vec<String>) -> (res: bool)
    ensures
        res == (texts(a@) == texts(b@)),
{
    if a.len() != b.len() {
        assert(texts(a@).len() != texts(b@).len());
        return false;
    }
    let mut i: usize = 0;
    while i < a.len()
        invariant
            i <= a.len(),
            a.len() == b.len(),
            forall|j: int| 0 <= j < i ==> texts(a@)[j] == texts(b@)[j],
        decreases a.len() - i,
    {
        if a[i] != b[i] {
            assert(texts(a@)[i as int] != texts(b@)[i as int]);
            return false;
        }
        i += 1;
    }
    assert(texts(a@) =~= texts(b@));
    true
}

impl PartialEq for ParameterValue {
    fn eq(&self, other: &Self) -> (res: bool) {
        match (self, other) {
            (ParameterValue::String(a), ParameterValue::String(b)) => *a == *b,
            (ParameterValue::Tuple(a), ParameterValue::Tuple(b)) => same_texts(a, b),
            (ParameterValue::Integer(a), ParameterValue::Integer(b)) => *a == *b,
            _ => false,
        }
    }
}

impl vstd::std_specs::cmp::PartialEqSpecImpl for ParameterValue {
    open spec fn obeys_eq_spec() -> bool {
        true
    }

    open spec fn eq_spec(&self, other: &Self) -> bool {
        self@ == other@
    }
}

impl Clone for ParameterValue {
    fn clone(&self) -> (res: Self)
        ensures
            res@ == self@,
    {
        match self {
            ParameterValue::String(s) => ParameterValue::String(s.clone()),
            ParameterValue::Tuple(t) => {
                let list = t.clone();
                assert(texts(list@) =~= texts(t@));
                ParameterValue::Tuple(list)
            },
            ParameterValue::Integer(i) => ParameterValue::Integer(*i),
        }
    }
}

impl<'a> From<&'a str> for ParameterValue {
    fn from(value: &'a str) -> (res: Self)
        ensures
            res@ == ValueView::Text(value@),
    {
        ParameterValue::String(value.to_string())
    }
}

impl<'a> vstd::std_specs::convert::FromSpecImpl<&'a str> for ParameterValue {
    open spec fn obeys_from_spec() -> bool {
        false
    }

    open spec fn from_spec(value: &'a str) -> Self {
        arbitrary()
    }
}

impl From<String> for ParameterValue {
    fn from(value: String) -> (res: Self)
        ensures
            res@ == ValueView::Text(value@),
    {
        ParameterValue::String(value)
    }
}

impl vstd::std_specs::convert::FromSpecImpl<String> for ParameterValue {
    open spec fn obeys_from_spec() -> bool {
        true
    }

    open spec fn from_spec(value: String) -> Self {
        ParameterValue::String(value)
    }
}

/// The byte strings of a list of texts.
pub open spec fn byte_parts(list: Seq<Seq<char>>) -> Seq<Seq<u8>> {
    list.map_values(|s: Seq<char>| utf8::encode_utf8(s))
}

/// A list joined so far is no longer than the whole list joined.
proof fn lemma_joined_prefix_len<T>(parts: Seq<Seq<T>>, n: int, sep: Seq<T>)
    requires
        0 <= n <= parts.len(),
    ensures
        text::joined(parts.take(n), sep).len() <= text::joined(parts, sep).len(),
    decreases parts.len(),
{
    if n == parts.len() {
        assert(parts.take(n) =~= parts);
    } else {
        lemma_joined_prefix_len(parts.drop_last(), n, sep);
        assert(parts.drop_last().take(n) =~= parts.take(n));
    }
}

/// Appends the texts of a list, joined by a comma and a space.
fn put_list(bytes: &mut BytesMut, list: &Vec<String>)
    requires
        buffer::bytes_written(*old(bytes)).len() == 0,
        text::joined(byte_parts(texts(list@)), utf8::encode_utf8(", "@)).len()
            <= buffer::buffer_limit(),
    ensures
        buffer::bytes_written(*final(bytes)) == text::joined(
            byte_parts(texts(list@)),
            utf8::encode_utf8(", "@),
        ),
{
    let ghost parts = byte_parts(texts(list@));
    let ghost sep = utf8::encode_utf8(", "@);
    let mut i: usize = 0;
    assert(buffer::bytes_written(*bytes) =~= text::joined(parts.take(0), sep));
    while i < list.len()
        invariant
            i <= list.len(),
            parts == byte_parts(texts(list@)),
            sep == utf8::encode_utf8(", "@),
            text::joined(parts, sep).len() <= buffer::buffer_limit(),
            buffer::bytes_written(*bytes) == text::joined(parts.take(i as int), sep),
        decreases list.len() - i,
    {
        proof {
            assert(parts.take(i + 1) =~= parts.take(i as int).push(parts[i as int]));
            text::lemma_joined_push(parts.take(i as int), parts[i as int], sep);
            lemma_joined_prefix_len(parts, i + 1, sep);
        }
        if i > 0 {
            buffer::put_slice(bytes, ", ".as_bytes());
        }
        buffer::put_slice(bytes, list[i].as_str().as_bytes());
        assert(buffer::bytes_written(*bytes) =~= text::joined(parts.take(i + 1), sep));
        i += 1;
    }
    assert(parts.take(list.len() as int) =~= parts);
}

impl ParameterValue {
    /// The text, where the value is one.
    pub fn as_str(&self) -> (res: Option<&str>)
        ensures
            match res {
                Some(s) => self@.as_text() == Some(s@),
                None => self@.as_text() is None,
            },
    {
        match self {
            ParameterValue::String(s) => Some(s.as_str()),
            _ => None,
        }
    }

    /// The value as it stands in a SQL statement.
    pub fn to_string(&self) -> (res: String)
        ensures
            res@ == self@.rendered(),
    {
        match self {
            ParameterValue::String(s) => text::quote(s.as_str()),
            ParameterValue::Tuple(t) => {
                let ghost parts = texts(t@).map_values(|s: Seq<char>| text::quoted(s));
                let mut res = String::new();
                let mut i: usize = 0;
                while i < t.len()
                    invariant
                        i <= t.len(),
                        parts == texts(t@).map_values(|s: Seq<char>| text::quoted(s)),
                        res@ == text::joined(parts.take(i as int), ", "@),
                    decreases t.len() - i,
                {
                    if i > 0 {
                        res.append(", ");
                    }
                    let part = text::quote(t[i].as_str());
                    res.append(part.as_str());
                    proof {
                        assert(parts.take(i + 1) =~= parts.take(i as int).push(parts[i as int]));
                        text::lemma_joined_push(parts.take(i as int), parts[i as int], ", "@);
                        assert(res@ =~= text::joined(parts.take(i + 1), ", "@));
                    }
                    i += 1;
                }
                assert(parts.take(t.len() as int) =~= parts);
                res
            },
            ParameterValue::Integer(i) => text::decimal_text(*i),
        }
    }

    /// Whether the value on the wire fits into a buffer.
    pub fn wire_fits(&self) -> (res: bool)
        ensures
            res == (self@.wire().len() <= buffer::buffer_limit()),
    {
        let limit: usize = isize::MAX as usize / 2;
        match self {
            ParameterValue::String(s) => s.as_str().as_bytes().len() < limit,
            ParameterValue::Tuple(t) => {
                let ghost parts = byte_parts(texts(t@));
                let ghost sep = utf8::encode_utf8(", "@);
                let gap = ", ".as_bytes().len();
                let mut len: usize = 0;
                let mut i: usize = 0;
                while i < t.len()
                    invariant
                        i <= t.len(),
                        parts == byte_parts(texts(t@)),
                        sep == utf8::encode_utf8(", "@),
                        gap == sep.len(),
                        limit == buffer::buffer_limit(),
                        len == text::joined(parts.take(i as int), sep).len(),
                        len < limit,
                        self@ == ValueView::List(texts(t@)),
                    decreases t.len() - i,
                {
                    proof {
                        assert(parts.take(i + 1) =~= parts.take(i as int).push(parts[i as int]));
                        text::lemma_joined_push(parts.take(i as int), parts[i as int], sep);
                        lemma_joined_prefix_len(parts, i + 1, sep);
                    }
                    if i > 0 {
                        if gap >= limit - len {
                            return false;
                        }
                        len += gap;
                    }
                    let part = t[i].as_str().as_bytes().len();
                    if part >= limit - len {
                        return false;
                    }
                    len += part;
                    i += 1;
                }
                assert(parts.take(t.len() as int) =~= parts);
                true
            },
            ParameterValue::Integer(i) => {
                let digits = text::decimal_text(*i);
                digits.as_str().as_bytes().len() < limit
            },
        }
    }

    /// The value on the wire.
    pub fn to_bytes(&self) -> (res: Bytes)
        requires
            self@.wire().len() <= buffer::buffer_limit(),
        ensures
            buffer::bytes_held(res) == self@.wire(),
    {
        let mut bytes = buffer::new_buffer();
        match self {
            ParameterValue::String(s) => {
                buffer::put_slice(&mut bytes, s.as_str().as_bytes());
            },
            ParameterValue::Tuple(t) => {
                put_list(&mut bytes, t);
            },
            ParameterValue::Integer(i) => {
                let digits = text::decimal_text(*i);
                buffer::put_slice(&mut bytes, digits.as_str().as_bytes());
            },
        }
        assert(buffer::bytes_written(bytes) =~= self@.payload());
        buffer::put_u8(&mut bytes, 0);
        buffer::freeze(bytes)
    }

    /// What the value is handed over as to be written into a column of a row:
    /// text and numbers as they are, a list as its bytes on the wire.
    pub fn to_data_row_column(&self) -> (res: Column<'_>)
        requires
            self@ is List ==> self@.wire().len() <= buffer::buffer_limit(),
        ensures
            match self@ {
                ValueView::Text(s) => res matches Column::Text(c) && c@ == s,
                ValueView::List(_) => res matches Column::Raw(b) && buffer::bytes_held(b)
                    == self@.wire(),
                ValueView::Number(i) => res matches Column::Integer(c) && c == i,
            },
    {
        match self {
            ParameterValue::String(s) => Column::Text(s.as_str()),
            ParameterValue::Tuple(_) => Column::Raw(self.to_bytes()),
            ParameterValue::Integer(i) => Column::Integer(*i),
        }
    }

    /// The memory that the value takes, by a measure for each kind of value.
    pub fn memory_usage<S, L, N>(&self, of_text: S, of_list: L, of_number: N) -> (res: usize) where
        S: Fn(&String) -> usize,
        L: Fn(&Vec<String>) -> usize,
        N: Fn(&i32) -> usize,

        requires
            match self {
                ParameterValue::String(s) => call_requires(of_text, (s,)),
                ParameterValue::Tuple(t) => call_requires(of_list, (t,)),
                ParameterValue::Integer(i) => call_requires(of_number, (i,)),
            },
        ensures
            match self {
                ParameterValue::String(s) => call_ensures(of_text, (s,), res),
                ParameterValue::Tuple(t) => call_ensures(of_list, (t,), res),
                ParameterValue::Integer(i) => call_ensures(of_number, (i,), res),
            },
    {
        match self {
            ParameterValue::String(s) => of_text(s),
            ParameterValue::Tuple(t) => of_list(t),
            ParameterValue::Integer(i) => of_number(i),
        }
    }
}

} // verus!
