//! Laws of the wire: what is sent is read back.
use vstd::prelude::*;
use vstd::utf8;

use crate::buffer;
use crate::laws::quoting;
use crate::text;
use crate::value;
use crate::value::ValueView;

verus! {

/// On the wire, every value ends with a zero byte, and a text is read back from
/// the bytes before it.
pub proof fn law_text_on_the_wire(s: Seq<char>, v: ValueView)
    ensures
        v.wire().len() > 0,
        v.wire()[v.wire().len() - 1] == 0,
        v.wire().take(v.wire().len() - 1) == v.payload(),
        utf8::valid_utf8(ValueView::Text(s).payload()),
        utf8::decode_utf8(ValueView::Text(s).payload()) == s,
{
    assert(v.wire().take(v.wire().len() - 1) =~= v.payload());
    utf8::encode_utf8_valid_utf8(s);
    utf8::encode_utf8_decode_utf8(s);
}

/// A number is sent in decimal, and read back.
pub proof fn law_number_on_the_wire(i: int)
    ensures
        utf8::valid_utf8(ValueView::Number(i).payload()),
        quoting::number(utf8::decode_utf8(ValueView::Number(i).payload())) == Some(i),
{
    utf8::encode_utf8_valid_utf8(text::decimal(i));
    utf8::encode_utf8_decode_utf8(text::decimal(i));
    quoting::law_number_read_back(i);
}

/// A list is sent item by item from the first to the last, each as a text is,
/// with a comma and a space between them and nothing around them.
pub proof fn law_list_on_the_wire(first: Seq<char>, others: Seq<Seq<char>>)
    ensures
        ValueView::List(Seq::empty()).payload() == Seq::<u8>::empty(),
        ValueView::List(seq![first]).payload() == ValueView::Text(first).payload(),
        others.len() > 0 ==> ValueView::List(seq![first] + others).payload() == ValueView::Text(
            first,
        ).payload() + seq![44u8, 32u8] + ValueView::List(others).payload(),
{
    reveal_strlit(", ");
    let gap = utf8::encode_utf8(", "@);
    assert(utf8::is_ascii_chars(", "@));
    utf8::is_ascii_chars_encode_utf8(", "@);
    assert(", "@[0] as u8 == gap[0] && ", "@[1] as u8 == gap[1]);
    assert(gap =~= seq![44u8, 32u8]);
    assert(ValueView::List(Seq::empty()).payload() =~= Seq::<u8>::empty());
    assert(ValueView::List(seq![first]).payload() =~= ValueView::Text(first).payload());
    if others.len() > 0 {
        assert(value::byte_parts(seq![first] + others) =~= seq![utf8::encode_utf8(first)]
            + value::byte_parts(others));
        quoting::lemma_joined_front(utf8::encode_utf8(first), value::byte_parts(others), gap);
        assert(ValueView::List(seq![first] + others).payload() =~= ValueView::Text(first).payload()
            + seq![44u8, 32u8] + ValueView::List(others).payload());
    }
}

/// A buffer takes half of what an allocation can hold, and no less.
pub proof fn law_buffer_limit()
    ensures
        2 * buffer::buffer_limit() <= isize::MAX < 2 * buffer::buffer_limit() + 2,
{
}

} // verus!
