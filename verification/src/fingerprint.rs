//! The fingerprint of a set of parameters, by which two sets are compared.
//!
//! What the hasher is fed is the same on every machine. Where words have eight
//! bytes, the lowest first, it is what `std::hash::Hash` feeds for these values.
use std::collections::hash_map::DefaultHasher;
use std::hash::Hasher;
use vstd::prelude::*;
use vstd::utf8;

use crate::model;
use crate::tracking;
use crate::value;
use crate::value::{ParameterValue, ValueView};

verus! {

/// A text as it is fed to the hasher: its bytes, then one byte that occurs in
/// no text.
pub open spec fn text_fed(s: Seq<char>) -> Seq<Seq<u8>> {
    seq![utf8::encode_utf8(s), seq![0xffu8]]
}

/// The texts of a list, one after another.
pub open spec fn texts_fed(list: Seq<Seq<char>>) -> Seq<Seq<u8>>
    decreases list.len(),
{
    if list.len() == 0 {
        Seq::empty()
    } else {
        text_fed(list[0]) + texts_fed(list.drop_first())
    }
}

/// A word in eight bytes, the lowest first.
pub open spec fn word(n: u64) -> Seq<u8> {
    vstd::bytes::spec_u64_to_le_bytes(n)
}

/// A value as it is fed to the hasher: its kind, then what it holds.
pub open spec fn value_fed(v: ValueView) -> Seq<Seq<u8>> {
    match v {
        ValueView::Text(s) => seq![word(0)] + text_fed(s),
        ValueView::List(t) => seq![word(1), word(t.len() as u64)] + texts_fed(t),
        ValueView::Number(i) => seq![
            word(2),
            vstd::bytes::spec_u32_to_le_bytes(#[verifier::truncate] (i as i32 as u32)),
        ],
    }
}

/// A list of parameters as it is fed to the hasher.
pub open spec fn entries_fed(s: Seq<(Seq<char>, ValueView)>) -> Seq<Seq<u8>>
    decreases s.len(),
{
    if s.len() == 0 {
        Seq::empty()
    } else {
        text_fed(s[0].0) + value_fed(s[0].1) + entries_fed(s.drop_first())
    }
}

/// The fingerprint of a set of parameters: the hash of those that are tracked,
/// in order, and zero where none is.
pub open spec fn fingerprint(params: Map<Seq<char>, ValueView>) -> u64 {
    let entries = model::in_order(tracking::tracked_part(params));
    if entries.len() == 0 {
        0
    } else {
        <DefaultHasher as vstd::std_specs::hash::DefaultHasherAdditionalSpecFns>::spec_finish(
            entries_fed(entries),
        )
    }
}

/// Feeds a text to the hasher.
pub(crate) fn feed_text(hasher: &mut DefaultHasher, s: &str)
    ensures
        final(hasher)@ == old(hasher)@ + text_fed(s@),
{
    hasher.write(s.as_bytes());
    let end: [u8; 1] = [0xffu8];
    assert(end@ =~= seq![0xffu8]);
    hasher.write(&end);
    assert(hasher@ =~= old(hasher)@ + text_fed(s@));
}

/// Feeds a value to the hasher.
pub(crate) fn feed_value(hasher: &mut DefaultHasher, v: &ParameterValue)
    ensures
        final(hasher)@ == old(hasher)@ + value_fed(v@),
{
    match v {
        ParameterValue::String(s) => {
            hasher.write(vstd::bytes::u64_to_le_bytes(0).as_slice());
            feed_text(hasher, s.as_str());
            assert(hasher@ =~= old(hasher)@ + value_fed(v@));
        },
        ParameterValue::Tuple(t) => {
            hasher.write(vstd::bytes::u64_to_le_bytes(1).as_slice());
            hasher.write(vstd::bytes::u64_to_le_bytes(t.len() as u64).as_slice());
            let ghost list = value::texts(t@);
            let mut i: usize = 0;
            let ghost start = hasher@;
            assert(list.skip(0) =~= list);
            while i < t.len()
                invariant
                    i <= t.len(),
                    list == value::texts(t@),
                    start + texts_fed(list) == hasher@ + texts_fed(list.skip(i as int)),
                decreases t.len() - i,
            {
                let ghost before = hasher@;
                feed_text(hasher, t[i].as_str());
                assert(list.skip(i as int).drop_first() =~= list.skip(i + 1));
                assert(hasher@ + texts_fed(list.skip(i + 1)) =~= before + texts_fed(
                    list.skip(i as int),
                ));
                i += 1;
            }
            assert(hasher@ + texts_fed(list.skip(i as int)) =~= hasher@);
            assert(hasher@ =~= old(hasher)@ + value_fed(v@));
        },
        ParameterValue::Integer(i) => {
            hasher.write(vstd::bytes::u64_to_le_bytes(2).as_slice());
            let bits: u32 = #[verifier::truncate] (*i as u32);
            hasher.write(vstd::bytes::u32_to_le_bytes(bits).as_slice());
            assert(hasher@ =~= old(hasher)@ + value_fed(v@));
        },
    }
}

} // verus!
