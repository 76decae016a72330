//! The order of names: lexicographic over their UTF-8 bytes, which is how
//! strings are ordered.
use vstd::prelude::*;
use vstd::utf8;

verus! {

/// `a` and `b` agree on their first `i` bytes, and there `a` either ends or
/// goes on with a smaller byte.
pub open spec fn smaller_from(a: Seq<u8>, b: Seq<u8>, i: int) -> bool {
    &&& 0 <= i <= a.len()
    &&& i < b.len()
    &&& forall|j: int| 0 <= j < i ==> a[j] == b[j]
    &&& i == a.len() || a[i] < b[i]
}

/// The lexicographic order of byte strings.
#[verifier::opaque]
pub open spec fn bytes_before(a: Seq<u8>, b: Seq<u8>) -> bool {
    exists|i: int| smaller_from(a, b, i)
}

/// Whether the name `a` comes before the name `b`.
pub open spec fn before(a: Seq<char>, b: Seq<char>) -> bool {
    bytes_before(utf8::encode_utf8(a), utf8::encode_utf8(b))
}

proof fn lemma_bytes_before_transitive(a: Seq<u8>, b: Seq<u8>, c: Seq<u8>)
    requires
        bytes_before(a, b),
        bytes_before(b, c),
    ensures
        bytes_before(a, c),
{
    reveal(bytes_before);
    let i = choose|i: int| smaller_from(a, b, i);
    let j = choose|j: int| smaller_from(b, c, j);
    let k = if i <= j { i } else { j };
    assert(smaller_from(a, c, k));
}

/// Byte strings that agree on their first `i` bytes are ordered or equal.
proof fn lemma_bytes_before_total(a: Seq<u8>, b: Seq<u8>, i: int)
    requires
        0 <= i <= a.len(),
        i <= b.len(),
        forall|j: int| 0 <= j < i ==> a[j] == b[j],
    ensures
        bytes_before(a, b) || a == b || bytes_before(b, a),
    decreases a.len() - i,
{
    reveal(bytes_before);
    if i == a.len() || i == b.len() || a[i] != b[i] {
        if i == a.len() && i == b.len() {
            assert(a =~= b);
        } else if i == a.len() || (i < b.len() && a[i] < b[i]) {
            assert(smaller_from(a, b, i));
        } else {
            assert(smaller_from(b, a, i));
        }
    } else {
        lemma_bytes_before_total(a, b, i + 1);
    }
}

/// Two names with the same UTF-8 bytes are the same name.
pub proof fn lemma_encode_injective(a: Seq<char>, b: Seq<char>)
    requires
        utf8::encode_utf8(a) == utf8::encode_utf8(b),
    ensures
        a == b,
{
    utf8::encode_utf8_decode_utf8(a);
    utf8::encode_utf8_decode_utf8(b);
}

/// No name comes before itself.
pub proof fn lemma_before_irreflexive(a: Seq<char>)
    ensures
        !before(a, a),
{
    reveal(bytes_before);
}

/// The order of names is transitive.
pub proof fn lemma_before_transitive(a: Seq<char>, b: Seq<char>, c: Seq<char>)
    requires
        before(a, b),
        before(b, c),
    ensures
        before(a, c),
{
    lemma_bytes_before_transitive(utf8::encode_utf8(a), utf8::encode_utf8(b), utf8::encode_utf8(c));
}

/// Of two different names, one comes before the other.
pub proof fn lemma_before_total(a: Seq<char>, b: Seq<char>)
    ensures
        before(a, b) || a == b || before(b, a),
{
    lemma_bytes_before_total(utf8::encode_utf8(a), utf8::encode_utf8(b), 0);
    if utf8::encode_utf8(a) == utf8::encode_utf8(b) {
        lemma_encode_injective(a, b);
    }
}

/// Where one name stands with respect to another.
#[derive(Debug, Clone, Copy, PartialEq, Eq, Structural)]
pub enum Place {
    Before,
    Same,
    After,
}

/// Places the name `a` with respect to the name `b`.
pub fn place(a: &str, b: &str) -> (res: Place)
    ensures
        match res {
            Place::Before => before(a@, b@),
            Place::Same => a@ == b@,
            Place::After => before(b@, a@),
        },
{
    let x = a.as_bytes();
    let y = b.as_bytes();
    let mut i: usize = 0;
    while i < x.len() && i < y.len()
        invariant
            i <= x.len(),
            i <= y.len(),
            x@ == utf8::encode_utf8(a@),
            y@ == utf8::encode_utf8(b@),
            forall|j: int| 0 <= j < i ==> x@[j] == y@[j],
        decreases x.len() - i,
    {
        if x[i] < y[i] {
            proof {
                reveal(bytes_before);
                assert(smaller_from(x@, y@, i as int));
            }
            return Place::Before;
        }
        if y[i] < x[i] {
            proof {
                reveal(bytes_before);
                assert(smaller_from(y@, x@, i as int));
            }
            return Place::After;
        }
        i += 1;
    }
    if i < y.len() {
        proof {
            reveal(bytes_before);
            assert(smaller_from(x@, y@, i as int));
        }
        Place::Before
    } else if i < x.len() {
        proof {
            reveal(bytes_before);
            assert(smaller_from(y@, x@, i as int));
        }
        Place::After
    } else {
        proof {
            assert(x@ =~= y@);
            lemma_encode_injective(a@, b@);
        }
        Place::Same
    }
}

} // verus!
