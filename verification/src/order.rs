//! The order in which names are listed: byte by byte.
use vstd::prelude::*;
use vstd::string::*;
use vstd::utf8::*;

verus! {

/// `a` stands before `b`: at the first byte in which they differ it is the
/// smaller one, or it ends there.
pub open spec fn bytes_before(a: Seq<u8>, b: Seq<u8>) -> bool
    decreases a.len(),
{
    if b.len() == 0 {
        false
    } else if a.len() == 0 {
        true
    } else if a[0] != b[0] {
        a[0] < b[0]
    } else {
        bytes_before(a.drop_first(), b.drop_first())
    }
}

/// `a` stands before `b` by the bytes of their UTF-8 encoding.
pub open spec fn text_before(a: Seq<char>, b: Seq<char>) -> bool {
    bytes_before(encode_utf8(a), encode_utf8(b))
}

/// Whether `a` stands before `b`.
pub fn is_before(a: &str, b: &str) -> (before: bool)
    ensures
        before == text_before(a@, b@),
{
    let left = a.as_bytes();
    let right = b.as_bytes();
    let mut i: usize = 0;
    assert(left@.skip(0) =~= left@);
    assert(right@.skip(0) =~= right@);
    while i < left.len() && i < right.len()
        invariant
            i <= left@.len(),
            i <= right@.len(),
            left@ == a.spec_bytes(),
            right@ == b.spec_bytes(),
            bytes_before(left@, right@) == bytes_before(left@.skip(i as int), right@.skip(i as int)),
        decreases left@.len() - i,
    {
        let ghost from = i as int;
        if left[i] != right[i] {
            assert(left@.skip(from)[0] == left@[from] && right@.skip(from)[0] == right@[from]);
            return left[i] < right[i];
        }
        i = i + 1;
        assert(left@.skip(from).drop_first() =~= left@.skip(i as int));
        assert(right@.skip(from).drop_first() =~= right@.skip(i as int));
    }
    i < right.len()
}

/// Of three sequences, each before the next, the first is before the last.
proof fn lemma_bytes_transitive(a: Seq<u8>, b: Seq<u8>, c: Seq<u8>)
    requires
        bytes_before(a, b),
        bytes_before(b, c),
    ensures
        bytes_before(a, c),
    decreases a.len(),
{
    if a.len() > 0 && a[0] == b[0] && b[0] == c[0] {
        lemma_bytes_transitive(a.drop_first(), b.drop_first(), c.drop_first());
    }
}

/// Of two different sequences, exactly one is before the other.
proof fn lemma_bytes_total(a: Seq<u8>, b: Seq<u8>)
    ensures
        a == b ==> !bytes_before(a, b),
        a != b ==> bytes_before(a, b) != bytes_before(b, a),
    decreases a.len(),
{
    if a.len() == 0 {
        if b.len() == 0 {
            assert(a =~= b);
        }
    } else if b.len() > 0 && a[0] == b[0] {
        lemma_bytes_total(a.drop_first(), b.drop_first());
        if a.drop_first() == b.drop_first() {
            assert(a =~= seq![a[0]] + a.drop_first());
            assert(b =~= seq![b[0]] + b.drop_first());
        }
    }
}

/// The order is transitive.
pub proof fn lemma_before_transitive(a: Seq<char>, b: Seq<char>, c: Seq<char>)
    requires
        text_before(a, b),
        text_before(b, c),
    ensures
        text_before(a, c),
{
    lemma_bytes_transitive(encode_utf8(a), encode_utf8(b), encode_utf8(c));
}

/// The order is strict, and any two different texts stand in it one way.
pub proof fn lemma_before_total(a: Seq<char>, b: Seq<char>)
    ensures
        !text_before(a, a),
        a != b ==> text_before(a, b) != text_before(b, a),
{
    lemma_bytes_total(encode_utf8(a), encode_utf8(a));
    lemma_bytes_total(encode_utf8(a), encode_utf8(b));
    encode_utf8_decode_utf8(a);
    encode_utf8_decode_utf8(b);
}

/// Names are listed as a dictionary lists them, by bytes: what is the same at the start
/// of both does not matter, then the smaller byte comes first, and a name comes before
/// every longer one that starts with it.
pub proof fn law_order_is_by_bytes(
    start: Seq<u8>,
    x: u8,
    y: u8,
    left: Seq<u8>,
    right: Seq<u8>,
)
    ensures
        bytes_before(start, start + seq![x] + left),
        !bytes_before(start + seq![x] + left, start),
        !bytes_before(start, start),
        x != y ==> (bytes_before(start + seq![x] + left, start + seq![y] + right) <==> x < y),
    decreases start.len(),
{
    let a = start + seq![x] + left;
    let b = start + seq![y] + right;
    if start.len() > 0 {
        let rest = start.drop_first();
        law_order_is_by_bytes(rest, x, y, left, right);
        assert(a.drop_first() =~= rest + seq![x] + left);
        assert(b.drop_first() =~= rest + seq![y] + right);
    }
}

/// Two names are compared by their bytes in UTF-8.
pub proof fn law_names_are_compared_by_bytes(a: Seq<char>, b: Seq<char>)
    ensures
        text_before(a, b) <==> bytes_before(encode_utf8(a), encode_utf8(b)),
{
}

} // verus!
