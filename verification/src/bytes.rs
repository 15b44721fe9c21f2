//! Byte strings: comparing, ordering and joining them.

use vstd::prelude::*;

verus! {

/// `a` comes before `b` in dictionary order, byte by byte, a proper prefix
/// coming first.
pub open spec fn lex_less(a: Seq<u8>, b: Seq<u8>) -> bool
    decreases a.len(),
{
    if b.len() == 0 {
        false
    } else if a.len() == 0 {
        true
    } else if a[0] != b[0] {
        a[0] < b[0]
    } else {
        lex_less(a.drop_first(), b.drop_first())
    }
}

/// Two different byte strings are always ordered, and one way round only.
pub proof fn law_lex_order_is_total(a: Seq<u8>, b: Seq<u8>)
    ensures
        lex_less(a, b) || lex_less(b, a) <==> a != b,
        !(lex_less(a, b) && lex_less(b, a)),
    decreases a.len() + b.len(),
{
    if a.len() > 0 && b.len() > 0 && a[0] == b[0] {
        law_lex_order_is_total(a.drop_first(), b.drop_first());
        if a.drop_first() == b.drop_first() {
            assert(a =~= seq![a[0]] + a.drop_first());
            assert(b =~= seq![b[0]] + b.drop_first());
        }
    }
    if a.len() == 0 && b.len() == 0 {
        assert(a =~= b);
    }
}

/// Whether two byte strings are the same.
pub fn same_bytes(a: &[u8], b: &[u8]) -> (same: bool)
    ensures
        same == (a@ == b@),
{
    if a.len() != b.len() {
        return false;
    }
    for i in 0..a.len()
        invariant
            a@.len() == b@.len(),
            forall|j: int| 0 <= j < i ==> a@[j] == b@[j],
    {
        if a[i] != b[i] {
            return false;
        }
    }
    assert(a@ =~= b@);
    true
}

/// Whether `a` comes before `b` in dictionary order.
pub fn comes_before(a: &[u8], b: &[u8]) -> (before: bool)
    ensures
        before == lex_less(a@, b@),
{
    let mut i: usize = 0;
    assert(a@.skip(0) =~= a@);
    assert(b@.skip(0) =~= b@);
    while i < a.len() && i < b.len()
        invariant
            i <= a@.len(),
            i <= b@.len(),
            lex_less(a@, b@) == lex_less(a@.skip(i as int), b@.skip(i as int)),
        decreases a@.len() - i,
    {
        if a[i] != b[i] {
            return a[i] < b[i];
        }
        assert(a@.skip(i as int).drop_first() =~= a@.skip(i + 1));
        assert(b@.skip(i as int).drop_first() =~= b@.skip(i + 1));
        i = i + 1;
    }
    i < b.len()
}

/// `a` followed by `b`.
pub fn joined(a: &[u8], b: &[u8]) -> (all: Vec<u8>)
    ensures
        all@ == a@ + b@,
{
    let mut all: Vec<u8> = Vec::new();
    all.extend_from_slice(a);
    all.extend_from_slice(b);
    assert(all@ =~= a@ + b@);
    all
}

/// The bytes as an array, when there are exactly as many as it holds.
pub fn to_array<const N: usize>(bytes: &[u8]) -> (array: Option<[u8; N]>)
    ensures
        array is Some <==> bytes@.len() == N,
        array matches Some(a) ==> a@ == bytes@,
{
    if bytes.len() != N {
        return None;
    }
    let mut array: [u8; N] = [0u8; N];
    for i in 0..N
        invariant
            bytes@.len() == N,
            array@.len() == N,
            forall|j: int| 0 <= j < i ==> array@[j] == bytes@[j],
    {
        array[i] = bytes[i];
    }
    assert(array@ =~= bytes@);
    Some(array)
}

/// The first byte in which two byte strings differ decides their order.
pub proof fn law_the_first_difference_decides(a: Seq<u8>, b: Seq<u8>, i: int)
    requires
        0 <= i < a.len(),
        i < b.len(),
        a.take(i) == b.take(i),
        a[i] != b[i],
    ensures
        lex_less(a, b) <==> a[i] < b[i],
    decreases i,
{
    if i > 0 {
        assert(a.take(i)[0] == a[0] && b.take(i)[0] == b[0]);
        let (x, y) = (a.drop_first(), b.drop_first());
        assert(x.take(i - 1) =~= a.take(i).drop_first());
        assert(y.take(i - 1) =~= b.take(i).drop_first());
        law_the_first_difference_decides(x, y, i - 1);
    }
}

/// A byte string comes before every longer one that begins with it.
pub proof fn law_a_beginning_comes_first(a: Seq<u8>, more: Seq<u8>)
    requires
        more.len() > 0,
    ensures
        lex_less(a, a + more),
        !lex_less(a + more, a),
    decreases a.len(),
{
    if a.len() > 0 {
        assert((a + more).drop_first() =~= a.drop_first() + more);
        law_a_beginning_comes_first(a.drop_first(), more);
    }
}

} // verus!
