//! The lexicographic order of byte strings.

use vstd::prelude::*;

verus! {

/// Whether one byte string comes strictly before another: at the first
/// difference it has the smaller byte, or it is a proper prefix.
pub open spec fn bytes_less(a: Seq<u8>, b: Seq<u8>) -> bool
    decreases a.len(),
{
    if b.len() == 0 {
        false
    } else if a.len() == 0 {
        true
    } else if a[0] != b[0] {
        a[0] < b[0]
    } else {
        bytes_less(a.drop_first(), b.drop_first())
    }
}

/// Of two byte strings exactly one comes first unless they are equal.
pub proof fn bytes_less_is_total(a: Seq<u8>, b: Seq<u8>)
    ensures
        bytes_less(a, b) || bytes_less(b, a) || a == b,
        !(bytes_less(a, b) && bytes_less(b, a)),
        a == b ==> !bytes_less(a, b),
    decreases a.len(),
{
    if a.len() > 0 && b.len() > 0 && a[0] == b[0] {
        bytes_less_is_total(a.drop_first(), b.drop_first());
        if a.drop_first() == b.drop_first() {
            assert(a =~= seq![a[0]] + a.drop_first());
            assert(b =~= seq![b[0]] + b.drop_first());
        }
    } else if a.len() == 0 && b.len() == 0 {
        assert(a =~= b);
    }
}

/// The order of byte strings is transitive.
pub proof fn bytes_less_is_transitive(a: Seq<u8>, b: Seq<u8>, c: Seq<u8>)
    requires
        bytes_less(a, b),
        bytes_less(b, c),
    ensures
        bytes_less(a, c),
    decreases a.len(),
{
    if a.len() > 0 && b.len() > 0 && c.len() > 0 && a[0] == b[0] && b[0] == c[0] {
        bytes_less_is_transitive(a.drop_first(), b.drop_first(), c.drop_first());
    }
}

proof fn bytes_less_behind_a_prefix(a: Seq<u8>, b: Seq<u8>, at: int)
    requires
        0 <= at <= a.len(),
        at <= b.len(),
        forall|i: int| 0 <= i < at ==> a[i] == b[i],
    ensures
        bytes_less(a, b) == bytes_less(a.skip(at), b.skip(at)),
    decreases at,
{
    if at == 0 {
        assert(a.skip(0) =~= a);
        assert(b.skip(0) =~= b);
    } else {
        let x = a.drop_first();
        let y = b.drop_first();
        assert forall|i: int| 0 <= i < at - 1 implies x[i] == y[i] by {
            assert(a[i + 1] == b[i + 1]);
        }
        bytes_less_behind_a_prefix(x, y, at - 1);
        assert(x.skip(at - 1) =~= a.skip(at));
        assert(y.skip(at - 1) =~= b.skip(at));
        assert(a[0] == b[0]);
    }
}

/// Returns whether one byte string comes strictly before another.
pub fn comes_before_bytes(a: &Vec<u8>, b: &Vec<u8>) -> (res: bool)
    ensures
        res == bytes_less(a@, b@),
{
    comes_before_slice(a.as_slice(), b.as_slice())
}

/// Returns whether one byte slice comes strictly before another.
pub fn comes_before_slice(a: &[u8], b: &[u8]) -> (res: bool)
    ensures
        res == bytes_less(a@, b@),
{
    let mut at: usize = 0;
    while at < a.len() && at < b.len() && a[at] == b[at]
        invariant
            at <= a@.len(),
            at <= b@.len(),
            forall|i: int| 0 <= i < at ==> a@[i] == b@[i],
        decreases a@.len() - at,
    {
        at = at + 1;
    }
    proof {
        bytes_less_behind_a_prefix(a@, b@, at as int);
        let x = a@.skip(at as int);
        let y = b@.skip(at as int);
        if at < a@.len() {
            assert(x[0] == a@[at as int]);
        }
        if at < b@.len() {
            assert(y[0] == b@[at as int]);
        }
    }
    if at == b.len() {
        false
    } else if at == a.len() {
        true
    } else {
        a[at] < b[at]
    }
}

/// One byte sequence comes before another exactly where, after all bytes that
/// they share, it ends first or has the smaller byte.
pub proof fn order_is_decided_by_the_first_difference(a: Seq<u8>, b: Seq<u8>, at: int)
    requires
        0 <= at <= a.len(),
        at <= b.len(),
        forall|i: int| 0 <= i < at ==> a[i] == b[i],
    ensures
        at == a.len() && at < b.len() ==> bytes_less(a, b) && !bytes_less(b, a),
        at < a.len() && at == b.len() ==> bytes_less(b, a) && !bytes_less(a, b),
        at == a.len() && at == b.len() ==> !bytes_less(a, b) && !bytes_less(b, a),
        at < a.len() && at < b.len() && a[at] < b[at] ==> bytes_less(a, b) && !bytes_less(b, a),
{
    bytes_less_behind_a_prefix(a, b, at);
    bytes_less_behind_a_prefix(b, a, at);
}

} // verus!
