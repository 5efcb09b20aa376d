//! Byte strings read as big-endian natural numbers: the order of validator
//! keys and the reduction of a digest to a point in a range.

use vstd::prelude::*;

verus! {

/// The number that the bytes of `s` write in base 256, most significant
/// byte first.
pub open spec fn be_value(s: Seq<u8>) -> nat
    decreases s.len(),
{
    if s.len() == 0 {
        0
    } else {
        be_value(s.drop_last()) * 256 + s.last() as nat
    }
}

pub proof fn lemma_be_value_push(s: Seq<u8>, b: u8)
    ensures
        be_value(s.push(b)) == be_value(s) * 256 + b as nat,
{
    assert(s.push(b).drop_last() =~= s);
}

/// Byte strings of one length that differ in their first `k` bytes' value
/// compare as those prefixes do, whatever follows.
pub proof fn lemma_be_value_prefix_decides(a: Seq<u8>, b: Seq<u8>, k: int)
    requires
        a.len() == b.len(),
        0 <= k <= a.len(),
        be_value(a.take(k)) < be_value(b.take(k)),
    ensures
        be_value(a) < be_value(b),
    decreases a.len() - k,
{
    if k < a.len() {
        assert(a.take(k + 1) =~= a.take(k).push(a[k]));
        assert(b.take(k + 1) =~= b.take(k).push(b[k]));
        lemma_be_value_push(a.take(k), a[k]);
        lemma_be_value_push(b.take(k), b[k]);
        lemma_be_value_prefix_decides(a, b, k + 1);
    } else {
        assert(a.take(k) =~= a);
        assert(b.take(k) =~= b);
    }
}

/// Byte strings of one length with the same value are the same.
pub proof fn lemma_be_value_injective(a: Seq<u8>, b: Seq<u8>)
    requires
        a.len() == b.len(),
        be_value(a) == be_value(b),
    ensures
        a == b,
    decreases a.len(),
{
    if a.len() > 0 {
        let x = be_value(a.drop_last());
        let y = be_value(b.drop_last());
        assert(x * 256 + a.last() as nat == y * 256 + b.last() as nat);
        assert(x == y && a.last() == b.last()) by (nonlinear_arith)
            requires
                x * 256 + a.last() as nat == y * 256 + b.last() as nat,
                a.last() < 256,
                b.last() < 256,
        ;
        lemma_be_value_injective(a.drop_last(), b.drop_last());
        assert(a =~= a.drop_last().push(a.last()));
        assert(b =~= b.drop_last().push(b.last()));
    } else {
        assert(a =~= b);
    }
}

/// Whether `a` comes before `b` in the order of their big-endian values,
/// which for strings of one length is the order byte by byte.
pub fn bytes_lt(a: &[u8], b: &[u8]) -> (lt: bool)
    requires
        a@.len() == b@.len(),
    ensures
        lt == (be_value(a@) < be_value(b@)),
{
    let n = a.len();
    let mut i: usize = 0;
    while i < n
        invariant
            i <= n,
            n == a@.len(),
            n == b@.len(),
            a@.take(i as int) == b@.take(i as int),
        decreases n - i,
    {
        proof {
            assert(a@.take(i + 1) =~= a@.take(i as int).push(a@[i as int]));
            assert(b@.take(i + 1) =~= b@.take(i as int).push(b@[i as int]));
            lemma_be_value_push(a@.take(i as int), a@[i as int]);
            lemma_be_value_push(b@.take(i as int), b@[i as int]);
        }
        if a[i] < b[i] {
            proof {
                lemma_be_value_prefix_decides(a@, b@, i + 1);
            }
            return true;
        }
        if a[i] > b[i] {
            proof {
                lemma_be_value_prefix_decides(b@, a@, i + 1);
            }
            return false;
        }
        assert(a@.take(i + 1) =~= b@.take(i + 1));
        i = i + 1;
    }
    proof {
        assert(a@.take(n as int) =~= a@);
        assert(b@.take(n as int) =~= b@);
    }
    false
}

} // verus!
