//! The order of the ledger store's keys. Keys are byte strings: a key comes
//! before another when its UTF-8 bytes come first lexicographically.

use vstd::prelude::*;
use vstd::utf8::*;

verus! {

/// The first index at or after `from` at which `x` and `y` differ or one
/// of them ends.
pub open spec fn mismatch(x: Seq<u8>, y: Seq<u8>, from: int) -> int
    decreases x.len() - from,
{
    if from < 0 || from >= x.len() || from >= y.len() || x[from] != y[from] {
        from
    } else {
        mismatch(x, y, from + 1)
    }
}

/// Lexicographic order on byte strings: at the first place where they
/// part, `x` has ended or holds the smaller byte.
pub open spec fn bytes_lt(x: Seq<u8>, y: Seq<u8>) -> bool {
    let k = mismatch(x, y, 0);
    k < y.len() && (k >= x.len() || x[k] < y[k])
}

/// The order of keys: that of their UTF-8 bytes.
pub open spec fn key_lt(a: Seq<char>, b: Seq<char>) -> bool {
    bytes_lt(encode_utf8(a), encode_utf8(b))
}

/// What `mismatch` finds: the two strings agree before it, and it is the
/// end of one of them or a place where they differ.
pub proof fn lemma_mismatch(x: Seq<u8>, y: Seq<u8>, from: int)
    requires
        0 <= from <= x.len(),
        from <= y.len(),
    ensures
        from <= mismatch(x, y, from) <= x.len(),
        mismatch(x, y, from) <= y.len(),
        forall|j: int| from <= j < mismatch(x, y, from) ==> x[j] == y[j],
        mismatch(x, y, from) < x.len() && mismatch(x, y, from) < y.len() ==> x[mismatch(
            x,
            y,
            from,
        )] != y[mismatch(x, y, from)],
    decreases x.len() - from,
{
    if from < x.len() && from < y.len() && x[from] == y[from] {
        lemma_mismatch(x, y, from + 1);
    }
}

/// A place up to which two strings agree, and at which they differ or one
/// ends, is their mismatch.
pub proof fn lemma_mismatch_is(x: Seq<u8>, y: Seq<u8>, k: int)
    requires
        0 <= k <= x.len(),
        k <= y.len(),
        forall|j: int| 0 <= j < k ==> x[j] == y[j],
        k == x.len() || k == y.len() || x[k] != y[k],
    ensures
        mismatch(x, y, 0) == k,
{
    lemma_mismatch(x, y, 0);
}

/// No byte string comes before itself, and of two none comes before the
/// other both ways.
pub proof fn lemma_bytes_lt_asymmetric(x: Seq<u8>, y: Seq<u8>)
    ensures
        !(bytes_lt(x, y) && bytes_lt(y, x)),
{
    lemma_mismatch(x, y, 0);
    lemma_mismatch(y, x, 0);
    lemma_mismatch_is(y, x, mismatch(x, y, 0));
}

/// Two different byte strings are ordered one way or the other.
pub proof fn lemma_bytes_lt_total(x: Seq<u8>, y: Seq<u8>)
    ensures
        x == y || bytes_lt(x, y) || bytes_lt(y, x),
{
    lemma_mismatch(x, y, 0);
    lemma_mismatch(y, x, 0);
    let k = mismatch(x, y, 0);
    lemma_mismatch_is(y, x, k);
    if k == x.len() && k == y.len() {
        assert(x =~= y);
    }
}

pub proof fn lemma_bytes_lt_transitive(x: Seq<u8>, y: Seq<u8>, z: Seq<u8>)
    requires
        bytes_lt(x, y),
        bytes_lt(y, z),
    ensures
        bytes_lt(x, z),
{
    lemma_mismatch(x, y, 0);
    lemma_mismatch(y, z, 0);
    let k1 = mismatch(x, y, 0);
    let k2 = mismatch(y, z, 0);
    let k = if k1 <= k2 {
        k1
    } else {
        k2
    };
    lemma_mismatch_is(x, z, k);
}

/// The key order is a strict total order.
pub proof fn lemma_key_lt_order(a: Seq<char>, b: Seq<char>, c: Seq<char>)
    ensures
        !key_lt(a, a),
        !(key_lt(a, b) && key_lt(b, a)),
        a == b || key_lt(a, b) || key_lt(b, a),
        key_lt(a, b) && key_lt(b, c) ==> key_lt(a, c),
{
    let x = encode_utf8(a);
    let y = encode_utf8(b);
    let z = encode_utf8(c);
    lemma_bytes_lt_asymmetric(x, x);
    lemma_bytes_lt_asymmetric(x, y);
    lemma_bytes_lt_total(x, y);
    if x == y {
        encode_utf8_decode_utf8(a);
        encode_utf8_decode_utf8(b);
    }
    if key_lt(a, b) && key_lt(b, c) {
        lemma_bytes_lt_transitive(x, y, z);
    }
}

/// Decides the key order.
pub fn key_is_less(a: &str, b: &str) -> (r: bool)
    ensures
        r == key_lt(a@, b@),
{
    let x = a.as_bytes();
    let y = b.as_bytes();
    let mut i: usize = 0;
    while i < x.len() && i < y.len()
        invariant
            i <= x@.len(),
            i <= y@.len(),
            x@ == encode_utf8(a@),
            y@ == encode_utf8(b@),
            mismatch(x@, y@, 0) == mismatch(x@, y@, i as int),
        decreases x@.len() - i,
    {
        if x[i] != y[i] {
            return x[i] < y[i];
        }
        i += 1;
    }
    i < y.len()
}

/// Decides whether two keys are the same.
pub fn key_is_same(a: &str, b: &str) -> (r: bool)
    ensures
        r == (a@ == b@),
{
    let x = a.as_bytes();
    let y = b.as_bytes();
    proof {
        encode_utf8_decode_utf8(a@);
        encode_utf8_decode_utf8(b@);
    }
    if x.len() != y.len() {
        return false;
    }
    let mut i: usize = 0;
    while i < x.len()
        invariant
            i <= x@.len(),
            x@.len() == y@.len(),
            x@ == encode_utf8(a@),
            y@ == encode_utf8(b@),
            forall|j: int| 0 <= j < i ==> x@[j] == y@[j],
        decreases x@.len() - i,
    {
        if x[i] != y[i] {
            return false;
        }
        i += 1;
    }
    assert(x@ =~= y@);
    true
}

} // verus!
