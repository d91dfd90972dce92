//! The canonical byte encoding that signatures are computed over.
//!
//! Integers are written little-endian, keys and signatures as their raw
//! bytes, and every sequence is preceded by its length as a `u64`.

use vstd::bytes::*;
use vstd::prelude::*;

verus! {

/// The sixteen bytes of `x`, most significant first.
pub open spec fn be16(x: u128) -> Seq<u8> {
    spec_u128_to_le_bytes(x).reverse()
}

/// The number whose sixteen bytes, most significant first, are `s`.
pub open spec fn be_value(s: Seq<u8>) -> u128 {
    spec_u128_from_le_bytes(s.reverse())
}

/// The eight bytes of `x`, least significant first.
pub open spec fn le8(x: u64) -> Seq<u8> {
    spec_u64_to_le_bytes(x)
}

/// Sixteen bytes make a `u128`.
pub proof fn lemma_be16_len(x: u128)
    ensures
        be16(x).len() == 16,
{
    lemma_auto_spec_u128_to_from_le_bytes();
}

/// Appends `x` in little-endian order.
pub fn push_u64(out: &mut Vec<u8>, x: u64)
    ensures
        final(out)@ == old(out)@ + le8(x),
{
    let bytes = u64_to_le_bytes(x);
    let mut i: usize = 0;
    while i < bytes.len()
        invariant
            0 <= i <= bytes@.len(),
            bytes@ == le8(x),
            out@ == old(out)@ + bytes@.subrange(0, i as int),
        decreases bytes@.len() - i,
    {
        out.push(bytes[i]);
        i = i + 1;
        assert(bytes@.subrange(0, i as int) == bytes@.subrange(0, i - 1 as int).push(bytes@[i - 1]));
    }
    assert(bytes@.subrange(0, bytes@.len() as int) == bytes@);
}

/// Appends `x` with its most significant byte first.
pub fn push_u128_be(out: &mut Vec<u8>, x: u128)
    ensures
        final(out)@ == old(out)@ + be16(x),
{
    proof {
        lemma_be16_len(x);
    }
    let bytes = u128_to_le_bytes(x);
    let mut i: usize = 16;
    while i > 0
        invariant
            0 <= i <= 16,
            bytes@.len() == 16,
            bytes@ == spec_u128_to_le_bytes(x),
            out@ == old(out)@ + be16(x).subrange(0, 16 - i),
        decreases i,
    {
        i = i - 1;
        out.push(bytes[i]);
        assert(be16(x).subrange(0, 16 - i) == be16(x).subrange(0, 16 - i - 1).push(bytes@[i as int]));
    }
    assert(be16(x).subrange(0, 16) == be16(x));
}

/// Reads sixteen bytes starting at `start`, most significant first.
pub fn read_u128_be(s: &Vec<u8>, start: usize) -> (r: u128)
    requires
        start + 16 <= s@.len(),
    ensures
        be16(r) == s@.subrange(start as int, start + 16),
        r == be_value(s@.subrange(start as int, start + 16)),
{
    let mut le: Vec<u8> = Vec::new();
    let n = s.len();
    let mut i: usize = 16;
    while i > 0
        invariant
            0 <= i <= 16,
            n == s@.len(),
            start + 16 <= n,
            le@.len() == 16 - i,
            forall|j: int| 0 <= j < 16 - i ==> #[trigger] le@[j] == s@[start + 15 - j],
        decreases i,
    {
        i = i - 1;
        le.push(s[start + i]);
    }
    let r = u128_from_le_bytes(le.as_slice());
    proof {
        lemma_auto_spec_u128_to_from_le_bytes();
        assert(spec_u128_to_le_bytes(r) == le@);
        assert(be16(r) =~= s@.subrange(start as int, start + 16));
        assert(le@ =~= s@.subrange(start as int, start + 16).reverse());
    }
    r
}

/// Whether two byte strings are equal.
pub fn bytes_equal(a: &Vec<u8>, b: &Vec<u8>) -> (r: bool)
    ensures
        r == (a@ == b@),
{
    if a.len() != b.len() {
        return false;
    }
    let mut i: usize = 0;
    while i < a.len()
        invariant
            a@.len() == b@.len(),
            0 <= i <= a@.len(),
            forall|j: int| 0 <= j < i ==> a@[j] == b@[j],
        decreases a@.len() - i,
    {
        if a[i] != b[i] {
            return false;
        }
        i = i + 1;
    }
    assert(a@ =~= b@);
    true
}

/// Appends every byte of `src`.
pub fn push_all(out: &mut Vec<u8>, src: &Vec<u8>)
    ensures
        final(out)@ == old(out)@ + src@,
{
    let mut i: usize = 0;
    while i < src.len()
        invariant
            0 <= i <= src@.len(),
            out@ == old(out)@ + src@.subrange(0, i as int),
        decreases src@.len() - i,
    {
        out.push(src[i]);
        i = i + 1;
        assert(src@.subrange(0, i as int) == src@.subrange(0, i - 1 as int).push(src@[i - 1]));
    }
    assert(src@.subrange(0, src@.len() as int) == src@);
}

} // verus!
