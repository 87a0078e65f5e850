use vstd::prelude::*;

use crate::storage::page::{u16_bytes, u32_bytes};

verus! {

/// Appends the bytes of `s` to `v`.
pub fn append_bytes(v: &mut Vec<u8>, s: &[u8])
    ensures
        final(v)@ == old(v)@ + s@,
{
    let mut i: usize = 0;
    let ghost start = v@;
    while i < s.len()
        invariant
            i <= s@.len(),
            v@ == start + s@.subrange(0, i as int),
        decreases s@.len() - i,
    {
        v.push(s[i]);
        i = i + 1;
        assert(v@ =~= start + s@.subrange(0, i as int));
    }
    assert(s@.subrange(0, s@.len() as int) =~= s@);
}

/// Appends a 16-bit value little-endian.
pub fn push_u16_le(v: &mut Vec<u8>, x: u16)
    ensures
        final(v)@ == old(v)@ + u16_bytes(x as int),
{
    v.push((x % 256) as u8);
    v.push((x / 256) as u8);
    assert(v@ =~= old(v)@ + u16_bytes(x as int));
}

/// Appends a 32-bit value little-endian.
pub fn push_u32_le(v: &mut Vec<u8>, x: u32)
    ensures
        final(v)@ == old(v)@ + u32_bytes(x as int),
{
    v.push((x % 256) as u8);
    v.push((x / 256 % 256) as u8);
    v.push((x / 65536 % 256) as u8);
    v.push((x / 16777216 % 256) as u8);
    assert(v@ =~= old(v)@ + u32_bytes(x as int));
}

/// Positions outside a written range keep their bytes, so do the ranges made of them.
pub proof fn lemma_frame(d1: Seq<u8>, d2: Seq<u8>, a: int, b: int)
    requires
        0 <= a <= b <= d1.len(),
        d1.len() == d2.len(),
        forall|k: int| a <= k < b ==> d1[k] == d2[k],
    ensures
        d1.subrange(a, b) == d2.subrange(a, b),
{
    assert(d1.subrange(a, b) =~= d2.subrange(a, b));
}

} // verus!
