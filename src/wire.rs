//! Big-endian integer reads and byte-range copies shared by the decoders.

use vstd::prelude::*;

verus! {

/// The big-endian 16-bit value of `s[i]` and `s[i + 1]`.
pub open spec fn be16(s: Seq<u8>, i: int) -> int {
    s[i] as int * 256 + s[i + 1] as int
}

/// The big-endian 24-bit value of `s[i]`, `s[i + 1]` and `s[i + 2]`.
pub open spec fn be24(s: Seq<u8>, i: int) -> int {
    s[i] as int * 65536 + s[i + 1] as int * 256 + s[i + 2] as int
}

/// The `n` big-endian 16-bit words that start at `start`, in order.
pub open spec fn words(s: Seq<u8>, start: int, n: int) -> Seq<u16> {
    Seq::new(n as nat, |k: int| be16(s, start + 2 * k) as u16)
}

pub fn read_u16(buf: &[u8], i: usize) -> (r: u16)
    requires
        i + 2 <= buf@.len(),
    ensures
        r as int == be16(buf@, i as int),
{
    (buf[i] as u16) * 256 + (buf[i + 1] as u16)
}

pub fn read_u24(buf: &[u8], i: usize) -> (r: u32)
    requires
        i + 3 <= buf@.len(),
    ensures
        r as int == be24(buf@, i as int),
{
    (buf[i] as u32) * 65536 + (buf[i + 1] as u32) * 256 + (buf[i + 2] as u32)
}

/// A copy of `buf[start..end]`.
pub fn copy_range(buf: &[u8], start: usize, end: usize) -> (r: Vec<u8>)
    requires
        start <= end <= buf@.len(),
    ensures
        r@ == buf@.subrange(start as int, end as int),
{
    let mut out: Vec<u8> = Vec::new();
    let mut i: usize = start;
    while i < end
        invariant
            start <= i <= end <= buf@.len(),
            out@ == buf@.subrange(start as int, i as int),
        decreases end - i,
    {
        out.push(buf[i]);
        i = i + 1;
        assert(out@ =~= buf@.subrange(start as int, i as int));
    }
    out
}

/// The big-endian 16-bit words of `buf[start..start + 2 * n]`.
pub fn read_words(buf: &[u8], start: usize, n: usize) -> (r: Vec<u16>)
    requires
        start + 2 * n <= buf@.len(),
    ensures
        r@ == words(buf@, start as int, n as int),
{
    let mut out: Vec<u16> = Vec::new();
    let mut k: usize = 0;
    let len: usize = buf.len();
    while k < n
        invariant
            len == buf@.len(),
            start + 2 * n <= len,
            k <= n,
            out@ =~= words(buf@, start as int, k as int),
        decreases n - k,
    {
        let w = read_u16(buf, start + 2 * k);
        out.push(w);
        k = k + 1;
        assert(out@ =~= words(buf@, start as int, k as int));
    }
    out
}

} // verus!
