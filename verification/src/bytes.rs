//! Byte buffers: copying, comparing, and big-endian integers of fixed width.

use vstd::prelude::*;

verus! {

/// The two bytes of `v`, most significant first.
pub open spec fn u16_be(v: u16) -> Seq<u8> {
    seq![(v / 0x100) as u8, (v % 0x100) as u8]
}

/// The four bytes of `v`, most significant first.
pub open spec fn u32_be(v: u32) -> Seq<u8> {
    seq![
        (v / 0x100_0000) as u8,
        (v / 0x1_0000 % 0x100) as u8,
        (v / 0x100 % 0x100) as u8,
        (v % 0x100) as u8,
    ]
}

/// The eight bytes of `v`, most significant first.
pub open spec fn u64_be(v: u64) -> Seq<u8> {
    seq![
        (v / 0x100_0000_0000_0000) as u8,
        (v / 0x1_0000_0000_0000 % 0x100) as u8,
        (v / 0x100_0000_0000 % 0x100) as u8,
        (v / 0x1_0000_0000 % 0x100) as u8,
        (v / 0x100_0000 % 0x100) as u8,
        (v / 0x1_0000 % 0x100) as u8,
        (v / 0x100 % 0x100) as u8,
        (v % 0x100) as u8,
    ]
}

/// The number that the first two bytes of `b` spell, most significant first.
pub open spec fn u16_from_be(b: Seq<u8>) -> u16 {
    (b[0] * 0x100 + b[1]) as u16
}

/// The number that the first four bytes of `b` spell, most significant first.
pub open spec fn u32_from_be(b: Seq<u8>) -> u32 {
    (b[0] * 0x100_0000 + b[1] * 0x1_0000 + b[2] * 0x100 + b[3]) as u32
}

/// The number that the first eight bytes of `b` spell, most significant first.
pub open spec fn u64_from_be(b: Seq<u8>) -> u64 {
    (b[0] * 0x100_0000_0000_0000 + b[1] * 0x1_0000_0000_0000 + b[2] * 0x100_0000_0000 + b[3]
        * 0x1_0000_0000 + b[4] * 0x100_0000 + b[5] * 0x1_0000 + b[6] * 0x100 + b[7]) as u64
}

/// Reading back what was written gives the number again.
pub proof fn lemma_u16_round_trip(v: u16)
    ensures
        u16_be(v).len() == 2,
        u16_from_be(u16_be(v)) == v,
{
}

/// Reading back what was written gives the number again.
pub proof fn lemma_u32_round_trip(v: u32)
    ensures
        u32_be(v).len() == 4,
        u32_from_be(u32_be(v)) == v,
{
}

/// Reading back what was written gives the number again.
pub proof fn lemma_u64_round_trip(v: u64)
    ensures
        u64_be(v).len() == 8,
        u64_from_be(u64_be(v)) == v,
{
    assert(v == (v / 0x100_0000_0000_0000) * 0x100_0000_0000_0000 + (v / 0x1_0000_0000_0000
        % 0x100) * 0x1_0000_0000_0000 + (v / 0x100_0000_0000 % 0x100) * 0x100_0000_0000 + (v
        / 0x1_0000_0000 % 0x100) * 0x1_0000_0000 + (v / 0x100_0000 % 0x100) * 0x100_0000 + (v
        / 0x1_0000 % 0x100) * 0x1_0000 + (v / 0x100 % 0x100) * 0x100 + v % 0x100) by (bit_vector);
    assert(v / 0x100_0000_0000_0000 < 0x100) by (bit_vector);
}

/// Two different numbers never share their eight bytes.
pub proof fn lemma_u64_be_injective(a: u64, b: u64)
    requires
        u64_be(a) == u64_be(b),
    ensures
        a == b,
{
    lemma_u64_round_trip(a);
    lemma_u64_round_trip(b);
}

/// Appends `src` to `dst`.
pub fn append(dst: &mut Vec<u8>, src: &[u8])
    ensures
        final(dst)@ == old(dst)@ + src@,
{
    let mut i: usize = 0;
    while i < src.len()
        invariant
            i <= src.len(),
            dst@ == old(dst)@ + src@.take(i as int),
        decreases src.len() - i,
    {
        dst.push(src[i]);
        i += 1;
    }
    assert(src@.take(src.len() as int) == src@);
}

/// The bytes of `src` from index `from` up to, not including, `to`.
pub fn copy_range(src: &[u8], from: usize, to: usize) -> (out: Vec<u8>)
    requires
        from <= to <= src.len(),
    ensures
        out@ == src@.subrange(from as int, to as int),
{
    let mut out: Vec<u8> = Vec::with_capacity(to - from);
    let mut i: usize = from;
    while i < to
        invariant
            from <= i <= to <= src.len(),
            out@ == src@.subrange(from as int, i as int),
        decreases to - i,
    {
        out.push(src[i]);
        i += 1;
    }
    out
}

/// `N` bytes of `src`, starting at `at`.
pub fn take_array<const N: usize>(src: &[u8], at: usize) -> (out: [u8; N])
    requires
        at + N <= src.len(),
    ensures
        out@ == src@.subrange(at as int, at + N),
{
    let mut out: [u8; N] = [0u8; N];
    let mut i: usize = 0;
    while i < N
        invariant
            i <= N,
            at + N <= src.len(),
            out@.len() == N,
            forall|k: int| 0 <= k < i ==> out@[k] == src@[at + k],
        decreases N - i,
    {
        out[i] = src[at + i];
        i += 1;
    }
    assert(out@ =~= src@.subrange(at as int, at + N));
    out
}

/// Whether `a` and `b` hold the same bytes.
pub fn equal(a: &[u8], b: &[u8]) -> (same: bool)
    ensures
        same <==> a@ == b@,
{
    if a.len() != b.len() {
        return false;
    }
    let mut i: usize = 0;
    while i < a.len()
        invariant
            i <= a.len(),
            a.len() == b.len(),
            a@.take(i as int) == b@.take(i as int),
        decreases a.len() - i,
    {
        if a[i] != b[i] {
            return false;
        }
        assert(a@.take(i + 1) == a@.take(i as int).push(a@[i as int]));
        assert(b@.take(i + 1) == b@.take(i as int).push(b@[i as int]));
        i += 1;
    }
    assert(a@.take(a.len() as int) == a@);
    assert(b@.take(b.len() as int) == b@);
    true
}

/// Appends the two bytes of `v`, most significant first.
pub fn put_u16(dst: &mut Vec<u8>, v: u16)
    ensures
        final(dst)@ == old(dst)@ + u16_be(v),
{
    dst.push((v / 0x100) as u8);
    dst.push((v % 0x100) as u8);
}

/// Appends the four bytes of `v`, most significant first.
pub fn put_u32(dst: &mut Vec<u8>, v: u32)
    ensures
        final(dst)@ == old(dst)@ + u32_be(v),
{
    dst.push((v / 0x100_0000) as u8);
    dst.push((v / 0x1_0000 % 0x100) as u8);
    dst.push((v / 0x100 % 0x100) as u8);
    dst.push((v % 0x100) as u8);
}

/// Appends the eight bytes of `v`, most significant first.
pub fn put_u64(dst: &mut Vec<u8>, v: u64)
    ensures
        final(dst)@ == old(dst)@ + u64_be(v),
{
    dst.push((v / 0x100_0000_0000_0000) as u8);
    dst.push((v / 0x1_0000_0000_0000 % 0x100) as u8);
    dst.push((v / 0x100_0000_0000 % 0x100) as u8);
    dst.push((v / 0x1_0000_0000 % 0x100) as u8);
    dst.push((v / 0x100_0000 % 0x100) as u8);
    dst.push((v / 0x1_0000 % 0x100) as u8);
    dst.push((v / 0x100 % 0x100) as u8);
    dst.push((v % 0x100) as u8);
}

/// Reads two bytes at `at` as a number, most significant first.
pub fn get_u16(src: &[u8], at: usize) -> (v: u16)
    requires
        at + 2 <= src.len(),
    ensures
        v == u16_from_be(src@.subrange(at as int, at + 2)),
{
    (src[at] as u16) * 0x100 + (src[at + 1] as u16)
}

/// Reads four bytes at `at` as a number, most significant first.
pub fn get_u32(src: &[u8], at: usize) -> (v: u32)
    requires
        at + 4 <= src.len(),
    ensures
        v == u32_from_be(src@.subrange(at as int, at + 4)),
{
    (src[at] as u32) * 0x100_0000 + (src[at + 1] as u32) * 0x1_0000 + (src[at + 2] as u32) * 0x100
        + (src[at + 3] as u32)
}

/// Reads eight bytes at `at` as a number, most significant first.
pub fn get_u64(src: &[u8], at: usize) -> (v: u64)
    requires
        at + 8 <= src.len(),
    ensures
        v == u64_from_be(src@.subrange(at as int, at + 8)),
{
    (src[at] as u64) * 0x100_0000_0000_0000 + (src[at + 1] as u64) * 0x1_0000_0000_0000 + (src[at
        + 2] as u64) * 0x100_0000_0000 + (src[at + 3] as u64) * 0x1_0000_0000 + (src[at
        + 4] as u64) * 0x100_0000 + (src[at + 5] as u64) * 0x1_0000 + (src[at + 6] as u64) * 0x100
        + (src[at + 7] as u64)
}

} // verus!
