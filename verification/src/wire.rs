//! Fixed-width integers on the wire.
//!
//! USB/IP sends its integers in network byte order. The setup packet of a
//! control transfer, which comes from the USB specification, is little-endian.

use vstd::prelude::*;

verus! {

/// The two bytes of `v`, most significant first.
pub open spec fn be16(v: u16) -> Seq<u8> {
    seq![(v / 0x100) as u8, (v % 0x100) as u8]
}

/// The four bytes of `v`, most significant first.
pub open spec fn be32(v: u32) -> Seq<u8> {
    seq![
        (v / 0x100_0000) as u8,
        (v / 0x1_0000 % 0x100) as u8,
        (v / 0x100 % 0x100) as u8,
        (v % 0x100) as u8,
    ]
}

/// The two bytes of `v`, least significant first.
pub open spec fn le16(v: u16) -> Seq<u8> {
    seq![(v % 0x100) as u8, (v / 0x100) as u8]
}

/// The big-endian `u16` that starts at offset `at`.
pub open spec fn be16_at(s: Seq<u8>, at: int) -> u16 {
    (s[at] * 0x100 + s[at + 1]) as u16
}

/// The big-endian `u32` that starts at offset `at`.
pub open spec fn be32_at(s: Seq<u8>, at: int) -> u32 {
    (s[at] * 0x100_0000 + s[at + 1] * 0x1_0000 + s[at + 2] * 0x100 + s[at + 3]) as u32
}

/// The little-endian `u16` that starts at offset `at`.
pub open spec fn le16_at(s: Seq<u8>, at: int) -> u16 {
    (s[at + 1] * 0x100 + s[at]) as u16
}

/// `n` zero bytes.
pub open spec fn zeros(n: nat) -> Seq<u8> {
    Seq::new(n, |i: int| 0u8)
}

/// `s` cut to `n` bytes, or filled up to `n` bytes with zeros.
pub open spec fn fixed(s: Seq<u8>, n: nat) -> Seq<u8> {
    Seq::new(n, |i: int| if i < s.len() { s[i] } else { 0u8 })
}

/// A length as the protocol's 32-bit fields hold it: modulo 2^32.
pub open spec fn len32(n: nat) -> u32 {
    (n % 0x1_0000_0000) as u32
}

/// What [`be32_at`] reads where [`be32`] was written is what was written.
pub proof fn lemma_be32_read_back(s: Seq<u8>, at: int, v: u32)
    requires
        0 <= at,
        at + 4 <= s.len(),
        s.subrange(at, at + 4) == be32(v),
    ensures
        be32_at(s, at) == v,
{
    let t = s.subrange(at, at + 4);
    assert(t[0] == s[at] && t[1] == s[at + 1] && t[2] == s[at + 2] && t[3] == s[at + 3]);
}

/// What [`be16_at`] reads where [`be16`] was written is what was written.
pub proof fn lemma_be16_read_back(s: Seq<u8>, at: int, v: u16)
    requires
        0 <= at,
        at + 2 <= s.len(),
        s.subrange(at, at + 2) == be16(v),
    ensures
        be16_at(s, at) == v,
{
    let t = s.subrange(at, at + 2);
    assert(t[0] == s[at] && t[1] == s[at + 1]);
}

/// Writing what [`be32_at`] read gives the bytes that were read.
pub proof fn lemma_be32_write_back(s: Seq<u8>, at: int)
    requires
        0 <= at,
        at + 4 <= s.len(),
    ensures
        be32(be32_at(s, at)) == s.subrange(at, at + 4),
{
    let v = be32_at(s, at);
    let (a, b, c, d) = (s[at] as u32, s[at + 1] as u32, s[at + 2] as u32, s[at + 3] as u32);
    assert(v == a * 0x100_0000 + b * 0x1_0000 + c * 0x100 + d);
    assert(v / 0x100 == a * 0x1_0000 + b * 0x100 + c && v % 0x100 == d);
    assert(v / 0x1_0000 == a * 0x100 + b);
    assert(v / 0x100_0000 == a);
    let t = s.subrange(at, at + 4);
    assert(t[0] == a && t[1] == b && t[2] == c && t[3] == d);
    assert(be32(v) =~= t);
}

/// Appends the two bytes of `v`, most significant first.
pub fn put_be16(out: &mut Vec<u8>, v: u16)
    ensures
        final(out)@ == old(out)@ + be16(v),
{
    out.push((v / 0x100) as u8);
    out.push((v % 0x100) as u8);
    assert(out@ =~= old(out)@ + be16(v));
}

/// Appends the four bytes of `v`, most significant first.
pub fn put_be32(out: &mut Vec<u8>, v: u32)
    ensures
        final(out)@ == old(out)@ + be32(v),
{
    out.push((v / 0x100_0000) as u8);
    out.push((v / 0x1_0000 % 0x100) as u8);
    out.push((v / 0x100 % 0x100) as u8);
    out.push((v % 0x100) as u8);
    assert(out@ =~= old(out)@ + be32(v));
}

/// Appends the two bytes of `v`, least significant first.
pub fn put_le16(out: &mut Vec<u8>, v: u16)
    ensures
        final(out)@ == old(out)@ + le16(v),
{
    out.push((v % 0x100) as u8);
    out.push((v / 0x100) as u8);
    assert(out@ =~= old(out)@ + le16(v));
}

/// Appends the bytes of `src`.
pub fn put_bytes(out: &mut Vec<u8>, src: &[u8])
    ensures
        final(out)@ == old(out)@ + src@,
{
    out.extend_from_slice(src);
    assert(out@ =~= old(out)@ + src@);
}

/// Appends `n` zero bytes.
pub fn put_zeros(out: &mut Vec<u8>, n: usize)
    ensures
        final(out)@ == old(out)@ + zeros(n as nat),
{
    let mut i: usize = 0;
    while i < n
        invariant
            i <= n,
            out@ == old(out)@ + zeros(i as nat),
        decreases n - i,
    {
        out.push(0);
        i += 1;
        assert(out@ =~= old(out)@ + zeros(i as nat));
    }
    assert(out@ =~= old(out)@ + zeros(n as nat));
}

/// Appends `src`, cut to `n` bytes or filled up to `n` bytes with zeros.
pub fn put_fixed(out: &mut Vec<u8>, src: &[u8], n: usize)
    ensures
        final(out)@ == old(out)@ + fixed(src@, n as nat),
{
    let mut i: usize = 0;
    while i < n
        invariant
            i <= n,
            out@ == old(out)@ + fixed(src@, i as nat),
        decreases n - i,
    {
        if i < src.len() {
            out.push(src[i]);
        } else {
            out.push(0);
        }
        i += 1;
        assert(out@ =~= old(out)@ + fixed(src@, i as nat));
    }
    assert(out@ =~= old(out)@ + fixed(src@, n as nat));
}

/// Reads the big-endian `u16` that starts at offset `at`.
pub fn get_be16(s: &[u8], at: usize) -> (v: u16)
    requires
        at + 2 <= s@.len(),
    ensures
        v == be16_at(s@, at as int),
{
    s[at] as u16 * 0x100 + s[at + 1] as u16
}

/// Reads the big-endian `u32` that starts at offset `at`.
pub fn get_be32(s: &[u8], at: usize) -> (v: u32)
    requires
        at + 4 <= s@.len(),
    ensures
        v == be32_at(s@, at as int),
{
    s[at] as u32 * 0x100_0000 + s[at + 1] as u32 * 0x1_0000 + s[at + 2] as u32 * 0x100
        + s[at + 3] as u32
}

/// Reads the little-endian `u16` that starts at offset `at`.
pub fn get_le16(s: &[u8], at: usize) -> (v: u16)
    requires
        at + 2 <= s@.len(),
    ensures
        v == le16_at(s@, at as int),
{
    let low: u16 = s[at] as u16;
    s[at + 1] as u16 * 0x100 + low
}

/// The bytes of `s` from `from` up to, and without, `to`.
pub fn copy_range(s: &[u8], from: usize, to: usize) -> (r: Vec<u8>)
    requires
        from <= to <= s@.len(),
    ensures
        r@ == s@.subrange(from as int, to as int),
{
    let mut r: Vec<u8> = Vec::new();
    let mut i: usize = from;
    while i < to
        invariant
            from <= i <= to <= s@.len(),
            r@ == s@.subrange(from as int, i as int),
        decreases to - i,
    {
        r.push(s[i]);
        i += 1;
        assert(r@ =~= s@.subrange(from as int, i as int));
    }
    r
}

/// Whether two byte strings are equal.
pub fn bytes_eq(a: &[u8], b: &[u8]) -> (r: bool)
    ensures
        r == (a@ == b@),
{
    if a.len() != b.len() {
        return false;
    }
    let mut i: usize = 0;
    while i < a.len()
        invariant
            i <= a@.len(),
            a@.len() == b@.len(),
            forall|j: int| 0 <= j < i ==> a@[j] == b@[j],
        decreases a@.len() - i,
    {
        if a[i] != b[i] {
            return false;
        }
        i += 1;
    }
    assert(a@ =~= b@);
    true
}

/// The low 32 bits of a length.
pub fn truncate_len(n: usize) -> (r: u32)
    ensures
        r == len32(n as nat),
{
    let wide: u64 = n as u64;
    (wide % 0x1_0000_0000u64) as u32
}

/// What [`le16_at`] reads where [`le16`] was written is what was written.
pub proof fn lemma_le16_read_back(s: Seq<u8>, at: int, v: u16)
    requires
        0 <= at,
        at + 2 <= s.len(),
        s[at] == le16(v)[0],
        s[at + 1] == le16(v)[1],
    ensures
        le16_at(s, at) == v,
{
}

/// The bytes of a number in network order, weighed by their places, give the
/// number, and those of a number of the setup packet in the other order.
pub proof fn law_byte_order(v: u32, w: u16)
    ensures
        be32(v).len() == 4,
        be32(v)[0] * 0x100_0000 + be32(v)[1] * 0x1_0000 + be32(v)[2] * 0x100 + be32(v)[3] == v,
        be16(w).len() == 2,
        be16(w)[0] * 0x100 + be16(w)[1] == w,
        le16(w).len() == 2,
        le16(w)[0] + le16(w)[1] * 0x100 == w,
{
}

/// A number is read with its first byte as the highest in network order, and as
/// the lowest in the setup packet.
pub proof fn law_reading_order(s: Seq<u8>, at: int)
    ensures
        be32_at(s, at) == s[at] * 0x100_0000 + s[at + 1] * 0x1_0000 + s[at + 2] * 0x100 + s[at + 3],
        be16_at(s, at) == s[at] * 0x100 + s[at + 1],
        le16_at(s, at) == s[at] + s[at + 1] * 0x100,
{
}

/// A field of fixed size holds what was put into it as far as there is room,
/// and zeros after it; padding is zero; and a length that fits 32 bits stays
/// what it is.
pub proof fn law_fields(s: Seq<u8>, n: nat, i: int)
    ensures
        fixed(s, n).len() == n,
        0 <= i < n && i < s.len() ==> fixed(s, n)[i] == s[i],
        s.len() <= i < n ==> fixed(s, n)[i] == 0,
        zeros(n).len() == n,
        0 <= i < n ==> zeros(n)[i] == 0,
        n <= u32::MAX ==> len32(n) == n,
        n > u32::MAX ==> (n - len32(n)) % 0x1_0000_0000 == 0,
{
}

} // verus!
