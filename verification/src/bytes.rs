//! Fixed-width integers as byte sequences, and writing bytes into a buffer.

use vstd::prelude::*;

verus! {

/// The two bytes of `x`, most significant first.
pub open spec fn be16(x: u16) -> Seq<u8> {
    seq![(x / 256) as u8, (x % 256) as u8]
}

/// The four bytes of `x`, most significant first.
pub open spec fn be32(x: u32) -> Seq<u8> {
    seq![
        (x / 0x100_0000) as u8,
        (x / 0x1_0000 % 256) as u8,
        (x / 256 % 256) as u8,
        (x % 256) as u8,
    ]
}

/// The four bytes of `x`, least significant first.
pub open spec fn le32(x: u32) -> Seq<u8> {
    seq![
        (x % 256) as u8,
        (x / 256 % 256) as u8,
        (x / 0x1_0000 % 256) as u8,
        (x / 0x100_0000) as u8,
    ]
}

/// The 16-bit value that starts at `i`, most significant byte first.
pub open spec fn be16_at(s: Seq<u8>, i: int) -> u16 {
    (s[i] * 256 + s[i + 1]) as u16
}

/// The 32-bit value that starts at `i`, most significant byte first.
pub open spec fn be32_at(s: Seq<u8>, i: int) -> u32 {
    (s[i] * 0x100_0000 + s[i + 1] * 0x1_0000 + s[i + 2] * 256 + s[i + 3]) as u32
}

/// The 32-bit value that starts at `i`, least significant byte first.
pub open spec fn le32_at(s: Seq<u8>, i: int) -> u32 {
    (s[i] + s[i + 1] * 256 + s[i + 2] * 0x1_0000 + s[i + 3] * 0x100_0000) as u32
}

/// `s` with the bytes `d` written over it from position `at` on.
pub open spec fn overlay(s: Seq<u8>, at: int, d: Seq<u8>) -> Seq<u8> {
    s.subrange(0, at) + d + s.subrange(at + d.len(), s.len() as int)
}

/// Reading two bytes back gives the value that they were made from.
pub proof fn lemma_be16_roundtrip(x: u16)
    ensures
        be16_at(be16(x), 0) == x,
{
}

/// Reading four bytes back gives the value that they were made from.
pub proof fn lemma_be32_roundtrip(x: u32)
    ensures
        be32_at(be32(x), 0) == x,
{
}

/// Reading four bytes back gives the value that they were made from.
pub proof fn lemma_le32_roundtrip(x: u32)
    ensures
        le32_at(le32(x), 0) == x,
{
}

/// The bytes of the value that is read from two bytes are these two bytes.
pub proof fn lemma_be16_bytes(s: Seq<u8>, i: int)
    requires
        0 <= i,
        i + 2 <= s.len(),
    ensures
        be16(be16_at(s, i)) == s.subrange(i, i + 2),
{
    assert(be16(be16_at(s, i)) =~= s.subrange(i, i + 2));
}

/// The bytes of the value that is read from four bytes are these four bytes.
pub proof fn lemma_be32_bytes(s: Seq<u8>, i: int)
    requires
        0 <= i,
        i + 4 <= s.len(),
    ensures
        be32(be32_at(s, i)) == s.subrange(i, i + 4),
{
    let x = be32_at(s, i);
    let a = s[i] as int;
    let b = s[i + 1] as int;
    let c = s[i + 2] as int;
    let d = s[i + 3] as int;
    assert(x / 0x100_0000 == a);
    assert(x / 0x1_0000 == a * 256 + b);
    assert((a * 256 + b) % 256 == b);
    assert(x / 256 == (a * 256 + b) * 256 + c);
    assert(((a * 256 + b) * 256 + c) % 256 == c);
    assert(x % 256 == d);
    assert(be32(x) =~= s.subrange(i, i + 4));
}

/// Two writes side by side are one write of both.
pub proof fn lemma_overlay_append(s: Seq<u8>, at: int, a: Seq<u8>, b: Seq<u8>)
    requires
        0 <= at,
        at + a.len() + b.len() <= s.len(),
    ensures
        overlay(overlay(s, at, a), at + a.len(), b) == overlay(s, at, a + b),
        overlay(s, at, a).len() == s.len(),
        overlay(s, at, a + b).len() == s.len(),
{
    assert(overlay(overlay(s, at, a), at + a.len(), b) =~= overlay(s, at, a + b));
}

/// Reads a 16-bit value, most significant byte first.
pub fn read_be16(buf: &[u8], offset: usize) -> (r: u16)
    requires
        offset + 2 <= buf@.len(),
    ensures
        r == be16_at(buf@, offset as int),
{
    (buf[offset] as u16) * 256 + buf[offset + 1] as u16
}

/// Reads a 32-bit value, most significant byte first.
pub fn read_be32(buf: &[u8], offset: usize) -> (r: u32)
    requires
        offset + 4 <= buf@.len(),
    ensures
        r == be32_at(buf@, offset as int),
{
    (buf[offset] as u32) * 0x100_0000 + (buf[offset + 1] as u32) * 0x1_0000 + (buf[offset + 2] as u32)
        * 256 + buf[offset + 3] as u32
}

/// The two bytes of `x`, most significant first.
pub fn be16_bytes(x: u16) -> (r: [u8; 2])
    ensures
        r@ == be16(x),
{
    let r = [(x / 256) as u8, (x % 256) as u8];
    assert(r@ =~= be16(x));
    r
}

/// The four bytes of `x`, most significant first.
pub fn be32_bytes(x: u32) -> (r: [u8; 4])
    ensures
        r@ == be32(x),
{
    let r = [
        (x / 0x100_0000) as u8,
        (x / 0x1_0000 % 256) as u8,
        (x / 256 % 256) as u8,
        (x % 256) as u8,
    ];
    assert(r@ =~= be32(x));
    r
}

/// Writes `data` into `buf` from position `at` on.
pub fn put(buf: &mut [u8], at: usize, data: &[u8])
    requires
        at + data@.len() <= old(buf)@.len(),
    ensures
        final(buf)@ == overlay(old(buf)@, at as int, data@),
        final(buf)@.len() == old(buf)@.len(),
{
    let ghost before = buf@;
    let n = data.len();
    let total = buf.len();
    let mut i: usize = 0;
    while i < n
        invariant
            i <= n,
            n == data@.len(),
            total == before.len(),
            at + n <= total,
            buf@ == overlay(before, at as int, data@.subrange(0, i as int)),
            buf@.len() == before.len(),
        decreases n - i,
    {
        buf[at + i] = data[i];
        i = i + 1;
        assert(buf@ =~= overlay(before, at as int, data@.subrange(0, i as int)));
    }
    assert(data@.subrange(0, n as int) =~= data@);
}

/// Whether two byte slices hold the same bytes.
pub fn same_bytes(a: &[u8], b: &[u8]) -> (r: bool)
    ensures
        r == (a@ == b@),
{
    if a.len() != b.len() {
        return false;
    }
    let mut i: usize = 0;
    while i < a.len()
        invariant
            i <= a@.len(),
            a@.len() == b@.len(),
            forall|j: int| 0 <= j < i ==> a@[j] == b@[j],
        decreases a@.len() - i,
    {
        if a[i] != b[i] {
            return false;
        }
        i = i + 1;
    }
    assert(a@ =~= b@);
    true
}

/// Appends the bytes of `data` to `out`.
pub fn append(out: &mut Vec<u8>, data: &[u8])
    ensures
        final(out)@ == old(out)@ + data@,
{
    let ghost before = out@;
    out.extend_from_slice(data);
    assert(out@ =~= before + data@);
}

/// What is read is the value of the bytes: the first counts most where the most
/// significant byte comes first, and least where the least significant does.
pub proof fn lemma_read_values(s: Seq<u8>, i: int)
    requires
        0 <= i,
        i + 4 <= s.len(),
    ensures
        be16_at(s, i) as int == 256 * s[i] + s[i + 1],
        be32_at(s, i) as int == 16777216 * s[i] + 65536 * s[i + 1] + 256 * s[i + 2] + s[i + 3],
        le32_at(s, i) as int == s[i] + 256 * s[i + 1] + 65536 * s[i + 2] + 16777216 * s[i + 3],
{
}

/// What is written has the value that it was made from.
pub proof fn lemma_written_values(x: u16, y: u32)
    ensures
        be16(x).len() == 2 && be32(y).len() == 4 && le32(y).len() == 4,
        256 * be16(x)[0] + be16(x)[1] == x,
        16777216 * be32(y)[0] + 65536 * be32(y)[1] + 256 * be32(y)[2] + be32(y)[3] == y,
        le32(y)[0] + 256 * le32(y)[1] + 65536 * le32(y)[2] + 16777216 * le32(y)[3] == y,
{
}

/// A value that is written somewhere in a row of bytes is read there again.
pub proof fn lemma_read_in_row(a: Seq<u8>, x: u16, y: u32, b: Seq<u8>)
    ensures
        be16_at(a + be16(x) + b, a.len() as int) == x,
        be32_at(a + be32(y) + b, a.len() as int) == y,
        le32_at(a + le32(y) + b, a.len() as int) == y,
{
    let n = a.len() as int;
    let s = a + be16(x) + b;
    assert(s[n] == be16(x)[0] && s[n + 1] == be16(x)[1]);
    let s = a + be32(y) + b;
    assert(s[n] == be32(y)[0] && s[n + 1] == be32(y)[1] && s[n + 2] == be32(y)[2] && s[n + 3]
        == be32(y)[3]);
    let s = a + le32(y) + b;
    assert(s[n] == le32(y)[0] && s[n + 1] == le32(y)[1] && s[n + 2] == le32(y)[2] && s[n + 3]
        == le32(y)[3]);
    lemma_be16_roundtrip(x);
    lemma_be32_roundtrip(y);
    lemma_le32_roundtrip(y);
}

/// Bytes that are written over a row stand where they were written, and all
/// others stay.
pub proof fn lemma_overlay_bytes(s: Seq<u8>, at: int, d: Seq<u8>)
    requires
        0 <= at,
        at + d.len() <= s.len(),
    ensures
        overlay(s, at, d).len() == s.len(),
        overlay(s, at, d).subrange(at, at + d.len()) == d,
        forall|i: int|
            0 <= i < s.len() && !(at <= i < at + d.len()) ==> #[trigger] overlay(s, at, d)[i]
                == s[i],
{
    assert(overlay(s, at, d).subrange(at, at + d.len()) =~= d);
}

} // verus!
