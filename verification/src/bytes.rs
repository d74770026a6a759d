//! Byte-level reads and writes on packet buffers, and the notation the contracts use for them.

use vstd::prelude::*;

verus! {

/// The big-endian 16-bit number at byte `i`.
pub open spec fn be16(s: Seq<u8>, i: int) -> u16 {
    (s[i] * 256 + s[i + 1]) as u16
}

/// The two bytes of `v`, most significant first.
pub open spec fn be2(v: u16) -> Seq<u8> {
    seq![(v / 256) as u8, (v % 256) as u8]
}

/// The four bytes of `v`, most significant first.
pub open spec fn be4(v: u32) -> Seq<u8> {
    seq![
        (v / 16777216) as u8,
        (v / 65536 % 256) as u8,
        (v / 256 % 256) as u8,
        (v % 256) as u8,
    ]
}

/// The big-endian 32-bit number at byte `i`.
pub open spec fn be32(s: Seq<u8>, i: int) -> u32 {
    (s[i] * 16777216 + s[i + 1] * 65536 + s[i + 2] * 256 + s[i + 3]) as u32
}

/// The four bytes at `i`.
pub open spec fn at4(s: Seq<u8>, i: int) -> [u8; 4] {
    [s[i], s[i + 1], s[i + 2], s[i + 3]]
}

/// The six bytes at `i`.
pub open spec fn at6(s: Seq<u8>, i: int) -> [u8; 6] {
    [s[i], s[i + 1], s[i + 2], s[i + 3], s[i + 4], s[i + 5]]
}

/// The sixteen bytes at `i`.
pub open spec fn at16(s: Seq<u8>, i: int) -> [u8; 16] {
    [
        s[i],
        s[i + 1],
        s[i + 2],
        s[i + 3],
        s[i + 4],
        s[i + 5],
        s[i + 6],
        s[i + 7],
        s[i + 8],
        s[i + 9],
        s[i + 10],
        s[i + 11],
        s[i + 12],
        s[i + 13],
        s[i + 14],
        s[i + 15],
    ]
}

/// `s` with the bytes from `off` on replaced by `b`; the length does not change.
pub open spec fn put(s: Seq<u8>, off: int, b: Seq<u8>) -> Seq<u8> {
    Seq::new(s.len(), |i: int| if off <= i < off + b.len() { b[i - off] } else { s[i] })
}

/// `n` zero bytes.
pub open spec fn zeros(n: nat) -> Seq<u8> {
    Seq::new(n, |i: int| 0u8)
}

/// Whether `f` has `n` bytes from `at` on.
pub fn spans(f: &Vec<u8>, at: usize, n: usize) -> (r: bool)
    ensures
        r == (at + n <= f@.len()),
        r ==> at + n <= usize::MAX,
{
    let len: usize = f.len();
    at <= len && n <= len - at
}

pub fn read2(f: &Vec<u8>, i: usize) -> (r: u16)
    requires
        i + 2 <= f.len(),
    ensures
        r == be16(f@, i as int),
{
    (f[i] as u16) * 256 + (f[i + 1] as u16)
}

pub fn read_be32(f: &Vec<u8>, i: usize) -> (r: u32)
    requires
        i + 4 <= f.len(),
    ensures
        r == be32(f@, i as int),
{
    (f[i] as u32) * 16777216 + (f[i + 1] as u32) * 65536 + (f[i + 2] as u32) * 256 + (f[i
        + 3] as u32)
}

pub fn read4(f: &Vec<u8>, i: usize) -> (r: [u8; 4])
    requires
        i + 4 <= f.len(),
    ensures
        r == at4(f@, i as int),
{
    [f[i], f[i + 1], f[i + 2], f[i + 3]]
}

pub fn read6(f: &Vec<u8>, i: usize) -> (r: [u8; 6])
    requires
        i + 6 <= f.len(),
    ensures
        r == at6(f@, i as int),
{
    [f[i], f[i + 1], f[i + 2], f[i + 3], f[i + 4], f[i + 5]]
}

pub fn read16(f: &Vec<u8>, i: usize) -> (r: [u8; 16])
    requires
        i + 16 <= f.len(),
    ensures
        r == at16(f@, i as int),
{
    [
        f[i],
        f[i + 1],
        f[i + 2],
        f[i + 3],
        f[i + 4],
        f[i + 5],
        f[i + 6],
        f[i + 7],
        f[i + 8],
        f[i + 9],
        f[i + 10],
        f[i + 11],
        f[i + 12],
        f[i + 13],
        f[i + 14],
        f[i + 15],
    ]
}

/// Overwrite `src.len()` bytes of `f` from `off` on.
pub fn write_bytes(f: &mut Vec<u8>, off: usize, src: &[u8])
    requires
        off + src.len() <= old(f).len(),
    ensures
        final(f)@ == put(old(f)@, off as int, src@),
{
    let n: usize = src.len();
    let mut i: usize = 0;
    while i < n
        invariant
            i <= n,
            n == src@.len(),
            off + n <= old(f).len(),
            f@ == put(old(f)@, off as int, src@.take(i as int)),
        decreases n - i,
    {
        f.set(off + i, src[i]);
        i = i + 1;
    }
    assert(src@.take(n as int) =~= src@);
}

pub fn write1(f: &mut Vec<u8>, off: usize, v: u8)
    requires
        off < old(f).len(),
    ensures
        final(f)@ == put(old(f)@, off as int, seq![v]),
{
    f.set(off, v);
}

pub fn write2(f: &mut Vec<u8>, off: usize, v: u16)
    requires
        off + 2 <= old(f).len(),
    ensures
        final(f)@ == put(old(f)@, off as int, be2(v)),
{
    f.set(off, (v / 256) as u8);
    f.set(off + 1, (v % 256) as u8);
}

pub fn write4(f: &mut Vec<u8>, off: usize, src: &[u8; 4])
    requires
        off + 4 <= old(f).len(),
    ensures
        final(f)@ == put(old(f)@, off as int, src@),
{
    f.set(off, src[0]);
    f.set(off + 1, src[1]);
    f.set(off + 2, src[2]);
    f.set(off + 3, src[3]);
}

/// Overwrite six bytes (a MAC address) of `f` from `off` on.
pub fn write6(f: &mut Vec<u8>, off: usize, src: &[u8; 6])
    requires
        off + 6 <= old(f).len(),
    ensures
        final(f)@ == put(old(f)@, off as int, src@),
{
    let mut i: usize = 0;
    while i < 6
        invariant
            i <= 6,
            off + 6 <= old(f).len(),
            f@ == put(old(f)@, off as int, src@.take(i as int)),
        decreases 6 - i,
    {
        f.set(off + i, src[i]);
        i = i + 1;
    }
    assert(src@.take(6) =~= src@);
}

/// Overwrite sixteen bytes (an IPv6 address) of `f` from `off` on.
pub fn write16(f: &mut Vec<u8>, off: usize, src: &[u8; 16])
    requires
        off + 16 <= old(f).len(),
    ensures
        final(f)@ == put(old(f)@, off as int, src@),
{
    let mut i: usize = 0;
    while i < 16
        invariant
            i <= 16,
            off + 16 <= old(f).len(),
            f@ == put(old(f)@, off as int, src@.take(i as int)),
        decreases 16 - i,
    {
        f.set(off + i, src[i]);
        i = i + 1;
    }
    assert(src@.take(16) =~= src@);
}

pub fn eq4(a: &[u8; 4], b: &[u8; 4]) -> (r: bool)
    ensures
        r == (*a == *b),
{
    let mut i: usize = 0;
    while i < 4
        invariant
            i <= 4,
            forall|j: int| 0 <= j < i ==> a[j] == b[j],
        decreases 4 - i,
    {
        if a[i] != b[i] {
            return false;
        }
        i = i + 1;
    }
    assert(*a =~= *b);
    true
}

pub fn eq6(a: &[u8; 6], b: &[u8; 6]) -> (r: bool)
    ensures
        r == (*a == *b),
{
    let mut i: usize = 0;
    while i < 6
        invariant
            i <= 6,
            forall|j: int| 0 <= j < i ==> a[j] == b[j],
        decreases 6 - i,
    {
        if a[i] != b[i] {
            return false;
        }
        i = i + 1;
    }
    assert(*a =~= *b);
    true
}

pub fn eq16(a: &[u8; 16], b: &[u8; 16]) -> (r: bool)
    ensures
        r == (*a == *b),
{
    let mut i: usize = 0;
    while i < 16
        invariant
            i <= 16,
            forall|j: int| 0 <= j < i ==> a[j] == b[j],
        decreases 16 - i,
    {
        if a[i] != b[i] {
            return false;
        }
        i = i + 1;
    }
    assert(*a =~= *b);
    true
}

/// Whether two byte strings are equal.
pub fn eq_bytes(a: &[u8], b: &[u8]) -> (r: bool)
    ensures
        r == (a@ == b@),
{
    if a.len() != b.len() {
        return false;
    }
    let n: usize = a.len();
    let mut i: usize = 0;
    while i < n
        invariant
            i <= n,
            n == a@.len(),
            n == b@.len(),
            forall|j: int| 0 <= j < i ==> a@[j] == b@[j],
        decreases n - i,
    {
        if a[i] != b[i] {
            assert(a@[i as int] != b@[i as int]);
            return false;
        }
        i = i + 1;
    }
    assert(a@ =~= b@);
    true
}

/// A copy of a byte string.
pub fn copy_bytes(a: &[u8]) -> (r: Vec<u8>)
    ensures
        r@ == a@,
{
    let n: usize = a.len();
    let mut r: Vec<u8> = Vec::new();
    let mut i: usize = 0;
    while i < n
        invariant
            i <= n,
            n == a@.len(),
            r@ == a@.take(i as int),
        decreases n - i,
    {
        r.push(a[i]);
        i = i + 1;
    }
    assert(a@.take(n as int) =~= a@);
    r
}

/// Append the two bytes of `v`, most significant first.
pub fn push2(out: &mut Vec<u8>, v: u16)
    ensures
        final(out)@ == old(out)@ + be2(v),
{
    out.push((v / 256) as u8);
    out.push((v % 256) as u8);
}

/// Append `n` zero bytes.
pub fn push_zeros(out: &mut Vec<u8>, n: usize)
    ensures
        final(out)@ == old(out)@ + zeros(n as nat),
{
    let mut i: usize = 0;
    while i < n
        invariant
            i <= n,
            out@ == old(out)@ + zeros(i as nat),
        decreases n - i,
    {
        out.push(0u8);
        i = i + 1;
    }
}

/// Append bytes `lo..hi` of `f`.
pub fn push_range(out: &mut Vec<u8>, f: &Vec<u8>, lo: usize, hi: usize)
    requires
        lo <= hi <= f.len(),
    ensures
        final(out)@ == old(out)@ + f@.subrange(lo as int, hi as int),
{
    let mut i: usize = lo;
    while i < hi
        invariant
            lo <= i <= hi,
            hi <= f.len(),
            out@ == old(out)@ + f@.subrange(lo as int, i as int),
        decreases hi - i,
    {
        out.push(f[i]);
        i = i + 1;
    }
}

/// Numbers are big-endian: their first byte is the most significant one. Writing a number and reading
/// it gives it back.
pub proof fn law_numbers_are_big_endian(s: Seq<u8>, i: int, v: u16, w: u32)
    ensures
        be16(s, i) == 256 * s[i] + s[i + 1],
        be32(s, i) == 16777216 * s[i] + 65536 * s[i + 1] + 256 * s[i + 2] + s[i + 3],
        be2(v).len() == 2,
        256 * be2(v)[0] + be2(v)[1] == v,
        be16(be2(v), 0) == v,
        be4(w).len() == 4,
        be32(be4(w), 0) == w,
{
}

/// Overwriting changes the bytes it names, and no others.
pub proof fn law_put_overwrites_in_place(s: Seq<u8>, off: int, b: Seq<u8>, i: int)
    requires
        0 <= off,
        off + b.len() <= s.len(),
        0 <= i < s.len(),
    ensures
        put(s, off, b).len() == s.len(),
        put(s, off, b).subrange(off, off + b.len()) == b,
        i < off || off + b.len() <= i ==> put(s, off, b)[i] == s[i],
{
    assert(put(s, off, b).subrange(off, off + b.len()) =~= b);
}

} // verus!
