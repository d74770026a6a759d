//! The Internet checksum: full sums and incremental updates.

use vstd::prelude::*;

use crate::bytes;
use crate::bytes::read2;

verus! {

/// The sum of the big-endian 16-bit words of bytes `lo..hi` of `s`; a last odd byte counts as the
/// high byte of its word.
pub open spec fn word_sum(s: Seq<u8>, lo: int, hi: int) -> int
    decreases hi - lo,
{
    if hi <= lo {
        0
    } else if hi == lo + 1 {
        s[lo] * 256
    } else {
        bytes::be16(s, lo) + word_sum(s, lo + 2, hi)
    }
}

/// `n` reduced to 16 bits by adding its carries back in (one's-complement addition): zero for
/// zero, else the representative of `n` modulo 65535 in `1..=65535`.
pub open spec fn fold(n: int) -> int {
    if n <= 0 {
        0
    } else {
        (n - 1) % 65535 + 1
    }
}

/// The checksum of data whose words sum to `n`.
pub open spec fn checksum(n: int) -> u16 {
    (65535 - fold(n)) as u16
}

/// Whether words that sum to `n`, the checksum field among them, verify at a receiver.
pub open spec fn verifies(n: int) -> bool {
    fold(n) == 65535
}

/// The checksum `check` after the words `old_hi`, `old_lo` were replaced by `new_hi`, `new_lo`.
pub open spec fn replaced(check: u16, old_hi: u16, old_lo: u16, new_hi: u16, new_lo: u16) -> u16 {
    checksum(
        (65535 - check) + (65535 - old_hi) + (65535 - old_lo) + new_hi + new_lo,
    )
}

/// The checksum `check` after the four bytes `old` were replaced by `new`.
pub open spec fn replaced4(check: u16, old: [u8; 4], new: [u8; 4]) -> u16 {
    replaced(
        check,
        bytes::be16(old@, 0),
        bytes::be16(old@, 2),
        bytes::be16(new@, 0),
        bytes::be16(new@, 2),
    )
}

/// The checksum `check` after the word `old` was replaced by `new`.
pub open spec fn replaced2(check: u16, old: u16, new: u16) -> u16 {
    replaced(check, old, 0, new, 0)
}

/// Reduce a sum to 16 bits, carries added back in.
pub fn fold32(sum: u32) -> (r: u16)
    ensures
        r == fold(sum as int),
{
    let a: u32 = sum % 65536 + sum / 65536;
    let b: u32 = a % 65536 + a / 65536;
    assert(sum == 65535 * (sum / 65536) + a);
    assert(a == 65535 * (a / 65536) + b);
    b as u16
}

/// Fold a change of four bytes into a checksum.
pub fn csum_replace4(check: u16, old: &[u8; 4], new: &[u8; 4]) -> (r: u16)
    ensures
        r == replaced4(check, *old, *new),
{
    let oh: u32 = (old[0] as u32) * 256 + (old[1] as u32);
    let ol: u32 = (old[2] as u32) * 256 + (old[3] as u32);
    let nh: u32 = (new[0] as u32) * 256 + (new[1] as u32);
    let nl: u32 = (new[2] as u32) * 256 + (new[3] as u32);
    let sum: u32 = (65535 - (check as u32)) + (65535 - oh) + (65535 - ol) + nh + nl;
    65535 - fold32(sum)
}

/// Fold a change of one 16-bit field into a checksum.
pub fn csum_replace2(check: u16, old: u16, new: u16) -> (r: u16)
    ensures
        r == replaced2(check, old, new),
{
    let o: [u8; 4] = [(old / 256) as u8, (old % 256) as u8, 0, 0];
    let n: [u8; 4] = [(new / 256) as u8, (new % 256) as u8, 0, 0];
    csum_replace4(check, &o, &n)
}

/// The checksum over `len` bytes of `f` from `off` on, plus an initial `sum` (a pseudo-header).
pub fn csum16(sum: u32, f: &Vec<u8>, off: usize, len: usize) -> (r: u16)
    requires
        off + len <= f.len(),
        len <= 65535,
        sum <= 65535 * 32,
    ensures
        r == checksum(sum + word_sum(f@, off as int, off + len)),
{
    let mut s: u32 = sum;
    let mut i: usize = 0;
    while i + 1 < len
        invariant
            i <= len,
            len <= 65535,
            off + len <= f.len(),
            2 * s <= 65535 * 64 + 65535 * i,
            s + word_sum(f@, off + i, off + len) == sum + word_sum(f@, off as int, off + len),
        decreases len - i,
    {
        s = s + (read2(f, off + i) as u32);
        i = i + 2;
    }
    if i < len {
        s = s + (f[off + i] as u32) * 256;
    }
    65535 - fold32(s)
}

/// The sum of the words of an IPv6 address.
pub fn address_sum(a: &[u8; 16]) -> (s: u32)
    ensures
        s == word_sum(a@, 0, 16),
        s <= 8 * 65535,
{
    let mut s: u32 = 0;
    let mut k: usize = 0;
    while k < 16
        invariant
            k <= 16,
            k % 2 == 0,
            2 * s <= 65535 * k,
            s + word_sum(a@, k as int, 16) == word_sum(a@, 0, 16),
        decreases 16 - k,
    {
        s = s + (a[k] as u32) * 256 + (a[k + 1] as u32);
        k = k + 2;
    }
    s
}

/// Replacing words under an incrementally updated checksum keeps data verifiable: if the old
/// words, the old checksum and the rest of the data (`rest`) verify, so do the new words with the
/// updated checksum, unless all of them are zero.
pub proof fn law_replace_keeps_verifying(
    rest: int,
    check: u16,
    old_hi: u16,
    old_lo: u16,
    new_hi: u16,
    new_lo: u16,
)
    requires
        rest + new_hi + new_lo + replaced(check, old_hi, old_lo, new_hi, new_lo) > 0,
        verifies(rest + old_hi + old_lo + check),
    ensures
        verifies(
            rest + new_hi + new_lo + replaced(check, old_hi, old_lo, new_hi, new_lo),
        ),
{
    let x = (65535 - check) + (65535 - old_hi) + (65535 - old_lo) + new_hi + new_lo;
    let t = rest + old_hi + old_lo + check;
    let u = rest + new_hi + new_lo + (65535 - fold(x));
    assert(t % 65535 == 0);
    assert((x - fold(x)) % 65535 == 0);
    assert(u == t - 131070 + x - fold(x));
    assert(u % 65535 == 0);
}

/// A checksum computed over data whose checksum field is zero makes that data verify once it is
/// stored in the field.
pub proof fn law_checksum_verifies(n: int)
    requires
        n > 0,
    ensures
        verifies(n + checksum(n)),
{
    assert((n - fold(n)) % 65535 == 0);
}

/// Writing outside of the summed bytes does not change their sum.
pub proof fn lemma_word_sum_put_outside(s: Seq<u8>, k: int, b: Seq<u8>, lo: int, hi: int)
    requires
        0 <= lo,
        hi <= s.len(),
        k + b.len() <= lo || hi <= k,
    ensures
        word_sum(bytes::put(s, k, b), lo, hi) == word_sum(s, lo, hi),
    decreases hi - lo,
{
    if lo + 1 < hi {
        lemma_word_sum_put_outside(s, k, b, lo + 2, hi);
    }
}

/// Replacing one of the summed words replaces it in the sum.
pub proof fn lemma_word_sum_put(s: Seq<u8>, k: int, v: u16, lo: int, hi: int)
    requires
        0 <= lo <= k,
        k + 2 <= hi <= s.len(),
        (k - lo) % 2 == 0,
    ensures
        word_sum(bytes::put(s, k, bytes::be2(v)), lo, hi) == word_sum(s, lo, hi) - bytes::be16(s, k)
            + v,
    decreases hi - lo,
{
    let p = bytes::put(s, k, bytes::be2(v));
    if k == lo {
        lemma_word_sum_put_outside(s, k, bytes::be2(v), lo + 2, hi);
        assert(bytes::be16(p, lo) == v);
    } else {
        lemma_word_sum_put(s, k, v, lo + 2, hi);
        assert(bytes::be16(p, lo) == bytes::be16(s, lo));
    }
}

/// Sums of equal bytes are equal.
pub proof fn lemma_word_sum_same(s: Seq<u8>, t: Seq<u8>, lo: int, hi: int, d: int)
    requires
        forall|i: int| lo <= i < hi ==> #[trigger] s[i] == t[i + d],
    ensures
        word_sum(s, lo, hi) == word_sum(t, lo + d, hi + d),
    decreases hi - lo,
{
    if lo < hi {
        assert(s[lo] == t[lo + d]);
        if lo + 1 < hi {
            assert(s[lo + 1] == t[lo + 1 + d]);
            lemma_word_sum_same(s, t, lo + 2, hi, d);
        }
    }
}

pub proof fn lemma_word_sum_nonneg(s: Seq<u8>, lo: int, hi: int)
    ensures
        0 <= word_sum(s, lo, hi),
    decreases hi - lo,
{
    if lo + 1 < hi {
        lemma_word_sum_nonneg(s, lo + 2, hi);
    }
}

/// The Internet checksum is the one's complement of the one's-complement sum: together with its
/// checksum, data sums to a multiple of 65535. A checksum of 0xffff is given for data that sums to
/// zero, and for no other.
pub proof fn law_checksum_complements_the_sum(n: int)
    requires
        n >= 0,
    ensures
        (n + checksum(n)) % 65535 == 0,
        checksum(n) == 65535 <==> n == 0,
{
    if n > 0 {
        assert(n == (n - 1) / 65535 * 65535 + (n - 1) % 65535 + 1);
    }
}

/// Words verify where they sum to a multiple of 65535 that is not zero.
pub proof fn law_verifying_sums_are_multiples(n: int)
    requires
        n >= 0,
    ensures
        verifies(n) <==> n > 0 && n % 65535 == 0,
{
}

/// A sum takes its bytes in pairs, the first of each pair the high one; a last single byte counts as a
/// high one. Sums of neighboring stretches add up, where the first has an even length.
pub proof fn law_sum_takes_bytes_in_pairs(s: Seq<u8>, lo: int, mid: int, hi: int)
    requires
        lo <= mid <= hi,
        (mid - lo) % 2 == 0,
    ensures
        word_sum(s, lo, lo) == 0,
        word_sum(s, lo, lo + 1) == 256 * s[lo],
        word_sum(s, lo, lo + 2) == 256 * s[lo] + s[lo + 1],
        word_sum(s, lo, hi) == word_sum(s, lo, mid) + word_sum(s, mid, hi),
    decreases mid - lo,
{
    reveal_with_fuel(word_sum, 2);
    if lo < mid {
        law_sum_takes_bytes_in_pairs(s, lo + 2, mid, hi);
    }
}

/// An updated checksum differs from the old one by what the words differ by, modulo 65535: nobody who
/// sums the changed data sees a difference.
pub proof fn law_update_follows_the_change(
    check: u16,
    old_hi: u16,
    old_lo: u16,
    new_hi: u16,
    new_lo: u16,
)
    ensures
        (replaced(check, old_hi, old_lo, new_hi, new_lo) + new_hi + new_lo - check - old_hi
            - old_lo) % 65535 == 0,
{
    let x = (65535 - check) + (65535 - old_hi) + (65535 - old_lo) + new_hi + new_lo;
    law_checksum_complements_the_sum(x);
    let y = checksum(x);
    assert((x + y) % 65535 == 0);
    assert(y + new_hi + new_lo - check - old_hi - old_lo == (x + y) - 3 * 65535);
}

} // verus!
