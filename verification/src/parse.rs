//! Header layout constants and field extraction.

use vstd::prelude::*;

use crate::bytes;
use crate::bytes::{read2, spans};

verus! {

pub const ETH_LEN: usize = 14;

pub const IPV6_LEN: usize = 40;

pub const ETH_P_IP: u16 = 0x0800;

pub const ETH_P_IPV6: u16 = 0x86DD;

pub const ETH_P_ARP: u16 = 0x0806;

/// IPv4 encapsulated in IPv6 (outer next-header).
pub const IPPROTO_IPIP: u8 = 4;

/// IPv6 encapsulated in IPv6 (outer next-header).
pub const IPPROTO_IPV6: u8 = 41;

pub const IPPROTO_ICMP: u8 = 1;

pub const IPPROTO_TCP: u8 = 6;

pub const IPPROTO_UDP: u8 = 17;

pub const IPPROTO_ICMPV6: u8 = 58;

/// The Ethernet type of a frame.
pub open spec fn ethertype(f: Seq<u8>) -> u16 {
    bytes::be16(f, 12)
}

/// Bytes in the IPv4 header at `ip`, as its first byte says.
pub open spec fn header_len(f: Seq<u8>, ip: int) -> int {
    (f[ip] % 16) * 4
}

/// The (protocol, source port, destination port) of the IPv4 packet at `ip`. The ICMP identifier
/// stands in both ports; other protocols, malformed and truncated packets have none.
pub open spec fn ports_of(f: Seq<u8>, ip: int) -> Option<(u8, u16, u16)> {
    if ip + 20 > f.len() || header_len(f, ip) < 20 {
        None
    } else {
        let proto = f[ip + 9];
        let l4 = ip + header_len(f, ip);
        if (proto == IPPROTO_TCP || proto == IPPROTO_UDP) && l4 + 4 <= f.len() {
            Some((proto, bytes::be16(f, l4), bytes::be16(f, l4 + 2)))
        } else if proto == IPPROTO_ICMP && l4 + 8 <= f.len() {
            Some((proto, bytes::be16(f, l4 + 4), bytes::be16(f, l4 + 4)))
        } else {
            None
        }
    }
}

/// The flags byte of the TCP segment in the IPv4 packet at `ip`.
pub open spec fn tcp_flags_of(f: Seq<u8>, ip: int) -> Option<u8> {
    if ip + 20 > f.len() || header_len(f, ip) < 20 || f[ip + 9] != IPPROTO_TCP || ip + header_len(
        f,
        ip,
    ) + 14 > f.len() {
        None
    } else {
        Some(f[ip + header_len(f, ip) + 13])
    }
}

/// Extract the 5-tuple's protocol and ports from the IPv4 packet at `ip_off`.
pub fn l4_ports(f: &Vec<u8>, ip_off: usize) -> (r: Option<(u8, u16, u16)>)
    ensures
        r == ports_of(f@, ip_off as int),
{
    if !spans(f, ip_off, 20) {
        return None;
    }
    let ihl: usize = ((f[ip_off] % 16) as usize) * 4;
    if ihl < 20 {
        return None;
    }
    let proto: u8 = f[ip_off + 9];
    if (proto == IPPROTO_TCP || proto == IPPROTO_UDP) && spans(f, ip_off, ihl + 4) {
        let l4: usize = ip_off + ihl;
        return Some((proto, read2(f, l4), read2(f, l4 + 2)));
    }
    if proto == IPPROTO_ICMP && spans(f, ip_off, ihl + 8) {
        let id: u16 = read2(f, ip_off + ihl + 4);
        return Some((proto, id, id));
    }
    None
}

/// Extract the TCP flags from the IPv4 packet at `ip_off`.
pub fn tcp_flags(f: &Vec<u8>, ip_off: usize) -> (r: Option<u8>)
    ensures
        r == tcp_flags_of(f@, ip_off as int),
{
    if !spans(f, ip_off, 20) {
        return None;
    }
    let ihl: usize = ((f[ip_off] % 16) as usize) * 4;
    if ihl < 20 || f[ip_off + 9] != IPPROTO_TCP || !spans(f, ip_off, ihl + 14) {
        return None;
    }
    Some(f[ip_off + ihl + 13])
}

/// The FNV-1a hash of a byte string.
pub open spec fn fnv1a(s: Seq<u8>) -> u32
    decreases s.len(),
{
    if s.len() == 0 {
        2166136261
    } else {
        (fnv1a(s.drop_last()) ^ (s.last() as u32)).wrapping_mul(16777619)
    }
}

/// The bytes of a 5-tuple that its hash runs over.
pub open spec fn tuple_bytes(src: [u8; 4], dst: [u8; 4], sport: u16, dport: u16, proto: u8) -> Seq<
    u8,
> {
    src@ + dst@ + bytes::be2(sport) + bytes::be2(dport) + seq![proto]
}

/// The hash of a flow.
pub open spec fn flow_hash(src: [u8; 4], dst: [u8; 4], sport: u16, dport: u16, proto: u8) -> u32 {
    fnv1a(tuple_bytes(src, dst, sport, dport, proto))
}

/// Hash a 5-tuple.
pub fn hash5(src: &[u8; 4], dst: &[u8; 4], sport: u16, dport: u16, proto: u8) -> (r: u32)
    ensures
        r == flow_hash(*src, *dst, sport, dport, proto),
{
    let t: [u8; 13] = [
        src[0],
        src[1],
        src[2],
        src[3],
        dst[0],
        dst[1],
        dst[2],
        dst[3],
        (sport / 256) as u8,
        (sport % 256) as u8,
        (dport / 256) as u8,
        (dport % 256) as u8,
        proto,
    ];
    assert(t@ =~= tuple_bytes(*src, *dst, sport, dport, proto));
    hash_bytes(&t)
}

/// Hash a byte string.
pub fn hash_bytes(t: &[u8]) -> (r: u32)
    ensures
        r == fnv1a(t@),
{
    let n: usize = t.len();
    let mut h: u32 = 2166136261;
    let mut i: usize = 0;
    while i < n
        invariant
            i <= n,
            n == t@.len(),
            h == fnv1a(t@.take(i as int)),
        decreases n - i,
    {
        h = (h ^ (t[i] as u32)).wrapping_mul(16777619);
        i = i + 1;
        assert(t@.take(i as int).drop_last() =~= t@.take(i - 1));
    }
    assert(t@.take(n as int) =~= t@);
    h
}

/// The top `n` bits of `b`, the rest zero.
pub open spec fn top_bits(b: u8, n: int) -> u8 {
    if n <= 0 {
        0
    } else if n == 1 {
        (b / 128 * 128) as u8
    } else if n == 2 {
        (b / 64 * 64) as u8
    } else if n == 3 {
        (b / 32 * 32) as u8
    } else if n == 4 {
        (b / 16 * 16) as u8
    } else if n == 5 {
        (b / 8 * 8) as u8
    } else if n == 6 {
        (b / 4 * 4) as u8
    } else if n == 7 {
        (b / 2 * 2) as u8
    } else {
        b
    }
}

fn keep_bits(b: u8, n: u32) -> (r: u8)
    ensures
        r == top_bits(b, n as int),
{
    if n == 0 {
        0
    } else if n == 1 {
        b / 128 * 128
    } else if n == 2 {
        b / 64 * 64
    } else if n == 3 {
        b / 32 * 32
    } else if n == 4 {
        b / 16 * 16
    } else if n == 5 {
        b / 8 * 8
    } else if n == 6 {
        b / 4 * 4
    } else if n == 7 {
        b / 2 * 2
    } else {
        b
    }
}

/// The first `len` bits of an IPv4 address, the rest zero.
pub open spec fn prefix4(ip: [u8; 4], len: int) -> [u8; 4] {
    [
        top_bits(ip[0], len),
        top_bits(ip[1], len - 8),
        top_bits(ip[2], len - 16),
        top_bits(ip[3], len - 24),
    ]
}

/// The first `len` bits of an IPv6 address, the rest zero.
pub open spec fn prefix16(ip: [u8; 16], len: int) -> [u8; 16] {
    [
        top_bits(ip[0], len),
        top_bits(ip[1], len - 8),
        top_bits(ip[2], len - 16),
        top_bits(ip[3], len - 24),
        top_bits(ip[4], len - 32),
        top_bits(ip[5], len - 40),
        top_bits(ip[6], len - 48),
        top_bits(ip[7], len - 56),
        top_bits(ip[8], len - 64),
        top_bits(ip[9], len - 72),
        top_bits(ip[10], len - 80),
        top_bits(ip[11], len - 88),
        top_bits(ip[12], len - 96),
        top_bits(ip[13], len - 104),
        top_bits(ip[14], len - 112),
        top_bits(ip[15], len - 120),
    ]
}

fn beyond(len: u32, skip: u32) -> (r: u32)
    ensures
        r == (if len > skip { len - skip } else { 0 }),
{
    if len > skip {
        len - skip
    } else {
        0
    }
}

pub fn mask4(ip: &[u8; 4], len: u32) -> (r: [u8; 4])
    ensures
        r == prefix4(*ip, len as int),
{
    [
        keep_bits(ip[0], len),
        keep_bits(ip[1], beyond(len, 8)),
        keep_bits(ip[2], beyond(len, 16)),
        keep_bits(ip[3], beyond(len, 24)),
    ]
}

pub fn mask16(ip: &[u8; 16], len: u32) -> (r: [u8; 16])
    ensures
        r == prefix16(*ip, len as int),
{
    [
        keep_bits(ip[0], len),
        keep_bits(ip[1], beyond(len, 8)),
        keep_bits(ip[2], beyond(len, 16)),
        keep_bits(ip[3], beyond(len, 24)),
        keep_bits(ip[4], beyond(len, 32)),
        keep_bits(ip[5], beyond(len, 40)),
        keep_bits(ip[6], beyond(len, 48)),
        keep_bits(ip[7], beyond(len, 56)),
        keep_bits(ip[8], beyond(len, 64)),
        keep_bits(ip[9], beyond(len, 72)),
        keep_bits(ip[10], beyond(len, 80)),
        keep_bits(ip[11], beyond(len, 88)),
        keep_bits(ip[12], beyond(len, 96)),
        keep_bits(ip[13], beyond(len, 104)),
        keep_bits(ip[14], beyond(len, 112)),
        keep_bits(ip[15], beyond(len, 120)),
    ]
}

/// Bit `i` of a byte string, counted from the most significant bit of its first byte.
pub open spec fn bit(s: Seq<u8>, i: int) -> bool {
    let b = s[i / 8];
    let k = i % 8;
    1 == (if k == 0 {
        b / 128
    } else if k == 1 {
        b / 64 % 2
    } else if k == 2 {
        b / 32 % 2
    } else if k == 3 {
        b / 16 % 2
    } else if k == 4 {
        b / 8 % 2
    } else if k == 5 {
        b / 4 % 2
    } else if k == 6 {
        b / 2 % 2
    } else {
        b % 2
    })
}

/// One more top bit agrees where the next bit does.
proof fn lemma_next_bit(a: u8, b: u8, n: int)
    requires
        0 <= n < 8,
    ensures
        (top_bits(a, n + 1) == top_bits(b, n + 1)) == (top_bits(a, n) == top_bits(b, n) && bit(
            seq![a],
            n,
        ) == bit(seq![b], n)),
{
    assert(seq![a][0] == a && seq![b][0] == b);
    if n == 0 {
        assert(a / 128 < 2 && b / 128 < 2);
    } else if n == 1 {
        assert(a / 64 == 2 * (a / 128) + a / 64 % 2);
        assert(b / 64 == 2 * (b / 128) + b / 64 % 2);
    } else if n == 2 {
        assert(a / 32 == 2 * (a / 64) + a / 32 % 2);
        assert(b / 32 == 2 * (b / 64) + b / 32 % 2);
    } else if n == 3 {
        assert(a / 16 == 2 * (a / 32) + a / 16 % 2);
        assert(b / 16 == 2 * (b / 32) + b / 16 % 2);
    } else if n == 4 {
        assert(a / 8 == 2 * (a / 16) + a / 8 % 2);
        assert(b / 8 == 2 * (b / 16) + b / 8 % 2);
    } else if n == 5 {
        assert(a / 4 == 2 * (a / 8) + a / 4 % 2);
        assert(b / 4 == 2 * (b / 8) + b / 4 % 2);
    } else if n == 6 {
        assert(a / 2 == 2 * (a / 4) + a / 2 % 2);
        assert(b / 2 == 2 * (b / 4) + b / 2 % 2);
    } else {
        assert(a == 2 * (a / 2) + a % 2);
        assert(b == 2 * (b / 2) + b % 2);
    }
}

/// Two bytes have the same top bits where their bits agree.
proof fn lemma_top_bits(a: u8, b: u8, n: int)
    ensures
        (top_bits(a, n) == top_bits(b, n)) == (forall|k: int|
            0 <= k < 8 && k < n ==> #[trigger] bit(seq![a], k) == bit(seq![b], k)),
    decreases n,
{
    if n > 8 {
        lemma_top_bits(a, b, 8);
    } else if n > 0 {
        lemma_top_bits(a, b, n - 1);
        lemma_next_bit(a, b, n - 1);
    }
}

proof fn lemma_byte_bits(s: Seq<u8>, i: int, k: int)
    requires
        0 <= k < 8,
        0 <= i < s.len(),
    ensures
        bit(s, 8 * i + k) == bit(seq![s[i]], k),
{
    assert((8 * i + k) / 8 == i && (8 * i + k) % 8 == k);
}

/// One byte of two prefixes agrees where the bits that lie in it do.
proof fn lemma_prefix_byte(a: Seq<u8>, b: Seq<u8>, i: int, len: int)
    requires
        0 <= i < a.len(),
        i < b.len(),
    ensures
        (top_bits(a[i], len - 8 * i) == top_bits(b[i], len - 8 * i)) == (forall|j: int|
            8 * i <= j < 8 * i + 8 && j < len ==> #[trigger] bit(a, j) == bit(b, j)),
{
    lemma_top_bits(a[i], b[i], len - 8 * i);
    let s = seq![a[i]];
    let t = seq![b[i]];
    if top_bits(a[i], len - 8 * i) == top_bits(b[i], len - 8 * i) {
        assert forall|j: int| 8 * i <= j < 8 * i + 8 && j < len implies #[trigger] bit(a, j) == bit(
            b,
            j,
        ) by {
            lemma_byte_bits(a, i, j - 8 * i);
            lemma_byte_bits(b, i, j - 8 * i);
            assert(bit(s, j - 8 * i) == bit(t, j - 8 * i));
        }
    }
    if forall|j: int| 8 * i <= j < 8 * i + 8 && j < len ==> #[trigger] bit(a, j) == bit(b, j) {
        assert forall|k: int| 0 <= k < 8 && k < len - 8 * i implies #[trigger] bit(s, k) == bit(
            t,
            k,
        ) by {
            lemma_byte_bits(a, i, k);
            lemma_byte_bits(b, i, k);
            assert(bit(a, 8 * i + k) == bit(b, 8 * i + k));
        }
    }
}

/// A prefix is an address's leading bits: two IPv4 addresses have the same prefix of `len` bits
/// exactly where their first `len` bits agree.
pub proof fn law_prefix4_is_the_leading_bits(a: [u8; 4], b: [u8; 4], len: int)
    requires
        len <= 32,
    ensures
        (prefix4(a, len) == prefix4(b, len)) == (forall|i: int|
            0 <= i < len ==> #[trigger] bit(a@, i) == bit(b@, i)),
{
    let p = prefix4(a, len);
    let q = prefix4(b, len);
    assert(p@[0] == top_bits(a@[0], len) && q@[0] == top_bits(b@[0], len));
    assert(p@[1] == top_bits(a@[1], len - 8) && q@[1] == top_bits(b@[1], len - 8));
    assert(p@[2] == top_bits(a@[2], len - 16) && q@[2] == top_bits(b@[2], len - 16));
    assert(p@[3] == top_bits(a@[3], len - 24) && q@[3] == top_bits(b@[3], len - 24));
    lemma_prefix_byte(a@, b@, 0, len);
    lemma_prefix_byte(a@, b@, 1, len);
    lemma_prefix_byte(a@, b@, 2, len);
    lemma_prefix_byte(a@, b@, 3, len);
    if forall|i: int| 0 <= i < len ==> #[trigger] bit(a@, i) == bit(b@, i) {
        assert(p =~= q);
    }
}

/// The same of IPv6 addresses.
pub proof fn law_prefix16_is_the_leading_bits(a: [u8; 16], b: [u8; 16], len: int)
    requires
        len <= 128,
    ensures
        (prefix16(a, len) == prefix16(b, len)) == (forall|i: int|
            0 <= i < len ==> #[trigger] bit(a@, i) == bit(b@, i)),
{
    let p = prefix16(a, len);
    let q = prefix16(b, len);
    assert forall|k: int| 0 <= k < 16 implies #[trigger] p@[k] == top_bits(a@[k], len - 8 * k)
        && q@[k] == top_bits(b@[k], len - 8 * k) && (p@[k] == q@[k]) == (forall|j: int|
        8 * k <= j < 8 * k + 8 && j < len ==> #[trigger] bit(a@, j) == bit(b@, j)) by {
        lemma_prefix_byte(a@, b@, k, len);
    }
    if p == q {
        assert forall|i: int| 0 <= i < len implies #[trigger] bit(a@, i) == bit(b@, i) by {
            let k = i / 8;
            assert(p@[k] == q@[k]);
        }
    }
    if forall|i: int| 0 <= i < len ==> #[trigger] bit(a@, i) == bit(b@, i) {
        assert forall|k: int| 0 <= k < 16 implies #[trigger] p@[k] == q@[k] by {}
        assert(p =~= q);
    }
}

/// A prefix keeps the leading bits and clears the rest: it is its own prefix, and an address of the
/// whole length is kept as it is.
pub proof fn law_prefix_keeps_the_leading_bits(a: [u8; 4], len: int)
    ensures
        len >= 32 ==> prefix4(a, len) == a,
        len <= 0 ==> prefix4(a, len) == [0u8, 0, 0, 0],
        prefix4(prefix4(a, len), len) == prefix4(a, len),
{
    let p = prefix4(a, len);
    assert forall|b: u8, n: int| #[trigger] top_bits(top_bits(b, n), n) == top_bits(b, n) by {}
    assert(prefix4(p, len) =~= p);
    if len >= 32 {
        assert(p =~= a);
    }
    if len <= 0 {
        assert(p =~= [0u8, 0, 0, 0]);
    }
}

/// The ports of a TCP or UDP packet are the first two words behind the header, whose length in words
/// the low half of its first byte gives; an ICMP packet has its identifier, the third word, for both.
/// Every other packet has no ports.
pub proof fn law_ports_are_the_first_words(f: Seq<u8>, ip: int)
    requires
        0 <= ip,
        ip + 20 <= f.len(),
    ensures
        ({
            let l4 = ip + 4 * (f[ip] % 16);
            &&& f[ip] % 16 < 5 ==> ports_of(f, ip) is None
            &&& f[ip] % 16 >= 5 && (f[ip + 9] == 6 || f[ip + 9] == 17) && l4 + 4 <= f.len()
                ==> ports_of(f, ip) == Some(
                (
                    f[ip + 9],
                    (f[l4] * 256 + f[l4 + 1]) as u16,
                    (f[l4 + 2] * 256 + f[l4 + 3]) as u16,
                ),
            )
            &&& f[ip] % 16 >= 5 && f[ip + 9] == 1 && l4 + 8 <= f.len() ==> ports_of(f, ip) == Some(
                (
                    1u8,
                    (f[l4 + 4] * 256 + f[l4 + 5]) as u16,
                    (f[l4 + 4] * 256 + f[l4 + 5]) as u16,
                ),
            )
            &&& f[ip + 9] != 6 && f[ip + 9] != 17 && f[ip + 9] != 1 ==> ports_of(f, ip) is None
        }),
{
}

/// The flow hash is 32-bit FNV-1a: the empty string hashes to 2166136261, and each further byte is
/// mixed in by exclusive or and then multiplied by 16777619, modulo 2^32.
pub proof fn law_hash_is_fnv1a(s: Seq<u8>, b: u8)
    ensures
        fnv1a(Seq::empty()) == 2166136261,
        fnv1a(s.push(b)) == ((fnv1a(s) ^ (b as u32)) * 16777619) % 0x1_0000_0000,
{
    assert(s.push(b).drop_last() =~= s);
    let x = fnv1a(s) ^ (b as u32);
    assert(x.wrapping_mul(16777619) == (x * 16777619) % 0x1_0000_0000);
}

/// The eight bits of a byte.
proof fn lemma_bits_of(b: u8)
    ensures
        bit(seq![b], 0) == (b / 128 % 2 == 1),
        bit(seq![b], 1) == (b / 64 % 2 == 1),
        bit(seq![b], 2) == (b / 32 % 2 == 1),
        bit(seq![b], 3) == (b / 16 % 2 == 1),
        bit(seq![b], 4) == (b / 8 % 2 == 1),
        bit(seq![b], 5) == (b / 4 % 2 == 1),
        bit(seq![b], 6) == (b / 2 % 2 == 1),
        bit(seq![b], 7) == (b % 2 == 1),
{
    assert(seq![b][0] == b);
}

/// Bits beyond a byte's top bits are cleared.
proof fn lemma_cleared_byte(b: u8, n: int)
    ensures
        top_bits(top_bits(b, n), n) == top_bits(b, n),
        forall|k: int| 0 <= k < 8 && n <= k ==> !#[trigger] bit(seq![top_bits(b, n)], k),
{
    let c = top_bits(b, n);
    lemma_bits_of(c);
    assert(n <= 7 ==> c % 2 == 0);
    assert(n <= 6 ==> c / 2 % 2 == 0);
    assert(n <= 5 ==> c / 4 % 2 == 0);
    assert(n <= 4 ==> c / 8 % 2 == 0);
    assert(n <= 3 ==> c / 16 % 2 == 0);
    assert(n <= 2 ==> c / 32 % 2 == 0);
    assert(n <= 1 ==> c / 64 % 2 == 0);
    assert(n <= 0 ==> c / 128 % 2 == 0);
}

/// A byte whose further bits are zero is its own top bits.
proof fn lemma_clear_byte(b: u8, n: int)
    requires
        forall|k: int| 0 <= k < 8 && n <= k ==> !#[trigger] bit(seq![b], k),
    ensures
        top_bits(b, n) == b,
{
    lemma_bits_of(b);
    assert(n <= 7 ==> b % 2 == 0);
    assert(n <= 6 ==> b / 2 % 2 == 0);
    assert(n <= 5 ==> b / 4 % 2 == 0);
    assert(n <= 4 ==> b / 8 % 2 == 0);
    assert(n <= 3 ==> b / 16 % 2 == 0);
    assert(n <= 2 ==> b / 32 % 2 == 0);
    assert(n <= 1 ==> b / 64 % 2 == 0);
    assert(n <= 0 ==> b / 128 % 2 == 0);
}

/// An IPv6 prefix keeps the leading bits and clears the rest: it is its own prefix, its bits from `len` on
/// are zero, and an address whose bits from `len` on are zero is its own prefix.
pub proof fn law_prefix16_keeps_the_leading_bits(a: [u8; 16], len: int)
    requires
        0 <= len <= 128,
    ensures
        prefix16(prefix16(a, len), len) == prefix16(a, len),
        forall|i: int| len <= i < 128 ==> !#[trigger] bit(prefix16(a, len)@, i),
        (forall|i: int| len <= i < 128 ==> !#[trigger] bit(a@, i)) ==> prefix16(a, len) == a,
{
    let p = prefix16(a, len);
    let q = prefix16(p, len);
    assert forall|k: int| 0 <= k < 16 implies #[trigger] p@[k] == top_bits(a@[k], len - 8 * k) && q@[k]
        == top_bits(p@[k], len - 8 * k) by {}
    assert forall|k: int| 0 <= k < 16 implies #[trigger] q@[k] == p@[k] by {
        lemma_cleared_byte(a@[k], len - 8 * k);
        assert(p@[k] == top_bits(a@[k], len - 8 * k));
    }
    assert(q =~= p);
    assert forall|i: int| len <= i < 128 implies !#[trigger] bit(p@, i) by {
        let k = i / 8;
        assert(p@[k] == top_bits(a@[k], len - 8 * k));
        lemma_cleared_byte(a@[k], len - 8 * k);
        lemma_byte_bits(p@, k, i % 8);
        assert(!bit(seq![p@[k]], i % 8));
    }
    if forall|i: int| len <= i < 128 ==> !#[trigger] bit(a@, i) {
        assert forall|k: int| 0 <= k < 16 implies #[trigger] p@[k] == a@[k] by {
            assert forall|j: int| 0 <= j < 8 && len - 8 * k <= j implies !#[trigger] bit(
                seq![a@[k]],
                j,
            ) by {
                lemma_byte_bits(a@, k, j);
                assert(!bit(a@, 8 * k + j));
            }
            lemma_clear_byte(a@[k], len - 8 * k);
        }
        assert(p =~= a);
    }
}

} // verus!
