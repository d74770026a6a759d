//! Address and port translation of an IPv4 packet in place, checksums kept up to date.

use vstd::prelude::*;

use crate::bytes;
use crate::bytes::{read2, read4, spans, write2, write4};
use crate::csum;
use crate::csum::{csum_replace2, csum_replace4};
use crate::parse;
use crate::parse::{IPPROTO_ICMP, IPPROTO_TCP, IPPROTO_UDP};

verus! {

/// Which end of a packet a translation rewrites.
#[derive(Copy, Clone, Eq, PartialEq, Structural, Debug)]
pub enum End {
    Source,
    Destination,
}

/// Where the address of an end stands in the IPv4 packet at `ip`.
pub open spec fn addr_at(ip: int, end: End) -> int {
    match end {
        End::Source => ip + 12,
        End::Destination => ip + 16,
    }
}

/// Where the TCP or UDP port of an end stands in the segment at `l4`.
pub open spec fn port_at(l4: int, end: End) -> int {
    match end {
        End::Source => l4,
        End::Destination => l4 + 2,
    }
}

/// Replace the word at `at`, whose value `check` (at `sum_at`) sums.
pub open spec fn word_replaced(f: Seq<u8>, sum_at: int, check: u16, at: int, new: u16) -> Seq<u8> {
    bytes::put(
        bytes::put(f, sum_at, bytes::be2(csum::replaced2(check, bytes::be16(f, at), new))),
        at,
        bytes::be2(new),
    )
}

/// The segment at `l4` of `g` after its pseudo-header's address changed from `old` to `new` and
/// the word at `at` to `port`, if one is given; `sum_at` is where its checksum stands.
pub open spec fn segment_translated(
    g: Seq<u8>,
    sum_at: int,
    at: int,
    old: [u8; 4],
    new: [u8; 4],
    port: Option<u16>,
) -> Seq<u8> {
    let check = csum::replaced4(bytes::be16(g, sum_at), old, new);
    match port {
        Some(p) => word_replaced(g, sum_at, check, at, p),
        None => bytes::put(g, sum_at, bytes::be2(check)),
    }
}

/// The frame with one end's address, and so the header checksum, replaced.
pub open spec fn readdressed(f: Seq<u8>, ip: int, end: End, addr: [u8; 4]) -> Seq<u8> {
    bytes::put(
        bytes::put(f, addr_at(ip, end), addr@),
        ip + 10,
        bytes::be2(
            csum::replaced4(bytes::be16(f, ip + 10), bytes::at4(f, addr_at(ip, end)), addr),
        ),
    )
}

/// The packet at `ip`, whose transport header stands at `l4`, with one end's address replaced by
/// `addr` and, if `port` is given, that end's port (the identifier, for ICMP) by `port`. The IPv4,
/// TCP, UDP and ICMP checksums follow; a UDP checksum of zero stays (the sender did not compute
/// one). A truncated transport header is left alone.
pub open spec fn translated(
    f: Seq<u8>,
    ip: int,
    l4: int,
    end: End,
    addr: [u8; 4],
    port: Option<u16>,
) -> Seq<u8> {
    let old = bytes::at4(f, addr_at(ip, end));
    let g = readdressed(f, ip, end, addr);
    let proto = f[ip + 9];
    if proto == IPPROTO_TCP && l4 + 18 <= f.len() {
        segment_translated(g, l4 + 16, port_at(l4, end), old, addr, port)
    } else if proto == IPPROTO_UDP && l4 + 8 <= f.len() {
        if bytes::be16(f, l4 + 6) != 0 {
            segment_translated(g, l4 + 6, port_at(l4, end), old, addr, port)
        } else {
            match port {
                Some(p) => bytes::put(g, port_at(l4, end), bytes::be2(p)),
                None => g,
            }
        }
    } else if proto == IPPROTO_ICMP && l4 + 8 <= f.len() {
        match port {
            Some(p) => word_replaced(g, l4 + 2, bytes::be16(f, l4 + 2), l4 + 4, p),
            None => g,
        }
    } else {
        g
    }
}

/// Translate the segment whose checksum stands at `sum_at` and whose port stands at `at`.
fn translate_segment(
    f: &mut Vec<u8>,
    sum_at: usize,
    at: usize,
    old_addr: &[u8; 4],
    new_addr: &[u8; 4],
    port: Option<u16>,
)
    requires
        sum_at + 2 <= old(f).len(),
        at + 2 <= old(f).len(),
    ensures
        final(f)@ == segment_translated(
            old(f)@,
            sum_at as int,
            at as int,
            *old_addr,
            *new_addr,
            port,
        ),
{
    let c0: u16 = read2(f, sum_at);
    let c1: u16 = csum_replace4(c0, old_addr, new_addr);
    match port {
        Some(p) => {
            let was: u16 = read2(f, at);
            write2(f, sum_at, csum_replace2(c1, was, p));
            write2(f, at, p);
        },
        None => {
            write2(f, sum_at, c1);
        },
    }
}

/// Translate one end of the packet at `ip`, whose header has `ihl` bytes, in place.
pub fn translate(
    f: &mut Vec<u8>,
    ip: usize,
    ihl: usize,
    end: End,
    addr: &[u8; 4],
    port: Option<u16>,
)
    requires
        ip + 20 <= old(f).len(),
        20 <= ihl <= 60,
    ensures
        final(f)@ == translated(old(f)@, ip as int, ip + ihl, end, *addr, port),
{
    let addr_off: usize = match end {
        End::Source => ip + 12,
        End::Destination => ip + 16,
    };
    let skip: usize = match end {
        End::Source => 0,
        End::Destination => 2,
    };
    let was = read4(f, addr_off);
    let proto: u8 = f[ip + 9];
    let ip_sum: u16 = read2(f, ip + 10);
    write4(f, addr_off, addr);
    write2(f, ip + 10, csum_replace4(ip_sum, &was, addr));
    if proto == IPPROTO_TCP && spans(f, ip, ihl + 18) {
        let l4: usize = ip + ihl;
        translate_segment(f, l4 + 16, l4 + skip, &was, addr, port);
    } else if proto == IPPROTO_UDP && spans(f, ip, ihl + 8) {
        let l4: usize = ip + ihl;
        assert(bytes::be16(f@, l4 + 6) == bytes::be16(old(f)@, l4 + 6));
        if read2(f, l4 + 6) != 0 {
            translate_segment(f, l4 + 6, l4 + skip, &was, addr, port);
        } else if let Some(p) = port {
            write2(f, l4 + skip, p);
        }
    } else if proto == IPPROTO_ICMP && spans(f, ip, ihl + 8) {
        if let Some(p) = port {
            let l4: usize = ip + ihl;
            let c0: u16 = read2(f, l4 + 2);
            let id: u16 = read2(f, l4 + 4);
            assert(bytes::be16(f@, l4 + 2) == bytes::be16(old(f)@, l4 + 2));
            write2(f, l4 + 2, csum_replace2(c0, id, p));
            write2(f, l4 + 4, p);
        }
    }
}

/// How often 65535 fits into the difference that a change of words makes to their checksum.
spec fn carries(check: u16, oh: u16, ol: u16, nh: u16, nl: u16) -> int {
    (csum::replaced(check, oh, ol, nh, nl) + nh + nl - check - oh - ol) / 65535
}

/// The Internet checksum works modulo 65535: an updated checksum differs from the old one by what
/// the words it covers differ by.
proof fn lemma_replaced_mod(check: u16, oh: u16, ol: u16, nh: u16, nl: u16)
    ensures
        csum::replaced(check, oh, ol, nh, nl) == check + oh + ol - nh - nl + 65535 * carries(
            check,
            oh,
            ol,
            nh,
            nl,
        ),
        csum::replaced(check, oh, ol, nh, nl) == 65535 ==> check == 65535 && oh == 65535 && ol
            == 65535,
{
    let x = (65535 - check) + (65535 - oh) + (65535 - ol) + nh + nl;
    assert((x - csum::fold(x)) % 65535 == 0);
    assert((csum::replaced(check, oh, ol, nh, nl) + nh + nl - check - oh - ol) % 65535 == 0);
}

/// Overwriting four bytes of the summed ones, at an even distance from the start, replaces their
/// two words in the sum.
proof fn lemma_word_sum_put4(s: Seq<u8>, k: int, b: [u8; 4], lo: int, hi: int)
    requires
        0 <= lo <= k,
        k + 4 <= hi <= s.len(),
        (k - lo) % 2 == 0,
    ensures
        csum::word_sum(bytes::put(s, k, b@), lo, hi) == csum::word_sum(s, lo, hi) - bytes::be16(
            s,
            k,
        ) - bytes::be16(s, k + 2) + bytes::be16(b@, 0) + bytes::be16(b@, 2),
{
    let h = bytes::be16(b@, 0);
    let l = bytes::be16(b@, 2);
    let t = bytes::put(s, k, bytes::be2(h));
    csum::lemma_word_sum_put(s, k, h, lo, hi);
    csum::lemma_word_sum_put(t, k + 2, l, lo, hi);
    assert(bytes::be16(t, k + 2) == bytes::be16(s, k + 2));
    assert(bytes::put(s, k, b@) =~= bytes::put(t, k + 2, bytes::be2(l)));
}

/// The words of an address read out of a packet are the packet's.
proof fn lemma_at4_words(f: Seq<u8>, k: int)
    ensures
        bytes::be16(bytes::at4(f, k)@, 0) == bytes::be16(f, k),
        bytes::be16(bytes::at4(f, k)@, 2) == bytes::be16(f, k + 2),
{
}

/// Translation does not touch the IPv4 header outside the address and the checksum, nor the
/// length of the frame.
proof fn lemma_translated_outside(
    f: Seq<u8>,
    ip: int,
    l4: int,
    end: End,
    addr: [u8; 4],
    port: Option<u16>,
)
    requires
        0 <= ip,
        ip + 20 <= f.len(),
        ip + 20 <= l4,
    ensures
        translated(f, ip, l4, end, addr, port).len() == f.len(),
        forall|i: int|
            0 <= i < l4 && i < f.len() ==> translated(f, ip, l4, end, addr, port)[i] == readdressed(
                f,
                ip,
                end,
                addr,
            )[i],
{
}

/// Translation keeps a valid IPv4 header valid.
pub proof fn law_ip_header_stays_valid(
    f: Seq<u8>,
    ip: int,
    l4: int,
    end: End,
    addr: [u8; 4],
    port: Option<u16>,
)
    requires
        0 <= ip,
        ip + 20 <= l4 <= f.len(),
        f[ip] != 0,
        csum::verifies(csum::word_sum(f, ip, l4)),
    ensures
        csum::verifies(csum::word_sum(translated(f, ip, l4, end, addr, port), ip, l4)),
{
    let at = addr_at(ip, end);
    let was = bytes::at4(f, at);
    let g = bytes::put(f, at, addr@);
    let c = csum::replaced4(bytes::be16(f, ip + 10), was, addr);
    let h = bytes::put(g, ip + 10, bytes::be2(c));
    let r = translated(f, ip, l4, end, addr, port);
    lemma_translated_outside(f, ip, l4, end, addr, port);
    csum::lemma_word_sum_same(r, h, ip, l4, 0);
    lemma_word_sum_put4(f, at, addr, ip, l4);
    csum::lemma_word_sum_put(g, ip + 10, c, ip, l4);
    lemma_at4_words(f, at);
    assert(bytes::be16(g, ip + 10) == bytes::be16(f, ip + 10));
    lemma_replaced_mod(
        bytes::be16(f, ip + 10),
        bytes::be16(f, at),
        bytes::be16(f, at + 2),
        bytes::be16(addr@, 0),
        bytes::be16(addr@, 2),
    );
    csum::lemma_word_sum_nonneg(h, ip + 2, l4);
    assert(h[ip] == f[ip]);
    assert(csum::word_sum(h, ip, l4) == bytes::be16(h, ip) + csum::word_sum(h, ip + 2, l4));
    assert(csum::word_sum(h, ip, l4) > 0);
    lemma_multiple_verifies(
        csum::word_sum(f, ip, l4),
        csum::word_sum(h, ip, l4),
        carries(
            bytes::be16(f, ip + 10),
            bytes::be16(f, at),
            bytes::be16(f, at + 2),
            bytes::be16(addr@, 0),
            bytes::be16(addr@, 2),
        ),
    );
}

/// A positive sum that differs from a verifying one by a multiple of 65535 verifies.
proof fn lemma_multiple_verifies(n: int, m: int, k: int)
    requires
        csum::verifies(n),
        m > 0,
        m == n + 65535 * k,
    ensures
        csum::verifies(m),
{
    assert(n % 65535 == 0);
    assert(m % 65535 == 0);
}

/// What the checksum of the TCP or UDP segment at `l4..l4 + len` covers: both addresses, the
/// protocol, the length, and the segment.
pub open spec fn segment_sum(f: Seq<u8>, ip: int, l4: int, len: int) -> int {
    csum::word_sum(f, ip + 12, ip + 20) + f[ip + 9] + len + csum::word_sum(f, l4, l4 + len)
}

/// How often 65535 fits into what translating a segment makes of its sum.
spec fn segment_carries(
    g: Seq<u8>,
    sum_at: int,
    at: int,
    old: [u8; 4],
    new: [u8; 4],
    port: Option<u16>,
) -> int {
    let check = bytes::be16(g, sum_at);
    let k = carries(
        check,
        bytes::be16(old@, 0),
        bytes::be16(old@, 2),
        bytes::be16(new@, 0),
        bytes::be16(new@, 2),
    );
    match port {
        Some(p) => k + carries(csum::replaced4(check, old, new), bytes::be16(g, at), 0, p, 0),
        None => k,
    }
}

/// Translating one segment keeps its part of the sum in step with the address change.
proof fn lemma_segment_translated_sum(
    g: Seq<u8>,
    sum_at: int,
    at: int,
    old: [u8; 4],
    new: [u8; 4],
    port: Option<u16>,
    lo: int,
    hi: int,
)
    requires
        0 <= lo <= at,
        at + 2 <= sum_at,
        sum_at + 2 <= hi <= g.len(),
        (at - lo) % 2 == 0,
        (sum_at - lo) % 2 == 0,
    ensures
        csum::word_sum(segment_translated(g, sum_at, at, old, new, port), lo, hi)
            == csum::word_sum(g, lo, hi) + bytes::be16(old@, 0) + bytes::be16(old@, 2)
            - bytes::be16(new@, 0) - bytes::be16(new@, 2) + 65535 * segment_carries(
            g,
            sum_at,
            at,
            old,
            new,
            port,
        ),
{
    let check = bytes::be16(g, sum_at);
    let c1 = csum::replaced4(check, old, new);
    lemma_replaced_mod(
        check,
        bytes::be16(old@, 0),
        bytes::be16(old@, 2),
        bytes::be16(new@, 0),
        bytes::be16(new@, 2),
    );
    match port {
        Some(p) => {
            let was = bytes::be16(g, at);
            let c2 = csum::replaced2(c1, was, p);
            let t = bytes::put(g, sum_at, bytes::be2(c2));
            csum::lemma_word_sum_put(g, sum_at, c2, lo, hi);
            csum::lemma_word_sum_put(t, at, p, lo, hi);
            assert(bytes::be16(t, at) == was);
            lemma_replaced_mod(c1, was, 0, p, 0);
        },
        None => {
            csum::lemma_word_sum_put(g, sum_at, c1, lo, hi);
        },
    }
}

/// Translation keeps a valid TCP segment, and a UDP segment with a valid checksum, valid.
pub proof fn law_segment_stays_valid(
    f: Seq<u8>,
    ip: int,
    l4: int,
    len: int,
    end: End,
    addr: [u8; 4],
    port: Option<u16>,
)
    requires
        0 <= ip,
        ip + 20 <= l4,
        l4 + len <= f.len(),
        (f[ip + 9] == IPPROTO_TCP && 18 <= len) || (f[ip + 9] == IPPROTO_UDP && 8 <= len
            && bytes::be16(f, l4 + 6) != 0),
        csum::verifies(segment_sum(f, ip, l4, len)),
    ensures
        csum::verifies(
            segment_sum(translated(f, ip, l4, end, addr, port), ip, l4, len),
        ),
{
    let at = addr_at(ip, end);
    let was = bytes::at4(f, at);
    let g0 = bytes::put(f, at, addr@);
    let c = bytes::be2(csum::replaced4(bytes::be16(f, ip + 10), was, addr));
    let g = bytes::put(g0, ip + 10, c);
    let r = translated(f, ip, l4, end, addr, port);
    let sum_at = if f[ip + 9] == IPPROTO_TCP {
        l4 + 16
    } else {
        l4 + 6
    };
    assert(r == segment_translated(g, sum_at, port_at(l4, end), was, addr, port)) by {
        assert(bytes::be16(g, l4 + 6) == bytes::be16(f, l4 + 6));
    }
    lemma_segment_translated_sum(
        g,
        sum_at,
        port_at(l4, end),
        was,
        addr,
        port,
        l4,
        l4 + len,
    );
    csum::lemma_word_sum_put_outside(f, at, addr@, l4, l4 + len);
    csum::lemma_word_sum_put_outside(g0, ip + 10, c, l4, l4 + len);
    lemma_word_sum_put4(f, at, addr, ip + 12, ip + 20);
    csum::lemma_word_sum_put_outside(g0, ip + 10, c, ip + 12, ip + 20);
    lemma_translated_outside(f, ip, l4, end, addr, port);
    csum::lemma_word_sum_same(r, g, ip + 12, ip + 20, 0);
    lemma_at4_words(f, at);
    csum::lemma_word_sum_nonneg(r, ip + 12, ip + 20);
    csum::lemma_word_sum_nonneg(r, l4, l4 + len);
    assert(r[ip + 9] == f[ip + 9]);
    lemma_multiple_verifies(
        segment_sum(f, ip, l4, len),
        segment_sum(r, ip, l4, len),
        segment_carries(g, sum_at, port_at(l4, end), was, addr, port),
    );
}

/// Translation keeps a valid ICMP message valid, unless it leaves nothing but zeros.
pub proof fn law_echo_stays_valid(
    f: Seq<u8>,
    ip: int,
    l4: int,
    len: int,
    end: End,
    addr: [u8; 4],
    port: Option<u16>,
)
    requires
        0 <= ip,
        ip + 20 <= l4,
        8 <= len,
        l4 + len <= f.len(),
        f[ip + 9] == IPPROTO_ICMP,
        csum::word_sum(translated(f, ip, l4, end, addr, port), l4, l4 + len) > 0,
        csum::verifies(csum::word_sum(f, l4, l4 + len)),
    ensures
        csum::verifies(
            csum::word_sum(translated(f, ip, l4, end, addr, port), l4, l4 + len),
        ),
{
    let at = addr_at(ip, end);
    let was = bytes::at4(f, at);
    let g0 = bytes::put(f, at, addr@);
    let c = bytes::be2(csum::replaced4(bytes::be16(f, ip + 10), was, addr));
    let g = bytes::put(g0, ip + 10, c);
    let r = translated(f, ip, l4, end, addr, port);
    csum::lemma_word_sum_put_outside(f, at, addr@, l4, l4 + len);
    csum::lemma_word_sum_put_outside(g0, ip + 10, c, l4, l4 + len);
    match port {
        Some(p) => {
            let check = bytes::be16(f, l4 + 2);
            let id = bytes::be16(f, l4 + 4);
            let c2 = csum::replaced2(check, id, p);
            let t = bytes::put(g, l4 + 2, bytes::be2(c2));
            assert(bytes::be16(g, l4 + 2) == check);
            assert(bytes::be16(g, l4 + 4) == id);
            csum::lemma_word_sum_put(g, l4 + 2, c2, l4, l4 + len);
            csum::lemma_word_sum_put(t, l4 + 4, p, l4, l4 + len);
            assert(bytes::be16(t, l4 + 4) == id);
            lemma_replaced_mod(check, id, 0, p, 0);
            assert(r == bytes::put(t, l4 + 4, bytes::be2(p)));
            lemma_multiple_verifies(
                csum::word_sum(f, l4, l4 + len),
                csum::word_sum(r, l4, l4 + len),
                carries(check, id, 0, p, 0),
            );
        },
        None => {},
    }
}

/// Updating a checksum for a change and then for its reverse gives the checksum back (0xffff,
/// which no update yields, aside).
proof fn lemma_replaced_back(check: u16, oh: u16, ol: u16, nh: u16, nl: u16)
    requires
        check != 65535,
    ensures
        csum::replaced(csum::replaced(check, oh, ol, nh, nl), nh, nl, oh, ol) == check,
{
    let c = csum::replaced(check, oh, ol, nh, nl);
    lemma_replaced_mod(check, oh, ol, nh, nl);
    lemma_replaced_mod(c, nh, nl, oh, ol);
    lemma_same_residue(
        csum::replaced(c, nh, nl, oh, ol),
        check,
        carries(check, oh, ol, nh, nl) + carries(c, nh, nl, oh, ol),
    );
}

/// Below 65535, numbers that differ by a multiple of 65535 are equal.
proof fn lemma_same_residue(a: u16, b: u16, k: int)
    requires
        a == b + 65535 * k,
        a != 65535,
        b != 65535,
    ensures
        a == b,
{
}

/// The same for an address change and a word change folded in one after the other.
proof fn lemma_both_replaced_back(check: u16, a: [u8; 4], b: [u8; 4], o: u16, n: u16)
    requires
        check != 65535,
    ensures
        csum::replaced2(
            csum::replaced4(csum::replaced2(csum::replaced4(check, a, b), o, n), b, a),
            n,
            o,
        ) == check,
{
    let (ah, al) = (bytes::be16(a@, 0), bytes::be16(a@, 2));
    let (bh, bl) = (bytes::be16(b@, 0), bytes::be16(b@, 2));
    lemma_four_replaced(check, ah, al, bh, bl, o, n);
}

proof fn lemma_four_replaced(check: u16, ah: u16, al: u16, bh: u16, bl: u16, o: u16, n: u16)
    requires
        check != 65535,
    ensures
        csum::replaced(
            csum::replaced(
                csum::replaced(csum::replaced(check, ah, al, bh, bl), o, 0, n, 0),
                bh,
                bl,
                ah,
                al,
            ),
            n,
            0,
            o,
            0,
        ) == check,
{
    let c1 = csum::replaced(check, ah, al, bh, bl);
    let c2 = csum::replaced(c1, o, 0, n, 0);
    let c3 = csum::replaced(c2, bh, bl, ah, al);
    let c4 = csum::replaced(c3, n, 0, o, 0);
    lemma_replaced_mod(check, ah, al, bh, bl);
    lemma_replaced_mod(c1, o, 0, n, 0);
    lemma_replaced_mod(c2, bh, bl, ah, al);
    lemma_replaced_mod(c3, n, 0, o, 0);
    lemma_same_residue(
        c4,
        check,
        carries(check, ah, al, bh, bl) + carries(c1, o, 0, n, 0) + carries(c2, bh, bl, ah, al)
            + carries(c3, n, 0, o, 0),
    );
}

/// The port of one end (the identifier, for ICMP) of the packet at `ip`.
pub open spec fn port_of(f: Seq<u8>, ip: int, l4: int, end: End) -> u16 {
    if f[ip + 9] == IPPROTO_ICMP {
        bytes::be16(f, l4 + 4)
    } else {
        bytes::be16(f, port_at(l4, end))
    }
}

/// Whether every checksum that a translation of the packet updates can be recovered from the
/// updated one: none is 0xffff, which an update writes as zero, and no UDP checksum becomes the
/// zero that stands for an absent one.
pub open spec fn recoverable(
    f: Seq<u8>,
    ip: int,
    l4: int,
    end: End,
    addr: [u8; 4],
    port: Option<u16>,
) -> bool {
    let t = translated(f, ip, l4, end, addr, port);
    &&& bytes::be16(f, ip + 10) != 65535
    &&& f[ip + 9] == IPPROTO_TCP && l4 + 18 <= f.len() ==> bytes::be16(f, l4 + 16) != 65535
    &&& f[ip + 9] == IPPROTO_UDP && l4 + 8 <= f.len() ==> bytes::be16(f, l4 + 6) != 65535 && (
    bytes::be16(t, l4 + 6) == 0 ==> bytes::be16(f, l4 + 6) == 0)
    &&& f[ip + 9] == IPPROTO_ICMP && l4 + 8 <= f.len() && port is Some ==> bytes::be16(f, l4 + 2)
        != 65535
}

/// Two bytes are determined by their word.
proof fn lemma_word_bytes(s: Seq<u8>, t: Seq<u8>, i: int)
    requires
        bytes::be16(s, i) == bytes::be16(t, i),
    ensures
        s[i] == t[i],
        s[i + 1] == t[i + 1],
{
}

/// The port that undoes a translation to `port`.
pub open spec fn undo_port(
    f: Seq<u8>,
    ip: int,
    l4: int,
    end: End,
    port: Option<u16>,
) -> Option<u16> {
    match port {
        Some(_) => Some(port_of(f, ip, l4, end)),
        None => None,
    }
}

/// Translating a segment back restores it; `h` agrees with the translated `g` from `lo` on.
proof fn lemma_segment_back(
    g: Seq<u8>,
    h: Seq<u8>,
    sum_at: int,
    at: int,
    old: [u8; 4],
    new: [u8; 4],
    port: Option<u16>,
    back: Option<u16>,
    lo: int,
)
    requires
        0 <= lo <= at,
        at + 2 <= sum_at,
        sum_at + 2 <= g.len(),
        g.len() == h.len(),
        bytes::be16(g, sum_at) != 65535,
        back == (match port {
            Some(_) => Some(bytes::be16(g, at)),
            None => None,
        }),
        forall|i: int|
            lo <= i < g.len() ==> #[trigger] h[i] == segment_translated(
                g,
                sum_at,
                at,
                old,
                new,
                port,
            )[i],
    ensures
        forall|i: int|
            lo <= i < g.len() ==> #[trigger] segment_translated(
                h,
                sum_at,
                at,
                new,
                old,
                back,
            )[i] == g[i],
{
    let check = bytes::be16(g, sum_at);
    let t = segment_translated(g, sum_at, at, old, new, port);
    let b = segment_translated(h, sum_at, at, new, old, back);
    assert(bytes::be16(h, sum_at) == bytes::be16(t, sum_at));
    assert(bytes::be16(h, at) == bytes::be16(t, at));
    match port {
        Some(p) => {
            let was = bytes::be16(g, at);
            let c2 = csum::replaced2(csum::replaced4(check, old, new), was, p);
            lemma_both_replaced_back(check, old, new, was, p);
            assert(bytes::be16(t, sum_at) == c2);
            assert(bytes::be16(t, at) == p);
            assert(bytes::be16(b, sum_at) == check);
            lemma_word_bytes(b, g, sum_at);
            assert(bytes::be16(b, at) == was);
            lemma_word_bytes(b, g, at);
        },
        None => {
            lemma_replaced_back(
                check,
                bytes::be16(old@, 0),
                bytes::be16(old@, 2),
                bytes::be16(new@, 0),
                bytes::be16(new@, 2),
            );
            assert(bytes::be16(b, sum_at) == check);
            lemma_word_bytes(b, g, sum_at);
        },
    }
}

/// Replacing a word back restores it and the checksum; `h` agrees with the changed `g` from `lo`.
proof fn lemma_word_back(g: Seq<u8>, h: Seq<u8>, sum_at: int, at: int, p: u16, lo: int)
    requires
        0 <= lo <= sum_at,
        sum_at + 2 <= at,
        at + 2 <= g.len(),
        g.len() == h.len(),
        bytes::be16(g, sum_at) != 65535,
        forall|i: int|
            lo <= i < g.len() ==> #[trigger] h[i] == word_replaced(
                g,
                sum_at,
                bytes::be16(g, sum_at),
                at,
                p,
            )[i],
    ensures
        forall|i: int|
            lo <= i < g.len() ==> #[trigger] word_replaced(
                h,
                sum_at,
                bytes::be16(h, sum_at),
                at,
                bytes::be16(g, at),
            )[i] == g[i],
{
    let check = bytes::be16(g, sum_at);
    let was = bytes::be16(g, at);
    let t = word_replaced(g, sum_at, check, at, p);
    let b = word_replaced(h, sum_at, bytes::be16(h, sum_at), at, was);
    assert(bytes::be16(h, sum_at) == bytes::be16(t, sum_at));
    assert(bytes::be16(h, at) == bytes::be16(t, at));
    lemma_replaced_back(check, was, 0, p, 0);
    assert(bytes::be16(b, sum_at) == check);
    lemma_word_bytes(b, g, sum_at);
    assert(bytes::be16(b, at) == was);
    lemma_word_bytes(b, g, at);
}

proof fn lemma_payload_back(
    f: Seq<u8>,
    ip: int,
    l4: int,
    end: End,
    addr: [u8; 4],
    port: Option<u16>,
)
    requires
        0 <= ip,
        ip + 20 <= l4,
        ip + 20 <= f.len(),
        recoverable(f, ip, l4, end, addr, port),
    ensures
        forall|i: int|
            l4 <= i < f.len() ==> #[trigger] translated(
                translated(f, ip, l4, end, addr, port),
                ip,
                l4,
                end,
                bytes::at4(f, addr_at(ip, end)),
                undo_port(f, ip, l4, end, port),
            )[i] == f[i],
{
    let at = addr_at(ip, end);
    let was = bytes::at4(f, at);
    let back = undo_port(f, ip, l4, end, port);
    let g = readdressed(f, ip, end, addr);
    let t = translated(f, ip, l4, end, addr, port);
    lemma_translated_outside(f, ip, l4, end, addr, port);
    assert(bytes::at4(t, at) =~= addr);
    let h = readdressed(t, ip, end, was);
    let b = translated(t, ip, l4, end, was, back);
    let pa = port_at(l4, end);
    assert(t[ip + 9] == f[ip + 9]);
    assert forall|i: int| l4 <= i < f.len() implies #[trigger] g[i] == f[i] by {}
    assert forall|i: int| l4 <= i < f.len() implies #[trigger] h[i] == t[i] by {}
    if f[ip + 9] == IPPROTO_TCP && l4 + 18 <= f.len() {
        assert(t == segment_translated(g, l4 + 16, pa, was, addr, port));
        assert(b == segment_translated(h, l4 + 16, pa, addr, was, back));
        lemma_segment_back(g, h, l4 + 16, pa, was, addr, port, back, l4);
    } else if f[ip + 9] == IPPROTO_UDP && l4 + 8 <= f.len() {
        if bytes::be16(f, l4 + 6) != 0 {
            assert(t == segment_translated(g, l4 + 6, pa, was, addr, port));
            assert(b == segment_translated(h, l4 + 6, pa, addr, was, back));
            lemma_segment_back(g, h, l4 + 6, pa, was, addr, port, back, l4);
        } else {
            assert(bytes::be16(t, l4 + 6) == 0);
            if port is Some {
                assert(b == bytes::put(h, pa, bytes::be2(bytes::be16(f, pa))));
                assert(bytes::be16(b, pa) == bytes::be16(f, pa));
                lemma_word_bytes(b, f, pa);
            }
        }
    } else if f[ip + 9] == IPPROTO_ICMP && l4 + 8 <= f.len() {
        match port {
            Some(p) => {
                assert(bytes::be16(g, l4 + 2) == bytes::be16(f, l4 + 2));
                assert(bytes::be16(h, l4 + 2) == bytes::be16(t, l4 + 2));
                assert(bytes::be16(g, l4 + 4) == bytes::be16(f, l4 + 4));
                lemma_word_back(g, h, l4 + 2, l4 + 4, p, l4);
            },
            None => {},
        }
    }
}

/// Readdressing back restores the header; `t` agrees with the readdressed `f` before `hi`.
proof fn lemma_header_back(f: Seq<u8>, t: Seq<u8>, ip: int, end: End, addr: [u8; 4], hi: int)
    requires
        0 <= ip,
        ip + 20 <= hi,
        ip + 20 <= f.len(),
        f.len() == t.len(),
        bytes::be16(f, ip + 10) != 65535,
        forall|i: int|
            0 <= i < hi && i < f.len() ==> #[trigger] t[i] == readdressed(f, ip, end, addr)[i],
    ensures
        forall|i: int|
            0 <= i < hi && i < f.len() ==> #[trigger] readdressed(
                t,
                ip,
                end,
                bytes::at4(f, addr_at(ip, end)),
            )[i] == f[i],
{
    let at = addr_at(ip, end);
    let was = bytes::at4(f, at);
    let b = readdressed(t, ip, end, was);
    assert(bytes::at4(t, at) =~= addr);
    assert(bytes::be16(t, ip + 10) == csum::replaced4(bytes::be16(f, ip + 10), was, addr));
    lemma_replaced_back(
        bytes::be16(f, ip + 10),
        bytes::be16(was@, 0),
        bytes::be16(was@, 2),
        bytes::be16(addr@, 0),
        bytes::be16(addr@, 2),
    );
    assert(bytes::be16(b, ip + 10) == bytes::be16(f, ip + 10));
    lemma_word_bytes(b, f, ip + 10);
    assert forall|i: int| 0 <= i < hi && i < f.len() implies #[trigger] b[i] == f[i] by {
        if at <= i < at + 4 {
            assert(was@[i - at] == f[i]);
        }
    }
}

/// Translation is undone by translating back: to the address and port that were there before.
pub proof fn law_translation_is_undone(
    f: Seq<u8>,
    ip: int,
    l4: int,
    end: End,
    addr: [u8; 4],
    port: Option<u16>,
)
    requires
        0 <= ip,
        ip + 20 <= l4,
        ip + 20 <= f.len(),
        recoverable(f, ip, l4, end, addr, port),
    ensures
        translated(
            translated(f, ip, l4, end, addr, port),
            ip,
            l4,
            end,
            bytes::at4(f, addr_at(ip, end)),
            undo_port(f, ip, l4, end, port),
        ) == f,
{
    let was = bytes::at4(f, addr_at(ip, end));
    let back = undo_port(f, ip, l4, end, port);
    let t = translated(f, ip, l4, end, addr, port);
    let b = translated(t, ip, l4, end, was, back);
    assert(b.len() == f.len() && forall|i: int|
        0 <= i < l4 && i < f.len() ==> #[trigger] b[i] == f[i]) by {
        lemma_translated_outside(f, ip, l4, end, addr, port);
        lemma_translated_outside(t, ip, l4, end, was, back);
        lemma_header_back(f, t, ip, end, addr, l4);
    }
    lemma_payload_back(f, ip, l4, end, addr, port);
    assert(b =~= f);
}

/// Translation does what it says and nothing else: the end's address becomes `addr`; where a port is
/// given, the end's port of a TCP or UDP packet (the identifier of an ICMP packet) becomes `port`;
/// and but for these and the checksums every byte of the frame stays.
pub proof fn law_translated_bytes(
    f: Seq<u8>,
    ip: int,
    l4: int,
    end: End,
    addr: [u8; 4],
    port: Option<u16>,
)
    requires
        0 <= ip,
        ip + 20 <= f.len(),
        ip + 20 <= l4,
    ensures
        ({
            let g = translated(f, ip, l4, end, addr, port);
            let at = if end == End::Source {
                ip + 12
            } else {
                ip + 16
            };
            let port_at = if f[ip + 9] == 1 {
                l4 + 4
            } else if end == End::Source {
                l4
            } else {
                l4 + 2
            };
            let sum_at = if f[ip + 9] == 6 {
                l4 + 16
            } else if f[ip + 9] == 17 {
                l4 + 6
            } else {
                l4 + 2
            };
            let whole = (f[ip + 9] == 6 && l4 + 18 <= f.len()) || (f[ip + 9] == 17 && l4 + 8
                <= f.len()) || (f[ip + 9] == 1 && l4 + 8 <= f.len());
            &&& g.len() == f.len()
            &&& bytes::at4(g, at) == addr
            &&& whole && port is Some ==> g[port_at] * 256 + g[port_at + 1] == port->Some_0
            &&& forall|i: int|
                0 <= i < f.len() && !(at <= i < at + 4) && !(ip + 10 <= i < ip + 12) && !(whole
                    && port is Some && port_at <= i < port_at + 2) && !(whole && sum_at <= i
                    < sum_at + 2) ==> #[trigger] g[i] == f[i]
        }),
{
    let g = translated(f, ip, l4, end, addr, port);
    let at = addr_at(ip, end);
    assert(bytes::at4(g, at) =~= addr);
}

/// Ports stay where none is given.
pub proof fn law_translation_without_a_port_keeps_both(
    f: Seq<u8>,
    ip: int,
    end: End,
    addr: [u8; 4],
)
    requires
        0 <= ip,
        ip + 20 <= f.len(),
        parse::header_len(f, ip) >= 20,
    ensures
        parse::ports_of(translated(f, ip, ip + parse::header_len(f, ip), end, addr, None), ip)
            == parse::ports_of(f, ip),
{
    let l4 = ip + parse::header_len(f, ip);
    law_translated_bytes(f, ip, l4, end, addr, None);
    let g = translated(f, ip, l4, end, addr, None);
    assert(g[ip] == f[ip] && g[ip + 9] == f[ip + 9]);
}

/// Checksums are updated where there is one to update: a UDP checksum of zero (the sender computed none)
/// stays zero, and so does every byte of an ICMP message that gets no new identifier. A packet of another
/// protocol, or whose transport header is cut off, changes in its IPv4 header alone.
pub proof fn law_absent_checksums_stay_absent(
    f: Seq<u8>,
    ip: int,
    l4: int,
    end: End,
    addr: [u8; 4],
    port: Option<u16>,
)
    requires
        0 <= ip,
        ip + 20 <= f.len(),
        ip + 20 <= l4,
    ensures
        ({
            let g = translated(f, ip, l4, end, addr, port);
            &&& f[ip + 9] == 17 && l4 + 8 <= f.len() && f[l4 + 6] == 0 && f[l4 + 7] == 0 ==> g[l4
                + 6] == 0 && g[l4 + 7] == 0
            &&& f[ip + 9] == 1 && port is None ==> forall|i: int|
                l4 <= i < f.len() ==> #[trigger] g[i] == f[i]
            &&& f[ip + 9] != 1 && f[ip + 9] != 6 && f[ip + 9] != 17 ==> forall|i: int|
                l4 <= i < f.len() ==> #[trigger] g[i] == f[i]
        }),
{
}

} // verus!
