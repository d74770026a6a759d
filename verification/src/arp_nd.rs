//! In-datapath ARP and IPv6 Neighbor Discovery responders.

use vstd::prelude::*;

use crate::bytes;
use crate::bytes::{eq16, eq4, read16, read2, read4, read6, write1, write16, write2, write4, write6};
use crate::csum;
use crate::csum::{address_sum, csum16};
use crate::parse;
use crate::parse::{ETH_LEN, ETH_P_ARP, ETH_P_IPV6, IPPROTO_ICMPV6};
use crate::types::Port;
use crate::verdict::Verdict;

verus! {

/// Virtual gateway MAC: what the responders answer with, and the inner Ethernet source of everything
/// delivered to a guest.
pub const GW_MAC: [u8; 6] = [0x02, 0x00, 0x00, 0x00, 0x00, 0x01];

/// Bytes of an ARP packet for Ethernet and IPv4.
pub const ARP_LEN: usize = 28;

/// Bytes of a frame with a Neighbor Solicitation or Advertisement.
pub const ND_FRAME: usize = 86;

/// Neighbor Solicitation.
pub const ND_NS: u8 = 135;

/// Neighbor Advertisement.
pub const ND_NA: u8 = 136;

/// Whether the frame is an ARP request for `gateway`.
pub open spec fn asks_arp(f: Seq<u8>, gateway: [u8; 4]) -> bool {
    &&& ETH_LEN + ARP_LEN <= f.len()
    &&& parse::ethertype(f) == ETH_P_ARP
    &&& bytes::be16(f, 20) == 1
    &&& bytes::at4(f, 38) == gateway
}

/// The ARP reply that `gateway` is at `mac`: to the requester, whose hardware and protocol address
/// it names as the target's.
pub open spec fn arp_reply(f: Seq<u8>, gateway: [u8; 4], mac: [u8; 6]) -> Seq<u8> {
    let sender = bytes::at6(f, 22);
    bytes::put(
        bytes::put(f, 0, sender@ + mac@),
        20,
        bytes::be2(2) + mac@ + gateway@ + sender@ + bytes::at4(f, 28)@,
    )
}

/// If the frame is an ARP request for `gateway`, turn it in place into the reply that it is at
/// `mac`; else leave it as it is.
pub fn try_write_arp_reply(f: &mut Vec<u8>, gateway: &[u8; 4], mac: &[u8; 6]) -> (done: bool)
    ensures
        done == asks_arp(old(f)@, *gateway),
        final(f)@ == (if done {
            arp_reply(old(f)@, *gateway, *mac)
        } else {
            old(f)@
        }),
{
    if f.len() < ETH_LEN + ARP_LEN {
        return false;
    }
    if read2(f, 12) != ETH_P_ARP || read2(f, 20) != 1 {
        return false;
    }
    let tpa = read4(f, 38);
    if !eq4(&tpa, gateway) {
        return false;
    }
    let sender = read6(f, 22);
    let spa = read4(f, 28);
    write6(f, 0, &sender);
    write6(f, 6, mac);
    write2(f, 20, 2);
    write6(f, 22, mac);
    write4(f, 28, gateway);
    write6(f, 32, &sender);
    write4(f, 38, &spa);
    assert(f@ =~= arp_reply(old(f)@, *gateway, *mac));
    true
}

/// Answer an ARP request for the port's gateway: it is at the virtual gateway MAC.
pub fn try_arp_reply(f: &mut Vec<u8>, port: &Port) -> (r: Option<Verdict>)
    ensures
        if asks_arp(old(f)@, port.meta.gateway_ipv4) {
            &&& r == Some(Verdict::Reflect)
            &&& final(f)@ == arp_reply(old(f)@, port.meta.gateway_ipv4, GW_MAC)
        } else {
            &&& r is None
            &&& final(f)@ == old(f)@
        },
{
    let gw: [u8; 6] = GW_MAC;
    if try_write_arp_reply(f, &port.meta.gateway_ipv4, &gw) {
        Some(Verdict::Reflect)
    } else {
        None
    }
}

/// Whether the frame is a Neighbor Solicitation for `gateway`.
pub open spec fn asks_nd(f: Seq<u8>, gateway: [u8; 16]) -> bool {
    &&& ND_FRAME <= f.len()
    &&& parse::ethertype(f) == ETH_P_IPV6
    &&& f[20] == IPPROTO_ICMPV6
    &&& f[54] == ND_NS
    &&& bytes::at16(f, 62) == gateway
}

/// The Neighbor Advertisement for a solicitation, its checksum field zero: from the gateway to the
/// solicitation's IPv6 source, on the Ethernet address that the solicitation was sent to, solicited
/// and overriding, with `mac` as the target's address.
pub open spec fn nd_unsummed(f: Seq<u8>, gateway: [u8; 16], mac: [u8; 6]) -> Seq<u8> {
    let a = bytes::put(bytes::put(f, 6, mac@), 18, bytes::be2(32));
    let b = bytes::put(
        a,
        21,
        seq![255u8] + gateway@ + bytes::at16(f, 22)@ + seq![ND_NA, 0, 0, 0, 0x60, 0, 0, 0],
    );
    bytes::put(b, 78, seq![2u8, 1] + mac@)
}

/// The sum of the ICMPv6 pseudo-header of the advertisement.
pub open spec fn nd_pseudo(f: Seq<u8>, gateway: [u8; 16]) -> int {
    csum::word_sum(gateway@, 0, 16) + csum::word_sum(bytes::at16(f, 22)@, 0, 16) + 32
        + IPPROTO_ICMPV6
}

/// The whole advertisement.
pub open spec fn nd_reply(f: Seq<u8>, gateway: [u8; 16], mac: [u8; 6]) -> Seq<u8> {
    let u = nd_unsummed(f, gateway, mac);
    bytes::put(
        u,
        56,
        bytes::be2(csum::checksum(nd_pseudo(f, gateway) + csum::word_sum(u, 54, 86))),
    )
}

/// If the frame is a Neighbor Solicitation for `gateway`, turn it in place into the advertisement
/// that it is at `mac`; else leave it as it is.
pub fn try_write_nd_reply(f: &mut Vec<u8>, gateway: &[u8; 16], mac: &[u8; 6]) -> (done: bool)
    ensures
        done == asks_nd(old(f)@, *gateway),
        final(f)@ == (if done {
            nd_reply(old(f)@, *gateway, *mac)
        } else {
            old(f)@
        }),
{
    if f.len() < ND_FRAME {
        return false;
    }
    if read2(f, 12) != ETH_P_IPV6 || f[20] != IPPROTO_ICMPV6 || f[54] != ND_NS {
        return false;
    }
    let target = read16(f, 62);
    if !eq16(&target, gateway) {
        return false;
    }
    let req_src = read16(f, 22);
    write6(f, 6, mac);
    write2(f, 18, 32);
    write1(f, 21, 255);
    write16(f, 22, gateway);
    write16(f, 38, &req_src);
    write4(f, 54, &[ND_NA, 0, 0, 0]);
    write4(f, 58, &[0x60u8, 0, 0, 0]);
    write1(f, 78, 2);
    write1(f, 79, 1);
    write6(f, 80, mac);
    assert(f@ =~= nd_unsummed(old(f)@, *gateway, *mac));
    let pseudo: u32 = address_sum(gateway) + address_sum(&req_src) + 32 + (IPPROTO_ICMPV6 as u32);
    let c: u16 = csum16(pseudo, f, 54, 32);
    write2(f, 56, c);
    true
}

/// Answer a Neighbor Solicitation for the port's IPv6 gateway: as with ARP, it is at the virtual
/// gateway MAC.
pub fn try_nd_reply(f: &mut Vec<u8>, port: &Port) -> (r: Option<Verdict>)
    ensures
        if asks_nd(old(f)@, port.gateway_ipv6) {
            &&& r == Some(Verdict::Reflect)
            &&& final(f)@ == nd_reply(old(f)@, port.gateway_ipv6, GW_MAC)
        } else {
            &&& r is None
            &&& final(f)@ == old(f)@
        },
{
    let gw: [u8; 6] = GW_MAC;
    if try_write_nd_reply(f, &port.gateway_ipv6, &gw) {
        Some(Verdict::Reflect)
    } else {
        None
    }
}

/// The checksum of every Neighbor Advertisement verifies, pseudo-header included.
pub proof fn law_nd_checksum_verifies(f: Seq<u8>, gateway: [u8; 16], mac: [u8; 6])
    requires
        ND_FRAME <= f.len(),
    ensures
        csum::verifies(nd_pseudo(f, gateway) + csum::word_sum(nd_reply(f, gateway, mac), 54, 86)),
{
    let u = nd_unsummed(f, gateway, mac);
    let n = nd_pseudo(f, gateway) + csum::word_sum(u, 54, 86);
    assert(u[56] == 0 && u[57] == 0);
    csum::lemma_word_sum_put(u, 56, csum::checksum(n), 54, 86);
    csum::lemma_word_sum_nonneg(gateway@, 0, 16);
    csum::lemma_word_sum_nonneg(bytes::at16(f, 22)@, 0, 16);
    csum::lemma_word_sum_nonneg(u, 54, 86);
    csum::law_checksum_verifies(n);
}

/// An ARP reply is no request: the responder never answers its own answers.
pub proof fn law_arp_reply_is_final(f: Seq<u8>, gateway: [u8; 4], mac: [u8; 6], other: [u8; 4])
    requires
        asks_arp(f, gateway),
    ensures
        !asks_arp(arp_reply(f, gateway, mac), other),
{
    let g = arp_reply(f, gateway, mac);
    assert(g[20] == 0 && g[21] == 2);
}

/// A request for the gateway's address is answered, by offset: an ARP frame (0x0806) of at least 42
/// bytes whose operation is 1 and whose target is the gateway becomes a reply (operation 2) that the
/// gateway is at `mac`, to the sender, whose hardware and protocol addresses are the target's; the
/// hardware and protocol kinds stay.
pub proof fn law_arp_reply_tells_the_gateways_mac(f: Seq<u8>, gateway: [u8; 4], mac: [u8; 6])
    requires
        f.len() >= 42,
        f[12] == 8 && f[13] == 6,
        f[20] == 0 && f[21] == 1,
        bytes::at4(f, 38) == gateway,
    ensures
        asks_arp(f, gateway),
        ({
            let g = arp_reply(f, gateway, mac);
            &&& g.len() == f.len()
            &&& bytes::at6(g, 0) == bytes::at6(f, 22)
            &&& bytes::at6(g, 6) == mac
            &&& g[20] == 0 && g[21] == 2
            &&& bytes::at6(g, 22) == mac
            &&& bytes::at4(g, 28) == gateway
            &&& bytes::at6(g, 32) == bytes::at6(f, 22)
            &&& bytes::at4(g, 38) == bytes::at4(f, 28)
            &&& forall|i: int| 12 <= i < 20 || 42 <= i < f.len() ==> #[trigger] g[i] == f[i]
        }),
{
    let g = arp_reply(f, gateway, mac);
    assert(bytes::at6(g, 0) =~= bytes::at6(f, 22));
    assert(bytes::at6(g, 6) =~= mac);
    assert(bytes::at6(g, 22) =~= mac);
    assert(bytes::at4(g, 28) =~= gateway);
    assert(bytes::at6(g, 32) =~= bytes::at6(f, 22));
    assert(bytes::at4(g, 38) =~= bytes::at4(f, 28));
}

/// Only requests for the gateway are answered: a frame that is no ARP, is no request (operation 1), or
/// asks for another address is left alone.
pub proof fn law_other_arp_is_not_answered(f: Seq<u8>, gateway: [u8; 4])
    requires
        f.len() >= 42,
        f[12] != 8 || f[13] != 6 || f[20] != 0 || f[21] != 1 || bytes::at4(f, 38) != gateway,
    ensures
        !asks_arp(f, gateway),
{
    assert(bytes::be16(f, 12) == f[12] * 256 + f[13]);
    assert(bytes::be16(f, 20) == f[20] * 256 + f[21]);
}

/// A solicitation for the gateway's address is answered, by offset: an IPv6 frame of at least 86 bytes
/// with ICMPv6 (58) in it, type 135 and the gateway for a target, becomes an advertisement: type 136,
/// code 0, solicited and overriding (0x60), with `mac` as the target's link-layer address (option 2, one
/// unit of eight bytes). The packet has a payload of 32 bytes and hop limit 255, and goes from the
/// gateway to the address that solicited; the target stays.
pub proof fn law_advertisement_tells_the_gateways_mac(f: Seq<u8>, gateway: [u8; 16], mac: [u8; 6])
    requires
        f.len() >= 86,
        f[12] == 0x86 && f[13] == 0xdd,
        f[20] == 58,
        f[54] == 135,
        bytes::at16(f, 62) == gateway,
    ensures
        asks_nd(f, gateway),
        ({
            let g = nd_reply(f, gateway, mac);
            &&& g.len() == f.len()
            &&& bytes::at6(g, 6) == mac
            &&& g[18] == 0 && g[19] == 32
            &&& g[20] == 58
            &&& g[21] == 255
            &&& bytes::at16(g, 22) == gateway
            &&& bytes::at16(g, 38) == bytes::at16(f, 22)
            &&& g[54] == 136 && g[55] == 0
            &&& g[58] == 0x60 && g[59] == 0 && g[60] == 0 && g[61] == 0
            &&& bytes::at16(g, 62) == gateway
            &&& g[78] == 2 && g[79] == 1
            &&& bytes::at6(g, 80) == mac
            &&& forall|i: int|
                0 <= i < 6 || 12 <= i < 18 || 86 <= i < f.len() ==> #[trigger] g[i] == f[i]
        }),
{
    let g = nd_reply(f, gateway, mac);
    assert(bytes::at6(g, 6) =~= mac);
    assert(bytes::at16(g, 22) =~= gateway);
    assert(bytes::at16(g, 38) =~= bytes::at16(f, 22));
    assert(bytes::at16(g, 62) =~= bytes::at16(f, 62));
    assert(bytes::at6(g, 80) =~= mac);
}

/// Only solicitations for the gateway are answered: a frame that is no IPv6, holds no ICMPv6, is of
/// another type, or solicits another address is left alone.
pub proof fn law_other_nd_is_not_answered(f: Seq<u8>, gateway: [u8; 16])
    requires
        f.len() >= 86,
        f[12] != 0x86 || f[13] != 0xdd || f[20] != 58 || f[54] != 135 || bytes::at16(f, 62)
            != gateway,
    ensures
        !asks_nd(f, gateway),
{
    assert(bytes::be16(f, 12) == f[12] * 256 + f[13]);
}

/// What the advertisement's checksum covers is what a receiver sums: the addresses of its own IPv6
/// header, its length of 32, the protocol 58, and its own bytes 54 to 85.
pub proof fn law_advertisement_verifies_at_the_guest(
    f: Seq<u8>,
    gateway: [u8; 16],
    mac: [u8; 6],
)
    requires
        f.len() >= 86,
    ensures
        ({
            let g = nd_reply(f, gateway, mac);
            csum::verifies(
                csum::word_sum(g, 22, 38) + csum::word_sum(g, 38, 54) + 32 + 58 + csum::word_sum(
                    g,
                    54,
                    86,
                ),
            )
        }),
{
    let g = nd_reply(f, gateway, mac);
    law_nd_checksum_verifies(f, gateway, mac);
    assert forall|i: int| 22 <= i < 38 implies #[trigger] g[i] == gateway@[i - 22] by {}
    assert forall|i: int| 38 <= i < 54 implies #[trigger] g[i] == bytes::at16(f, 22)@[i - 38] by {}
    csum::lemma_word_sum_same(g, gateway@, 22, 38, -22);
    csum::lemma_word_sum_same(g, bytes::at16(f, 22)@, 38, 54, -38);
}

} // verus!
