//! What becomes of flows on their way: laws that follow packets through the guest-facing and the
//! underlay-facing program, from what the control plane set to what leaves, arrives or is remembered.

use vstd::prelude::*;

use crate::bytes;
use crate::conntrack;
use crate::conntrack_gc;
use crate::control;
use crate::egress;
use crate::firewall;
use crate::frame::FrameView;
use crate::ingress;
use crate::lb;
use crate::network_nat;
use crate::parse;
use crate::programming;
use crate::tables;
use crate::tables::TablesView;
use crate::types::{
    CtKey, NatKey, Port, Route, VipKey, FW_DIR_EGRESS, FW_DIR_INGRESS, TCP_ESTABLISHED,
    TCP_NEW_SYN, TCP_NEW_SYNACK,
};
use crate::verdict::Verdict;

verus! {

/// A guest sends from the VIP it was given: once a VIP was set for a guest, every packet of the guest
/// that gets out leaves with the VIP for its source, whatever its nexthop, and still goes where it
/// went. Here the packet goes to no VIP, and network NAT does not apply.
pub proof fn law_guest_sends_from_its_vip(
    before: TablesView,
    guest: [u8; 4],
    vip: [u8; 4],
    f: FrameView,
    port: Port,
    ifindex: u32,
    now: u64,
    route: Route,
)
    requires
        f.bytes.len() >= 34,
        f.bytes[14] % 16 >= 5,
        bytes::at4(f.bytes, 26) == guest,
        ({
            let vni = port.meta.vni;
            let dst = bytes::at4(f.bytes, 30);
            let t = before.after_all(control::vip_writes(vni, guest, vip));
            &&& egress::gets_out(f.bytes, t, vni, ifindex)
            &&& dst != guest && dst != vip
            &&& !before.vips.contains_key(VipKey { vni, ipv4: dst })
            &&& tables::longest4(t.routes, vni, dst, 32) == Some(route)
            &&& route.is_external ==> !t.nat.contains_key(NatKey { vni, ipv4: vip })
        }),
    ensures
        ({
            let vni = port.meta.vni;
            let t = before.after_all(control::vip_writes(vni, guest, vip));
            let out = egress::guest_tx4(f, t, port, ifindex, now).frame.bytes;
            let by = out.len() - f.bytes.len();
            &&& by == 0 || by == 40
            &&& bytes::at4(out, by + 26) == vip
            &&& bytes::at4(out, by + 30) == bytes::at4(f.bytes, 30)
        }),
{
    let vni = port.meta.vni;
    let dst = bytes::at4(f.bytes, 30);
    let t = before.after_all(control::vip_writes(vni, guest, vip));
    programming::law_vip_comes_and_goes(before, vni, guest, vip);
    programming::law_vip_leaves_others_alone(before, vni, guest, vip, dst);
    assert(egress::stands_for(t, vni, guest) == vip);
    assert(egress::stands_for(t, vni, dst) == dst);
    egress::law_vip_is_the_source_that_leaves(f, t, port, ifindex, now, route);
}

/// A guest is reached under the VIP it was given: once a VIP was set for a guest, a packet from the
/// underlay to the VIP, at the guest's underlay address, is handed to the guest's tap with the guest's
/// own address for its destination.
pub proof fn law_guest_is_reached_under_its_vip(
    before: TablesView,
    vni: u32,
    guest: [u8; 4],
    vip: [u8; 4],
    f: FrameView,
    now: u64,
)
    requires
        f.fits(),
        f.bytes.len() >= 74,
        f.bytes[12] == 0x86 && f.bytes[13] == 0xdd && f.bytes[20] == 4,
        f.bytes[54] % 16 >= 5,
        bytes::at4(f.bytes, 70) == vip,
        ({
            let t = before.after_all(control::vip_writes(vni, guest, vip));
            let owner = t.underlay[bytes::at16(f.bytes, 38)];
            &&& t.underlay.contains_key(bytes::at16(f.bytes, 38))
            &&& owner.vni == vni
            &&& ingress::is_for_the_owner(f.bytes, t, owner)
            &&& conntrack::key_of(f.bytes, 54, vni) matches Some(key) ==> {
                if t.conntrack.contains_key(key) {
                    t.conntrack[key].flags / 2 % 2 == 0
                } else {
                    !firewall::denied(f.bytes, 54, t, owner.tap_ifindex, FW_DIR_INGRESS)
                }
            }
        }),
    ensures
        ({
            let t = before.after_all(control::vip_writes(vni, guest, vip));
            let owner = t.underlay[bytes::at16(f.bytes, 38)];
            let o = ingress::uplink_rx4(f, t, now);
            &&& o.verdict == Ok::<Verdict, ()>(Verdict::Redirect(owner.tap_ifindex))
            &&& bytes::at6(o.frame.bytes, 0) == owner.guest_mac
            &&& bytes::at4(o.frame.bytes, 30) == guest
            &&& bytes::at4(o.frame.bytes, 26) == bytes::at4(f.bytes, 66)
        }),
{
    let t = before.after_all(control::vip_writes(vni, guest, vip));
    programming::law_vip_comes_and_goes(before, vni, guest, vip);
    assert(t.vips.contains_key(VipKey { vni, ipv4: vip }));
    ingress::law_packet_to_a_vip_reaches_the_guest(f, t, now);
}

/// The key of the TCP segment in the frame `f`, whose IPv4 header stands at `ip`.
pub open spec fn segment_key(f: Seq<u8>, ip: int, vni: u32) -> CtKey {
    let l4 = ip + 4 * (f[ip] % 16);
    CtKey {
        vni,
        src_ip: bytes::at4(f, ip + 12),
        dst_ip: bytes::at4(f, ip + 16),
        src_port: (f[l4] * 256 + f[l4 + 1]) as u16,
        dst_port: (f[l4 + 2] * 256 + f[l4 + 3]) as u16,
        proto: 6,
    }
}

/// Whether the frame `f` holds, at `ip`, a TCP segment as far as its flags.
pub open spec fn is_segment(f: Seq<u8>, ip: int) -> bool {
    &&& f.len() >= ip + 20
    &&& f[ip] % 16 >= 5
    &&& f[ip + 9] == 6
    &&& ip + 4 * (f[ip] % 16) + 14 <= f.len()
}

/// The flags of the TCP segment in the frame `f`, whose IPv4 header stands at `ip`.
pub open spec fn segment_flags(f: Seq<u8>, ip: int) -> u8 {
    f[ip + 4 * (f[ip] % 16) + 13]
}

/// A guest's handshake establishes its flow: after a SYN from the guest, the SYN and ACK that answers it
/// from the underlay, and the guest's ACK, the entry of the guest's direction is established and was
/// seen when the ACK was. It survives a sweep a minute later, and every sweep up to one day later. The
/// flow is new, the rules let it out, and nothing translates it.
pub proof fn law_handshake_establishes_the_flow(
    syn: FrameView,
    synack: FrameView,
    ack: FrameView,
    t: TablesView,
    port: Port,
    ifindex: u32,
    route: Route,
    first: u64,
    second: u64,
    third: u64,
    sweep: u64,
)
    requires
        is_segment(syn.bytes, 14),
        is_segment(ack.bytes, 14),
        is_segment(synack.bytes, 54),
        segment_flags(syn.bytes, 14) == 2,
        segment_flags(synack.bytes, 54) == 18,
        segment_flags(ack.bytes, 14) == 16,
        ({
            let vni = port.meta.vni;
            let key = segment_key(syn.bytes, 14, vni);
            let owner = t.underlay[bytes::at16(synack.bytes, 38)];
            &&& segment_key(ack.bytes, 14, vni) == key
            &&& segment_key(synack.bytes, 54, vni) == conntrack::inverted(key)
            &&& !t.conntrack.contains_key(key)
            &&& !t.conntrack.contains_key(conntrack::inverted(key))
            &&& !firewall::denied(syn.bytes, 14, t, ifindex, FW_DIR_EGRESS)
            &&& !t.vips.contains_key(VipKey { vni, ipv4: key.src_ip })
            &&& !t.vips.contains_key(VipKey { vni, ipv4: key.dst_ip })
            &&& tables::longest4(t.routes, vni, key.dst_ip, 32) == Some(route)
            &&& route.is_external ==> !t.nat.contains_key(NatKey { vni, ipv4: key.src_ip })
            &&& synack.bytes[12] == 0x86 && synack.bytes[13] == 0xdd && synack.bytes[20] == 4
            &&& t.underlay.contains_key(bytes::at16(synack.bytes, 38))
            &&& owner.vni == vni
            &&& ingress::is_for_the_owner(synack.bytes, t, owner)
        }),
        third <= sweep <= third + 86_400_000_000_000,
    ensures
        ({
            let key = segment_key(syn.bytes, 14, port.meta.vni);
            let a = egress::guest_tx4(syn, t, port, ifindex, first).tables;
            let b = ingress::uplink_rx4(synack, a, second).tables;
            let c = egress::guest_tx4(ack, b, port, ifindex, third).tables;
            &&& a.conntrack.contains_key(key) && a.conntrack[key].tcp_state == TCP_NEW_SYN
            &&& b.conntrack.contains_key(conntrack::inverted(key)) && b.conntrack[
                conntrack::inverted(key)
            ].tcp_state == TCP_NEW_SYNACK
            &&& c.conntrack.contains_key(key) && c.conntrack[key].tcp_state == TCP_ESTABLISHED
            &&& c.conntrack[key].last_seen == third
            &&& conntrack_gc::swept(c.conntrack, sweep).contains_key(key)
        }),
{
    let vni = port.meta.vni;
    let key = segment_key(syn.bytes, 14, vni);
    let back = conntrack::inverted(key);
    let a = egress::guest_tx4(syn, t, port, ifindex, first).tables;
    let b = ingress::uplink_rx4(synack, a, second).tables;
    let c = egress::guest_tx4(ack, b, port, ifindex, third).tables;
    egress::law_first_packet_enters_its_flow(syn, t, port, ifindex, first, route, key);
    let owner = t.underlay[bytes::at16(synack.bytes, 38)];
    assert(a == TablesView { conntrack: a.conntrack, meter: a.meter, ..t });
    assert(lb::deliver_to(synack.bytes, 54, a, vni) == lb::deliver_to(synack.bytes, 54, t, vni));
    assert(lb::forward_to(synack.bytes, 54, a, vni) == lb::forward_to(synack.bytes, 54, t, vni));
    assert(network_nat::returns_to(synack.bytes, 54, a, vni) == network_nat::returns_to(
        synack.bytes,
        54,
        t,
        vni,
    ));
    lemma_same_neighbor(synack.bytes, t, a, vni);
    assert(ingress::is_for_the_owner(synack.bytes, a, owner));
    ingress::law_segments_advance_a_known_flow(synack, a, second);
    let e = b.conntrack[key];
    assert(b.conntrack.contains_key(key));
    assert(e.tcp_state == TCP_NEW_SYN || e.tcp_state == TCP_NEW_SYNACK);
    egress::law_segments_advance_a_known_flow(ack, b, port, ifindex, third);
    conntrack_gc::law_entries_live_for_their_timeout(c.conntrack, key, sweep);
}

/// The neighbor of a packet depends on the neighbor table alone.
proof fn lemma_same_neighbor(f: Seq<u8>, t: TablesView, u: TablesView, vni: u32)
    requires
        t.neigh_nat == u.neigh_nat,
        t.neigh_nat_count == u.neigh_nat_count,
    ensures
        network_nat::neighbor_of(f, 54, t, vni) == network_nat::neighbor_of(f, 54, u, vni),
{
    if let Some((_, _, port)) = parse::ports_of(f, 54) {
        lemma_same_neighbor_from(t, u, vni, bytes::at4(f, 70), port, 0);
    }
}

proof fn lemma_same_neighbor_from(
    t: TablesView,
    u: TablesView,
    vni: u32,
    nat_ip: [u8; 4],
    port: u16,
    i: nat,
)
    requires
        t.neigh_nat == u.neigh_nat,
        t.neigh_nat_count == u.neigh_nat_count,
    ensures
        network_nat::neighbor_from(t, vni, nat_ip, port, i) == network_nat::neighbor_from(
            u,
            vni,
            nat_ip,
            port,
            i,
        ),
    decreases t.neigh_nat_count - i,
{
    if i < t.neigh_nat_count {
        lemma_same_neighbor_from(t, u, vni, nat_ip, port, i + 1);
    }
}

/// A handshake from outside establishes its flow too: after a SYN from the underlay, the guest's SYN and
/// ACK, and the ACK from the underlay, the entry of the direction that sent the ACK is established and
/// survives every sweep up to one day later. The flow is new, the rules let it in, and nothing
/// translates it.
pub proof fn law_handshake_from_outside_establishes_the_flow(
    syn: FrameView,
    synack: FrameView,
    ack: FrameView,
    t: TablesView,
    port: Port,
    ifindex: u32,
    first: u64,
    second: u64,
    third: u64,
    sweep: u64,
)
    requires
        is_segment(syn.bytes, 54),
        is_segment(ack.bytes, 54),
        is_segment(synack.bytes, 14),
        segment_flags(syn.bytes, 54) == 2,
        segment_flags(synack.bytes, 14) == 18,
        segment_flags(ack.bytes, 54) == 16,
        bytes::at16(ack.bytes, 38) == bytes::at16(syn.bytes, 38),
        syn.bytes[12] == 0x86 && syn.bytes[13] == 0xdd && syn.bytes[20] == 4,
        ack.bytes[12] == 0x86 && ack.bytes[13] == 0xdd && ack.bytes[20] == 4,
        ({
            let vni = port.meta.vni;
            let key = segment_key(syn.bytes, 54, vni);
            let owner = t.underlay[bytes::at16(syn.bytes, 38)];
            let a = ingress::uplink_rx4(syn, t, first).tables;
            let b = egress::guest_tx4(synack, a, port, ifindex, second).tables;
            &&& segment_key(ack.bytes, 54, vni) == key
            &&& segment_key(synack.bytes, 14, vni) == conntrack::inverted(key)
            &&& !t.conntrack.contains_key(key)
            &&& !t.conntrack.contains_key(conntrack::inverted(key))
            &&& t.underlay.contains_key(bytes::at16(syn.bytes, 38))
            &&& owner.vni == vni
            &&& ingress::is_for_the_owner(syn.bytes, t, owner)
            &&& !firewall::denied(syn.bytes, 54, t, owner.tap_ifindex, FW_DIR_INGRESS)
            &&& b.underlay == t.underlay
            &&& ingress::is_for_the_owner(ack.bytes, b, owner)
        }),
        third <= sweep <= third + 86_400_000_000_000,
    ensures
        ({
            let key = segment_key(syn.bytes, 54, port.meta.vni);
            let a = ingress::uplink_rx4(syn, t, first).tables;
            let b = egress::guest_tx4(synack, a, port, ifindex, second).tables;
            let c = ingress::uplink_rx4(ack, b, third).tables;
            &&& c.conntrack.contains_key(key) && c.conntrack[key].tcp_state == TCP_ESTABLISHED
            &&& c.conntrack[key].last_seen == third
            &&& conntrack_gc::swept(c.conntrack, sweep).contains_key(key)
        }),
{
    let vni = port.meta.vni;
    let key = segment_key(syn.bytes, 54, vni);
    let a = ingress::uplink_rx4(syn, t, first).tables;
    let b = egress::guest_tx4(synack, a, port, ifindex, second).tables;
    let c = ingress::uplink_rx4(ack, b, third).tables;
    ingress::law_first_packet_enters_its_flow(syn, t, first, key);
    egress::law_segments_advance_a_known_flow(synack, a, port, ifindex, second);
    conntrack::law_key_is_the_five_tuple(synack.bytes, 14, vni);
    if conntrack::inverted(key) != key {
        egress::law_other_flows_stay(synack, a, port, ifindex, second, key);
    }
    assert(b.conntrack.contains_key(key));
    let e = b.conntrack[key];
    assert(e.tcp_state == TCP_NEW_SYN || e.tcp_state == TCP_NEW_SYNACK);
    ingress::law_segments_advance_a_known_flow(ack, b, third);
    conntrack_gc::law_entries_live_for_their_timeout(c.conntrack, key, sweep);
}

} // verus!
