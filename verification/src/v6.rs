//! The IPv6 overlay: inner IPv6 packets, routed and delivered like inner IPv4 ones but without
//! translation or firewall.

use vstd::prelude::*;

use crate::bytes;
use crate::bytes::read16;
use crate::encap;
use crate::encap::{decap, forward};
use crate::frame::{Frame, FrameView};
use crate::parse::{ETH_LEN, ETH_P_IPV6, IPPROTO_IPV6, IPV6_LEN};
use crate::table::Addr6;
use crate::tables;
use crate::tables::{Tables, TablesView};
use crate::types::{Port, Route};
use crate::verdict::Verdict;

verus! {

/// What becomes of an IPv6 frame from the guest behind `port`: a truncated one is passed on, one
/// without a route is an error, and any other is forwarded.
pub open spec fn guest_tx6(f: FrameView, t: TablesView, port: Port) -> (
    Result<Verdict, ()>,
    FrameView,
) {
    if f.bytes.len() < ETH_LEN + IPV6_LEN {
        (Ok(Verdict::Pass), f)
    } else {
        match tables::longest6(t.routes6, port.meta.vni, bytes::at16(f.bytes, 38), 128) {
            Some(route) => encap::forwarded(f, t, port.underlay_ipv6, route.value, IPPROTO_IPV6),
            None => (Err(()), f),
        }
    }
}

/// Egress for an inner IPv6 frame: route its destination and forward it.
pub fn v6_guest_tx(frame: &mut Frame, tables: &Tables, port: &Port) -> (r: Result<Verdict, ()>)
    requires
        old(frame)@.fits(),
    ensures
        final(frame)@.fits(),
        (r, final(frame)@) == guest_tx6(old(frame)@, tables@, *port),
{
    if frame.bytes.len() < ETH_LEN + IPV6_LEN {
        return Ok(Verdict::Pass);
    }
    let dst = read16(&frame.bytes, 38);
    match tables.route6(port.meta.vni, &dst) {
        Some(route) => forward(frame, tables, &port.underlay_ipv6, &route, IPPROTO_IPV6),
        None => Err(()),
    }
}

/// What becomes of a frame from the underlay that holds an IPv6 packet: the owner of the outer
/// destination gets it without the outer headers; a truncated frame, and one to an unknown
/// destination, is passed on.
pub open spec fn uplink_rx6(f: FrameView, t: TablesView) -> (Result<Verdict, ()>, FrameView) {
    let dst = bytes::at16(f.bytes, 38);
    if f.bytes.len() < ETH_LEN + IPV6_LEN + IPV6_LEN || !t.underlay.contains_key(dst) {
        (Ok(Verdict::Pass), f)
    } else {
        (
            Ok(Verdict::Redirect(t.underlay[dst].tap_ifindex)),
            encap::decapsulated(f, t.underlay[dst].guest_mac, ETH_P_IPV6),
        )
    }
}

/// Ingress for an inner IPv6 frame (outer next header 41): deliver it by the outer destination.
pub fn v6_uplink_rx(frame: &mut Frame, tables: &Tables) -> (r: Result<Verdict, ()>)
    requires
        old(frame)@.fits(),
    ensures
        final(frame)@.fits(),
        (r, final(frame)@) == uplink_rx6(old(frame)@, tables@),
{
    if frame.bytes.len() < ETH_LEN + IPV6_LEN + IPV6_LEN {
        return Ok(Verdict::Pass);
    }
    let outer_dst = read16(&frame.bytes, 38);
    let u = match tables.underlay.get(&Addr6(outer_dst)) {
        Some(u) => u,
        None => {
            return Ok(Verdict::Pass);
        },
    };
    if !decap(frame, &u.guest_mac, ETH_P_IPV6) {
        return Err(());
    }
    Ok(Verdict::Redirect(u.tap_ifindex))
}

/// An IPv6 packet crosses the underlay unchanged: what one hypervisor sends for its guest to a
/// remote nexthop, the hypervisor that owns the nexthop's address hands to its own guest, with the
/// same IPv6 packet behind the Ethernet header.
pub proof fn law_v6_packet_crosses_the_underlay(
    f: FrameView,
    near: TablesView,
    far: TablesView,
    port: Port,
    dst_underlay: [u8; 16],
)
    requires
        f.fits(),
        f.bytes.len() >= ETH_LEN + IPV6_LEN,
        f.headroom >= IPV6_LEN,
        near.local is Some,
        near.underlay.contains_key(dst_underlay) ==> near.underlay[dst_underlay].tap_ifindex == 0,
        tables::longest6(near.routes6, port.meta.vni, bytes::at16(f.bytes, 38), 128) matches Some(
            route,
        ) && route.value.nexthop_ipv6 == dst_underlay,
        far.underlay.contains_key(dst_underlay),
    ensures
        ({
            let (sent, wire) = guest_tx6(f, near, port);
            let (got, out) = uplink_rx6(wire, far);
            &&& sent == Ok::<Verdict, ()>(
                Verdict::Redirect(near.local->Some_0.local.uplink_ifindex),
            )
            &&& got == Ok::<Verdict, ()>(
                Verdict::Redirect(far.underlay[dst_underlay].tap_ifindex),
            )
            &&& out.bytes.skip(ETH_LEN as int) == f.bytes.skip(ETH_LEN as int)
            &&& bytes::at6(out.bytes, 0) == far.underlay[dst_underlay].guest_mac
        }),
{
    let uplink = near.local->Some_0;
    let n = ((f.bytes.len() - ETH_LEN) % 65536) as u16;
    let wire = encap::encapsulated(f, uplink, port.underlay_ipv6, dst_underlay, n, IPPROTO_IPV6);
    let mac = far.underlay[dst_underlay].guest_mac;
    encap::law_decap_undoes_encap(
        f,
        uplink,
        port.underlay_ipv6,
        dst_underlay,
        n,
        IPPROTO_IPV6,
        mac,
        ETH_P_IPV6,
    );
    let out = encap::decapsulated(wire, mac, ETH_P_IPV6);
    assert(wire.bytes.len() == f.bytes.len() + IPV6_LEN);
    assert(out.bytes.skip(ETH_LEN as int) =~= f.bytes.skip(ETH_LEN as int));
    assert(bytes::at6(out.bytes, 0) =~= mac);
}

/// An inner IPv6 packet leaves for the nexthop of its destination's route, by offset: its destination,
/// bytes 38 to 53 of the frame, decides; where the nexthop is elsewhere, the frame goes through the
/// uplink with next header 41, from the port's underlay address to the nexthop's, and the packet as it
/// was.
pub proof fn law_v6_packet_leaves_for_its_nexthop(
    f: FrameView,
    t: TablesView,
    port: Port,
    route: Route,
)
    requires
        54 <= f.bytes.len() <= 65549,
        f.headroom >= 40,
        t.local is Some,
        tables::longest6(t.routes6, port.meta.vni, bytes::at16(f.bytes, 38), 128) == Some(route),
        t.underlay.contains_key(route.value.nexthop_ipv6) ==> t.underlay[
            route.value.nexthop_ipv6
        ].tap_ifindex == 0,
    ensures
        ({
            let (r, g) = guest_tx6(f, t, port);
            let b = g.bytes;
            let uplink = t.local->Some_0;
            &&& r == Ok::<Verdict, ()>(Verdict::Redirect(uplink.local.uplink_ifindex))
            &&& b.len() == f.bytes.len() + 40
            &&& bytes::at6(b, 0) == uplink.gateway_mac
            &&& bytes::at6(b, 6) == uplink.local.uplink_mac
            &&& b[12] == 0x86 && b[13] == 0xdd
            &&& b[14] == 0x60
            &&& b[18] * 256 + b[19] == f.bytes.len() - 14
            &&& b[20] == 41
            &&& b[21] == 64
            &&& bytes::at16(b, 22) == port.underlay_ipv6
            &&& bytes::at16(b, 38) == route.value.nexthop_ipv6
            &&& forall|i: int| 14 <= i < f.bytes.len() ==> b[i + 40] == #[trigger] f.bytes[i]
        }),
{
    encap::law_outer_headers_lead_to_the_nexthop(
        f,
        t,
        port.underlay_ipv6,
        route.value,
        IPPROTO_IPV6,
    );
    encap::law_forwarded_frame_holds_the_packet(
        f,
        t,
        port.underlay_ipv6,
        route.value,
        IPPROTO_IPV6,
    );
}

/// A guest of this host gets an inner IPv6 packet at once: at its tap, to its MAC, the packet as it was.
pub proof fn law_v6_neighbor_gets_the_packet(
    f: FrameView,
    t: TablesView,
    port: Port,
    route: Route,
)
    requires
        f.bytes.len() >= 54,
        tables::longest6(t.routes6, port.meta.vni, bytes::at16(f.bytes, 38), 128) == Some(route),
        t.underlay.contains_key(route.value.nexthop_ipv6),
        t.underlay[route.value.nexthop_ipv6].tap_ifindex != 0,
    ensures
        ({
            let (r, g) = guest_tx6(f, t, port);
            let owner = t.underlay[route.value.nexthop_ipv6];
            &&& r == Ok::<Verdict, ()>(Verdict::Redirect(owner.tap_ifindex))
            &&& bytes::at6(g.bytes, 0) == owner.guest_mac
            &&& bytes::at6(g.bytes, 6) == [2u8, 0, 0, 0, 0, 1]
            &&& g.bytes.len() == f.bytes.len()
            &&& forall|i: int| 12 <= i < f.bytes.len() ==> #[trigger] g.bytes[i] == f.bytes[i]
        }),
{
    encap::law_neighbor_gets_the_frame_from_the_gateway(
        f,
        t,
        port.underlay_ipv6,
        route.value,
        IPPROTO_IPV6,
    );
}

/// An inner IPv6 packet from the underlay goes to the owner of the outer destination, by offset: bytes 38
/// to 53 of the frame decide; the owner's guest gets the packet as it was, from the gateway, as IPv6.
/// A packet to no owner, or without a whole inner header, is passed on as it is.
pub proof fn law_v6_packet_goes_to_the_owner(f: FrameView, t: TablesView)
    requires
        f.fits(),
        f.bytes.len() >= 54,
    ensures
        ({
            let dst = bytes::at16(f.bytes, 38);
            let (r, g) = uplink_rx6(f, t);
            &&& f.bytes.len() >= 94 && t.underlay.contains_key(dst) ==> {
                &&& r == Ok::<Verdict, ()>(Verdict::Redirect(t.underlay[dst].tap_ifindex))
                &&& g.bytes.len() == f.bytes.len() - 40
                &&& bytes::at6(g.bytes, 0) == t.underlay[dst].guest_mac
                &&& bytes::at6(g.bytes, 6) == [2u8, 0, 0, 0, 0, 1]
                &&& g.bytes[12] == 0x86 && g.bytes[13] == 0xdd
                &&& forall|i: int|
                    14 <= i < g.bytes.len() ==> #[trigger] g.bytes[i] == f.bytes[i + 40]
            }
            &&& f.bytes.len() < 94 || !t.underlay.contains_key(dst) ==> r == Ok::<Verdict, ()>(
                Verdict::Pass,
            ) && g == f
        }),
{
    let dst = bytes::at16(f.bytes, 38);
    encap::law_decapsulated_frame_is_the_guests(f, t.underlay[dst].guest_mac, ETH_P_IPV6);
}

/// An inner IPv6 packet without a route is an error, and a frame too short for an IPv6 header is passed
/// on; neither changes.
pub proof fn law_v6_packet_without_a_route_stays(f: FrameView, t: TablesView, port: Port)
    ensures
        f.bytes.len() < 54 ==> guest_tx6(f, t, port) == (Ok::<Verdict, ()>(Verdict::Pass), f),
        f.bytes.len() >= 54 && tables::longest6(
            t.routes6,
            port.meta.vni,
            bytes::at16(f.bytes, 38),
            128,
        ) is None ==> guest_tx6(f, t, port) == (Err::<Verdict, ()>(()), f),
{
}

} // verus!
