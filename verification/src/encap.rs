//! IP-in-IPv6 encapsulation toward the underlay, and its reverse.

use vstd::prelude::*;

use crate::arp_nd::GW_MAC;
use crate::bytes;
use crate::bytes::{write16, write2, write6};
use crate::frame::{Frame, FrameView};
use crate::parse::{ETH_LEN, ETH_P_IPV6, IPV6_LEN};
use crate::table::Addr6;
use crate::tables::{Tables, TablesView};
use crate::types::{Route, RouteValue, Uplink};
use crate::verdict::Verdict;

verus! {

/// Hop limit of encapsulated packets.
pub const HOP_LIMIT: u8 = 64;

/// Bytes of the outer Ethernet and IPv6 headers.
pub const OUTER_LEN: usize = 54;

/// The outer Ethernet and IPv6 headers: from this hypervisor's uplink to the underlay gateway, from
/// `src` to `dst`.
pub open spec fn outer(
    uplink: Uplink,
    src: [u8; 16],
    dst: [u8; 16],
    inner_len: u16,
    inner_proto: u8,
) -> Seq<u8> {
    uplink.gateway_mac@ + uplink.local.uplink_mac@ + bytes::be2(ETH_P_IPV6) + seq![
        0x60u8,
        0,
        0,
        0,
    ] + bytes::be2(inner_len) + seq![inner_proto, HOP_LIMIT] + src@ + dst@
}

/// A frame encapsulated: its Ethernet header gives way to the outer headers, and what follows it
/// stays.
pub open spec fn encapsulated(
    f: FrameView,
    uplink: Uplink,
    src: [u8; 16],
    dst: [u8; 16],
    inner_len: u16,
    inner_proto: u8,
) -> FrameView {
    f.grown_head(IPV6_LEN as int).with(
        outer(uplink, src, dst, inner_len, inner_proto) + f.bytes.skip(ETH_LEN as int),
    )
}

/// Encapsulate the frame toward the route's nexthop and send it out the uplink. `inner_len` is the
/// frame's length without its Ethernet header. Fails where the frame has no Ethernet header or no
/// room for the outer one.
pub fn encap_and_redirect(
    frame: &mut Frame,
    uplink: &Uplink,
    src_underlay: &[u8; 16],
    route: &RouteValue,
    inner_len: u16,
    inner_proto: u8,
) -> (r: Result<Verdict, ()>)
    requires
        old(frame)@.fits(),
    ensures
        final(frame)@.fits(),
        if old(frame).headroom < IPV6_LEN {
            r == Err::<Verdict, ()>(()) && final(frame)@ == old(frame)@
        } else if old(frame)@.bytes.len() < ETH_LEN {
            r == Err::<Verdict, ()>(()) && final(frame)@ == old(frame)@.grown_head(IPV6_LEN as int)
        } else {
            &&& r == Ok::<Verdict, ()>(Verdict::Redirect(uplink.local.uplink_ifindex))
            &&& final(frame)@ == encapsulated(
                old(frame)@,
                *uplink,
                *src_underlay,
                route.nexthop_ipv6,
                inner_len,
                inner_proto,
            )
        },
{
    if !frame.grow_head(IPV6_LEN) {
        return Err(());
    }
    if frame.bytes.len() < ETH_LEN + IPV6_LEN {
        return Err(());
    }
    write6(&mut frame.bytes, 0, &uplink.gateway_mac);
    write6(&mut frame.bytes, 6, &uplink.local.uplink_mac);
    write2(&mut frame.bytes, 12, ETH_P_IPV6);
    frame.bytes.set(14, 0x60u8);
    frame.bytes.set(15, 0u8);
    frame.bytes.set(16, 0u8);
    frame.bytes.set(17, 0u8);
    write2(&mut frame.bytes, 18, inner_len);
    frame.bytes.set(20, inner_proto);
    frame.bytes.set(21, HOP_LIMIT);
    write16(&mut frame.bytes, 22, src_underlay);
    write16(&mut frame.bytes, 38, &route.nexthop_ipv6);
    assert(frame.bytes@ =~= outer(
        *uplink,
        *src_underlay,
        route.nexthop_ipv6,
        inner_len,
        inner_proto,
    ) + old(frame)@.bytes.skip(ETH_LEN as int));
    Ok(Verdict::Redirect(uplink.local.uplink_ifindex))
}

/// An encapsulated frame readdressed to another hypervisor: the MAC addresses and the outer
/// addresses change, and nothing else.
pub open spec fn reforwarded(
    f: Seq<u8>,
    uplink: Uplink,
    lb_underlay: [u8; 16],
    backend: [u8; 16],
) -> Seq<u8> {
    bytes::put(
        bytes::put(f, 0, uplink.gateway_mac@ + uplink.local.uplink_mac@),
        22,
        lb_underlay@ + backend@,
    )
}

/// Send an encapsulated packet on to a load balancer's remote backend without decapsulating it.
/// Drops a frame without the outer headers.
pub fn reforward(
    f: &mut Vec<u8>,
    uplink: &Uplink,
    lb_underlay: &[u8; 16],
    backend: &[u8; 16],
) -> (r: Verdict)
    ensures
        if old(f).len() < OUTER_LEN {
            r == Verdict::Drop && final(f)@ == old(f)@
        } else {
            &&& r == Verdict::Redirect(uplink.local.uplink_ifindex)
            &&& final(f)@ == reforwarded(old(f)@, *uplink, *lb_underlay, *backend)
        },
{
    if f.len() < OUTER_LEN {
        return Verdict::Drop;
    }
    write6(f, 0, &uplink.gateway_mac);
    write6(f, 6, &uplink.local.uplink_mac);
    write16(f, 22, lb_underlay);
    write16(f, 38, backend);
    assert(f@ =~= reforwarded(old(f)@, *uplink, *lb_underlay, *backend));
    Verdict::Redirect(uplink.local.uplink_ifindex)
}

/// Reforwarding keeps what is encapsulated, and the outer header's length, next header and hop
/// limit.
pub proof fn law_reforward_keeps_the_inner_packet(
    f: Seq<u8>,
    uplink: Uplink,
    lb_underlay: [u8; 16],
    backend: [u8; 16],
)
    requires
        f.len() >= OUTER_LEN,
    ensures
        reforwarded(f, uplink, lb_underlay, backend).len() == f.len(),
        reforwarded(f, uplink, lb_underlay, backend).skip(OUTER_LEN as int) == f.skip(
            OUTER_LEN as int,
        ),
        reforwarded(f, uplink, lb_underlay, backend).subrange(12, 22) == f.subrange(12, 22),
        bytes::at16(reforwarded(f, uplink, lb_underlay, backend), 38) == backend,
{
    let r = reforwarded(f, uplink, lb_underlay, backend);
    assert(r.skip(OUTER_LEN as int) =~= f.skip(OUTER_LEN as int));
    assert(r.subrange(12, 22) =~= f.subrange(12, 22));
    assert(bytes::at16(r, 38) =~= backend);
}

/// A frame readdressed to a guest on this host.
pub open spec fn handed(f: Seq<u8>, guest_mac: [u8; 6]) -> Seq<u8> {
    bytes::put(f, 0, guest_mac@ + GW_MAC@)
}

/// What becomes of a guest's frame once its route is known. A nexthop that is one of this host's
/// own guests gets the frame at once, without encapsulation; every other nexthop gets it
/// encapsulated through the uplink. An owner without a tap (a load balancer's anycast address) is
/// no guest of this host.
pub open spec fn forwarded(
    f: FrameView,
    t: TablesView,
    src_underlay: [u8; 16],
    route: RouteValue,
    inner_proto: u8,
) -> (Result<Verdict, ()>, FrameView) {
    let nexthop = route.nexthop_ipv6;
    if t.underlay.contains_key(nexthop) && t.underlay[nexthop].tap_ifindex != 0 {
        (
            Ok(Verdict::Redirect(t.underlay[nexthop].tap_ifindex)),
            f.with(handed(f.bytes, t.underlay[nexthop].guest_mac)),
        )
    } else {
        match t.local {
            Some(uplink) if f.headroom >= IPV6_LEN => (
                Ok(Verdict::Redirect(uplink.local.uplink_ifindex)),
                encapsulated(
                    f,
                    uplink,
                    src_underlay,
                    nexthop,
                    ((f.bytes.len() - ETH_LEN) % 65536) as u16,
                    inner_proto,
                ),
            ),
            _ => (Err(()), f),
        }
    }
}

/// Forward a guest's frame along its route.
pub fn forward(
    frame: &mut Frame,
    tables: &Tables,
    src_underlay: &[u8; 16],
    route: &Route,
    inner_proto: u8,
) -> (r: Result<Verdict, ()>)
    requires
        old(frame)@.fits(),
        old(frame)@.bytes.len() >= ETH_LEN,
    ensures
        final(frame)@.fits(),
        (r, final(frame)@) == forwarded(
            old(frame)@,
            tables@,
            *src_underlay,
            route.value,
            inner_proto,
        ),
{
    let inner_len: u16 = ((frame.bytes.len() - ETH_LEN) % 65536) as u16;
    match tables.underlay.get(&Addr6(route.value.nexthop_ipv6)) {
        Some(u) => {
            if u.tap_ifindex != 0 {
                write6(&mut frame.bytes, 0, &u.guest_mac);
                let gw: [u8; 6] = GW_MAC;
                write6(&mut frame.bytes, 6, &gw);
                assert(frame.bytes@ =~= handed(old(frame)@.bytes, u.guest_mac));
                return Ok(Verdict::Redirect(u.tap_ifindex));
            }
        },
        None => {},
    }
    match tables.local {
        Some(uplink) => encap_and_redirect(
            frame,
            &uplink,
            src_underlay,
            &route.value,
            inner_len,
            inner_proto,
        ),
        None => Err(()),
    }
}

/// An encapsulated frame stripped of its outer headers and given an Ethernet header to a guest.
pub open spec fn decapsulated(f: FrameView, guest_mac: [u8; 6], ethertype: u16) -> FrameView {
    f.cut_head(IPV6_LEN as int).with(
        guest_mac@ + GW_MAC@ + bytes::be2(ethertype) + f.bytes.skip(OUTER_LEN as int),
    )
}

/// Strip the outer headers, and address what is left to a guest.
pub fn decap(frame: &mut Frame, guest_mac: &[u8; 6], ethertype: u16) -> (ok: bool)
    requires
        old(frame)@.fits(),
    ensures
        final(frame)@.fits(),
        ok == (old(frame)@.bytes.len() >= OUTER_LEN),
        final(frame)@ == (if ok {
            decapsulated(old(frame)@, *guest_mac, ethertype)
        } else {
            old(frame)@
        }),
{
    if !frame.shrink_head(IPV6_LEN) {
        return false;
    }
    write6(&mut frame.bytes, 0, guest_mac);
    let gw: [u8; 6] = GW_MAC;
    write6(&mut frame.bytes, 6, &gw);
    write2(&mut frame.bytes, 12, ethertype);
    assert(frame.bytes@ =~= decapsulated(old(frame)@, *guest_mac, ethertype).bytes);
    true
}

/// Decapsulation undoes encapsulation: the receiving hypervisor hands its guest exactly the packet
/// that the sending guest's frame held, whatever lies between them, and the buffer's room is what
/// it was.
pub proof fn law_decap_undoes_encap(
    f: FrameView,
    uplink: Uplink,
    src: [u8; 16],
    dst: [u8; 16],
    inner_len: u16,
    inner_proto: u8,
    guest_mac: [u8; 6],
    ethertype: u16,
)
    requires
        f.fits(),
        f.headroom >= IPV6_LEN,
        f.bytes.len() >= ETH_LEN,
    ensures
        ({
            let e = encapsulated(f, uplink, src, dst, inner_len, inner_proto);
            let d = decapsulated(e, guest_mac, ethertype);
            &&& d.bytes == guest_mac@ + GW_MAC@ + bytes::be2(ethertype) + f.bytes.skip(
                ETH_LEN as int,
            )
            &&& d.headroom == f.headroom
            &&& d.tailroom == f.tailroom
            &&& bytes::at16(e.bytes, 38) == dst
            &&& bytes::at16(e.bytes, 22) == src
            &&& e.bytes[20] == inner_proto
            &&& bytes::be16(e.bytes, 12) == ETH_P_IPV6
            &&& bytes::be16(e.bytes, 18) == inner_len
        }),
{
    let e = encapsulated(f, uplink, src, dst, inner_len, inner_proto);
    assert(e.bytes.skip(OUTER_LEN as int) =~= f.bytes.skip(ETH_LEN as int));
    assert(bytes::at16(e.bytes, 38) =~= dst);
    assert(bytes::at16(e.bytes, 22) =~= src);
}

/// A routable packet is never lost for want of a local owner: where the uplink is known and the
/// frame has room for the outer headers, every frame is sent somewhere, and it is encapsulated
/// exactly where its nexthop is no guest of this host.
pub proof fn law_forward_reaches_every_nexthop(
    f: FrameView,
    t: TablesView,
    src_underlay: [u8; 16],
    route: RouteValue,
    inner_proto: u8,
)
    requires
        t.local is Some,
        f.headroom >= IPV6_LEN,
        f.bytes.len() >= ETH_LEN,
    ensures
        ({
            let (r, g) = forwarded(f, t, src_underlay, route, inner_proto);
            let local = t.underlay.contains_key(route.nexthop_ipv6) && t.underlay[
                route.nexthop_ipv6
            ].tap_ifindex != 0;
            &&& r is Ok
            &&& local ==> g.bytes.len() == f.bytes.len() && g.bytes.skip(12) == f.bytes.skip(12)
                && r == Ok::<Verdict, ()>(
                Verdict::Redirect(t.underlay[route.nexthop_ipv6].tap_ifindex),
            )
            &&& !local ==> g.bytes.len() == f.bytes.len() + IPV6_LEN && r == Ok::<Verdict, ()>(
                Verdict::Redirect(t.local->Some_0.local.uplink_ifindex),
            )
        }),
{
    let (r, g) = forwarded(f, t, src_underlay, route, inner_proto);
    if t.underlay.contains_key(route.nexthop_ipv6) && t.underlay[route.nexthop_ipv6].tap_ifindex
        != 0 {
        assert(g.bytes.skip(12) =~= f.bytes.skip(12));
    }
}

/// Forwarding never touches the packet: what stands behind the Ethernet header of a guest's frame
/// stands, byte for byte, in the frame that leaves, at the same place where a guest of this host
/// gets it, and 40 bytes further on where it is encapsulated.
pub proof fn law_forwarded_frame_holds_the_packet(
    f: FrameView,
    t: TablesView,
    src_underlay: [u8; 16],
    route: RouteValue,
    inner_proto: u8,
)
    requires
        f.bytes.len() >= 14,
    ensures
        ({
            let (r, g) = forwarded(f, t, src_underlay, route, inner_proto);
            let by = g.bytes.len() - f.bytes.len();
            &&& by == 0 || by == 40
            &&& forall|i: int| 14 <= i < f.bytes.len() ==> g.bytes[i + by] == #[trigger] f.bytes[i]
        }),
{
    let (r, g) = forwarded(f, t, src_underlay, route, inner_proto);
    let by = g.bytes.len() - f.bytes.len();
    assert forall|i: int| 14 <= i < f.bytes.len() implies g.bytes[i + by]
        == #[trigger] f.bytes[i] by {
        if by == 40 {
            assert(g.bytes[i + 40] == f.bytes.skip(14)[i - 14]);
        }
    }
}

/// The headers that carry a packet over the underlay, by offset: the Ethernet header goes from the
/// uplink to the underlay gateway and announces IPv6; the IPv6 header has version 6, no traffic class
/// or flow label, the length of what follows it, the inner protocol as next header, and a hop limit
/// of 64; it goes from the port's underlay address to the nexthop's.
pub proof fn law_outer_headers_lead_to_the_nexthop(
    f: FrameView,
    t: TablesView,
    src_underlay: [u8; 16],
    route: RouteValue,
    inner_proto: u8,
)
    requires
        14 <= f.bytes.len() <= 65549,
        f.headroom >= 40,
        t.local is Some,
        t.underlay.contains_key(route.nexthop_ipv6) ==> t.underlay[
            route.nexthop_ipv6
        ].tap_ifindex == 0,
    ensures
        ({
            let (r, g) = forwarded(f, t, src_underlay, route, inner_proto);
            let uplink = t.local->Some_0;
            let b = g.bytes;
            &&& r == Ok::<Verdict, ()>(Verdict::Redirect(uplink.local.uplink_ifindex))
            &&& b.len() == f.bytes.len() + 40
            &&& bytes::at6(b, 0) == uplink.gateway_mac
            &&& bytes::at6(b, 6) == uplink.local.uplink_mac
            &&& b[12] == 0x86 && b[13] == 0xdd
            &&& b[14] == 0x60 && b[15] == 0 && b[16] == 0 && b[17] == 0
            &&& b[18] * 256 + b[19] == b.len() - 54
            &&& b[20] == inner_proto
            &&& b[21] == 64
            &&& bytes::at16(b, 22) == src_underlay
            &&& bytes::at16(b, 38) == route.nexthop_ipv6
            &&& g.headroom == f.headroom - 40
            &&& g.tailroom == f.tailroom
        }),
{
    let (r, g) = forwarded(f, t, src_underlay, route, inner_proto);
    let uplink = t.local->Some_0;
    assert(bytes::at6(g.bytes, 0) =~= uplink.gateway_mac);
    assert(bytes::at6(g.bytes, 6) =~= uplink.local.uplink_mac);
    assert(bytes::at16(g.bytes, 22) =~= src_underlay);
    assert(bytes::at16(g.bytes, 38) =~= route.nexthop_ipv6);
}

/// A guest of this host gets a neighbor's frame from the gateway: addressed to its own MAC, from
/// 02:00:00:00:00:01, the ethertype and the packet as they were sent.
pub proof fn law_neighbor_gets_the_frame_from_the_gateway(
    f: FrameView,
    t: TablesView,
    src_underlay: [u8; 16],
    route: RouteValue,
    inner_proto: u8,
)
    requires
        f.bytes.len() >= 14,
        t.underlay.contains_key(route.nexthop_ipv6),
        t.underlay[route.nexthop_ipv6].tap_ifindex != 0,
    ensures
        ({
            let (r, g) = forwarded(f, t, src_underlay, route, inner_proto);
            let owner = t.underlay[route.nexthop_ipv6];
            &&& r == Ok::<Verdict, ()>(Verdict::Redirect(owner.tap_ifindex))
            &&& bytes::at6(g.bytes, 0) == owner.guest_mac
            &&& bytes::at6(g.bytes, 6) == [2u8, 0, 0, 0, 0, 1]
            &&& g.bytes.len() == f.bytes.len()
            &&& forall|i: int| 12 <= i < f.bytes.len() ==> #[trigger] g.bytes[i] == f.bytes[i]
        }),
{
    let (r, g) = forwarded(f, t, src_underlay, route, inner_proto);
    let owner = t.underlay[route.nexthop_ipv6];
    assert(bytes::at6(g.bytes, 0) =~= owner.guest_mac);
    assert(bytes::at6(g.bytes, 6) =~= [2u8, 0, 0, 0, 0, 1]);
}

/// What a guest gets of an encapsulated frame, by offset: its own MAC, the gateway's
/// (02:00:00:00:00:01), the ethertype, and from byte 14 on what stood from byte 54 on.
pub proof fn law_decapsulated_frame_is_the_guests(f: FrameView, guest_mac: [u8; 6], ethertype: u16)
    requires
        f.bytes.len() >= 54,
        f.fits(),
    ensures
        ({
            let g = decapsulated(f, guest_mac, ethertype);
            &&& g.bytes.len() == f.bytes.len() - 40
            &&& g.headroom == f.headroom + 40
            &&& g.tailroom == f.tailroom
            &&& bytes::at6(g.bytes, 0) == guest_mac
            &&& bytes::at6(g.bytes, 6) == [2u8, 0, 0, 0, 0, 1]
            &&& g.bytes[12] * 256 + g.bytes[13] == ethertype
            &&& forall|i: int| 14 <= i < g.bytes.len() ==> #[trigger] g.bytes[i] == f.bytes[i + 40]
        }),
{
    let g = decapsulated(f, guest_mac, ethertype);
    assert(bytes::at6(g.bytes, 0) =~= guest_mac);
    assert(bytes::at6(g.bytes, 6) =~= [2u8, 0, 0, 0, 0, 1]);
}

/// A relayed frame, by offset: the Ethernet header goes from the uplink to the underlay gateway, and
/// the IPv6 header from the address it came to, to the next one; every other byte stays.
pub proof fn law_reforwarded_frame_goes_on(
    f: Seq<u8>,
    uplink: Uplink,
    here: [u8; 16],
    next: [u8; 16],
)
    requires
        f.len() >= 54,
    ensures
        ({
            let g = reforwarded(f, uplink, here, next);
            &&& g.len() == f.len()
            &&& bytes::at6(g, 0) == uplink.gateway_mac
            &&& bytes::at6(g, 6) == uplink.local.uplink_mac
            &&& bytes::at16(g, 22) == here
            &&& bytes::at16(g, 38) == next
            &&& forall|i: int|
                12 <= i < 22 || 54 <= i < f.len() ==> #[trigger] g[i] == f[i]
        }),
{
    let g = reforwarded(f, uplink, here, next);
    assert(bytes::at6(g, 0) =~= uplink.gateway_mac);
    assert(bytes::at6(g, 6) =~= uplink.local.uplink_mac);
    assert(bytes::at16(g, 22) =~= here);
    assert(bytes::at16(g, 38) =~= next);
}

} // verus!
