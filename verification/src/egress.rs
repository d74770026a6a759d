//! The guest-facing program: what becomes of a frame that a guest sends.

use vstd::prelude::*;

use crate::arp_nd;
use crate::arp_nd::{try_arp_reply, try_nd_reply, GW_MAC};
use crate::bytes;
use crate::bytes::{read2, read4};
use crate::conntrack;
use crate::conntrack::{ct_apply, ct_ensure_default, ct_key, ct_touch, is_rewrite_src};
use crate::dhcp4;
use crate::dhcp4::try_dhcpv4_reply;
use crate::dhcp6;
use crate::dhcp6::try_dhcpv6_reply;
use crate::encap;
use crate::encap::forward;
use crate::firewall;
use crate::firewall::fw_denies;
use crate::frame::{Frame, FrameView};
use crate::meter;
use crate::meter::meter_pass;
use crate::network_nat;
use crate::network_nat::nat_snat_egress;
use crate::parse;
use crate::parse::{ETH_LEN, ETH_P_IP, ETH_P_IPV6, IPPROTO_IPIP};
use crate::tables;
use crate::tables::{Tables, TablesView};
use crate::translate;
use crate::translate::End;
use crate::types::{
    CtEntry, CtKey, NatFlow, NatKey, NatValue, Port, Route, VipKey, FW_DIR_EGRESS, TCP_NONE,
};
use crate::v6;
use crate::v6::v6_guest_tx;
use crate::verdict::{Outcome, Verdict};
use crate::vip;
use crate::vip::{dnat_egress, snat_egress};

verus! {

/// Where the IPv4 header of a guest's frame stands.
pub open spec fn ip_at() -> int {
    ETH_LEN as int
}

/// Conntrack and the egress firewall. A packet of a known flow gets the flow's source translation
/// and refreshes its entry; a destination translation belongs to ingress and is not applied here.
/// A packet of a new flow that the source interface's rules deny is dropped: there is no result.
pub open spec fn admitted(f: Seq<u8>, t: TablesView, vni: u32, ifindex: u32, now: u64) -> Option<
    (Seq<u8>, TablesView),
> {
    match conntrack::key_of(f, ip_at(), vni) {
        Some(key) => {
            if t.conntrack.contains_key(key) {
                let e = t.conntrack[key];
                let g = if conntrack::rewrites_src(e.flags) {
                    conntrack::applied(f, ip_at(), e)
                } else {
                    f
                };
                Some(
                    (
                        g,
                        TablesView {
                            conntrack: t.conntrack.insert(
                                key,
                                conntrack::touched(g, ip_at(), e, now),
                            ),
                            ..t
                        },
                    ),
                )
            } else if firewall::denied(f, ip_at(), t, ifindex, FW_DIR_EGRESS) {
                None
            } else {
                Some((f, t))
            }
        },
        None => Some((f, t)),
    }
}

fn let_in(f: &mut Vec<u8>, tables: &mut Tables, vni: u32, ifindex: u32, now: u64) -> (ok: bool)
    ensures
        match admitted(old(f)@, old(tables)@, vni, ifindex, now) {
            Some((g, t)) => ok && final(f)@ == g && final(tables)@ == t,
            None => !ok && final(f)@ == old(f)@ && final(tables)@ == old(tables)@,
        },
        final(f).len() == old(f).len(),
{
    let key: CtKey = match ct_key(f, ETH_LEN, vni) {
        Some(k) => k,
        None => {
            return true;
        },
    };
    match tables.conntrack.get(&key) {
        Some(found) => {
            let mut e: CtEntry = found;
            if is_rewrite_src(e.flags) {
                ct_apply(f, ETH_LEN, &e);
            }
            ct_touch(f, ETH_LEN, tables, &key, &mut e, now);
            true
        },
        None => !fw_denies(f, ETH_LEN, tables, ifindex, FW_DIR_EGRESS),
    }
}

/// A packet after the VIPs of its source (the guest's own) and of its destination (another guest's
/// on this host) were applied.
pub open spec fn with_vips(f: Seq<u8>, t: TablesView, vni: u32) -> Seq<u8> {
    vip::remapped(vip::remapped(f, ip_at(), t, vni, End::Source), ip_at(), t, vni, End::Destination)
}

fn apply_vips(f: &mut Vec<u8>, tables: &Tables, vni: u32)
    ensures
        final(f)@ == with_vips(old(f)@, tables@, vni),
        final(f).len() == old(f).len(),
{
    snat_egress(f, ETH_LEN, tables, vni);
    dnat_egress(f, ETH_LEN, tables, vni);
}

/// The tables after the flow of a packet was entered, where it is not yet known.
pub open spec fn flow_entered(f: Seq<u8>, ip: int, t: TablesView, vni: u32, now: u64) -> TablesView {
    match conntrack::key_of(f, ip, vni) {
        Some(key) => {
            if t.conntrack.contains_key(key) {
                t
            } else {
                TablesView {
                    conntrack: conntrack::with_flow(t.conntrack, f, ip, key, now),
                    ..t
                }
            }
        },
        None => t,
    }
}

fn enter_flow(f: &Vec<u8>, tables: &mut Tables, vni: u32, now: u64)
    ensures
        final(tables)@ == flow_entered(f@, ip_at(), old(tables)@, vni, now),
{
    match ct_key(f, ETH_LEN, vni) {
        Some(key) => {
            if !tables.conntrack.contains(&key) {
                ct_ensure_default(f, ETH_LEN, tables, &key, now);
            }
        },
        None => {},
    }
}

/// The frame that leaves, and the tables, once a route is known: network NAT where the route is
/// external, then the flow is tracked.
pub open spec fn translated_and_tracked(
    f: Seq<u8>,
    t: TablesView,
    vni: u32,
    external: bool,
    now: u64,
) -> (Seq<u8>, TablesView) {
    let g = network_nat::snat_frame(f, ip_at(), t, vni, external);
    let u = network_nat::snat_tables(f, ip_at(), t, vni, external);
    (g, flow_entered(g, ip_at(), u, vni, now))
}

fn translate_and_track(f: &mut Vec<u8>, tables: &mut Tables, vni: u32, external: bool, now: u64)
    ensures
        (final(f)@, final(tables)@) == translated_and_tracked(
            old(f)@,
            old(tables)@,
            vni,
            external,
            now,
        ),
        final(f).len() == old(f).len(),
{
    nat_snat_egress(f, ETH_LEN, tables, vni, external);
    enter_flow(f, tables, vni, now);
}

/// What becomes of a frame whose route is known.
pub open spec fn routed4(
    f: FrameView,
    t: TablesView,
    port: Port,
    route: Route,
    ifindex: u32,
    now: u64,
) -> Outcome {
    let external = route.is_external;
    let (c, tc) = translated_and_tracked(f.bytes, t, port.meta.vni, external, now);
    let len = c.len() as u64;
    let td = meter::tables_metered(tc, ifindex, len, external, now);
    if !meter::allowed(tc, ifindex, len, external, now) {
        Outcome { verdict: Ok(Verdict::Drop), frame: f.with(c), tables: td }
    } else {
        let (verdict, frame) = encap::forwarded(
            f.with(c),
            td,
            port.underlay_ipv6,
            route.value,
            IPPROTO_IPIP,
        );
        Outcome { verdict, frame, tables: td }
    }
}

/// The path of an IPv4 frame from the guest behind `port`: conntrack and firewall, VIPs, the route
/// of the destination, NAT and tracking, the meter, and on to the nexthop.
pub open spec fn guest_tx4(
    f: FrameView,
    t: TablesView,
    port: Port,
    ifindex: u32,
    now: u64,
) -> Outcome {
    let vni = port.meta.vni;
    match admitted(f.bytes, t, vni, ifindex, now) {
        None => Outcome { verdict: Ok(Verdict::Drop), frame: f, tables: t },
        Some((a, ta)) => {
            let b = with_vips(a, ta, vni);
            match tables::longest4(ta.routes, vni, bytes::at4(b, ip_at() + 16), 32) {
                None => Outcome { verdict: Err(()), frame: f.with(b), tables: ta },
                Some(route) => routed4(f.with(b), ta, port, route, ifindex, now),
            }
        },
    }
}

/// The answer to an ARP request or Neighbor Solicitation for the port's gateway.
#[verifier::opaque]
pub open spec fn resolved(f: Seq<u8>, port: Port) -> Option<Seq<u8>> {
    if arp_nd::asks_arp(f, port.meta.gateway_ipv4) {
        Some(arp_nd::arp_reply(f, port.meta.gateway_ipv4, GW_MAC))
    } else if arp_nd::asks_nd(f, port.gateway_ipv6) {
        Some(arp_nd::nd_reply(f, port.gateway_ipv6, GW_MAC))
    } else {
        None
    }
}

fn resolve(f: &mut Vec<u8>, port: &Port) -> (r: Option<Verdict>)
    ensures
        match resolved(old(f)@, *port) {
            Some(answer) => r == Some(Verdict::Reflect) && final(f)@ == answer,
            None => r is None && final(f)@ == old(f)@,
        },
        final(f).len() == old(f).len(),
{
    reveal(resolved);
    if let Some(act) = try_arp_reply(f, port) {
        return Some(act);
    }
    try_nd_reply(f, port)
}

/// The answer to a DHCPv4 or DHCPv6 request.
#[verifier::opaque]
pub open spec fn leased(f: FrameView, t: TablesView, port: Port, ifindex: u32) -> Option<
    FrameView,
> {
    match dhcp4::answer4(f, t, port, ifindex) {
        Some(answer) => Some(answer),
        None => dhcp6::answer6(f, dhcp4::tables_after4(f.bytes, t, port, ifindex), port, ifindex),
    }
}

fn lease(frame: &mut Frame, tables: &mut Tables, port: &Port, ifindex: u32) -> (r: Option<Verdict>)
    requires
        old(frame)@.fits(),
    ensures
        final(frame)@.fits(),
        final(tables)@ == dhcp4::tables_after4(old(frame)@.bytes, old(tables)@, *port, ifindex),
        match leased(old(frame)@, old(tables)@, *port, ifindex) {
            Some(answer) => r == Some(Verdict::Reflect) && final(frame)@ == answer,
            None => r is None && final(frame)@ == old(frame)@,
        },
{
    reveal(leased);
    if let Some(act) = try_dhcpv4_reply(frame, tables, port, ifindex) {
        return Some(act);
    }
    try_dhcpv6_reply(frame, tables, port, ifindex)
}

/// What becomes of a frame that is for the overlay: IPv6 and IPv4 packets are forwarded, everything
/// else is passed on.
#[verifier::opaque]
pub open spec fn overlay_tx(
    f: FrameView,
    t: TablesView,
    port: Port,
    ifindex: u32,
    now: u64,
) -> Outcome {
    if f.bytes.len() >= ETH_LEN && parse::ethertype(f.bytes) == ETH_P_IPV6 {
        let (verdict, frame) = v6::guest_tx6(f, t, port);
        Outcome { verdict, frame, tables: t }
    } else if f.bytes.len() < ETH_LEN + 20 || parse::ethertype(f.bytes) != ETH_P_IP {
        Outcome { verdict: Ok(Verdict::Pass), frame: f, tables: t }
    } else {
        guest_tx4(f, t, port, ifindex, now)
    }
}

/// What becomes of a frame that the guest behind `port` sends: ARP, Neighbor Discovery and DHCP are
/// answered on the spot, and the rest is for the overlay.
pub open spec fn guest_out(
    f: FrameView,
    t: TablesView,
    port: Port,
    ifindex: u32,
    now: u64,
) -> Outcome {
    let t4 = dhcp4::tables_after4(f.bytes, t, port, ifindex);
    if let Some(answer) = resolved(f.bytes, port) {
        Outcome { verdict: Ok(Verdict::Reflect), frame: f.with(answer), tables: t }
    } else if let Some(answer) = leased(f, t, port, ifindex) {
        Outcome { verdict: Ok(Verdict::Reflect), frame: answer, tables: t4 }
    } else {
        overlay_tx(f, t4, port, ifindex, now)
    }
}

/// What becomes of a frame that arrives on a tap: an error where the tap is no guest's port.
pub open spec fn tap_rx(f: FrameView, t: TablesView, ifindex: u32, now: u64) -> Outcome {
    match t.ports.get(ifindex) {
        Some(port) => guest_out(f, t, port, ifindex, now),
        None => Outcome { verdict: Err(()), frame: f, tables: t },
    }
}

fn send4(
    frame: &mut Frame,
    tables: &mut Tables,
    port: &Port,
    route: &Route,
    ifindex: u32,
    now: u64,
) -> (r: Result<Verdict, ()>)
    requires
        old(frame)@.fits(),
        old(frame)@.bytes.len() >= ETH_LEN,
    ensures
        final(frame)@.fits(),
        (Outcome { verdict: r, frame: final(frame)@, tables: final(tables)@ }) == routed4(
            old(frame)@,
            old(tables)@,
            *port,
            *route,
            ifindex,
            now,
        ),
{
    translate_and_track(&mut frame.bytes, tables, port.meta.vni, route.is_external, now);
    let len: u64 = frame.bytes.len() as u64;
    if !meter_pass(tables, ifindex, len, route.is_external, now) {
        return Ok(Verdict::Drop);
    }
    forward(frame, tables, &port.underlay_ipv6, route, IPPROTO_IPIP)
}

fn tx4(frame: &mut Frame, tables: &mut Tables, port: &Port, ifindex: u32, now: u64) -> (r: Result<
    Verdict,
    (),
>)
    requires
        old(frame)@.fits(),
        old(frame)@.bytes.len() >= ETH_LEN + 20,
    ensures
        final(frame)@.fits(),
        (Outcome { verdict: r, frame: final(frame)@, tables: final(tables)@ }) == guest_tx4(
            old(frame)@,
            old(tables)@,
            *port,
            ifindex,
            now,
        ),
{
    let vni: u32 = port.meta.vni;
    if !let_in(&mut frame.bytes, tables, vni, ifindex, now) {
        return Ok(Verdict::Drop);
    }
    apply_vips(&mut frame.bytes, tables, vni);
    let dst = read4(&frame.bytes, ETH_LEN + 16);
    match tables.route4(vni, &dst) {
        Some(route) => send4(frame, tables, port, &route, ifindex, now),
        None => Err(()),
    }
}

fn send_overlay(
    frame: &mut Frame,
    tables: &mut Tables,
    port: &Port,
    ifindex: u32,
    now: u64,
) -> (r: Result<Verdict, ()>)
    requires
        old(frame)@.fits(),
    ensures
        final(frame)@.fits(),
        (Outcome { verdict: r, frame: final(frame)@, tables: final(tables)@ }) == overlay_tx(
            old(frame)@,
            old(tables)@,
            *port,
            ifindex,
            now,
        ),
{
    reveal(overlay_tx);
    if frame.bytes.len() >= ETH_LEN && read2(&frame.bytes, 12) == ETH_P_IPV6 {
        return v6_guest_tx(frame, tables, port);
    }
    if frame.bytes.len() < ETH_LEN + 20 || read2(&frame.bytes, 12) != ETH_P_IP {
        return Ok(Verdict::Pass);
    }
    tx4(frame, tables, port, ifindex, now)
}

/// Handle a frame that arrived on a tap.
pub fn try_guest_tx(frame: &mut Frame, tables: &mut Tables, ifindex: u32, now: u64) -> (r: Result<
    Verdict,
    (),
>)
    requires
        old(frame)@.fits(),
    ensures
        final(frame)@.fits(),
        (Outcome { verdict: r, frame: final(frame)@, tables: final(tables)@ }) == tap_rx(
            old(frame)@,
            old(tables)@,
            ifindex,
            now,
        ),
{
    let port: Port = match tables.ports.get(&ifindex) {
        Some(p) => p,
        None => {
            return Err(());
        },
    };
    if let Some(act) = resolve(&mut frame.bytes, &port) {
        return Ok(act);
    }
    if let Some(act) = lease(frame, tables, &port, ifindex) {
        return Ok(act);
    }
    send_overlay(frame, tables, &port, ifindex, now)
}

/// What the DHCP program makes of a frame: an answer, or nothing.
pub open spec fn dhcp_out(f: FrameView, t: TablesView, ifindex: u32) -> Outcome {
    match t.ports.get(ifindex) {
        Some(port) => {
            let t4 = dhcp4::tables_after4(f.bytes, t, port, ifindex);
            match leased(f, t, port, ifindex) {
                Some(answer) => Outcome {
                    verdict: Ok(Verdict::Reflect),
                    frame: answer,
                    tables: t4,
                },
                None => Outcome { verdict: Ok(Verdict::Pass), frame: f, tables: t4 },
            }
        },
        None => Outcome { verdict: Ok(Verdict::Pass), frame: f, tables: t },
    }
}

/// The tail-call target: run the DHCPv4 and DHCPv6 responders only. Passes a frame on that is no
/// DHCP request they answer.
pub fn dhcp_handle(frame: &mut Frame, tables: &mut Tables, ifindex: u32) -> (r: Verdict)
    requires
        old(frame)@.fits(),
    ensures
        final(frame)@.fits(),
        (Outcome { verdict: Ok(r), frame: final(frame)@, tables: final(tables)@ }) == dhcp_out(
            old(frame)@,
            old(tables)@,
            ifindex,
        ),
{
    let port: Port = match tables.ports.get(&ifindex) {
        Some(p) => p,
        None => {
            return Verdict::Pass;
        },
    };
    match lease(frame, tables, &port, ifindex) {
        Some(act) => act,
        None => Verdict::Pass,
    }
}

/// The egress firewall is enforced: the first packet of a flow that the interface's rules deny is
/// dropped, and neither the frame nor a table changes.
pub proof fn law_denied_flows_do_not_leave(
    f: FrameView,
    t: TablesView,
    port: Port,
    ifindex: u32,
    now: u64,
)
    requires
        conntrack::key_of(f.bytes, ip_at(), port.meta.vni) matches Some(key)
            && !t.conntrack.contains_key(key),
        firewall::denied(f.bytes, ip_at(), t, ifindex, FW_DIR_EGRESS),
    ensures
        guest_tx4(f, t, port, ifindex, now) == (Outcome {
            verdict: Ok(Verdict::Drop),
            frame: f,
            tables: t,
        }),
{
}

/// The firewall is stateful: packets of a known flow leave whatever the rules say.
pub proof fn law_known_flows_are_let_through(
    f: Seq<u8>,
    t: TablesView,
    vni: u32,
    ifindex: u32,
    now: u64,
)
    requires
        conntrack::key_of(f, ip_at(), vni) matches Some(key) && t.conntrack.contains_key(key),
    ensures
        admitted(f, t, vni, ifindex, now) is Some,
{
}

/// Every flow that leaves is known, in both directions where it is new: the packet as it leaves has
/// an entry, and if it had none before, so has every reply to it.
pub proof fn law_flows_that_leave_are_known(
    f: Seq<u8>,
    t: TablesView,
    vni: u32,
    external: bool,
    now: u64,
)
    ensures
        ({
            let (g, u) = translated_and_tracked(f, t, vni, external, now);
            match conntrack::key_of(g, ip_at(), vni) {
                Some(key) => u.conntrack.contains_key(key) && (!t.conntrack.contains_key(key)
                    ==> u.conntrack.contains_key(conntrack::inverted(key))),
                None => true,
            }
        }),
{
    let g = network_nat::snat_frame(f, ip_at(), t, vni, external);
    let u = network_nat::snat_tables(f, ip_at(), t, vni, external);
    assert(u.conntrack == t.conntrack);
    match conntrack::key_of(g, ip_at(), vni) {
        Some(key) => {
            conntrack::law_flow_is_known_both_ways(u.conntrack, g, ip_at(), key, now);
        },
        None => {},
    }
}

/// The responders answer on the spot: an ARP, Neighbor Discovery or DHCP answer goes back to the
/// guest, and touches no flow, route or rule.
pub proof fn law_answers_go_back_to_the_guest(
    f: FrameView,
    t: TablesView,
    port: Port,
    ifindex: u32,
    now: u64,
)
    requires
        resolved(f.bytes, port) is Some || leased(f, t, port, ifindex) is Some,
    ensures
        ({
            let o = guest_out(f, t, port, ifindex, now);
            &&& o.verdict == Ok::<Verdict, ()>(Verdict::Reflect)
            &&& o.tables.conntrack == t.conntrack
            &&& o.tables.nat_ct == t.nat_ct
            &&& o.tables.routes == t.routes
            &&& o.tables.fw_rules == t.fw_rules
            &&& o.tables.meter == t.meter
        }),
{
}

/// A guest's packet reaches its nexthop as it is: where the rules let it out, no VIP, tracked flow or
/// NAT translates it and the meter lets it pass, it is handed to the guest of this host that owns
/// the nexthop of its route, or encapsulated toward that nexthop.
pub proof fn law_packet_reaches_its_nexthop(
    f: FrameView,
    t: TablesView,
    port: Port,
    ifindex: u32,
    now: u64,
    route: Route,
)
    requires
        ({
            let vni = port.meta.vni;
            &&& conntrack::key_of(f.bytes, ip_at(), vni) matches Some(key) ==> {
                if t.conntrack.contains_key(key) {
                    !conntrack::rewrites_src(t.conntrack[key].flags)
                } else {
                    !firewall::denied(f.bytes, ip_at(), t, ifindex, FW_DIR_EGRESS)
                }
            }
            &&& vip::mapped(f.bytes, ip_at(), t, vni, End::Source) is None
            &&& vip::mapped(f.bytes, ip_at(), t, vni, End::Destination) is None
            &&& tables::longest4(t.routes, vni, bytes::at4(f.bytes, ip_at() + 16), 32) == Some(
                route,
            )
            &&& route.is_external ==> network_nat::nat_for(f.bytes, ip_at(), t, vni) is None
            &&& meter::allowed(t, ifindex, f.bytes.len() as u64, route.is_external, now)
        }),
    ensures
        ({
            let o = guest_tx4(f, t, port, ifindex, now);
            (o.verdict, o.frame) == encap::forwarded(
                f,
                t,
                port.underlay_ipv6,
                route.value,
                IPPROTO_IPIP,
            )
        }),
{
    let vni = port.meta.vni;
    let (a, ta) = admitted(f.bytes, t, vni, ifindex, now)->Some_0;
    assert(a == f.bytes && ta.vips == t.vips && ta.nat == t.nat);
    assert(f.with(a) == f);
}

/// The gateway has one MAC: whatever a responder answers to, ARP, Neighbor Discovery or DHCP, the
/// answer comes from `GW_MAC`, and where it names the gateway's hardware address, it names that MAC.
/// So a guest's neighbor table stays coherent. ARP and DHCP answers go to the MAC that asked; an
/// advertisement keeps the Ethernet destination of its solicitation.
pub proof fn law_the_gateway_has_one_mac(
    f: FrameView,
    t: TablesView,
    port: Port,
    ifindex: u32,
    now: u64,
)
    requires
        resolved(f.bytes, port) is Some || leased(f, t, port, ifindex) is Some,
    ensures
        ({
            let b = guest_out(f, t, port, ifindex, now).frame.bytes;
            &&& bytes::at6(b, 6) == GW_MAC
            &&& arp_nd::asks_arp(f.bytes, port.meta.gateway_ipv4) ==> bytes::at6(b, 22) == GW_MAC
                && bytes::at6(b, 0) == bytes::at6(f.bytes, 22)
            &&& arp_nd::asks_nd(f.bytes, port.gateway_ipv6) ==> bytes::at6(b, 80) == GW_MAC
                && bytes::at6(b, 0) == bytes::at6(f.bytes, 0)
            &&& resolved(f.bytes, port) is None ==> bytes::at6(b, 0) == bytes::at6(f.bytes, 6)
        }),
{
    reveal(resolved);
    reveal(leased);
    let b = guest_out(f, t, port, ifindex, now).frame.bytes;
    let g = f.bytes;
    if arp_nd::asks_arp(g, port.meta.gateway_ipv4) {
        assert(bytes::at6(b, 6) =~= GW_MAC);
        assert(bytes::at6(b, 22) =~= GW_MAC);
        assert(bytes::at6(b, 0) =~= bytes::at6(g, 22));
    } else if arp_nd::asks_nd(g, port.gateway_ipv6) {
        assert(bytes::at6(b, 6) =~= GW_MAC);
        assert(bytes::at6(b, 80) =~= GW_MAC);
        assert(bytes::at6(b, 0) =~= bytes::at6(g, 0));
    } else if let Some(answer) = dhcp4::answer4(f, t, port, ifindex) {
        let req = dhcp4::request4(g)->Some_0;
        let data = dhcp4::reply_data(req, port, dhcp4::tables_after4(g, t, port, ifindex), ifindex);
        assert(b == dhcp4::reply4(g, data));
        dhcp4::lemma_reply4_len(g, data);
        assert(bytes::at6(b, 6) =~= GW_MAC);
        assert(bytes::at6(b, 0) =~= bytes::at6(g, 6));
    } else {
        let u = dhcp4::tables_after4(g, t, port, ifindex);
        let data = dhcp6::reply6_data(g, port, u, ifindex);
        let grown = f.resized(dhcp6::D6_MAX_TOTAL as int).bytes;
        assert(b == dhcp6::reply6(grown, data));
        dhcp6::lemma_reply6_head(grown, data);
        assert(bytes::at6(b, 6) =~= GW_MAC);
        assert(bytes::at6(b, 0) =~= bytes::at6(g, 6));
    }
}

/// The address that a VIP puts in the place of `addr`: where `addr` is a guest's, its VIP; where it
/// is a VIP, the guest's; else there is none, and `addr` stays.
pub open spec fn stands_for(t: TablesView, vni: u32, addr: [u8; 4]) -> [u8; 4] {
    match t.vips.get(VipKey { vni, ipv4: addr }) {
        Some(other) => other,
        None => addr,
    }
}

/// Whether the packet of a guest gets past conntrack and the firewall as it is: its flow is known and
/// translates no source, or it is new and the rules let it out.
pub open spec fn gets_out(f: Seq<u8>, t: TablesView, vni: u32, ifindex: u32) -> bool {
    match conntrack::key_of(f, 14, vni) {
        Some(key) => if t.conntrack.contains_key(key) {
            t.conntrack[key].flags % 2 == 0
        } else {
            !firewall::denied(f, 14, t, ifindex, FW_DIR_EGRESS)
        },
        None => true,
    }
}

/// What conntrack and the VIPs make of a packet that gets out as it is.
proof fn lemma_vips(f: Seq<u8>, t: TablesView, vni: u32, ifindex: u32, now: u64)
    requires
        f.len() >= 34,
        f[14] % 16 >= 5,
        gets_out(f, t, vni, ifindex),
    ensures
        ({
            let (a, ta) = admitted(f, t, vni, ifindex, now)->Some_0;
            let b = with_vips(a, ta, vni);
            &&& admitted(f, t, vni, ifindex, now) is Some
            &&& a == f
            &&& ta == (TablesView { conntrack: ta.conntrack, ..t })
            &&& b.len() == f.len()
            &&& bytes::at4(b, 26) == stands_for(t, vni, bytes::at4(f, 26))
            &&& bytes::at4(b, 30) == stands_for(t, vni, bytes::at4(f, 30))
            &&& parse::ports_of(b, 14) == parse::ports_of(f, 14)
            &&& b[14] == f[14]
            &&& b[23] == f[23]
            &&& forall|i: int|
                0 <= i < 24 || 34 <= i < 14 + parse::header_len(f, 14) ==> #[trigger] b[i] == f[i]
                    || i >= f.len()
        }),
{
    let (a, ta) = admitted(f, t, vni, ifindex, now)->Some_0;
    let l4 = 14 + parse::header_len(f, 14);
    let s = vip::remapped(a, 14, ta, vni, End::Source);
    let b = with_vips(a, ta, vni);
    if let Some(v) = vip::mapped(a, 14, ta, vni, End::Source) {
        translate::law_translated_bytes(a, 14, l4, End::Source, v, None);
        translate::law_translation_without_a_port_keeps_both(a, 14, End::Source, v);
    }
    assert(bytes::at4(s, 26) == stands_for(t, vni, bytes::at4(f, 26)));
    assert(bytes::at4(s, 30) =~= bytes::at4(f, 30));
    if let Some(d) = vip::mapped(s, 14, ta, vni, End::Destination) {
        translate::law_translated_bytes(s, 14, l4, End::Destination, d, None);
        translate::law_translation_without_a_port_keeps_both(s, 14, End::Destination, d);
    }
    assert(bytes::at4(b, 26) =~= bytes::at4(s, 26));
}

/// A VIP is the address under which its guest is seen: in the frame that leaves (where a route is
/// found, and network NAT does not apply), a source that has a VIP is replaced by the VIP, and a
/// destination that is a VIP by the guest behind it; addresses without a VIP stay, and so do the
/// protocol and the ports. This holds of every packet that gets out, whatever its nexthop, which is that
/// of the route of the replaced destination.
#[verifier::spinoff_prover]
pub proof fn law_vip_is_the_source_that_leaves(
    f: FrameView,
    t: TablesView,
    port: Port,
    ifindex: u32,
    now: u64,
    route: Route,
)
    requires
        f.bytes.len() >= 34,
        f.bytes[14] % 16 >= 5,
        gets_out(f.bytes, t, port.meta.vni, ifindex),
        ({
            let vni = port.meta.vni;
            let src = stands_for(t, vni, bytes::at4(f.bytes, 26));
            let dst = stands_for(t, vni, bytes::at4(f.bytes, 30));
            &&& tables::longest4(t.routes, vni, dst, 32) == Some(route)
            &&& route.is_external ==> !t.nat.contains_key(NatKey { vni, ipv4: src })
        }),
    ensures
        ({
            let vni = port.meta.vni;
            let o = guest_tx4(f, t, port, ifindex, now);
            let out = o.frame.bytes;
            let by = out.len() - f.bytes.len();
            let next = route.value.nexthop_ipv6;
            let at_home = t.underlay.contains_key(next) && t.underlay[next].tap_ifindex != 0;
            &&& by == 0 || by == 40
            &&& bytes::at4(out, by + 26) == stands_for(t, vni, bytes::at4(f.bytes, 26))
            &&& bytes::at4(out, by + 30) == stands_for(t, vni, bytes::at4(f.bytes, 30))
            &&& out[by + 23] == f.bytes[23]
            &&& parse::ports_of(out, by + 14) == parse::ports_of(f.bytes, 14)
            &&& !t.meter.contains_key(ifindex) && at_home ==> o.verdict == Ok::<Verdict, ()>(
                Verdict::Redirect(t.underlay[next].tap_ifindex),
            ) && by == 0
            &&& !t.meter.contains_key(ifindex) && !at_home && t.local is Some && f.headroom >= 40
                ==> o.verdict == Ok::<Verdict, ()>(
                Verdict::Redirect(t.local->Some_0.local.uplink_ifindex),
            ) && by == 40 && bytes::at16(out, 38) == next
        }),
{
    let vni = port.meta.vni;
    lemma_vips(f.bytes, t, vni, ifindex, now);
    let (a, ta) = admitted(f.bytes, t, vni, ifindex, now)->Some_0;
    let b = with_vips(a, ta, vni);
    let o = guest_tx4(f, t, port, ifindex, now);
    assert(o == routed4(f.with(b), ta, port, route, ifindex, now));
    let (c, tc) = translated_and_tracked(b, ta, vni, route.is_external, now);
    assert(c == b);
    lemma_leaves(f.with(b), ta, port, route, ifindex, now);
    let by = o.frame.bytes.len() - f.bytes.len();
    assert(bytes::at4(o.frame.bytes, by + 26) =~= bytes::at4(b, 26));
    assert(bytes::at4(o.frame.bytes, by + 30) =~= bytes::at4(b, 30));
    lemma_ports_moved(b, 14, o.frame.bytes, by);
    let next = route.value.nexthop_ipv6;
    let at_home = t.underlay.contains_key(next) && t.underlay[next].tap_ifindex != 0;
    if !t.meter.contains_key(ifindex) {
        assert(!tc.meter.contains_key(ifindex));
        assert((o.verdict, o.frame) == encap::forwarded(
            f.with(b),
            tc,
            port.underlay_ipv6,
            route.value,
            IPPROTO_IPIP,
        ));
        if !at_home && t.local is Some && f.headroom >= 40 {
            assert(bytes::at16(o.frame.bytes, 38) =~= next);
        }
    }
}

/// The frame that leaves holds the translated packet.
proof fn lemma_leaves(
    f: FrameView,
    t: TablesView,
    port: Port,
    route: Route,
    ifindex: u32,
    now: u64,
)
    requires
        f.bytes.len() >= 34,
    ensures
        ({
            let (c, _) = translated_and_tracked(
                f.bytes,
                t,
                port.meta.vni,
                route.is_external,
                now,
            );
            let out = routed4(f, t, port, route, ifindex, now).frame.bytes;
            let by = out.len() - f.bytes.len();
            &&& c.len() == f.bytes.len()
            &&& by == 0 || by == 40
            &&& forall|i: int| 14 <= i < f.bytes.len() ==> out[i + by] == #[trigger] c[i]
        }),
{
    let vni = port.meta.vni;
    let (c, tc) = translated_and_tracked(f.bytes, t, vni, route.is_external, now);
    let td = meter::tables_metered(tc, ifindex, c.len() as u64, route.is_external, now);
    encap::law_forwarded_frame_holds_the_packet(
        f.with(c),
        td,
        port.underlay_ipv6,
        route.value,
        IPPROTO_IPIP,
    );
}

/// A packet has the same ports wherever it stands.
proof fn lemma_ports_moved(b: Seq<u8>, ip: int, out: Seq<u8>, by: int)
    requires
        0 <= ip,
        0 <= by,
        ip + 20 <= b.len(),
        out.len() == b.len() + by,
        forall|i: int| ip <= i < b.len() ==> out[i + by] == #[trigger] b[i],
    ensures
        parse::ports_of(out, ip + by) == parse::ports_of(b, ip),
        out[ip + by] == b[ip],
        out[ip + 9 + by] == b[ip + 9],
{
    assert(out[ip + by] == b[ip]);
    assert(out[ip + 9 + by] == b[ip + 9]);
    let l4 = ip + parse::header_len(b, ip);
    if parse::header_len(b, ip) >= 20 {
        if l4 + 4 <= b.len() {
            assert(out[l4 + by] == b[l4] && out[l4 + 1 + by] == b[l4 + 1]);
            assert(out[l4 + 2 + by] == b[l4 + 2] && out[l4 + 3 + by] == b[l4 + 3]);
        }
        if l4 + 8 <= b.len() {
            assert(out[l4 + 4 + by] == b[l4 + 4] && out[l4 + 5 + by] == b[l4 + 5]);
        }
    }
}

/// Network NAT is what the outside sees: a new flow of a guest with a NAT configuration, whose route is
/// external, leaves from the public address and a port of the configured range; it still goes where it
/// went. Here no VIP is involved, and the packet is a whole TCP or UDP one.
#[verifier::spinoff_prover]
pub proof fn law_public_address_is_the_source_that_leaves(
    f: FrameView,
    t: TablesView,
    port: Port,
    ifindex: u32,
    now: u64,
    route: Route,
    conf: NatValue,
)
    requires
        f.bytes.len() >= 34,
        f.bytes[14] % 16 >= 5,
        gets_out(f.bytes, t, port.meta.vni, ifindex),
        ({
            let vni = port.meta.vni;
            let src = bytes::at4(f.bytes, 26);
            let dst = bytes::at4(f.bytes, 30);
            let l4 = 14 + 4 * (f.bytes[14] % 16);
            &&& (f.bytes[23] == 6 && l4 + 18 <= f.bytes.len()) || (f.bytes[23] == 17 && l4 + 8
                <= f.bytes.len())
            &&& !t.vips.contains_key(VipKey { vni, ipv4: src })
            &&& !t.vips.contains_key(VipKey { vni, ipv4: dst })
            &&& tables::longest4(t.routes, vni, dst, 32) == Some(route)
            &&& route.is_external
            &&& t.nat.contains_pair(NatKey { vni, ipv4: src }, conf)
            &&& conf.port_min < conf.port_max
            &&& !t.nat_ct.contains_key(
                NatFlow {
                    src_ip: src,
                    dst_ip: dst,
                    src_port: (f.bytes[l4] * 256 + f.bytes[l4 + 1]) as u16,
                    dst_port: (f.bytes[l4 + 2] * 256 + f.bytes[l4 + 3]) as u16,
                    proto: f.bytes[23],
                },
            )
        }),
    ensures
        ({
            let l4 = 14 + 4 * (f.bytes[14] % 16);
            let out = guest_tx4(f, t, port, ifindex, now).frame.bytes;
            let by = out.len() - f.bytes.len();
            &&& by == 0 || by == 40
            &&& bytes::at4(out, by + 26) == conf.nat_ipv4
            &&& bytes::at4(out, by + 30) == bytes::at4(f.bytes, 30)
            &&& out[by + 23] == f.bytes[23]
            &&& conf.port_min <= out[by + l4] * 256 + out[by + l4 + 1] < conf.port_max
            &&& out[by + l4 + 2] == f.bytes[l4 + 2]
            &&& out[by + l4 + 3] == f.bytes[l4 + 3]
        }),
{
    let ta = admitted(f.bytes, t, port.meta.vni, ifindex, now)->Some_0.1;
    lemma_straight(f, t, port, ifindex, now, route);
    lemma_public(f, ta, port, route, ifindex, now, conf);
}

/// A packet that gets out and has no VIP goes to its route as it is.
proof fn lemma_straight(
    f: FrameView,
    t: TablesView,
    port: Port,
    ifindex: u32,
    now: u64,
    route: Route,
)
    requires
        f.bytes.len() >= 34,
        f.bytes[14] % 16 >= 5,
        gets_out(f.bytes, t, port.meta.vni, ifindex),
        !t.vips.contains_key(VipKey { vni: port.meta.vni, ipv4: bytes::at4(f.bytes, 26) }),
        !t.vips.contains_key(VipKey { vni: port.meta.vni, ipv4: bytes::at4(f.bytes, 30) }),
        tables::longest4(t.routes, port.meta.vni, bytes::at4(f.bytes, 30), 32) == Some(route),
    ensures
        ({
            let ta = admitted(f.bytes, t, port.meta.vni, ifindex, now)->Some_0.1;
            &&& ta == (TablesView { conntrack: ta.conntrack, ..t })
            &&& guest_tx4(f, t, port, ifindex, now) == routed4(f, ta, port, route, ifindex, now)
        }),
{
    let vni = port.meta.vni;
    lemma_vips(f.bytes, t, vni, ifindex, now);
    let (a, ta) = admitted(f.bytes, t, vni, ifindex, now)->Some_0;
    assert(with_vips(a, ta, vni) == f.bytes);
    assert(f.with(f.bytes) == f);
}

/// The packet of a new flow with an external route leaves from the public address.
#[verifier::spinoff_prover]
proof fn lemma_public(
    f: FrameView,
    t: TablesView,
    port: Port,
    route: Route,
    ifindex: u32,
    now: u64,
    conf: NatValue,
)
    requires
        f.bytes.len() >= 34,
        f.bytes[14] % 16 >= 5,
        route.is_external,
        ({
            let src = bytes::at4(f.bytes, 26);
            let l4 = 14 + 4 * (f.bytes[14] % 16);
            &&& (f.bytes[23] == 6 && l4 + 18 <= f.bytes.len()) || (f.bytes[23] == 17 && l4 + 8
                <= f.bytes.len())
            &&& t.nat.contains_pair(NatKey { vni: port.meta.vni, ipv4: src }, conf)
            &&& conf.port_min < conf.port_max
            &&& !t.nat_ct.contains_key(
                NatFlow {
                    src_ip: src,
                    dst_ip: bytes::at4(f.bytes, 30),
                    src_port: (f.bytes[l4] * 256 + f.bytes[l4 + 1]) as u16,
                    dst_port: (f.bytes[l4 + 2] * 256 + f.bytes[l4 + 3]) as u16,
                    proto: f.bytes[23],
                },
            )
        }),
    ensures
        ({
            let l4 = 14 + 4 * (f.bytes[14] % 16);
            let out = routed4(f, t, port, route, ifindex, now).frame.bytes;
            let by = out.len() - f.bytes.len();
            &&& by == 0 || by == 40
            &&& bytes::at4(out, by + 26) == conf.nat_ipv4
            &&& bytes::at4(out, by + 30) == bytes::at4(f.bytes, 30)
            &&& out[by + 23] == f.bytes[23]
            &&& conf.port_min <= out[by + l4] * 256 + out[by + l4 + 1] < conf.port_max
            &&& out[by + l4 + 2] == f.bytes[l4 + 2]
            &&& out[by + l4 + 3] == f.bytes[l4 + 3]
        }),
{
    let l4 = 14 + 4 * (f.bytes[14] % 16);
    network_nat::law_new_flow_leaves_from_the_public_address(
        f.bytes,
        14,
        t,
        port.meta.vni,
        conf,
    );
    lemma_leaves(f, t, port, route, ifindex, now);
    let c = translated_and_tracked(f.bytes, t, port.meta.vni, true, now).0;
    let out = routed4(f, t, port, route, ifindex, now).frame.bytes;
    lemma_words_moved(c, out, out.len() - f.bytes.len(), l4);
}

/// A packet has the same addresses, protocol and first words wherever it stands.
proof fn lemma_words_moved(c: Seq<u8>, out: Seq<u8>, by: int, l4: int)
    requires
        c.len() >= 34,
        34 <= l4,
        l4 + 4 <= c.len(),
        out.len() == c.len() + by,
        forall|i: int| 14 <= i < c.len() ==> out[i + by] == #[trigger] c[i],
    ensures
        bytes::at4(out, by + 26) == bytes::at4(c, 26),
        bytes::at4(out, by + 30) == bytes::at4(c, 30),
        out[by + 23] == c[23],
        out[by + l4] == c[l4],
        out[by + l4 + 1] == c[l4 + 1],
        out[by + l4 + 2] == c[l4 + 2],
        out[by + l4 + 3] == c[l4 + 3],
{
    assert(bytes::at4(out, by + 26) =~= bytes::at4(c, 26));
    assert(bytes::at4(out, by + 30) =~= bytes::at4(c, 30));
    assert(out[23 + by] == c[23]);
    assert(out[l4 + by] == c[l4] && out[l4 + 1 + by] == c[l4 + 1]);
    assert(out[l4 + 2 + by] == c[l4 + 2] && out[l4 + 3 + by] == c[l4 + 3]);
}

/// What a packet of a known flow makes of the flow's entry.
proof fn lemma_known_entry(
    f: FrameView,
    t: TablesView,
    port: Port,
    ifindex: u32,
    now: u64,
    key: CtKey,
)
    requires
        f.bytes.len() >= 34,
        f.bytes[14] % 16 >= 5,
        conntrack::key_of(f.bytes, 14, port.meta.vni) == Some(key),
        t.conntrack.contains_key(key),
    ensures
        ({
            let l4 = 14 + 4 * (f.bytes[14] % 16);
            let e = t.conntrack[key];
            let o = guest_tx4(f, t, port, ifindex, now);
            let n = o.tables.conntrack[key];
            &&& o.tables.conntrack.contains_key(key)
            &&& n.last_seen == now
            &&& f.bytes[23] == 6 && l4 + 14 <= f.bytes.len() ==> n.tcp_state
                == conntrack::advanced(e.tcp_state, f.bytes[l4 + 13])
            &&& f.bytes[23] != 6 ==> n.tcp_state == e.tcp_state
            &&& n.flags == e.flags && n.xlate_ip == e.xlate_ip && n.xlate_port == e.xlate_port
            &&& forall|k: CtKey|
                k != key && #[trigger] t.conntrack.contains_key(k)
                    ==> o.tables.conntrack.contains_pair(k, t.conntrack[k])
        }),
{
    let vni = port.meta.vni;
    let l4 = 14 + 4 * (f.bytes[14] % 16);
    let e = t.conntrack[key];
    let g = if conntrack::rewrites_src(e.flags) {
        conntrack::applied(f.bytes, 14, e)
    } else {
        f.bytes
    };
    if conntrack::rewrites_src(e.flags) && f.bytes[14] % 16 == 5 {
        translate::law_translated_bytes(
            f.bytes,
            14,
            34,
            conntrack::entry_end(e),
            e.xlate_ip,
            conntrack::entry_port(e),
        );
    }
    assert(g.len() == f.bytes.len() && g[14] == f.bytes[14] && g[23] == f.bytes[23]);
    assert(l4 + 14 <= f.bytes.len() && f.bytes[23] == 6 ==> g[l4 + 13] == f.bytes[l4 + 13]);
    let (a, ta) = admitted(f.bytes, t, vni, ifindex, now)->Some_0;
    assert(a == g);
    conntrack::law_seen_packet_refreshes_its_entry(g, 14, e, now);
    let n = conntrack::touched(g, 14, e, now);
    assert(ta.conntrack == t.conntrack.insert(key, n));
    let b = with_vips(a, ta, vni);
    let o = guest_tx4(f, t, port, ifindex, now);
    if let Some(route) = tables::longest4(ta.routes, vni, bytes::at4(b, 30), 32) {
        assert(o == routed4(f.with(b), ta, port, route, ifindex, now));
        lemma_entries_stay(b, ta, vni, route.is_external, now);
        let (c, tc) = translated_and_tracked(b, ta, vni, route.is_external, now);
        assert(o.tables.conntrack == tc.conntrack);
    }
}

/// Entering a flow keeps the entries that are there.
proof fn lemma_entries_stay(f: Seq<u8>, t: TablesView, vni: u32, external: bool, now: u64)
    ensures
        forall|k: CtKey| #[trigger]
            t.conntrack.contains_key(k) ==> translated_and_tracked(
                f,
                t,
                vni,
                external,
                now,
            ).1.conntrack.contains_pair(k, t.conntrack[k]),
{
    let g = network_nat::snat_frame(f, ip_at(), t, vni, external);
    let u = network_nat::snat_tables(f, ip_at(), t, vni, external);
    assert(u.conntrack == t.conntrack);
}

/// Every packet of a known flow refreshes the flow: after a guest's packet was handled, the entry of
/// its five-tuple was last seen now, and keeps the translation it had. Where the packet is a TCP
/// segment, its flags have moved the state; any other packet leaves it.
pub proof fn law_segments_advance_a_known_flow(
    f: FrameView,
    t: TablesView,
    port: Port,
    ifindex: u32,
    now: u64,
)
    requires
        f.bytes.len() >= 34,
        f.bytes[14] % 16 >= 5,
        f.bytes[23] == 6 || f.bytes[23] == 17,
        14 + 4 * (f.bytes[14] % 16) + 14 <= f.bytes.len(),
        ({
            let l4 = 14 + 4 * (f.bytes[14] % 16);
            t.conntrack.contains_key(
                CtKey {
                    vni: port.meta.vni,
                    src_ip: bytes::at4(f.bytes, 26),
                    dst_ip: bytes::at4(f.bytes, 30),
                    src_port: (f.bytes[l4] * 256 + f.bytes[l4 + 1]) as u16,
                    dst_port: (f.bytes[l4 + 2] * 256 + f.bytes[l4 + 3]) as u16,
                    proto: f.bytes[23],
                },
            )
        }),
    ensures
        ({
            let l4 = 14 + 4 * (f.bytes[14] % 16);
            let key = CtKey {
                vni: port.meta.vni,
                src_ip: bytes::at4(f.bytes, 26),
                dst_ip: bytes::at4(f.bytes, 30),
                src_port: (f.bytes[l4] * 256 + f.bytes[l4 + 1]) as u16,
                dst_port: (f.bytes[l4 + 2] * 256 + f.bytes[l4 + 3]) as u16,
                proto: f.bytes[23],
            };
            let was = t.conntrack[key];
            let ct = guest_tx4(f, t, port, ifindex, now).tables.conntrack;
            &&& ct.contains_key(key)
            &&& ct[key].last_seen == now
            &&& f.bytes[23] == 6 ==> ct[key].tcp_state == conntrack::advanced(
                was.tcp_state,
                f.bytes[l4 + 13],
            )
            &&& f.bytes[23] == 17 ==> ct[key].tcp_state == was.tcp_state
            &&& ct[key].flags == was.flags
            &&& ct[key].xlate_ip == was.xlate_ip
            &&& ct[key].xlate_port == was.xlate_port
        }),
{
    conntrack::law_key_is_the_five_tuple(f.bytes, 14, port.meta.vni);
    let key = conntrack::key_of(f.bytes, 14, port.meta.vni)->Some_0;
    lemma_known_entry(f, t, port, ifindex, now, key);
}

/// The first packet of a flow enters it: where the rules let it out, a route is found and nothing
/// translates it, both its five-tuple and the inverted one have an entry that was seen now and
/// translates nothing; the flags of a TCP segment have moved the state from none.
pub proof fn law_first_packet_enters_its_flow(
    f: FrameView,
    t: TablesView,
    port: Port,
    ifindex: u32,
    now: u64,
    route: Route,
    key: CtKey,
)
    requires
        f.bytes.len() >= 34,
        f.bytes[14] % 16 >= 5,
        f.bytes[23] == 6 || f.bytes[23] == 17,
        14 + 4 * (f.bytes[14] % 16) + 14 <= f.bytes.len(),
        ({
            let vni = port.meta.vni;
            let l4 = 14 + 4 * (f.bytes[14] % 16);
            let src = bytes::at4(f.bytes, 26);
            let dst = bytes::at4(f.bytes, 30);
            &&& key == CtKey {
                vni,
                src_ip: src,
                dst_ip: dst,
                src_port: (f.bytes[l4] * 256 + f.bytes[l4 + 1]) as u16,
                dst_port: (f.bytes[l4 + 2] * 256 + f.bytes[l4 + 3]) as u16,
                proto: f.bytes[23],
            }
            &&& !t.conntrack.contains_key(key)
            &&& !t.conntrack.contains_key(conntrack::inverted(key))
            &&& !firewall::denied(f.bytes, 14, t, ifindex, FW_DIR_EGRESS)
            &&& !t.vips.contains_key(VipKey { vni, ipv4: src })
            &&& !t.vips.contains_key(VipKey { vni, ipv4: dst })
            &&& tables::longest4(t.routes, vni, dst, 32) == Some(route)
            &&& route.is_external ==> !t.nat.contains_key(NatKey { vni, ipv4: src })
        }),
    ensures
        ({
            let l4 = 14 + 4 * (f.bytes[14] % 16);
            let o = guest_tx4(f, t, port, ifindex, now);
            let ct = o.tables.conntrack;
            &&& ct.contains_key(key)
            &&& ct.contains_pair(conntrack::inverted(key), ct[key])
            &&& ct[key].last_seen == now
            &&& ct[key].flags == 0
            &&& f.bytes[23] == 6 ==> ct[key].tcp_state == conntrack::advanced(
                TCP_NONE,
                f.bytes[l4 + 13],
            )
            &&& f.bytes[23] == 17 ==> ct[key].tcp_state == TCP_NONE
            &&& o.tables == (TablesView { conntrack: ct, meter: o.tables.meter, ..t })
        }),
{
    let vni = port.meta.vni;
    conntrack::law_key_is_the_five_tuple(f.bytes, 14, vni);
    lemma_vips(f.bytes, t, vni, ifindex, now);
    let (a, ta) = admitted(f.bytes, t, vni, ifindex, now)->Some_0;
    assert(with_vips(a, ta, vni) == f.bytes);
    assert(f.with(f.bytes) == f);
    assert(ta == t);
    assert(guest_tx4(f, t, port, ifindex, now) == routed4(f, t, port, route, ifindex, now));
    let (c, tc) = translated_and_tracked(f.bytes, t, vni, route.is_external, now);
    assert(c == f.bytes);
    conntrack::law_new_flow_starts_untranslated(t.conntrack, f.bytes, 14, key, now);
}

/// Other flows stay: whatever a guest sends, the entry of a flow that its packet does not belong to is
/// what it was.
pub proof fn law_other_flows_stay(
    f: FrameView,
    t: TablesView,
    port: Port,
    ifindex: u32,
    now: u64,
    other: CtKey,
)
    requires
        f.bytes.len() >= 34,
        f.bytes[14] % 16 >= 5,
        t.conntrack.contains_key(other),
        conntrack::key_of(f.bytes, 14, port.meta.vni) != Some(other),
    ensures
        guest_tx4(f, t, port, ifindex, now).tables.conntrack.contains_pair(
            other,
            t.conntrack[other],
        ),
{
    let vni = port.meta.vni;
    if let Some((a, ta)) = admitted(f.bytes, t, vni, ifindex, now) {
        assert(ta.conntrack.contains_pair(other, t.conntrack[other]));
        let b = with_vips(a, ta, vni);
        if let Some(route) = tables::longest4(ta.routes, vni, bytes::at4(b, 30), 32) {
            lemma_entries_stay(b, ta, vni, route.is_external, now);
            let tc = translated_and_tracked(b, ta, vni, route.is_external, now).1;
            assert(tc.conntrack.contains_pair(other, t.conntrack[other]));
            assert(guest_tx4(f, t, port, ifindex, now).tables.conntrack == tc.conntrack);
        }
    }
}

/// A guest that asks where its gateway is gets told on the spot: an ARP request for the gateway's
/// address is sent back as the reply that it is at 02:00:00:00:00:01, to the asking MAC, and no table
/// changes.
pub proof fn law_arp_is_answered_on_the_spot(
    f: FrameView,
    t: TablesView,
    ifindex: u32,
    now: u64,
)
    requires
        t.ports.contains_key(ifindex),
        f.bytes.len() >= 42,
        f.bytes[12] == 8 && f.bytes[13] == 6,
        f.bytes[20] == 0 && f.bytes[21] == 1,
        bytes::at4(f.bytes, 38) == t.ports[ifindex].meta.gateway_ipv4,
    ensures
        ({
            let o = tap_rx(f, t, ifindex, now);
            let b = o.frame.bytes;
            &&& o.verdict == Ok::<Verdict, ()>(Verdict::Reflect)
            &&& o.tables == t
            &&& b.len() == f.bytes.len()
            &&& bytes::at6(b, 0) == bytes::at6(f.bytes, 22)
            &&& bytes::at6(b, 6) == [2u8, 0, 0, 0, 0, 1]
            &&& b[20] == 0 && b[21] == 2
            &&& bytes::at6(b, 22) == [2u8, 0, 0, 0, 0, 1]
            &&& bytes::at4(b, 28) == t.ports[ifindex].meta.gateway_ipv4
            &&& bytes::at6(b, 32) == bytes::at6(f.bytes, 22)
            &&& bytes::at4(b, 38) == bytes::at4(f.bytes, 28)
        }),
{
    reveal(resolved);
    arp_nd::law_arp_reply_tells_the_gateways_mac(
        f.bytes,
        t.ports[ifindex].meta.gateway_ipv4,
        GW_MAC,
    );
}

/// A guest that solicits its IPv6 gateway gets told on the spot: the solicitation is sent back as the
/// advertisement that the gateway is at 02:00:00:00:00:01, and no table changes.
pub proof fn law_nd_is_answered_on_the_spot(
    f: FrameView,
    t: TablesView,
    ifindex: u32,
    now: u64,
)
    requires
        t.ports.contains_key(ifindex),
        f.bytes.len() >= 86,
        f.bytes[12] == 0x86 && f.bytes[13] == 0xdd,
        f.bytes[20] == 58,
        f.bytes[54] == 135,
        bytes::at16(f.bytes, 62) == t.ports[ifindex].gateway_ipv6,
    ensures
        ({
            let o = tap_rx(f, t, ifindex, now);
            let b = o.frame.bytes;
            &&& o.verdict == Ok::<Verdict, ()>(Verdict::Reflect)
            &&& o.tables == t
            &&& b.len() == f.bytes.len()
            &&& bytes::at6(b, 6) == [2u8, 0, 0, 0, 0, 1]
            &&& bytes::at16(b, 22) == t.ports[ifindex].gateway_ipv6
            &&& bytes::at16(b, 38) == bytes::at16(f.bytes, 22)
            &&& b[54] == 136 && b[58] == 0x60
            &&& bytes::at16(b, 62) == t.ports[ifindex].gateway_ipv6
            &&& b[78] == 2 && b[79] == 1
            &&& bytes::at6(b, 80) == [2u8, 0, 0, 0, 0, 1]
        }),
{
    reveal(resolved);
    arp_nd::law_advertisement_tells_the_gateways_mac(
        f.bytes,
        t.ports[ifindex].gateway_ipv6,
        GW_MAC,
    );
    assert(!arp_nd::asks_arp(f.bytes, t.ports[ifindex].meta.gateway_ipv4));
}

/// A DHCP request is answered on the spot: where the responders have an answer for the frame of a
/// guest's tap, the frame that goes back is that answer, a DHCPv4 one before a DHCPv6 one, and the
/// tables are those of a looked-at request. The DHCP program does the same.
pub proof fn law_dhcp_is_answered_on_the_spot(
    f: FrameView,
    t: TablesView,
    ifindex: u32,
    now: u64,
)
    requires
        t.ports.contains_key(ifindex),
    ensures
        ({
            let port = t.ports[ifindex];
            let o = tap_rx(f, t, ifindex, now);
            let p = dhcp_out(f, t, ifindex);
            let learned = dhcp4::tables_after4(f.bytes, t, port, ifindex);
            &&& dhcp4::answer4(f, t, port, ifindex) matches Some(answer) ==> o.verdict == Ok::<
                Verdict,
                (),
            >(Verdict::Reflect) && o.frame == answer && o.tables == learned && p.verdict
                == o.verdict && p.frame == answer && p.tables == learned
            &&& dhcp6::answer6(f, t, port, ifindex) matches Some(answer) ==> o.verdict == Ok::<
                Verdict,
                (),
            >(Verdict::Reflect) && o.frame == answer && o.tables == t && p.verdict == o.verdict
                && p.frame == answer && p.tables == t
        }),
{
    reveal(resolved);
    reveal(leased);
    let port = t.ports[ifindex];
    let g = f.bytes;
    if dhcp4::answer4(f, t, port, ifindex) is Some {
        dhcp4::law_dhcp4_requests_are_answered(f, t, port, ifindex);
        assert(!arp_nd::asks_arp(g, port.meta.gateway_ipv4));
        assert(!arp_nd::asks_nd(g, port.gateway_ipv6));
    }
    if dhcp6::answer6(f, t, port, ifindex) is Some {
        dhcp6::law_dhcp6_requests_are_answered(f, t, port, ifindex);
        dhcp4::law_dhcp4_requests_are_answered(f, t, port, ifindex);
        assert(!arp_nd::asks_arp(g, port.meta.gateway_ipv4));
        assert(!arp_nd::asks_nd(g, port.gateway_ipv6));
        assert(dhcp4::request4(g) is None);
    }
}

/// Everything else is for the overlay, told apart by its ethertype: IPv6 (0x86dd) takes the IPv6 path,
/// IPv4 (0x0800) with a whole header the IPv4 path, and the rest is passed on as it is. A frame from a
/// tap that is no guest's port is left alone.
pub proof fn law_frames_are_told_apart(f: FrameView, t: TablesView, ifindex: u32, now: u64)
    requires
        f.bytes.len() >= 14,
    ensures
        ({
            let b = f.bytes;
            let o = tap_rx(f, t, ifindex, now);
            let port = t.ports[ifindex];
            let unanswered = !arp_nd::asks_arp(b, port.meta.gateway_ipv4) && !arp_nd::asks_nd(
                b,
                port.gateway_ipv6,
            ) && dhcp4::request4(b) is None && !dhcp6::is_dhcp6(b);
            let known = t.ports.contains_key(ifindex);
            &&& !known ==> o == (Outcome { verdict: Err(()), frame: f, tables: t })
            &&& known && unanswered && b[12] == 0x86 && b[13] == 0xdd ==> (o.verdict, o.frame)
                == v6::guest_tx6(f, t, port) && o.tables == t
            &&& known && unanswered && b[12] == 8 && b[13] == 0 && b.len() >= 34 ==> o == guest_tx4(
                f,
                t,
                port,
                ifindex,
                now,
            )
            &&& known && unanswered && ((b[12] == 8 && b[13] == 0 && b.len() < 34) || ((b[12] != 8
                || b[13] != 0) && (b[12] != 0x86 || b[13] != 0xdd))) ==> o == (Outcome {
                verdict: Ok(Verdict::Pass),
                frame: f,
                tables: t,
            })
        }),
{
    reveal(resolved);
    reveal(leased);
    reveal(overlay_tx);
    assert(bytes::be16(f.bytes, 12) == f.bytes[12] * 256 + f.bytes[13]);
}

/// A packet without a route is nobody's: where no prefix of the VNI covers its destination, it is an
/// error, and nothing is sent. A packet that the meter does not let pass is dropped.
pub proof fn law_unroutable_and_unmetered_packets_stay(
    f: FrameView,
    t: TablesView,
    port: Port,
    ifindex: u32,
    now: u64,
)
    requires
        f.bytes.len() >= 34,
        f.bytes[14] % 16 >= 5,
        gets_out(f.bytes, t, port.meta.vni, ifindex),
        !t.vips.contains_key(VipKey { vni: port.meta.vni, ipv4: bytes::at4(f.bytes, 26) }),
        !t.vips.contains_key(VipKey { vni: port.meta.vni, ipv4: bytes::at4(f.bytes, 30) }),
    ensures
        ({
            let o = guest_tx4(f, t, port, ifindex, now);
            let found = tables::longest4(
                t.routes,
                port.meta.vni,
                bytes::at4(f.bytes, 30),
                32,
            );
            &&& found is None ==> o.verdict == Err::<Verdict, ()>(()) && o.frame == f
            &&& found matches Some(route) ==> !meter::allowed(
                t,
                ifindex,
                f.bytes.len() as u64,
                route.is_external,
                now,
            ) ==> o.verdict == Ok::<Verdict, ()>(Verdict::Drop)
            &&& found matches Some(route) ==> meter::allowed(
                t,
                ifindex,
                f.bytes.len() as u64,
                route.is_external,
                now,
            ) ==> o.verdict != Ok::<Verdict, ()>(Verdict::Drop)
        }),
{
    let vni = port.meta.vni;
    lemma_vips(f.bytes, t, vni, ifindex, now);
    let (a, ta) = admitted(f.bytes, t, vni, ifindex, now)->Some_0;
    assert(with_vips(a, ta, vni) == f.bytes);
    assert(f.with(f.bytes) == f);
    if let Some(route) = tables::longest4(t.routes, vni, bytes::at4(f.bytes, 30), 32) {
        lemma_leaves(f, ta, port, route, ifindex, now);
        let (c, tc) = translated_and_tracked(f.bytes, ta, vni, route.is_external, now);
        assert(tc.meter == t.meter);
    }
}

/// An IPv4 packet is carried as such: a packet that leaves for another hypervisor is encapsulated with
/// next header 4, from the port's own underlay address to the nexthop of its route, by way of the
/// uplink; one for a guest of this host goes to the tap and the MAC of the nexthop's owner. The length
/// that the meter counts is the frame's.
pub proof fn law_packet_leaves_for_its_nexthop(
    f: FrameView,
    t: TablesView,
    port: Port,
    ifindex: u32,
    now: u64,
    route: Route,
)
    requires
        34 <= f.bytes.len() <= 65549,
        f.bytes[14] % 16 >= 5,
        f.headroom >= 40,
        t.local is Some,
        gets_out(f.bytes, t, port.meta.vni, ifindex),
        !t.vips.contains_key(VipKey { vni: port.meta.vni, ipv4: bytes::at4(f.bytes, 26) }),
        !t.vips.contains_key(VipKey { vni: port.meta.vni, ipv4: bytes::at4(f.bytes, 30) }),
        tables::longest4(t.routes, port.meta.vni, bytes::at4(f.bytes, 30), 32) == Some(route),
        route.is_external ==> !t.nat.contains_key(
            NatKey { vni: port.meta.vni, ipv4: bytes::at4(f.bytes, 26) },
        ),
        !t.meter.contains_key(ifindex),
    ensures
        ({
            let o = guest_tx4(f, t, port, ifindex, now);
            let b = o.frame.bytes;
            let next = route.value.nexthop_ipv6;
            let at_home = t.underlay.contains_key(next) && t.underlay[next].tap_ifindex != 0;
            let uplink = t.local->Some_0;
            &&& at_home ==> {
                &&& o.verdict == Ok::<Verdict, ()>(Verdict::Redirect(t.underlay[next].tap_ifindex))
                &&& b.len() == f.bytes.len()
                &&& bytes::at6(b, 0) == t.underlay[next].guest_mac
                &&& bytes::at6(b, 6) == [2u8, 0, 0, 0, 0, 1]
                &&& forall|i: int| 12 <= i < b.len() ==> #[trigger] b[i] == f.bytes[i]
            }
            &&& !at_home ==> {
                &&& o.verdict == Ok::<Verdict, ()>(Verdict::Redirect(uplink.local.uplink_ifindex))
                &&& b.len() == f.bytes.len() + 40
                &&& bytes::at6(b, 0) == uplink.gateway_mac
                &&& bytes::at6(b, 6) == uplink.local.uplink_mac
                &&& b[12] == 0x86 && b[13] == 0xdd && b[14] == 0x60
                &&& b[18] * 256 + b[19] == f.bytes.len() - 14
                &&& b[20] == 4 && b[21] == 64
                &&& bytes::at16(b, 22) == port.underlay_ipv6
                &&& bytes::at16(b, 38) == next
                &&& forall|i: int| 14 <= i < f.bytes.len() ==> b[i + 40] == #[trigger] f.bytes[i]
            }
        }),
{
    let vni = port.meta.vni;
    lemma_vips(f.bytes, t, vni, ifindex, now);
    let (a, ta) = admitted(f.bytes, t, vni, ifindex, now)->Some_0;
    assert(with_vips(a, ta, vni) == f.bytes);
    assert(f.with(f.bytes) == f);
    let (c, tc) = translated_and_tracked(f.bytes, ta, vni, route.is_external, now);
    assert(c == f.bytes);
    assert(!tc.meter.contains_key(ifindex));
    let o = guest_tx4(f, t, port, ifindex, now);
    assert((o.verdict, o.frame) == encap::forwarded(
        f,
        tc,
        port.underlay_ipv6,
        route.value,
        IPPROTO_IPIP,
    ));
    let next = route.value.nexthop_ipv6;
    if t.underlay.contains_key(next) && t.underlay[next].tap_ifindex != 0 {
        encap::law_neighbor_gets_the_frame_from_the_gateway(
            f,
            tc,
            port.underlay_ipv6,
            route.value,
            IPPROTO_IPIP,
        );
    } else {
        encap::law_outer_headers_lead_to_the_nexthop(
            f,
            tc,
            port.underlay_ipv6,
            route.value,
            IPPROTO_IPIP,
        );
        encap::law_forwarded_frame_holds_the_packet(
            f,
            tc,
            port.underlay_ipv6,
            route.value,
            IPPROTO_IPIP,
        );
    }
}

/// A tracked source translation is undone on the way out, by offset: a packet (without IPv4 options) of
/// a known flow whose entry rewrites the source leaves with the entry's address for a source, where that
/// has no VIP, and the entry's port where it has one; conntrack keeps the flow under the key the guest
/// uses. Here network NAT does not apply, and the packet is a whole TCP or UDP one.
pub proof fn law_tracked_source_is_what_leaves(
    f: FrameView,
    t: TablesView,
    port: Port,
    ifindex: u32,
    now: u64,
    route: Route,
    e: CtEntry,
)
    requires
        f.bytes.len() >= 34,
        f.bytes[14] % 16 == 5,
        (f.bytes[23] == 6 && f.bytes.len() >= 52) || (f.bytes[23] == 17 && f.bytes.len() >= 42),
        ({
            let vni = port.meta.vni;
            let dst = bytes::at4(f.bytes, 30);
            &&& conntrack::key_of(f.bytes, 14, vni) matches Some(key)
            &&& t.conntrack.contains_pair(key, e)
            &&& e.flags % 2 == 1
            &&& !t.vips.contains_key(VipKey { vni, ipv4: e.xlate_ip })
            &&& !t.vips.contains_key(VipKey { vni, ipv4: dst })
            &&& tables::longest4(t.routes, vni, dst, 32) == Some(route)
            &&& route.is_external ==> !t.nat.contains_key(NatKey { vni, ipv4: e.xlate_ip })
        }),
    ensures
        ({
            let out = guest_tx4(f, t, port, ifindex, now).frame.bytes;
            let by = out.len() - f.bytes.len();
            &&& by == 0 || by == 40
            &&& bytes::at4(out, by + 26) == e.xlate_ip
            &&& bytes::at4(out, by + 30) == bytes::at4(f.bytes, 30)
            &&& e.xlate_port != 0 ==> out[by + 34] * 256 + out[by + 35] == e.xlate_port
            &&& e.xlate_port == 0 ==> out[by + 34] == f.bytes[34] && out[by + 35] == f.bytes[35]
            &&& out[by + 36] == f.bytes[36] && out[by + 37] == f.bytes[37]
        }),
{
    let vni = port.meta.vni;
    let key = conntrack::key_of(f.bytes, 14, vni)->Some_0;
    let g = conntrack::applied(f.bytes, 14, e);
    translate::law_translated_bytes(
        f.bytes,
        14,
        34,
        End::Source,
        e.xlate_ip,
        conntrack::entry_port(e),
    );
    assert(g == translate::translated(
        f.bytes,
        14,
        34,
        End::Source,
        e.xlate_ip,
        conntrack::entry_port(e),
    ));
    let (a, ta) = admitted(f.bytes, t, vni, ifindex, now)->Some_0;
    assert(a == g);
    assert(bytes::at4(g, 30) =~= bytes::at4(f.bytes, 30));
    assert(with_vips(g, ta, vni) == g);
    let o = guest_tx4(f, t, port, ifindex, now);
    assert(o == routed4(f.with(g), ta, port, route, ifindex, now));
    let (c, tc) = translated_and_tracked(g, ta, vni, route.is_external, now);
    assert(c == g);
    lemma_leaves(f.with(g), ta, port, route, ifindex, now);
    let out = o.frame.bytes;
    let by = out.len() - f.bytes.len();
    assert(bytes::at4(out, by + 26) =~= bytes::at4(g, 26));
    assert(bytes::at4(out, by + 30) =~= bytes::at4(g, 30));
    assert(out[34 + by] == g[34] && out[35 + by] == g[35]);
    assert(out[36 + by] == g[36] && out[37 + by] == g[37]);
}

/// The DHCP program answers requests and nothing else: a frame that the responders have no answer for is
/// passed on as it is.
pub proof fn law_dhcp_program_passes_the_rest(f: FrameView, t: TablesView, ifindex: u32)
    requires
        t.ports.contains_key(ifindex) ==> dhcp4::answer4(f, t, t.ports[ifindex], ifindex) is None
            && !dhcp6::is_dhcp6(f.bytes),
    ensures
        dhcp_out(f, t, ifindex).verdict == Ok::<Verdict, ()>(Verdict::Pass),
        dhcp_out(f, t, ifindex).frame == f,
{
    reveal(leased);
}

} // verus!
