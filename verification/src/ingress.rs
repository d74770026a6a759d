//! The underlay-facing program: what becomes of an encapsulated frame from the uplink.

use vstd::prelude::*;

use crate::arp_nd::GW_MAC;
use crate::bytes;
use crate::bytes::{read16, read2};
use crate::conntrack;
use crate::conntrack::{ct_apply, ct_ensure_default, ct_key, ct_touch, is_rewrite_dst};
use crate::egress;
use crate::encap;
use crate::encap::{decap, reforward};
use crate::firewall;
use crate::firewall::fw_denies;
use crate::frame::{Frame, FrameView};
use crate::lb;
use crate::lb::{lb_select_dnat, lb_select_forward};
use crate::network_nat;
use crate::network_nat::{find_neighbor, is_nat_return, nat_dnat_ingress};
use crate::parse;
use crate::parse::{ETH_LEN, ETH_P_IP, ETH_P_IPV6, IPPROTO_IPIP, IPV6_LEN};
use crate::table::Addr6;
use crate::tables::{Tables, TablesView};
use crate::translate;
use crate::translate::End;
use crate::types::{
    CtEntry, CtKey, IfaceKey, NatCtVal, Port, Route, UnderlayValue, Uplink, VipKey, FW_DIR_INGRESS,
    TCP_NONE,
};
use crate::verdict::{Outcome, Verdict};
use crate::vip;
use crate::vip::dnat_ingress;

verus! {

/// Where the inner IPv4 header of an encapsulated frame stands.
pub const INNER: usize = 54;

/// Whether a frame is IPv4 in IPv6, with all of the inner header's fixed part.
pub open spec fn is_overlay4(f: Seq<u8>) -> bool {
    &&& f.len() >= INNER + 20
    &&& parse::ethertype(f) == ETH_P_IPV6
    &&& f[ETH_LEN + 6] == IPPROTO_IPIP
}

/// What the translations made of an inbound packet.
pub struct Inbound {
    pub bytes: Seq<u8>,
    pub tables: TablesView,
    /// The backend, where a load balancer picked one.
    pub backend: Option<[u8; 4]>,
    /// Whether a tracked flow's translation was undone.
    pub restored: bool,
    /// Whether the packet is the return of a flow that left through network NAT.
    pub returned: bool,
}

/// An inbound packet of VNI `vni` after the translations of its destination: a load balancer's
/// comes first; only where there is none, a tracked flow's; and only where there is none of these,
/// network NAT's.
pub open spec fn inbound(f: Seq<u8>, t: TablesView, vni: u32, now: u64) -> Inbound {
    let ip = INNER as int;
    match lb::deliver_to(f, ip, t, vni) {
        Some(backend) => Inbound {
            bytes: lb::delivered(f, ip, t, vni),
            tables: t,
            backend: Some(backend),
            restored: false,
            returned: false,
        },
        None => match conntrack::key_of(f, ip, vni) {
            Some(key) if t.conntrack.contains_key(key) && conntrack::rewrites_dst(
                t.conntrack[key].flags,
            ) => {
                let e = t.conntrack[key];
                let g = conntrack::applied(f, ip, e);
                Inbound {
                    bytes: g,
                    tables: TablesView {
                        conntrack: t.conntrack.insert(key, conntrack::touched(g, ip, e, now)),
                        ..t
                    },
                    backend: None,
                    restored: true,
                    returned: false,
                }
            },
            _ => match network_nat::returns_to(f, ip, t, vni) {
                Some(_) => Inbound {
                    bytes: network_nat::dnat_frame(f, ip, t.nat_ct),
                    tables: t,
                    backend: None,
                    restored: false,
                    returned: true,
                },
                None => Inbound {
                    bytes: f,
                    tables: t,
                    backend: None,
                    restored: false,
                    returned: false,
                },
            },
        },
    }
}

/// Undo a tracked flow's translation of the destination. Says whether there was one.
fn restore_tracked(f: &mut Vec<u8>, tables: &mut Tables, vni: u32, now: u64) -> (done: bool)
    requires
        lb::deliver_to(old(f)@, INNER as int, old(tables)@, vni) is None,
    ensures
        done == inbound(old(f)@, old(tables)@, vni, now).restored,
        done ==> final(f)@ == inbound(old(f)@, old(tables)@, vni, now).bytes && final(tables)@
            == inbound(old(f)@, old(tables)@, vni, now).tables,
        !done ==> final(f)@ == old(f)@ && final(tables)@ == old(tables)@,
        final(f).len() == old(f).len(),
{
    let key = match ct_key(f, INNER, vni) {
        Some(k) => k,
        None => {
            return false;
        },
    };
    match tables.conntrack.get(&key) {
        Some(found) => {
            if is_rewrite_dst(found.flags) {
                let mut e: CtEntry = found;
                ct_apply(f, INNER, &e);
                ct_touch(f, INNER, tables, &key, &mut e, now);
                return true;
            }
        },
        None => {},
    }
    false
}

/// Apply the translations of an inbound packet's destination.
fn restore(f: &mut Vec<u8>, tables: &mut Tables, vni: u32, now: u64) -> (r: (
    Option<[u8; 4]>,
    bool,
    bool,
))
    ensures
        (Inbound {
            bytes: final(f)@,
            tables: final(tables)@,
            backend: r.0,
            restored: r.1,
            returned: r.2,
        }) == inbound(old(f)@, old(tables)@, vni, now),
        final(f).len() == old(f).len(),
{
    if let Some(backend) = lb_select_dnat(f, INNER, tables, vni) {
        return (Some(backend), false, false);
    }
    if restore_tracked(f, tables, vni, now) {
        return (None, true, false);
    }
    if is_nat_return(f, INNER, tables, vni) {
        let _ = nat_dnat_ingress(f, INNER, tables);
        return (None, false, true);
    }
    (None, false, false)
}

/// Which tap, with which guest MAC, gets an inbound packet: the backend's where a load balancer
/// picked one, else that of the outer destination's owner. A backend without an interface is an
/// error; one that is not on this host gets nothing from here.
pub open spec fn delivery(
    t: TablesView,
    owner: UnderlayValue,
    backend: Option<[u8; 4]>,
) -> Result<Option<(u32, [u8; 6])>, ()> {
    match backend {
        Some(ipv4) => {
            let key = IfaceKey { vni: owner.vni, ipv4 };
            if !t.interfaces.contains_key(key) {
                Err(())
            } else if t.interfaces[key].is_local == 0 {
                Ok(None)
            } else {
                Ok(Some((t.interfaces[key].tap_ifindex, t.interfaces[key].guest_mac)))
            }
        },
        None => Ok(Some((owner.tap_ifindex, owner.guest_mac))),
    }
}

fn find_delivery(tables: &Tables, owner: &UnderlayValue, backend: Option<[u8; 4]>) -> (r: Result<
    Option<(u32, [u8; 6])>,
    (),
>)
    ensures
        r == delivery(tables@, *owner, backend),
{
    match backend {
        Some(ipv4) => match tables.interfaces.get(&IfaceKey::new(owner.vni, ipv4)) {
            Some(iface) => {
                if iface.is_local == 0 {
                    Ok(None)
                } else {
                    Ok(Some((iface.tap_ifindex, iface.guest_mac)))
                }
            },
            None => Err(()),
        },
        None => Ok(Some((owner.tap_ifindex, owner.guest_mac))),
    }
}

/// Whether the destination interface's rules deny an inbound packet. Packets of known flows are
/// not looked at.
pub open spec fn refused(f: Seq<u8>, t: TablesView, vni: u32, tap: u32) -> bool {
    match conntrack::key_of(f, INNER as int, vni) {
        Some(key) => !t.conntrack.contains_key(key) && firewall::denied(
            f,
            INNER as int,
            t,
            tap,
            FW_DIR_INGRESS,
        ),
        None => false,
    }
}

fn refuse(f: &Vec<u8>, tables: &Tables, vni: u32, tap: u32) -> (r: bool)
    ensures
        r == refused(f@, tables@, vni, tap),
{
    match ct_key(f, INNER, vni) {
        Some(key) => !tables.conntrack.contains(&key) && fw_denies(
            f,
            INNER,
            tables,
            tap,
            FW_DIR_INGRESS,
        ),
        None => false,
    }
}

/// The tables after an inbound packet was accounted for: its flow's entry is refreshed, or made.
pub open spec fn flow_seen(f: Seq<u8>, t: TablesView, vni: u32, now: u64) -> TablesView {
    let ip = INNER as int;
    match conntrack::key_of(f, ip, vni) {
        Some(key) => TablesView {
            conntrack: if t.conntrack.contains_key(key) {
                t.conntrack.insert(key, conntrack::touched(f, ip, t.conntrack[key], now))
            } else {
                conntrack::with_flow(t.conntrack, f, ip, key, now)
            },
            ..t
        },
        None => t,
    }
}

fn see_flow(f: &Vec<u8>, tables: &mut Tables, vni: u32, now: u64)
    ensures
        final(tables)@ == flow_seen(f@, old(tables)@, vni, now),
{
    let key = match ct_key(f, INNER, vni) {
        Some(k) => k,
        None => {
            return ;
        },
    };
    match tables.conntrack.get(&key) {
        Some(found) => {
            let mut e: CtEntry = found;
            ct_touch(f, INNER, tables, &key, &mut e, now);
        },
        None => {
            ct_ensure_default(f, INNER, tables, &key, now);
        },
    }
}

/// Whether nothing translated an inbound packet.
pub open spec fn is_plain(i: Inbound) -> bool {
    i.backend is None && !i.restored && !i.returned
}

/// What becomes of a translated inbound packet that goes to the tap `tap`: dropped by the
/// firewall, or stripped of its outer headers and handed to the guest. The return of a flow that
/// left through network NAT belongs to a known flow, and the firewall lets it in. A packet that
/// nothing translated is tracked, and its destination mapped where it is a VIP.
pub open spec fn handed_over(
    f: FrameView,
    i: Inbound,
    vni: u32,
    tap: u32,
    mac: [u8; 6],
    now: u64,
) -> Outcome {
    let plain = is_plain(i);
    let t = if plain {
        flow_seen(i.bytes, i.tables, vni, now)
    } else {
        i.tables
    };
    let d = encap::decapsulated(f.with(i.bytes), mac, ETH_P_IP);
    if !i.returned && refused(i.bytes, i.tables, vni, tap) {
        Outcome { verdict: Ok(Verdict::Drop), frame: f.with(i.bytes), tables: i.tables }
    } else {
        Outcome {
            verdict: Ok(Verdict::Redirect(tap)),
            frame: if plain {
                d.with(vip::remapped(d.bytes, ETH_LEN as int, t, vni, End::Destination))
            } else {
                d
            },
            tables: t,
        }
    }
}

fn hand_over(
    frame: &mut Frame,
    tables: &mut Tables,
    plain: bool,
    returned: bool,
    vni: u32,
    tap: u32,
    mac: &[u8; 6],
    now: u64,
    Ghost(before): Ghost<FrameView>,
    Ghost(i): Ghost<Inbound>,
) -> (r: Result<Verdict, ()>)
    requires
        old(frame)@.fits(),
        old(frame)@.bytes.len() >= INNER + 20,
        old(frame)@ == before.with(i.bytes),
        old(tables)@ == i.tables,
        plain == is_plain(i),
        returned == i.returned,
    ensures
        final(frame)@.fits(),
        (Outcome { verdict: r, frame: final(frame)@, tables: final(tables)@ }) == handed_over(
            before,
            i,
            vni,
            tap,
            *mac,
            now,
        ),
{
    if !returned && refuse(&frame.bytes, tables, vni, tap) {
        return Ok(Verdict::Drop);
    }
    if plain {
        see_flow(&frame.bytes, tables, vni, now);
    }
    if !decap(frame, mac, ETH_P_IP) {
        return Err(());
    }
    if plain {
        dnat_ingress(&mut frame.bytes, ETH_LEN, tables, vni);
    }
    Ok(Verdict::Redirect(tap))
}

/// What becomes of an encapsulated packet that goes on to another hypervisor, from the underlay
/// address `here` it came to.
pub open spec fn relayed(f: FrameView, t: TablesView, here: [u8; 16], next: [u8; 16]) -> Outcome {
    match t.local {
        Some(uplink) => Outcome {
            verdict: Ok(Verdict::Redirect(uplink.local.uplink_ifindex)),
            frame: f.with(encap::reforwarded(f.bytes, uplink, here, next)),
            tables: t,
        },
        None => Outcome { verdict: Err(()), frame: f, tables: t },
    }
}

fn relay(frame: &mut Frame, tables: &Tables, here: &[u8; 16], next: &[u8; 16]) -> (r: Result<
    Verdict,
    (),
>)
    requires
        old(frame)@.fits(),
        old(frame)@.bytes.len() >= INNER + 20,
    ensures
        final(frame)@.fits(),
        (Outcome { verdict: r, frame: final(frame)@, tables: tables@ }) == relayed(
            old(frame)@,
            tables@,
            *here,
            *next,
        ),
{
    match tables.local {
        Some(uplink) => Ok(reforward(&mut frame.bytes, &uplink, here, next)),
        None => Err(()),
    }
}

/// What becomes of a packet to a load balancer's anycast address, once the backend at the underlay
/// address `backend` was picked: a backend on this host gets it at once, where its rules let it in;
/// one elsewhere gets it as it is, readdressed. The packet is neither translated nor tracked: the
/// backend owns the service's address and replies from it.
pub open spec fn balanced(
    f: FrameView,
    t: TablesView,
    vni: u32,
    here: [u8; 16],
    backend: [u8; 16],
) -> Outcome {
    if t.underlay.contains_key(backend) && t.underlay[backend].tap_ifindex != 0 {
        let u = t.underlay[backend];
        if refused(f.bytes, t, vni, u.tap_ifindex) {
            Outcome { verdict: Ok(Verdict::Drop), frame: f, tables: t }
        } else {
            Outcome {
                verdict: Ok(Verdict::Redirect(u.tap_ifindex)),
                frame: encap::decapsulated(f, u.guest_mac, ETH_P_IP),
                tables: t,
            }
        }
    } else {
        relayed(f, t, here, backend)
    }
}

fn balance(frame: &mut Frame, tables: &Tables, vni: u32, here: &[u8; 16], backend: &[u8; 16]) -> (r:
    Result<Verdict, ()>)
    requires
        old(frame)@.fits(),
        old(frame)@.bytes.len() >= INNER + 20,
    ensures
        final(frame)@.fits(),
        (Outcome { verdict: r, frame: final(frame)@, tables: tables@ }) == balanced(
            old(frame)@,
            tables@,
            vni,
            *here,
            *backend,
        ),
{
    if let Some(u) = tables.underlay.get(&Addr6(*backend)) {
        if u.tap_ifindex != 0 {
            if refuse(&frame.bytes, tables, vni, u.tap_ifindex) {
                return Ok(Verdict::Drop);
            }
            if !decap(frame, &u.guest_mac, ETH_P_IP) {
                return Err(());
            }
            return Ok(Verdict::Redirect(u.tap_ifindex));
        }
    }
    relay(frame, tables, here, backend)
}

/// The backend that a packet to the underlay address of `owner` is forwarded to: only an address
/// without a tap, which is a load balancer's, forwards.
pub open spec fn balanced_to(f: Seq<u8>, t: TablesView, owner: UnderlayValue) -> Option<[u8; 16]> {
    if owner.tap_ifindex == 0 {
        lb::forward_to(f, INNER as int, t, owner.vni)
    } else {
        None
    }
}

/// What becomes of a packet that is for this host's guests: its destination is translated back, and
/// the guest gets it. One that nothing translates, to a port slice of a public address that a
/// neighbor was given, goes on to that neighbor.
#[verifier::opaque]
pub open spec fn received(
    f: FrameView,
    t: TablesView,
    owner: UnderlayValue,
    here: [u8; 16],
    now: u64,
) -> Outcome {
    let i = inbound(f.bytes, t, owner.vni, now);
    let neighbor = network_nat::neighbor_of(f.bytes, INNER as int, t, owner.vni);
    if is_plain(i) && neighbor is Some {
        relayed(f, t, here, neighbor->Some_0)
    } else {
        match delivery(i.tables, owner, i.backend) {
            Err(_) => Outcome { verdict: Err(()), frame: f.with(i.bytes), tables: i.tables },
            Ok(None) => Outcome {
                verdict: Ok(Verdict::Pass),
                frame: f.with(i.bytes),
                tables: i.tables,
            },
            Ok(Some((tap, mac))) => handed_over(f, i, owner.vni, tap, mac, now),
        }
    }
}

fn receive(
    frame: &mut Frame,
    tables: &mut Tables,
    owner: &UnderlayValue,
    here: &[u8; 16],
    now: u64,
) -> (r: Result<Verdict, ()>)
    requires
        old(frame)@.fits(),
        old(frame)@.bytes.len() >= INNER + 20,
    ensures
        final(frame)@.fits(),
        (Outcome { verdict: r, frame: final(frame)@, tables: final(tables)@ }) == received(
            old(frame)@,
            old(tables)@,
            *owner,
            *here,
            now,
        ),
{
    reveal(received);
    let vni: u32 = owner.vni;
    let ghost i = inbound(frame@.bytes, tables@, vni, now);
    let (backend, restored, returned) = restore(&mut frame.bytes, tables, vni, now);
    let plain: bool = backend.is_none() && !restored && !returned;
    if plain {
        assert(frame@ == old(frame)@);
        if let Some(next) = find_neighbor(&frame.bytes, INNER, tables, vni) {
            return relay(frame, tables, here, &next);
        }
    }
    match find_delivery(tables, owner, backend) {
        Ok(Some((tap, mac))) => hand_over(
            frame,
            tables,
            plain,
            returned,
            vni,
            tap,
            &mac,
            now,
            Ghost(old(frame)@),
            Ghost(i),
        ),
        Ok(None) => Ok(Verdict::Pass),
        Err(_) => Err(()),
    }
}

/// What becomes of a frame from the uplink that holds an IPv4 packet. The outer destination
/// identifies the receiving interface and its VNI, so overlay addresses may overlap between VNIs;
/// where it is a load balancer's, the packet goes to a backend. Frames that are not for this
/// overlay are passed on.
pub open spec fn uplink_rx4(f: FrameView, t: TablesView, now: u64) -> Outcome {
    let dst = bytes::at16(f.bytes, ETH_LEN + 24);
    if !is_overlay4(f.bytes) || !t.underlay.contains_key(dst) {
        Outcome { verdict: Ok(Verdict::Pass), frame: f, tables: t }
    } else {
        let owner = t.underlay[dst];
        match balanced_to(f.bytes, t, owner) {
            Some(backend) => balanced(f, t, owner.vni, dst, backend),
            None => received(f, t, owner, dst, now),
        }
    }
}

/// Handle a frame that arrived on the uplink.
pub fn try_uplink_rx(frame: &mut Frame, tables: &mut Tables, now: u64) -> (r: Result<Verdict, ()>)
    requires
        old(frame)@.fits(),
    ensures
        final(frame)@.fits(),
        (Outcome { verdict: r, frame: final(frame)@, tables: final(tables)@ }) == uplink_rx4(
            old(frame)@,
            old(tables)@,
            now,
        ),
{
    if frame.bytes.len() < INNER + 20 {
        return Ok(Verdict::Pass);
    }
    if read2(&frame.bytes, 12) != ETH_P_IPV6 || frame.bytes[ETH_LEN + 6] != IPPROTO_IPIP {
        return Ok(Verdict::Pass);
    }
    let outer_dst = read16(&frame.bytes, ETH_LEN + 24);
    let owner = match tables.underlay.get(&Addr6(outer_dst)) {
        Some(u) => u,
        None => {
            return Ok(Verdict::Pass);
        },
    };
    if owner.tap_ifindex == 0 {
        if let Some(backend) = lb_select_forward(&frame.bytes, INNER, tables, owner.vni) {
            return balance(frame, tables, owner.vni, &outer_dst, &backend);
        }
    }
    receive(frame, tables, &owner, &outer_dst, now)
}

/// Return traffic is let in: a packet of a known flow is never refused, whatever the rules of the
/// interface it goes to.
pub proof fn law_known_flows_are_not_refused(f: Seq<u8>, t: TablesView, vni: u32, tap: u32)
    requires
        conntrack::key_of(f, INNER as int, vni) matches Some(key) && t.conntrack.contains_key(key),
    ensures
        !refused(f, t, vni, tap),
{
}

/// The firewall is stateful: once a flow that was not known has left a guest, its replies are not
/// refused, whatever the rules of the interface they go to.
pub proof fn law_replies_are_let_in(
    sent: Seq<u8>,
    t: TablesView,
    vni: u32,
    external: bool,
    now: u64,
    reply: Seq<u8>,
    tap: u32,
)
    requires
        ({
            let (wire, _) = egress::translated_and_tracked(sent, t, vni, external, now);
            &&& conntrack::key_of(wire, ETH_LEN as int, vni) matches Some(key)
            &&& !t.conntrack.contains_key(key)
            &&& conntrack::key_of(reply, INNER as int, vni) == Some(conntrack::inverted(key))
        }),
    ensures
        !refused(
            reply,
            egress::translated_and_tracked(sent, t, vni, external, now).1,
            vni,
            tap,
        ),
{
    egress::law_flows_that_leave_are_known(sent, t, vni, external, now);
}

/// The ingress firewall is enforced: the first packet of a flow that the destination's rules deny
/// is dropped, and no table changes for it (load balancers and NAT, which know their flows or send
/// them elsewhere, aside).
pub proof fn law_denied_flows_do_not_enter(f: FrameView, t: TablesView, now: u64)
    requires
        is_overlay4(f.bytes),
        t.underlay.contains_key(bytes::at16(f.bytes, ETH_LEN + 24)),
        ({
            let owner = t.underlay[bytes::at16(f.bytes, ETH_LEN + 24)];
            &&& lb::deliver_to(f.bytes, INNER as int, t, owner.vni) is None
            &&& balanced_to(f.bytes, t, owner) is None
            &&& network_nat::returns_to(f.bytes, INNER as int, t, owner.vni) is None
            &&& network_nat::neighbor_of(f.bytes, INNER as int, t, owner.vni) is None
            &&& refused(f.bytes, t, owner.vni, owner.tap_ifindex)
        }),
    ensures
        uplink_rx4(f, t, now).verdict == Ok::<Verdict, ()>(Verdict::Drop),
        uplink_rx4(f, t, now).tables == t,
{
    reveal(received);
}

/// Frames that are no overlay packets to an address of this host are left alone.
pub proof fn law_foreign_frames_pass(f: FrameView, t: TablesView, now: u64)
    requires
        !is_overlay4(f.bytes) || !t.underlay.contains_key(bytes::at16(f.bytes, ETH_LEN + 24)),
    ensures
        uplink_rx4(f, t, now) == (Outcome { verdict: Ok(Verdict::Pass), frame: f, tables: t }),
{
}

/// A packet holds the same fields wherever it stands: here `far` holds at `INNER` what `near` holds
/// behind its Ethernet header.
proof fn lemma_shifted(near: Seq<u8>, far: Seq<u8>, t: TablesView, vni: u32, tap: u32)
    requires
        near.len() >= ETH_LEN + 20,
        far.len() == near.len() + IPV6_LEN,
        forall|i: int| ETH_LEN <= i < near.len() ==> #[trigger] far[i + IPV6_LEN] == near[i],
    ensures
        parse::ports_of(far, INNER as int) == parse::ports_of(near, ETH_LEN as int),
        conntrack::key_of(far, INNER as int, vni) == conntrack::key_of(near, ETH_LEN as int, vni),
        lb::deliver_to(far, INNER as int, t, vni) == lb::deliver_to(near, ETH_LEN as int, t, vni),
        lb::forward_to(far, INNER as int, t, vni) == lb::forward_to(near, ETH_LEN as int, t, vni),
        network_nat::returns_to(far, INNER as int, t, vni) == network_nat::returns_to(
            near,
            ETH_LEN as int,
            t,
            vni,
        ),
        network_nat::neighbor_of(far, INNER as int, t, vni) == network_nat::neighbor_of(
            near,
            ETH_LEN as int,
            t,
            vni,
        ),
        firewall::denied(far, INNER as int, t, tap, FW_DIR_INGRESS) == firewall::denied(
            near,
            ETH_LEN as int,
            t,
            tap,
            FW_DIR_INGRESS,
        ),
{
    let a = ETH_LEN as int;
    let b = INNER as int;
    assert(far[a + IPV6_LEN] == near[a]);
    assert(far[a + 9 + IPV6_LEN] == near[a + 9]);
    let h = parse::header_len(near, a);
    assert(parse::header_len(far, b) == h);
    assert(bytes::at4(far, b + 12) =~= bytes::at4(near, a + 12)) by {
        assert(far[a + 12 + IPV6_LEN] == near[a + 12]);
        assert(far[a + 13 + IPV6_LEN] == near[a + 13]);
        assert(far[a + 14 + IPV6_LEN] == near[a + 14]);
        assert(far[a + 15 + IPV6_LEN] == near[a + 15]);
    }
    assert(bytes::at4(far, b + 16) =~= bytes::at4(near, a + 16)) by {
        assert(far[a + 16 + IPV6_LEN] == near[a + 16]);
        assert(far[a + 17 + IPV6_LEN] == near[a + 17]);
        assert(far[a + 18 + IPV6_LEN] == near[a + 18]);
        assert(far[a + 19 + IPV6_LEN] == near[a + 19]);
    }
    assert forall|k: int| a <= k && k + 2 <= near.len() implies #[trigger] bytes::be16(near, k)
        == bytes::be16(far, k + IPV6_LEN) by {
        assert(far[k + IPV6_LEN] == near[k]);
        assert(far[k + 1 + IPV6_LEN] == near[k + 1]);
    }
    assert(parse::ports_of(far, b) == parse::ports_of(near, a)) by {
        if h >= 20 {
            assert(a + h + 4 <= near.len() ==> bytes::be16(near, a + h) == bytes::be16(far, b + h));
            assert(a + h + 4 <= near.len() ==> bytes::be16(near, a + h + 2) == bytes::be16(
                far,
                b + h + 2,
            ));
            assert(a + h + 8 <= near.len() ==> bytes::be16(near, a + h + 4) == bytes::be16(
                far,
                b + h + 4,
            ));
        }
    }
    assert(firewall::type_code_of(far, b) == firewall::type_code_of(near, a)) by {
        if a + 22 <= near.len() {
            assert(far[a + 20 + IPV6_LEN] == near[a + 20]);
            assert(far[a + 21 + IPV6_LEN] == near[a + 21]);
        }
    }
    assert(firewall::seen(far, b) == firewall::seen(near, a));
}

/// An IPv4 packet crosses the underlay unchanged: what one hypervisor encapsulates, the hypervisor
/// that owns the outer destination hands to its guest, with the same packet behind the Ethernet
/// header, where its own rules let it in and none of its services translates it.
pub proof fn law_packet_crosses_the_underlay(
    f: FrameView,
    uplink: Uplink,
    src: [u8; 16],
    dst: [u8; 16],
    t: TablesView,
    now: u64,
)
    requires
        f.fits(),
        f.bytes.len() >= ETH_LEN + 20,
        f.headroom >= IPV6_LEN,
        t.underlay.contains_key(dst),
        ({
            let owner = t.underlay[dst];
            let ip = ETH_LEN as int;
            &&& lb::deliver_to(f.bytes, ip, t, owner.vni) is None
            &&& owner.tap_ifindex == 0 ==> lb::forward_to(f.bytes, ip, t, owner.vni) is None
            &&& network_nat::returns_to(f.bytes, ip, t, owner.vni) is None
            &&& network_nat::neighbor_of(f.bytes, ip, t, owner.vni) is None
            &&& vip::mapped(f.bytes, ip, t, owner.vni, End::Destination) is None
            &&& conntrack::key_of(f.bytes, ip, owner.vni) matches Some(key) ==> {
                if t.conntrack.contains_key(key) {
                    !conntrack::rewrites_dst(t.conntrack[key].flags)
                } else {
                    !firewall::denied(f.bytes, ip, t, owner.tap_ifindex, FW_DIR_INGRESS)
                }
            }
        }),
    ensures
        ({
            let n = ((f.bytes.len() - ETH_LEN) % 65536) as u16;
            let wire = encap::encapsulated(f, uplink, src, dst, n, IPPROTO_IPIP);
            let o = uplink_rx4(wire, t, now);
            &&& o.verdict == Ok::<Verdict, ()>(Verdict::Redirect(t.underlay[dst].tap_ifindex))
            &&& o.frame.bytes == t.underlay[dst].guest_mac@ + GW_MAC@ + bytes::be2(ETH_P_IP)
                + f.bytes.skip(ETH_LEN as int)
        }),
{
    let n = ((f.bytes.len() - ETH_LEN) % 65536) as u16;
    let wire = encap::encapsulated(f, uplink, src, dst, n, IPPROTO_IPIP);
    let owner = t.underlay[dst];
    let w = wire.bytes;
    encap::law_decap_undoes_encap(
        f,
        uplink,
        src,
        dst,
        n,
        IPPROTO_IPIP,
        owner.guest_mac,
        ETH_P_IP,
    );
    assert(w.len() == f.bytes.len() + IPV6_LEN);
    assert forall|i: int| ETH_LEN <= i < f.bytes.len() implies #[trigger] w[i + IPV6_LEN]
        == f.bytes[i] by {
        assert(w[i + IPV6_LEN] == f.bytes.skip(ETH_LEN as int)[i - ETH_LEN]);
    }
    lemma_shifted(f.bytes, w, t, owner.vni, owner.tap_ifindex);
    reveal(received);
    assert(is_overlay4(w));
    assert(bytes::at16(w, ETH_LEN + 24) == dst);
    let i = inbound(w, t, owner.vni, now);
    assert(i.bytes == w && i.tables == t && is_plain(i));
    assert(!refused(w, t, owner.vni, owner.tap_ifindex));
    let d = encap::decapsulated(wire, owner.guest_mac, ETH_P_IP);
    let u = flow_seen(w, t, owner.vni, now);
    assert(u.vips == t.vips);
    assert(wire.with(w) == wire);
    assert(vip::mapped(d.bytes, ETH_LEN as int, u, owner.vni, End::Destination) is None) by {
        let a = ETH_LEN as int;
        assert forall|k: int| a <= k < f.bytes.len() implies #[trigger] d.bytes[k]
            == f.bytes[k] by {
            assert(d.bytes[k] == f.bytes.skip(a)[k - a]);
        }
        assert(d.bytes.len() == f.bytes.len());
        assert(bytes::at4(d.bytes, a + 16) =~= bytes::at4(f.bytes, a + 16));
    }
}

/// The replies to a flow that left through network NAT reach its guest: when a packet whose route is
/// external has left from a port of the public address, and its reply flow is entered (a new flow
/// enters it where it finds a free port, and a known one keeps it), every packet from the uplink
/// that answers it is handed to the tap of the interface it came to, addressed to the guest's own
/// address and port, whatever the rules of that interface.
pub proof fn law_nat_replies_reach_the_guest(
    sent: FrameView,
    t: TablesView,
    port: Port,
    route: Route,
    ifindex: u32,
    sent_at: u64,
    reply: FrameView,
    now: u64,
)
    requires
        route.is_external,
        network_nat::nat_for(sent.bytes, ETH_LEN as int, t, port.meta.vni) is Some,
        network_nat::header_complete(sent.bytes, ETH_LEN as int),
        ({
            let vni = port.meta.vni;
            let (conf, fwd) = network_nat::nat_for(sent.bytes, ETH_LEN as int, t, vni)->Some_0;
            let wire = egress::translated_and_tracked(sent.bytes, t, vni, true, sent_at).0;
            let u = egress::routed4(sent, t, port, route, ifindex, sent_at).tables;
            let dst = bytes::at16(reply.bytes, ETH_LEN + 24);
            &&& network_nat::is_pinned(t.nat_ct, fwd, conf)
            &&& is_overlay4(reply.bytes)
            &&& u.underlay.contains_key(dst)
            &&& u.underlay[dst].vni == vni
            &&& u.underlay[dst].tap_ifindex != 0
            &&& network_nat::flow_of(reply.bytes, INNER as int) == Some(
                network_nat::opposite(
                    network_nat::flow_of(wire, ETH_LEN as int)->Some_0,
                ),
            )
            &&& lb::deliver_to(reply.bytes, INNER as int, u, vni) is None
            &&& conntrack::key_of(reply.bytes, INNER as int, vni) matches Some(key)
                ==> u.conntrack.contains_key(key) ==> !conntrack::rewrites_dst(
                u.conntrack[key].flags,
            )
        }),
    ensures
        ({
            let vni = port.meta.vni;
            let (conf, fwd) = network_nat::nat_for(sent.bytes, ETH_LEN as int, t, vni)->Some_0;
            let u = egress::routed4(sent, t, port, route, ifindex, sent_at).tables;
            let owner = u.underlay[bytes::at16(reply.bytes, ETH_LEN + 24)];
            let ip = INNER as int;
            uplink_rx4(reply, u, now) == (Outcome {
                verdict: Ok(Verdict::Redirect(owner.tap_ifindex)),
                frame: encap::decapsulated(
                    reply.with(
                        translate::translated(
                            reply.bytes,
                            ip,
                            ip + parse::header_len(reply.bytes, ip),
                            End::Destination,
                            fwd.src_ip,
                            Some(fwd.src_port),
                        ),
                    ),
                    owner.guest_mac,
                    ETH_P_IP,
                ),
                tables: u,
            })
        }),
{
    reveal(received);
    let at = ETH_LEN as int;
    let vni = port.meta.vni;
    let (conf, fwd) = network_nat::nat_for(sent.bytes, at, t, vni)->Some_0;
    let u = egress::routed4(sent, t, port, route, ifindex, sent_at).tables;
    let (public, flows) = network_nat::allocated(t.nat_ct, fwd, conf);
    let back = network_nat::reply_flow(fwd, conf, public);
    assert(u.nat_ct == flows && u.nat == t.nat);
    network_nat::law_nat_reply_answers_the_wire(sent.bytes, at, t, vni, conf, fwd);
    assert(network_nat::opposite(network_nat::opposite(back)) == back);
    assert(network_nat::flow_of(reply.bytes, INNER as int) == Some(back));
    if !t.nat_ct.contains_key(fwd) {
        network_nat::law_nat_replies_return(t.nat_ct, fwd, conf, reply.bytes, INNER as int);
    }
    assert(fwd.src_ip == bytes::at4(sent.bytes, at + 12));
    assert(network_nat::return_of(reply.bytes, INNER as int, flows) == Some(
        NatCtVal { ipv4: fwd.src_ip, port: fwd.src_port },
    ));
    assert(network_nat::returns_to(reply.bytes, INNER as int, u, vni) is Some);
    let i = inbound(reply.bytes, u, vni, now);
    assert(i.returned && i.backend is None && i.tables == u);
}

/// Distributed return: a packet to a port slice that a neighbor was given, which nothing on this host
/// translates, is sent on to that neighbor with its inner packet as it is, so that it arrives there
/// as a packet of the same flow. No table changes for it.
pub proof fn law_slice_packet_is_relayed(f: FrameView, t: TablesView, now: u64, next: [u8; 16])
    requires
        is_overlay4(f.bytes),
        t.underlay.contains_key(bytes::at16(f.bytes, ETH_LEN + 24)),
        t.local is Some,
        ({
            let owner = t.underlay[bytes::at16(f.bytes, ETH_LEN + 24)];
            &&& balanced_to(f.bytes, t, owner) is None
            &&& is_plain(inbound(f.bytes, t, owner.vni, now))
            &&& network_nat::neighbor_of(f.bytes, INNER as int, t, owner.vni) == Some(next)
        }),
    ensures
        ({
            let o = uplink_rx4(f, t, now);
            &&& o.verdict == Ok::<Verdict, ()>(
                Verdict::Redirect(t.local->Some_0.local.uplink_ifindex),
            )
            &&& o.tables == t
            &&& is_overlay4(o.frame.bytes)
            &&& bytes::at16(o.frame.bytes, ETH_LEN + 24) == next
            &&& o.frame.bytes.skip(INNER as int) == f.bytes.skip(INNER as int)
            &&& network_nat::flow_of(o.frame.bytes, INNER as int) == network_nat::flow_of(
                f.bytes,
                INNER as int,
            )
        }),
{
    reveal(received);
    let here = bytes::at16(f.bytes, ETH_LEN + 24);
    let r = encap::reforwarded(f.bytes, t.local->Some_0, here, next);
    encap::law_reforward_keeps_the_inner_packet(f.bytes, t.local->Some_0, here, next);
    assert(r == uplink_rx4(f, t, now).frame.bytes);
    assert(r[12] == f.bytes[12] && r[13] == f.bytes[13] && r[20] == f.bytes[20]);
    assert forall|k: int| INNER <= k < f.bytes.len() implies #[trigger] r[k] == f.bytes[k] by {
        assert(r.skip(INNER as int)[k - INNER] == f.bytes.skip(INNER as int)[k - INNER]);
    }
    assert(bytes::at4(r, INNER + 12) =~= bytes::at4(f.bytes, INNER + 12));
    assert(bytes::at4(r, INNER + 16) =~= bytes::at4(f.bytes, INNER + 16));
}

/// Whether a packet to the underlay address of `owner` is for its guest alone: no load balancer, no
/// network NAT and no neighbor's port slice has a claim to it.
pub open spec fn is_for_the_owner(f: Seq<u8>, t: TablesView, owner: UnderlayValue) -> bool {
    &&& lb::deliver_to(f, 54, t, owner.vni) is None
    &&& owner.tap_ifindex == 0 ==> lb::forward_to(f, 54, t, owner.vni) is None
    &&& network_nat::returns_to(f, 54, t, owner.vni) is None
    &&& network_nat::neighbor_of(f, 54, t, owner.vni) is None
}

/// Every packet of a known flow refreshes the flow: after a packet from the underlay was handled, the
/// entry of its five-tuple was last seen now, and keeps the translation it had; the flags of a TCP
/// segment have moved its state, and no other packet does. The entries of other flows stay.
pub proof fn law_segments_advance_a_known_flow(f: FrameView, t: TablesView, now: u64)
    requires
        f.bytes.len() >= 74,
        f.bytes[12] == 0x86 && f.bytes[13] == 0xdd && f.bytes[20] == 4,
        t.underlay.contains_key(bytes::at16(f.bytes, 38)),
        is_for_the_owner(f.bytes, t, t.underlay[bytes::at16(f.bytes, 38)]),
        f.bytes[54] % 16 >= 5,
        f.bytes[63] == 6 || f.bytes[63] == 17,
        54 + 4 * (f.bytes[54] % 16) + 14 <= f.bytes.len(),
        ({
            let l4 = 54 + 4 * (f.bytes[54] % 16);
            t.conntrack.contains_key(
                CtKey {
                    vni: t.underlay[bytes::at16(f.bytes, 38)].vni,
                    src_ip: bytes::at4(f.bytes, 66),
                    dst_ip: bytes::at4(f.bytes, 70),
                    src_port: (f.bytes[l4] * 256 + f.bytes[l4 + 1]) as u16,
                    dst_port: (f.bytes[l4 + 2] * 256 + f.bytes[l4 + 3]) as u16,
                    proto: f.bytes[63],
                },
            )
        }),
    ensures
        ({
            let l4 = 54 + 4 * (f.bytes[54] % 16);
            let key = CtKey {
                vni: t.underlay[bytes::at16(f.bytes, 38)].vni,
                src_ip: bytes::at4(f.bytes, 66),
                dst_ip: bytes::at4(f.bytes, 70),
                src_port: (f.bytes[l4] * 256 + f.bytes[l4 + 1]) as u16,
                dst_port: (f.bytes[l4 + 2] * 256 + f.bytes[l4 + 3]) as u16,
                proto: f.bytes[63],
            };
            let was = t.conntrack[key];
            let o = uplink_rx4(f, t, now);
            let ct = o.tables.conntrack;
            &&& ct.contains_key(key)
            &&& ct[key].last_seen == now
            &&& f.bytes[63] == 6 ==> ct[key].tcp_state == conntrack::advanced(
                was.tcp_state,
                f.bytes[l4 + 13],
            )
            &&& f.bytes[63] == 17 ==> ct[key].tcp_state == was.tcp_state
            &&& ct[key].flags == was.flags
            &&& ct[key].xlate_ip == was.xlate_ip
            &&& ct[key].xlate_port == was.xlate_port
            &&& forall|k: CtKey|
                k != key ==> #[trigger] ct.contains_key(k) == t.conntrack.contains_key(k) && ct[k]
                    == t.conntrack[k]
            &&& o.tables == (TablesView { conntrack: ct, ..t })
        }),
{
    reveal(received);
    let owner = t.underlay[bytes::at16(f.bytes, 38)];
    let l4 = 54 + 4 * (f.bytes[54] % 16);
    conntrack::law_key_is_the_five_tuple(f.bytes, 54, owner.vni);
    let key = conntrack::key_of(f.bytes, 54, owner.vni)->Some_0;
    let e = t.conntrack[key];
    let i = inbound(f.bytes, t, owner.vni, now);
    let o = uplink_rx4(f, t, now);
    assert(is_overlay4(f.bytes));
    assert(o == received(f, t, owner, bytes::at16(f.bytes, 38), now));
    if conntrack::rewrites_dst(e.flags) {
        let g = conntrack::applied(f.bytes, 54, e);
        if f.bytes[54] % 16 == 5 {
            translate::law_translated_bytes(
                f.bytes,
                54,
                74,
                conntrack::entry_end(e),
                e.xlate_ip,
                conntrack::entry_port(e),
            );
        }
        assert(g.len() == f.bytes.len() && g[54] == f.bytes[54] && g[63] == f.bytes[63]);
        assert(f.bytes[63] == 6 ==> g[l4 + 13] == f.bytes[l4 + 13]);
        conntrack::law_seen_packet_refreshes_its_entry(g, 54, e, now);
        assert(i.restored && !is_plain(i));
        assert(o.tables == i.tables);
    } else {
        conntrack::law_seen_packet_refreshes_its_entry(f.bytes, 54, e, now);
        assert(is_plain(i) && i.bytes == f.bytes && i.tables == t);
        assert(!refused(f.bytes, t, owner.vni, owner.tap_ifindex));
        assert(o.tables == flow_seen(f.bytes, t, owner.vni, now));
    }
}

/// The first packet of a flow from the underlay enters it: where the rules let it in and nothing
/// translates it, both its five-tuple and the inverted one have an entry that was seen now and
/// translates nothing; the flags of a TCP segment have moved the state from none.
pub proof fn law_first_packet_enters_its_flow(f: FrameView, t: TablesView, now: u64, key: CtKey)
    requires
        f.bytes.len() >= 74,
        f.bytes[12] == 0x86 && f.bytes[13] == 0xdd && f.bytes[20] == 4,
        t.underlay.contains_key(bytes::at16(f.bytes, 38)),
        is_for_the_owner(f.bytes, t, t.underlay[bytes::at16(f.bytes, 38)]),
        f.bytes[54] % 16 >= 5,
        f.bytes[63] == 6 || f.bytes[63] == 17,
        54 + 4 * (f.bytes[54] % 16) + 14 <= f.bytes.len(),
        ({
            let owner = t.underlay[bytes::at16(f.bytes, 38)];
            let l4 = 54 + 4 * (f.bytes[54] % 16);
            &&& key == CtKey {
                vni: owner.vni,
                src_ip: bytes::at4(f.bytes, 66),
                dst_ip: bytes::at4(f.bytes, 70),
                src_port: (f.bytes[l4] * 256 + f.bytes[l4 + 1]) as u16,
                dst_port: (f.bytes[l4 + 2] * 256 + f.bytes[l4 + 3]) as u16,
                proto: f.bytes[63],
            }
            &&& !t.conntrack.contains_key(key)
            &&& !t.conntrack.contains_key(conntrack::inverted(key))
            &&& !firewall::denied(f.bytes, 54, t, owner.tap_ifindex, FW_DIR_INGRESS)
        }),
    ensures
        ({
            let l4 = 54 + 4 * (f.bytes[54] % 16);
            let o = uplink_rx4(f, t, now);
            let ct = o.tables.conntrack;
            &&& ct.contains_key(key)
            &&& ct.contains_pair(conntrack::inverted(key), ct[key])
            &&& ct[key].last_seen == now
            &&& ct[key].flags == 0
            &&& f.bytes[63] == 6 ==> ct[key].tcp_state == conntrack::advanced(
                TCP_NONE,
                f.bytes[l4 + 13],
            )
            &&& f.bytes[63] == 17 ==> ct[key].tcp_state == TCP_NONE
            &&& o.tables == (TablesView { conntrack: ct, ..t })
        }),
{
    reveal(received);
    let owner = t.underlay[bytes::at16(f.bytes, 38)];
    conntrack::law_key_is_the_five_tuple(f.bytes, 54, owner.vni);
    let i = inbound(f.bytes, t, owner.vni, now);
    assert(is_overlay4(f.bytes));
    assert(is_plain(i) && i.bytes == f.bytes && i.tables == t);
    conntrack::law_new_flow_starts_untranslated(t.conntrack, f.bytes, 54, key, now);
}

/// What the guest gets of a packet from the underlay that is for it alone, by offset: its own MAC, the
/// gateway's (02:00:00:00:00:01), IPv4, and the packet as it was sent, but that a destination that is
/// a VIP of the VNI is the guest's own address. It goes to the tap of the outer destination's owner.
/// Here no tracked flow translates it, and the rules of the interface let a new flow in.
pub proof fn law_packet_to_a_vip_reaches_the_guest(f: FrameView, t: TablesView, now: u64)
    requires
        f.fits(),
        f.bytes.len() >= 74,
        f.bytes[12] == 0x86 && f.bytes[13] == 0xdd && f.bytes[20] == 4,
        t.underlay.contains_key(bytes::at16(f.bytes, 38)),
        is_for_the_owner(f.bytes, t, t.underlay[bytes::at16(f.bytes, 38)]),
        f.bytes[54] % 16 >= 5,
        ({
            let owner = t.underlay[bytes::at16(f.bytes, 38)];
            conntrack::key_of(f.bytes, 54, owner.vni) matches Some(key) ==> {
                if t.conntrack.contains_key(key) {
                    t.conntrack[key].flags / 2 % 2 == 0
                } else {
                    !firewall::denied(f.bytes, 54, t, owner.tap_ifindex, FW_DIR_INGRESS)
                }
            }
        }),
    ensures
        ({
            let owner = t.underlay[bytes::at16(f.bytes, 38)];
            let o = uplink_rx4(f, t, now);
            let out = o.frame.bytes;
            let dst = bytes::at4(f.bytes, 70);
            let vip = VipKey { vni: owner.vni, ipv4: dst };
            &&& o.verdict == Ok::<Verdict, ()>(Verdict::Redirect(owner.tap_ifindex))
            &&& out.len() == f.bytes.len() - 40
            &&& bytes::at6(out, 0) == owner.guest_mac
            &&& bytes::at6(out, 6) == [2u8, 0, 0, 0, 0, 1]
            &&& out[12] == 8 && out[13] == 0
            &&& bytes::at4(out, 26) == bytes::at4(f.bytes, 66)
            &&& t.vips.contains_key(vip) ==> bytes::at4(out, 30) == t.vips[vip]
            &&& !t.vips.contains_key(vip) ==> forall|k: int|
                14 <= k < out.len() ==> #[trigger] out[k] == f.bytes[k + 40]
            &&& parse::ports_of(out, 14) == parse::ports_of(f.bytes, 54)
        }),
{
    reveal(received);
    let owner = t.underlay[bytes::at16(f.bytes, 38)];
    let vni = owner.vni;
    let i = inbound(f.bytes, t, vni, now);
    assert(is_overlay4(f.bytes));
    assert(is_plain(i) && i.bytes == f.bytes && i.tables == t);
    assert(!refused(f.bytes, t, vni, owner.tap_ifindex));
    assert(f.with(f.bytes) == f);
    let d = encap::decapsulated(f, owner.guest_mac, ETH_P_IP);
    encap::law_decapsulated_frame_is_the_guests(f, owner.guest_mac, ETH_P_IP);
    let u = flow_seen(f.bytes, t, vni, now);
    assert(u.vips == t.vips);
    let o = uplink_rx4(f, t, now);
    let out = vip::remapped(d.bytes, 14, u, vni, End::Destination);
    assert(o.frame.bytes == out);
    assert forall|k: int| 14 <= k < d.bytes.len() implies f.bytes[k + 40]
        == #[trigger] d.bytes[k] by {}
    lemma_ports_moved(d.bytes, f.bytes);
    assert(bytes::at4(d.bytes, 26) =~= bytes::at4(f.bytes, 66));
    assert(bytes::at4(d.bytes, 30) =~= bytes::at4(f.bytes, 70));
    if let Some(guest) = vip::mapped(d.bytes, 14, u, vni, End::Destination) {
        let l4 = 14 + parse::header_len(d.bytes, 14);
        translate::law_translated_bytes(d.bytes, 14, l4, End::Destination, guest, None);
        translate::law_translation_without_a_port_keeps_both(
            d.bytes,
            14,
            End::Destination,
            guest,
        );
        assert(bytes::at4(out, 26) =~= bytes::at4(d.bytes, 26));
        assert(bytes::at6(out, 0) =~= bytes::at6(d.bytes, 0));
        assert(bytes::at6(out, 6) =~= bytes::at6(d.bytes, 6));
    }
}

/// A packet has the same ports behind the Ethernet header as behind the outer headers.
proof fn lemma_ports_moved(near: Seq<u8>, far: Seq<u8>)
    requires
        near.len() >= 34,
        far.len() == near.len() + 40,
        forall|k: int| 14 <= k < near.len() ==> far[k + 40] == #[trigger] near[k],
    ensures
        parse::ports_of(near, 14) == parse::ports_of(far, 54),
        parse::header_len(near, 14) == parse::header_len(far, 54),
{
    assert(far[54] == near[14]);
    assert(far[63] == near[23]);
    let l4 = 14 + parse::header_len(near, 14);
    if parse::header_len(near, 14) >= 20 {
        if l4 + 4 <= near.len() {
            assert(far[l4 + 40] == near[l4] && far[l4 + 1 + 40] == near[l4 + 1]);
            assert(far[l4 + 2 + 40] == near[l4 + 2] && far[l4 + 3 + 40] == near[l4 + 3]);
        }
        if l4 + 8 <= near.len() {
            assert(far[l4 + 4 + 40] == near[l4 + 4] && far[l4 + 5 + 40] == near[l4 + 5]);
        }
    }
}

/// A load balancer's overlay backend on this host gets the packets of its service, whatever the owner
/// of the outer destination: at its own tap, to its own MAC, its address for a destination. No entry
/// is made or refreshed. Here the rules of the backend's interface let the packet in.
pub proof fn law_overlay_backend_gets_the_packet(
    f: FrameView,
    t: TablesView,
    now: u64,
    backend: [u8; 4],
)
    requires
        f.fits(),
        f.bytes.len() >= 74,
        f.bytes[12] == 0x86 && f.bytes[13] == 0xdd && f.bytes[20] == 4,
        t.underlay.contains_key(bytes::at16(f.bytes, 38)),
        ({
            let owner = t.underlay[bytes::at16(f.bytes, 38)];
            let key = IfaceKey { vni: owner.vni, ipv4: backend };
            &&& owner.tap_ifindex == 0 ==> lb::forward_to(f.bytes, 54, t, owner.vni) is None
            &&& lb::deliver_to(f.bytes, 54, t, owner.vni) == Some(backend)
            &&& t.interfaces.contains_key(key)
            &&& t.interfaces[key].is_local != 0
            &&& !t.fw_meta.contains_key(t.interfaces[key].tap_ifindex)
        }),
    ensures
        ({
            let owner = t.underlay[bytes::at16(f.bytes, 38)];
            let iface = t.interfaces[IfaceKey { vni: owner.vni, ipv4: backend }];
            let o = uplink_rx4(f, t, now);
            let out = o.frame.bytes;
            &&& o.verdict == Ok::<Verdict, ()>(Verdict::Redirect(iface.tap_ifindex))
            &&& o.tables == t
            &&& out.len() == f.bytes.len() - 40
            &&& bytes::at6(out, 0) == iface.guest_mac
            &&& bytes::at6(out, 6) == [2u8, 0, 0, 0, 0, 1]
            &&& out[12] == 8 && out[13] == 0
            &&& bytes::at4(out, 26) == bytes::at4(f.bytes, 66)
            &&& bytes::at4(out, 30) == backend
        }),
{
    reveal(received);
    let owner = t.underlay[bytes::at16(f.bytes, 38)];
    let iface = t.interfaces[IfaceKey { vni: owner.vni, ipv4: backend }];
    let i = inbound(f.bytes, t, owner.vni, now);
    assert(is_overlay4(f.bytes));
    lb::law_delivered_packet_is_the_backends(f.bytes, 54, t, owner.vni);
    assert(i.backend == Some(backend) && i.tables == t);
    encap::law_decapsulated_frame_is_the_guests(f.with(i.bytes), iface.guest_mac, ETH_P_IP);
    let o = uplink_rx4(f, t, now);
    assert(o == handed_over(f, i, owner.vni, iface.tap_ifindex, iface.guest_mac, now));
    assert(!firewall::denied(i.bytes, 54, t, iface.tap_ifindex, FW_DIR_INGRESS));
    assert(!refused(i.bytes, t, owner.vni, iface.tap_ifindex));
    let d = encap::decapsulated(f.with(i.bytes), iface.guest_mac, ETH_P_IP);
    assert(o.frame == d);
    assert(bytes::at4(d.bytes, 26) =~= bytes::at4(i.bytes, 66));
    assert(bytes::at4(d.bytes, 30) =~= bytes::at4(i.bytes, 70));
}

/// A load balancer's anycast address passes its packets on: to a backend on this host as they are,
/// out of their outer headers, at the backend's tap and MAC; to one elsewhere through the uplink, as
/// they are, from the anycast address to the backend's. No table changes.
pub proof fn law_anycast_packet_goes_to_its_backend(
    f: FrameView,
    t: TablesView,
    now: u64,
    backend: [u8; 16],
)
    requires
        f.fits(),
        f.bytes.len() >= 74,
        f.bytes[12] == 0x86 && f.bytes[13] == 0xdd && f.bytes[20] == 4,
        t.underlay.contains_key(bytes::at16(f.bytes, 38)),
        t.underlay[bytes::at16(f.bytes, 38)].tap_ifindex == 0,
        lb::forward_to(f.bytes, 54, t, t.underlay[bytes::at16(f.bytes, 38)].vni) == Some(backend),
        t.local is Some,
    ensures
        ({
            let here = bytes::at16(f.bytes, 38);
            let o = uplink_rx4(f, t, now);
            let out = o.frame.bytes;
            let at_home = t.underlay.contains_key(backend) && t.underlay[backend].tap_ifindex != 0;
            let uplink = t.local->Some_0;
            &&& o.tables == t
            &&& at_home && !t.fw_meta.contains_key(t.underlay[backend].tap_ifindex) ==> {
                &&& o.verdict == Ok::<Verdict, ()>(
                    Verdict::Redirect(t.underlay[backend].tap_ifindex),
                )
                &&& out.len() == f.bytes.len() - 40
                &&& bytes::at6(out, 0) == t.underlay[backend].guest_mac
                &&& bytes::at6(out, 6) == [2u8, 0, 0, 0, 0, 1]
                &&& out[12] == 8 && out[13] == 0
                &&& forall|k: int| 14 <= k < out.len() ==> #[trigger] out[k] == f.bytes[k + 40]
            }
            &&& !at_home ==> {
                &&& o.verdict == Ok::<Verdict, ()>(
                    Verdict::Redirect(uplink.local.uplink_ifindex),
                )
                &&& out.len() == f.bytes.len()
                &&& bytes::at6(out, 0) == uplink.gateway_mac
                &&& bytes::at6(out, 6) == uplink.local.uplink_mac
                &&& bytes::at16(out, 22) == here
                &&& bytes::at16(out, 38) == backend
                &&& forall|k: int|
                    12 <= k < 22 || 54 <= k < out.len() ==> #[trigger] out[k] == f.bytes[k]
            }
        }),
{
    let here = bytes::at16(f.bytes, 38);
    let owner = t.underlay[here];
    assert(is_overlay4(f.bytes));
    assert(uplink_rx4(f, t, now) == balanced(f, t, owner.vni, here, backend));
    if t.underlay.contains_key(backend) && t.underlay[backend].tap_ifindex != 0 {
        let u = t.underlay[backend];
        encap::law_decapsulated_frame_is_the_guests(f, u.guest_mac, ETH_P_IP);
        if !t.fw_meta.contains_key(u.tap_ifindex) {
            assert(!firewall::denied(f.bytes, 54, t, u.tap_ifindex, FW_DIR_INGRESS));
        }
    } else {
        encap::law_reforwarded_frame_goes_on(f.bytes, t.local->Some_0, here, backend);
    }
}

/// The ingress rules are enforced: the first packet of a flow that the rules of the owner's tap deny
/// ingress is dropped as it is, and no table changes for it. The same holds of a packet that a load
/// balancer sends to a backend on this host, by the rules of the backend's tap. Here the packet is a TCP
/// or UDP one whose five-tuple has no entry.
pub proof fn law_ingress_rules_are_enforced(f: FrameView, t: TablesView, now: u64)
    requires
        f.bytes.len() >= 74,
        f.bytes[12] == 0x86 && f.bytes[13] == 0xdd && f.bytes[20] == 4,
        t.underlay.contains_key(bytes::at16(f.bytes, 38)),
        f.bytes[54] % 16 >= 5,
        f.bytes[63] == 6 || f.bytes[63] == 17,
        54 + 4 * (f.bytes[54] % 16) + 4 <= f.bytes.len(),
        ({
            let l4 = 54 + 4 * (f.bytes[54] % 16);
            !t.conntrack.contains_key(
                CtKey {
                    vni: t.underlay[bytes::at16(f.bytes, 38)].vni,
                    src_ip: bytes::at4(f.bytes, 66),
                    dst_ip: bytes::at4(f.bytes, 70),
                    src_port: (f.bytes[l4] * 256 + f.bytes[l4 + 1]) as u16,
                    dst_port: (f.bytes[l4 + 2] * 256 + f.bytes[l4 + 3]) as u16,
                    proto: f.bytes[63],
                },
            )
        }),
    ensures
        ({
            let owner = t.underlay[bytes::at16(f.bytes, 38)];
            let o = uplink_rx4(f, t, now);
            let dropped = Outcome { verdict: Ok(Verdict::Drop), frame: f, tables: t };
            &&& is_for_the_owner(f.bytes, t, owner) && firewall::denied(
                f.bytes,
                54,
                t,
                owner.tap_ifindex,
                FW_DIR_INGRESS,
            ) ==> o == dropped
            &&& owner.tap_ifindex == 0 ==> (lb::forward_to(
                f.bytes,
                54,
                t,
                owner.vni,
            ) matches Some(backend) ==> t.underlay.contains_key(backend) && t.underlay[
                backend
            ].tap_ifindex != 0 && firewall::denied(
                f.bytes,
                54,
                t,
                t.underlay[backend].tap_ifindex,
                FW_DIR_INGRESS,
            ) ==> o == dropped)
        }),
{
    reveal(received);
    let owner = t.underlay[bytes::at16(f.bytes, 38)];
    conntrack::law_key_is_the_five_tuple(f.bytes, 54, owner.vni);
    assert(is_overlay4(f.bytes));
    assert(f.with(f.bytes) == f);
    if is_for_the_owner(f.bytes, t, owner) {
        let i = inbound(f.bytes, t, owner.vni, now);
        assert(is_plain(i) && i.bytes == f.bytes && i.tables == t);
    }
}

/// A tracked destination translation is applied on the way in, by offset: a packet (without IPv4 options)
/// of a known flow whose entry rewrites the destination, and the destination alone, reaches the guest with
/// the entry's address for a destination, and the entry's port where it has one, whatever network NAT or
/// a neighbor would make of it. Here no load balancer has a claim to it, the packet is a whole TCP or UDP
/// one, and the owner's tap has no rules.
pub proof fn law_tracked_destination_is_what_arrives(
    f: FrameView,
    t: TablesView,
    now: u64,
    e: CtEntry,
)
    requires
        f.fits(),
        f.bytes.len() >= 74,
        f.bytes[12] == 0x86 && f.bytes[13] == 0xdd && f.bytes[20] == 4,
        t.underlay.contains_key(bytes::at16(f.bytes, 38)),
        f.bytes[54] % 16 == 5,
        (f.bytes[63] == 6 && f.bytes.len() >= 92) || (f.bytes[63] == 17 && f.bytes.len() >= 82),
        ({
            let owner = t.underlay[bytes::at16(f.bytes, 38)];
            &&& lb::deliver_to(f.bytes, 54, t, owner.vni) is None
            &&& owner.tap_ifindex == 0 ==> lb::forward_to(f.bytes, 54, t, owner.vni) is None
            &&& conntrack::key_of(f.bytes, 54, owner.vni) matches Some(key)
            &&& t.conntrack.contains_pair(key, e)
            &&& e.flags % 4 == 2
            &&& !t.fw_meta.contains_key(owner.tap_ifindex)
        }),
    ensures
        ({
            let owner = t.underlay[bytes::at16(f.bytes, 38)];
            let o = uplink_rx4(f, t, now);
            let out = o.frame.bytes;
            &&& o.verdict == Ok::<Verdict, ()>(Verdict::Redirect(owner.tap_ifindex))
            &&& out.len() == f.bytes.len() - 40
            &&& bytes::at6(out, 0) == owner.guest_mac
            &&& bytes::at4(out, 26) == bytes::at4(f.bytes, 66)
            &&& bytes::at4(out, 30) == e.xlate_ip
            &&& out[34] == f.bytes[74] && out[35] == f.bytes[75]
            &&& e.xlate_port != 0 ==> out[36] * 256 + out[37] == e.xlate_port
            &&& e.xlate_port == 0 ==> out[36] == f.bytes[76] && out[37] == f.bytes[77]
        }),
{
    reveal(received);
    let owner = t.underlay[bytes::at16(f.bytes, 38)];
    let key = conntrack::key_of(f.bytes, 54, owner.vni)->Some_0;
    let g = conntrack::applied(f.bytes, 54, e);
    assert(is_overlay4(f.bytes));
    translate::law_translated_bytes(
        f.bytes,
        54,
        74,
        End::Destination,
        e.xlate_ip,
        conntrack::entry_port(e),
    );
    let i = inbound(f.bytes, t, owner.vni, now);
    assert(i.restored && i.bytes == g && !is_plain(i));
    assert(!firewall::denied(g, 54, i.tables, owner.tap_ifindex, FW_DIR_INGRESS));
    assert(!refused(g, i.tables, owner.vni, owner.tap_ifindex));
    encap::law_decapsulated_frame_is_the_guests(f.with(g), owner.guest_mac, ETH_P_IP);
    let d = encap::decapsulated(f.with(g), owner.guest_mac, ETH_P_IP);
    let o = uplink_rx4(f, t, now);
    assert(o.frame == d);
    assert(bytes::at4(d.bytes, 26) =~= bytes::at4(f.bytes, 66));
    assert(bytes::at4(d.bytes, 30) =~= e.xlate_ip) by {
        assert(bytes::at4(d.bytes, 30) =~= bytes::at4(g, 70));
    }
}

/// A backend that is not on this host gets nothing from here: the packet is passed on; and a backend that
/// no interface has is an error. No table changes.
pub proof fn law_absent_backend_gets_nothing(
    f: FrameView,
    t: TablesView,
    now: u64,
    backend: [u8; 4],
)
    requires
        f.bytes.len() >= 74,
        f.bytes[12] == 0x86 && f.bytes[13] == 0xdd && f.bytes[20] == 4,
        t.underlay.contains_key(bytes::at16(f.bytes, 38)),
        ({
            let owner = t.underlay[bytes::at16(f.bytes, 38)];
            &&& owner.tap_ifindex == 0 ==> lb::forward_to(f.bytes, 54, t, owner.vni) is None
            &&& lb::deliver_to(f.bytes, 54, t, owner.vni) == Some(backend)
        }),
    ensures
        ({
            let owner = t.underlay[bytes::at16(f.bytes, 38)];
            let key = IfaceKey { vni: owner.vni, ipv4: backend };
            let o = uplink_rx4(f, t, now);
            &&& !t.interfaces.contains_key(key) ==> o.verdict == Err::<Verdict, ()>(()) && o.tables
                == t
            &&& t.interfaces.contains_key(key) && t.interfaces[key].is_local == 0 ==> o.verdict
                == Ok::<Verdict, ()>(Verdict::Pass) && o.tables == t
        }),
{
    reveal(received);
    assert(is_overlay4(f.bytes));
}

/// A reply to a flow that left through network NAT is taken for what it is before any neighbor's slice is
/// looked at, and a packet that nothing knows, to a neighbor's slice, goes to that neighbor: the order in
/// which a packet's destination is settled is load balancer, tracked flow, network NAT, neighbor, guest.
pub proof fn law_destinations_are_settled_in_order(
    f: FrameView,
    t: TablesView,
    now: u64,
    next: [u8; 16],
)
    requires
        f.bytes.len() >= 74,
        f.bytes[12] == 0x86 && f.bytes[13] == 0xdd && f.bytes[20] == 4,
        t.underlay.contains_key(bytes::at16(f.bytes, 38)),
        t.local is Some,
        ({
            let owner = t.underlay[bytes::at16(f.bytes, 38)];
            &&& lb::deliver_to(f.bytes, 54, t, owner.vni) is None
            &&& owner.tap_ifindex == 0 ==> lb::forward_to(f.bytes, 54, t, owner.vni) is None
            &&& conntrack::key_of(f.bytes, 54, owner.vni) matches Some(key)
                ==> t.conntrack.contains_key(key) ==> t.conntrack[key].flags / 2 % 2 == 0
            &&& network_nat::neighbor_of(f.bytes, 54, t, owner.vni) == Some(next)
        }),
    ensures
        ({
            let owner = t.underlay[bytes::at16(f.bytes, 38)];
            let o = uplink_rx4(f, t, now);
            let known = network_nat::returns_to(f.bytes, 54, t, owner.vni) is Some;
            &&& o.tables == t
            &&& known ==> o.verdict == Ok::<Verdict, ()>(Verdict::Redirect(owner.tap_ifindex))
            &&& !known ==> o.verdict == Ok::<Verdict, ()>(
                Verdict::Redirect(t.local->Some_0.local.uplink_ifindex),
            ) && bytes::at16(o.frame.bytes, 38) == next && bytes::at16(o.frame.bytes, 22)
                == bytes::at16(f.bytes, 38)
        }),
{
    reveal(received);
    assert(is_overlay4(f.bytes));
    let here = bytes::at16(f.bytes, 38);
    encap::law_reforwarded_frame_goes_on(f.bytes, t.local->Some_0, here, next);
}

} // verus!
