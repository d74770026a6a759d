//! The guest edge on a traffic-control hook: the responders only, answering by a redirect back out
//! the tap. A socket buffer has to be made linear ("pulled") before it is read or written; whether
//! that worked is the hook's to say.

use vstd::prelude::*;

use crate::arp_nd;
use crate::arp_nd::{try_write_arp_reply, try_write_nd_reply, GW_MAC};
use crate::bytes;
use crate::bytes::read2;
use crate::dhcp4;
use crate::dhcp4::{
    gather_dhcpv4_reply, learn_mac, looks_like_dhcpv4, parse_dhcpv4_request, write_dhcpv4_reply,
    REPLY_LEN,
};
use crate::egress;
use crate::frame::{Frame, FrameView};
use crate::parse;
use crate::parse::{ETH_LEN, ETH_P_ARP, ETH_P_IPV6};
use crate::tables::{Tables, TablesView};
use crate::types::Port;
use crate::verdict::{Outcome, Verdict};

verus! {

/// What the hook makes of a frame from the guest behind `port`; `arp_pulled` and `nd_pulled` say
/// whether an ARP packet and a Neighbor Solicitation could be made linear. An ARP frame is
/// answered or passed on; a DHCPv4 request goes to the DHCP program.
pub open spec fn tc_out(
    f: Seq<u8>,
    port: Port,
    ifindex: u32,
    arp_pulled: bool,
    nd_pulled: bool,
) -> (Verdict, Seq<u8>) {
    if f.len() < ETH_LEN {
        (Verdict::Pass, f)
    } else if parse::ethertype(f) == ETH_P_ARP {
        if arp_pulled && arp_nd::asks_arp(f, port.meta.gateway_ipv4) {
            (
                Verdict::Redirect(ifindex),
                arp_nd::arp_reply(f, port.meta.gateway_ipv4, GW_MAC),
            )
        } else {
            (Verdict::Pass, f)
        }
    } else if parse::ethertype(f) == ETH_P_IPV6 && nd_pulled && arp_nd::asks_nd(
        f,
        port.gateway_ipv6,
    ) {
        (
            Verdict::Redirect(ifindex),
            arp_nd::nd_reply(f, port.gateway_ipv6, GW_MAC),
        )
    } else if dhcp4::is_dhcp4(f) {
        (Verdict::TailCallDhcp, f)
    } else {
        (Verdict::Pass, f)
    }
}

/// The hook of a guest's tap.
pub fn tc_guest_tx(
    f: &mut Vec<u8>,
    tables: &Tables,
    ifindex: u32,
    arp_pulled: bool,
    nd_pulled: bool,
) -> (r: Verdict)
    ensures
        match tables@.ports.get(ifindex) {
            Some(port) => (r, final(f)@) == tc_out(
                old(f)@,
                port,
                ifindex,
                arp_pulled,
                nd_pulled,
            ),
            None => r == Verdict::Pass && final(f)@ == old(f)@,
        },
{
    let port: Port = match tables.ports.get(&ifindex) {
        Some(p) => p,
        None => {
            return Verdict::Pass;
        },
    };
    if f.len() < ETH_LEN {
        return Verdict::Pass;
    }
    let gw: [u8; 6] = GW_MAC;
    let ethertype: u16 = read2(f, 12);
    if ethertype == ETH_P_ARP {
        if arp_pulled && try_write_arp_reply(f, &port.meta.gateway_ipv4, &gw) {
            return Verdict::Redirect(ifindex);
        }
        return Verdict::Pass;
    }
    if ethertype == ETH_P_IPV6 {
        if nd_pulled && try_write_nd_reply(f, &port.gateway_ipv6, &gw) {
            return Verdict::Redirect(ifindex);
        }
    }
    if looks_like_dhcpv4(f) {
        return Verdict::TailCallDhcp;
    }
    Verdict::Pass
}

/// What the DHCP hook makes of a frame from the guest behind `port`; `head_pulled` and
/// `reply_pulled` say whether the request's head, and the buffer once it has a reply's length,
/// could be made linear.
pub open spec fn tc_dhcp_out(
    f: FrameView,
    t: TablesView,
    port: Port,
    ifindex: u32,
    head_pulled: bool,
    reply_pulled: bool,
) -> Outcome {
    match dhcp4::request4(f.bytes) {
        Some(req) if head_pulled => {
            let u = dhcp4::learned(t, ifindex, port, req.client_mac);
            let grown = f.resized(REPLY_LEN as int);
            if !f.can_resize(REPLY_LEN as int) {
                Outcome { verdict: Ok(Verdict::Pass), frame: f, tables: u }
            } else if !reply_pulled {
                Outcome { verdict: Ok(Verdict::Pass), frame: grown, tables: u }
            } else {
                Outcome {
                    verdict: Ok(Verdict::Redirect(ifindex)),
                    frame: grown.with(
                        dhcp4::reply4(grown.bytes, dhcp4::reply_data(req, port, u, ifindex)),
                    ),
                    tables: u,
                }
            }
        },
        _ => Outcome { verdict: Ok(Verdict::Pass), frame: f, tables: t },
    }
}

/// The DHCP hook: build the OFFER or ACK in the (resized) buffer and send it back to the guest.
pub fn tc_guest_dhcp(
    frame: &mut Frame,
    tables: &mut Tables,
    ifindex: u32,
    head_pulled: bool,
    reply_pulled: bool,
) -> (r: Verdict)
    requires
        old(frame)@.fits(),
    ensures
        final(frame)@.fits(),
        (Outcome { verdict: Ok(r), frame: final(frame)@, tables: final(tables)@ }) == (
        match old(tables)@.ports.get(ifindex) {
            Some(port) => tc_dhcp_out(
                old(frame)@,
                old(tables)@,
                port,
                ifindex,
                head_pulled,
                reply_pulled,
            ),
            None => Outcome {
                verdict: Ok(Verdict::Pass),
                frame: old(frame)@,
                tables: old(tables)@,
            },
        }),
{
    let port: Port = match tables.ports.get(&ifindex) {
        Some(p) => p,
        None => {
            return Verdict::Pass;
        },
    };
    if !head_pulled {
        return Verdict::Pass;
    }
    let req = match parse_dhcpv4_request(&frame.bytes) {
        Some(q) => q,
        None => {
            return Verdict::Pass;
        },
    };
    learn_mac(tables, ifindex, &port, &req.client_mac);
    let data = gather_dhcpv4_reply(&req, &port, tables, ifindex);
    if !frame.resize_tail(REPLY_LEN) {
        return Verdict::Pass;
    }
    if !reply_pulled {
        return Verdict::Pass;
    }
    let ghost grown = frame.bytes@;
    proof {
        dhcp4::lemma_reply4_len(grown, data);
    }
    if write_dhcpv4_reply(&mut frame.bytes, &data).is_none() {
        return Verdict::Drop;
    }
    assert(frame.bytes@ =~= dhcp4::reply4(grown, data));
    Verdict::Redirect(ifindex)
}

/// The hook answers what the guest-facing program answers: an ARP request or Neighbor Solicitation for
/// the gateway, once it is linear, leaves as the same reply, redirected back out of the tap it came
/// from; a DHCPv4 message goes to the DHCP hook as it is, and everything else is passed on as it is.
pub proof fn law_hook_answers_as_the_program(
    f: FrameView,
    t: TablesView,
    ifindex: u32,
    now: u64,
)
    requires
        t.ports.contains_key(ifindex),
        f.bytes.len() >= 14,
    ensures
        ({
            let b = f.bytes;
            let port = t.ports[ifindex];
            let (r, g) = tc_out(b, port, ifindex, true, true);
            let asks = arp_nd::asks_arp(b, port.meta.gateway_ipv4) || arp_nd::asks_nd(
                b,
                port.gateway_ipv6,
            );
            &&& asks ==> r == Verdict::Redirect(ifindex) && g == egress::tap_rx(
                f,
                t,
                ifindex,
                now,
            ).frame.bytes
            &&& !asks ==> g == b
            &&& !asks && b.len() >= 282 && b[12] == 8 && b[13] == 0 && b[14] % 16 == 5 && b[23] == 17
                && b[36] == 0 && b[37] == 67 && b[278] == 0x63 && b[279] == 0x82 && b[280] == 0x53
                && b[281] == 0x63 ==> r == Verdict::TailCallDhcp
            &&& !asks && (b[12] != 8 || b[13] != 0 || b[23] != 17 || b[36] != 0 || b[37] != 67)
                ==> r == Verdict::Pass
        }),
{
    let b = f.bytes;
    reveal(egress::resolved);
    assert(bytes::be16(b, 12) == b[12] * 256 + b[13]);
    assert(bytes::be16(b, 36) == b[36] * 256 + b[37]);
    let n = b[278] * 16777216 + b[279] * 65536 + b[280] * 256 + b[281];
    assert(bytes::be32(b, 278) == n);
}

/// What cannot be made linear is passed on as it is: no frame is answered before it was pulled.
pub proof fn law_unpulled_frames_pass(f: Seq<u8>, port: Port, ifindex: u32)
    requires
        f.len() >= 14,
        arp_nd::asks_arp(f, port.meta.gateway_ipv4) || arp_nd::asks_nd(f, port.gateway_ipv6),
    ensures
        tc_out(f, port, ifindex, false, false) == (Verdict::Pass, f),
{
}

/// The DHCP hook answers what the responder answers: once the request's head and the resized buffer are
/// linear, the frame that leaves is the responder's answer, redirected back out of the tap, and the
/// tables are the responder's; where there is no answer, the frame is passed on.
pub proof fn law_dhcp_hook_answers_as_the_responder(
    f: FrameView,
    t: TablesView,
    port: Port,
    ifindex: u32,
)
    ensures
        ({
            let o = tc_dhcp_out(f, t, port, ifindex, true, true);
            &&& o.tables == dhcp4::tables_after4(f.bytes, t, port, ifindex)
            &&& dhcp4::answer4(f, t, port, ifindex) matches Some(answer) ==> o.verdict == Ok::<
                Verdict,
                (),
            >(Verdict::Redirect(ifindex)) && o.frame == answer
            &&& dhcp4::answer4(f, t, port, ifindex) is None ==> o.verdict == Ok::<Verdict, ()>(
                Verdict::Pass,
            ) && o.frame == f
        }),
{
    if let Some(req) = dhcp4::request4(f.bytes) {
        if f.can_resize(REPLY_LEN as int) {
            let grown = f.resized(REPLY_LEN as int);
            let u = dhcp4::learned(t, ifindex, port, req.client_mac);
            let data = dhcp4::reply_data(req, port, u, ifindex);
            assert(grown.bytes.take(282) =~= f.bytes.take(282));
            dhcp4::lemma_reply4_fixed_part(f.bytes, grown.bytes, data);
        }
    }
}

/// A DHCP request whose head cannot be made linear is passed on as it is, and no table changes; one whose
/// resized buffer cannot is passed on too, once its MAC was learned.
pub proof fn law_unpulled_requests_pass(
    f: FrameView,
    t: TablesView,
    port: Port,
    ifindex: u32,
    pulled: bool,
)
    ensures
        tc_dhcp_out(f, t, port, ifindex, false, pulled) == (Outcome {
            verdict: Ok(Verdict::Pass),
            frame: f,
            tables: t,
        }),
        ({
            let o = tc_dhcp_out(f, t, port, ifindex, true, false);
            o.verdict == Ok::<Verdict, ()>(Verdict::Pass) && o.tables == dhcp4::tables_after4(
                f.bytes,
                t,
                port,
                ifindex,
            )
        }),
{
}

} // verus!
