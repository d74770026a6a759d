//! In-datapath DHCPv4 responder.

use vstd::prelude::*;

use crate::arp_nd::GW_MAC;
use crate::bytes;
use crate::bytes::{
    eq6, push2, push_range, push_zeros, read2, read6, read_be32, write2, write_bytes,
};
use crate::csum;
use crate::csum::csum16;
use crate::frame::{Frame, FrameView};
use crate::parse;
use crate::parse::{ETH_LEN, ETH_P_IP, IPPROTO_UDP};
use crate::table::Addr6;
use crate::tables::{Tables, TablesView};
use crate::types::{
    DhcpConfig, DhcpMeta, IfaceKey, IfaceValue, Port, PortMeta, UnderlayValue, DHCP_MAX_DNS,
};
use crate::verdict::Verdict;

verus! {

pub const DHCP_MAGIC: u32 = 0x6382_5363;

pub const OPT_PAD: u8 = 0;

pub const OPT_END: u8 = 255;

pub const OPT_MESSAGE_TYPE: u8 = 53;

pub const OPT_LEASE_TIME: u8 = 51;

pub const OPT_SERVER_ID: u8 = 54;

pub const OPT_CLASSLESS_ROUTE: u8 = 121;

pub const OPT_SUBNET_MASK: u8 = 1;

pub const OPT_DNS: u8 = 6;

pub const OPT_HOSTNAME: u8 = 12;

pub const OPT_MTU: u8 = 26;

pub const DHCP_MSG_DISCOVER: u8 = 1;

pub const DHCP_MSG_OFFER: u8 = 2;

pub const DHCP_MSG_REQUEST: u8 = 3;

pub const DHCP_MSG_ACK: u8 = 5;

/// Where the magic cookie stands.
pub const F_MAGIC: usize = 278;

/// Where the options start.
pub const F_OPTS: usize = 282;

pub const MIN_DHCP_LEN: usize = 282;

/// How many option bytes of a request are looked at.
pub const OPTS_SCAN_BYTES: usize = 128;

/// Bytes of a reply frame.
pub const REPLY_LEN: usize = 428;

/// MTU offered where none is configured.
pub const DEFAULT_MTU: u16 = 1500;

/// Whether the fixed headers are those of a DHCPv4 message to a server.
pub open spec fn is_dhcp4(f: Seq<u8>) -> bool {
    &&& MIN_DHCP_LEN <= f.len()
    &&& parse::ethertype(f) == ETH_P_IP
    &&& f[ETH_LEN as int] % 16 == 5
    &&& f[ETH_LEN + 9] == IPPROTO_UDP
    &&& bytes::be16(f, ETH_LEN + 22) == 67
    &&& bytes::be32(f, F_MAGIC as int) == DHCP_MAGIC
}

/// The DHCP message type that the options in bytes `i..end` give; `found` where they give none.
/// An option cut off by `end` counts for nothing; the last of several wins.
pub open spec fn message_type(f: Seq<u8>, i: int, end: int, found: u8) -> u8
    decreases end - i,
{
    if i >= end {
        found
    } else if f[i] == OPT_PAD {
        message_type(f, i + 1, end, found)
    } else if f[i] == OPT_END || i + 1 >= end {
        found
    } else {
        let len = f[i + 1] as int;
        if i + 2 + len > end {
            found
        } else if f[i] == OPT_MESSAGE_TYPE && len > 0 {
            message_type(f, i + 2 + len, end, f[i + 1 + len])
        } else {
            message_type(f, i + 2 + len, end, found)
        }
    }
}

/// Where the scan of a request's options ends.
pub open spec fn scan_end(f: Seq<u8>) -> int {
    if f.len() < F_OPTS + OPTS_SCAN_BYTES {
        f.len() as int
    } else {
        F_OPTS + OPTS_SCAN_BYTES
    }
}

/// What is needed of a DHCPv4 request to answer it.
#[derive(Copy, Clone, Debug, PartialEq, Eq)]
pub struct Dhcp4Request {
    /// OFFER for a DISCOVER, ACK for a REQUEST.
    pub reply_type: u8,
    /// The Ethernet source of the request, not the hardware address of its BOOTP header.
    pub client_mac: [u8; 6],
}

/// The request a frame holds, if it is one that is answered.
pub open spec fn request4(f: Seq<u8>) -> Option<Dhcp4Request> {
    if !is_dhcp4(f) {
        None
    } else {
        let t = message_type(f, F_OPTS as int, scan_end(f), 0);
        if t == DHCP_MSG_DISCOVER {
            Some(Dhcp4Request { reply_type: DHCP_MSG_OFFER, client_mac: bytes::at6(f, 6) })
        } else if t == DHCP_MSG_REQUEST {
            Some(Dhcp4Request { reply_type: DHCP_MSG_ACK, client_mac: bytes::at6(f, 6) })
        } else {
            None
        }
    }
}

/// Whether a frame's fixed headers are those of a DHCPv4 message to a server.
pub fn looks_like_dhcpv4(f: &Vec<u8>) -> (r: bool)
    ensures
        r == is_dhcp4(f@),
{
    f.len() >= MIN_DHCP_LEN && read2(f, 12) == ETH_P_IP && f[ETH_LEN] % 16 == 5 && f[ETH_LEN + 9]
        == IPPROTO_UDP && read2(f, ETH_LEN + 22) == 67 && read_be32(f, F_MAGIC) == DHCP_MAGIC
}

fn scan_message_type(f: &Vec<u8>) -> (r: u8)
    requires
        f.len() >= F_OPTS,
    ensures
        r == message_type(f@, F_OPTS as int, scan_end(f@), 0),
{
    let end: usize = if f.len() < F_OPTS + OPTS_SCAN_BYTES {
        f.len()
    } else {
        F_OPTS + OPTS_SCAN_BYTES
    };
    let mut i: usize = F_OPTS;
    let mut found: u8 = 0;
    while i < end
        invariant
            F_OPTS <= i <= end,
            end <= f.len(),
            end <= F_OPTS + OPTS_SCAN_BYTES,
            end == scan_end(f@),
            message_type(f@, F_OPTS as int, scan_end(f@), 0) == message_type(
                f@,
                i as int,
                end as int,
                found,
            ),
        decreases end - i,
    {
        let code: u8 = f[i];
        if code == OPT_PAD {
            i = i + 1;
        } else if code == OPT_END || i + 1 >= end {
            return found;
        } else {
            let len: usize = f[i + 1] as usize;
            if i + 2 + len > end {
                return found;
            }
            if code == OPT_MESSAGE_TYPE && len > 0 {
                found = f[i + 1 + len];
            }
            i = i + 2 + len;
        }
    }
    found
}

/// Recognise a DHCPv4 DISCOVER or REQUEST.
pub fn parse_dhcpv4_request(f: &Vec<u8>) -> (r: Option<Dhcp4Request>)
    ensures
        r == request4(f@),
{
    if !looks_like_dhcpv4(f) {
        return None;
    }
    let t: u8 = scan_message_type(f);
    if t == DHCP_MSG_DISCOVER {
        Some(Dhcp4Request { reply_type: DHCP_MSG_OFFER, client_mac: read6(f, 6) })
    } else if t == DHCP_MSG_REQUEST {
        Some(Dhcp4Request { reply_type: DHCP_MSG_ACK, client_mac: read6(f, 6) })
    } else {
        None
    }
}

/// A port with another guest MAC.
pub open spec fn port_with_mac(port: Port, mac: [u8; 6]) -> Port {
    Port { meta: PortMeta { guest_mac: mac, ..port.meta }, ..port }
}

/// The tables after the guest behind `port` was seen to use the address `mac`: where that is news,
/// its port, the owner of its underlay address and its interface get it.
pub open spec fn learned(t: TablesView, ifindex: u32, port: Port, mac: [u8; 6]) -> TablesView {
    if mac == port.meta.guest_mac {
        t
    } else {
        let ikey = IfaceKey { vni: port.meta.vni, ipv4: port.meta.guest_ipv4 };
        TablesView {
            ports: t.ports.insert(ifindex, port_with_mac(port, mac)),
            underlay: if t.underlay.contains_key(port.underlay_ipv6) {
                t.underlay.insert(
                    port.underlay_ipv6,
                    UnderlayValue { guest_mac: mac, ..t.underlay[port.underlay_ipv6] },
                )
            } else {
                t.underlay
            },
            interfaces: if t.interfaces.contains_key(ikey) {
                t.interfaces.insert(ikey, IfaceValue { guest_mac: mac, ..t.interfaces[ikey] })
            } else {
                t.interfaces
            },
            ..t
        }
    }
}

/// Record the MAC address a guest uses, so that delivery to it uses the new one at once.
pub fn learn_mac(tables: &mut Tables, ifindex: u32, port: &Port, mac: &[u8; 6])
    ensures
        final(tables)@ == learned(old(tables)@, ifindex, *port, *mac),
{
    if eq6(mac, &port.meta.guest_mac) {
        return;
    }
    let mut updated: Port = *port;
    updated.meta.guest_mac = *mac;
    tables.ports.insert(ifindex, updated);
    let ukey = Addr6(port.underlay_ipv6);
    match tables.underlay.get(&ukey) {
        Some(u) => {
            let mut u2: UnderlayValue = u;
            u2.guest_mac = *mac;
            tables.underlay.insert(ukey, u2);
        },
        None => {},
    }
    let ikey = IfaceKey::new(port.meta.vni, port.meta.guest_ipv4);
    match tables.interfaces.get(&ikey) {
        Some(iv) => {
            let mut iv2: IfaceValue = iv;
            iv2.guest_mac = *mac;
            tables.interfaces.insert(ikey, iv2);
        },
        None => {},
    }
}

/// Everything a DHCPv4 reply holds that does not come from the request's own bytes.
#[derive(Copy, Clone, Debug)]
pub struct Dhcp4Reply {
    pub reply_type: u8,
    pub guest_ipv4: [u8; 4],
    pub gateway_ipv4: [u8; 4],
    pub config: Option<DhcpConfig>,
    pub meta: Option<DhcpMeta>,
}

/// The reply data for a request from `port`.
pub open spec fn reply_data(req: Dhcp4Request, port: Port, t: TablesView, ifindex: u32) -> Dhcp4Reply {
    Dhcp4Reply {
        reply_type: req.reply_type,
        guest_ipv4: port.meta.guest_ipv4,
        gateway_ipv4: port.meta.gateway_ipv4,
        config: t.dhcp_config,
        meta: t.dhcp_meta.get(ifindex),
    }
}

/// Look up what a reply to a request from `port` holds.
pub fn gather_dhcpv4_reply(req: &Dhcp4Request, port: &Port, tables: &Tables, ifindex: u32) -> (r:
    Dhcp4Reply)
    ensures
        r == reply_data(*req, *port, tables@, ifindex),
{
    Dhcp4Reply {
        reply_type: req.reply_type,
        guest_ipv4: port.meta.guest_ipv4,
        gateway_ipv4: port.meta.gateway_ipv4,
        config: tables.dhcp_config,
        meta: tables.dhcp_meta.get(&ifindex),
    }
}

pub open spec fn at_most(n: int, cap: int) -> int {
    if n < cap {
        n
    } else {
        cap
    }
}

/// The first `n` IPv4 addresses of a list, one behind the other.
pub open spec fn concat4(a: [[u8; 4]; 8], n: nat) -> Seq<u8>
    decreases n,
{
    if n == 0 {
        Seq::empty()
    } else {
        concat4(a, (n - 1) as nat) + a[n - 1]@
    }
}

/// The DNS option, padded to 34 bytes; all padding where no server is configured.
pub open spec fn dns_option(config: Option<DhcpConfig>) -> Seq<u8> {
    match config {
        Some(c) if c.dns4_len > 0 => {
            let n = at_most(c.dns4_len as int, 8);
            seq![OPT_DNS, (n * 4) as u8] + concat4(c.dns4, n as nat) + bytes::zeros(
                (32 - n * 4) as nat,
            )
        },
        _ => bytes::zeros(34),
    }
}

/// The hostname option, padded to 66 bytes; all padding where there is no hostname.
pub open spec fn hostname_option(meta: Option<DhcpMeta>) -> Seq<u8> {
    match meta {
        Some(m) if m.hostname_len > 0 => {
            let n = at_most(m.hostname_len as int, 64);
            seq![OPT_HOSTNAME, n as u8] + m.hostname@.take(n) + bytes::zeros((64 - n) as nat)
        },
        _ => bytes::zeros(66),
    }
}

/// The options of a reply: message type, infinite lease, server id, a classless route for the
/// link-local prefix and a default route through the gateway, a host netmask, the MTU, six bytes
/// of padding, DNS servers and the hostname.
pub open spec fn options4(r: Dhcp4Reply) -> Seq<u8> {
    let mtu = match r.config {
        Some(c) => c.mtu,
        None => DEFAULT_MTU,
    };
    seq![OPT_MESSAGE_TYPE, 1, r.reply_type] + seq![OPT_LEASE_TIME, 4, 255, 255, 255, 255] + seq![
        OPT_SERVER_ID,
        4,
    ] + r.gateway_ipv4@ + seq![OPT_CLASSLESS_ROUTE, 12, 16, 169, 254, 0, 0, 0, 0, 0]
        + r.gateway_ipv4@ + seq![OPT_SUBNET_MASK, 4, 255, 255, 255, 255] + seq![OPT_MTU, 2]
        + bytes::be2(mtu) + bytes::zeros(6) + dns_option(r.config) + hostname_option(r.meta)
        + seq![OPT_END]
}

/// The IPv4 header of a reply, its checksum field zero.
pub open spec fn ip_header_unsummed(f: Seq<u8>, gateway: [u8; 4]) -> Seq<u8> {
    seq![f[14], f[15]] + bytes::be2(414) + seq![0u8, 0, 0, 0, 64, IPPROTO_UDP, 0, 0] + gateway@
        + seq![255u8, 255, 255, 255]
}

/// The IPv4 header of a reply: version, header length and service type of the request, from the
/// gateway to the broadcast address.
pub open spec fn ip_header(f: Seq<u8>, gateway: [u8; 4]) -> Seq<u8> {
    let h = ip_header_unsummed(f, gateway);
    bytes::put(h, 10, bytes::be2(csum::checksum(csum::word_sum(h, 0, 20))))
}

/// The BOOTP header of a reply up to the magic cookie: the request's transaction, the assigned
/// address, the gateway as server and relay, the client's Ethernet address, no names.
pub open spec fn bootp(f: Seq<u8>, r: Dhcp4Reply) -> Seq<u8> {
    seq![2u8] + f.subrange(43, 58) + r.guest_ipv4@ + r.gateway_ipv4@ + r.gateway_ipv4@ + f.subrange(
        6,
        12,
    ) + f.subrange(76, 86) + bytes::zeros(192) + f.subrange(278, 282)
}

/// The whole reply to the request `f`.
pub open spec fn reply4(f: Seq<u8>, r: Dhcp4Reply) -> Seq<u8> {
    f.subrange(6, 12) + GW_MAC@ + f.subrange(12, 14) + ip_header(f, r.gateway_ipv4) + bytes::be2(67)
        + bytes::be2(68) + bytes::be2(394) + bytes::be2(0) + bootp(f, r) + options4(r)
}

fn push_dns(out: &mut Vec<u8>, config: &Option<DhcpConfig>)
    ensures
        final(out)@ == old(out)@ + dns_option(*config),
{
    match config {
        Some(c) => {
            if c.dns4_len > 0 {
                let n: usize = if (c.dns4_len as usize) < DHCP_MAX_DNS {
                    c.dns4_len as usize
                } else {
                    DHCP_MAX_DNS
                };
                out.push(OPT_DNS);
                out.push((n * 4) as u8);
                let ghost head = out@;
                let mut j: usize = 0;
                while j < n
                    invariant
                        j <= n,
                        n <= 8,
                        out@ == head + concat4(c.dns4, j as nat),
                    decreases n - j,
                {
                    let a: [u8; 4] = c.dns4[j];
                    out.extend_from_slice(&a);
                    j = j + 1;
                    assert(out@ =~= head + concat4(c.dns4, j as nat));
                }
                push_zeros(out, 32 - n * 4);
                assert(out@ =~= old(out)@ + dns_option(*config));
                return;
            }
        },
        None => {},
    }
    push_zeros(out, 34);
}

fn push_hostname(out: &mut Vec<u8>, meta: &Option<DhcpMeta>)
    ensures
        final(out)@ == old(out)@ + hostname_option(*meta),
{
    match meta {
        Some(m) => {
            if m.hostname_len > 0 {
                let n: usize = if m.hostname_len < 64 {
                    m.hostname_len as usize
                } else {
                    64
                };
                out.push(OPT_HOSTNAME);
                out.push(n as u8);
                let ghost head = out@;
                let mut j: usize = 0;
                while j < n
                    invariant
                        j <= n,
                        n <= 64,
                        out@ == head + m.hostname@.take(j as int),
                    decreases n - j,
                {
                    out.push(m.hostname[j]);
                    j = j + 1;
                    assert(out@ =~= head + m.hostname@.take(j as int));
                }
                push_zeros(out, 64 - n);
                assert(out@ =~= old(out)@ + hostname_option(*meta));
                return;
            }
        },
        None => {},
    }
    push_zeros(out, 66);
}

fn push_options(out: &mut Vec<u8>, r: &Dhcp4Reply)
    ensures
        final(out)@ == old(out)@ + options4(*r),
{
    let gw: [u8; 4] = r.gateway_ipv4;
    let t: u8 = r.reply_type;
    let mtu: u16 = match &r.config {
        Some(c) => c.mtu,
        None => DEFAULT_MTU,
    };
    out.extend_from_slice(&[OPT_MESSAGE_TYPE, 1, t]);
    out.extend_from_slice(&[OPT_LEASE_TIME, 4, 255, 255, 255, 255]);
    out.extend_from_slice(&[OPT_SERVER_ID, 4]);
    out.extend_from_slice(&gw);
    out.extend_from_slice(&[OPT_CLASSLESS_ROUTE, 12, 16, 169, 254, 0, 0, 0, 0, 0]);
    out.extend_from_slice(&gw);
    out.extend_from_slice(&[OPT_SUBNET_MASK, 4, 255, 255, 255, 255]);
    out.extend_from_slice(&[OPT_MTU, 2]);
    push2(out, mtu);
    push_zeros(out, 6);
    push_dns(out, &r.config);
    push_hostname(out, &r.meta);
    out.push(OPT_END);
    assert(out@ =~= old(out)@ + options4(*r));
}

proof fn lemma_concat4_len(a: [[u8; 4]; 8], n: nat)
    ensures
        concat4(a, n).len() == 4 * n,
    decreases n,
{
    if n > 0 {
        lemma_concat4_len(a, (n - 1) as nat);
    }
}

/// A reply has the length that a frame is given for it.
pub proof fn lemma_reply4_len(f: Seq<u8>, r: Dhcp4Reply)
    requires
        f.len() >= MIN_DHCP_LEN,
    ensures
        reply4(f, r).len() == REPLY_LEN,
{
    assert(dns_option(r.config).len() == 34) by {
        match r.config {
            Some(c) if c.dns4_len > 0 => {
                lemma_concat4_len(c.dns4, at_most(c.dns4_len as int, 8) as nat);
            },
            _ => {},
        }
    }
    assert(hostname_option(r.meta).len() == 66);
}

/// A reply takes over only bytes of the request's fixed part.
pub proof fn lemma_reply4_fixed_part(f: Seq<u8>, g: Seq<u8>, r: Dhcp4Reply)
    requires
        f.len() >= MIN_DHCP_LEN,
        g.len() >= MIN_DHCP_LEN,
        f.take(MIN_DHCP_LEN as int) == g.take(MIN_DHCP_LEN as int),
    ensures
        reply4(f, r) == reply4(g, r),
{
    assert forall|i: int| 0 <= i < MIN_DHCP_LEN implies f[i] == g[i] by {
        assert(f.take(MIN_DHCP_LEN as int)[i] == f[i]);
        assert(g.take(MIN_DHCP_LEN as int)[i] == g[i]);
    }
    assert(f.subrange(6, 12) =~= g.subrange(6, 12));
    assert(f.subrange(12, 14) =~= g.subrange(12, 14));
    assert(f.subrange(43, 58) =~= g.subrange(43, 58));
    assert(f.subrange(76, 86) =~= g.subrange(76, 86));
    assert(f.subrange(278, 282) =~= g.subrange(278, 282));
}

fn build_ip_header(f: &Vec<u8>, gw: &[u8; 4]) -> (h: Vec<u8>)
    requires
        f.len() >= MIN_DHCP_LEN,
    ensures
        h@ == ip_header(f@, *gw),
{
    let mut h: Vec<u8> = Vec::new();
    h.push(f[14]);
    h.push(f[15]);
    push2(&mut h, 414);
    h.extend_from_slice(&[0u8, 0, 0, 0, 64, IPPROTO_UDP, 0, 0]);
    h.extend_from_slice(gw);
    h.extend_from_slice(&[255u8, 255, 255, 255]);
    assert(h@ =~= ip_header_unsummed(f@, *gw));
    let c: u16 = csum16(0, &h, 0, 20);
    write2(&mut h, 10, c);
    h
}

/// Turn the request in `f` into its reply, in place. Gives `None`, changing nothing, where `f` is
/// too short to hold a reply.
pub fn write_dhcpv4_reply(f: &mut Vec<u8>, r: &Dhcp4Reply) -> (done: Option<()>)
    ensures
        done is Some <==> old(f).len() >= REPLY_LEN,
        done is Some ==> final(f)@ == bytes::put(old(f)@, 0, reply4(old(f)@, *r)),
        done is None ==> final(f)@ == old(f)@,
{
    if f.len() < REPLY_LEN {
        return None;
    }
    let mut out: Vec<u8> = Vec::new();
    push_range(&mut out, f, 6, 12);
    let gw_mac: [u8; 6] = GW_MAC;
    out.extend_from_slice(&gw_mac);
    push_range(&mut out, f, 12, 14);
    let h = build_ip_header(f, &r.gateway_ipv4);
    out.extend_from_slice(h.as_slice());
    push2(&mut out, 67);
    push2(&mut out, 68);
    push2(&mut out, 394);
    push2(&mut out, 0);
    let ghost head = out@;
    out.push(2u8);
    push_range(&mut out, f, 43, 58);
    out.extend_from_slice(&r.guest_ipv4);
    out.extend_from_slice(&r.gateway_ipv4);
    out.extend_from_slice(&r.gateway_ipv4);
    push_range(&mut out, f, 6, 12);
    push_range(&mut out, f, 76, 86);
    push_zeros(&mut out, 192);
    push_range(&mut out, f, 278, 282);
    assert(out@ =~= head + bootp(f@, *r));
    push_options(&mut out, r);
    assert(out@ =~= reply4(f@, *r));
    proof {
        lemma_reply4_len(f@, *r);
    }
    write_bytes(f, 0, out.as_slice());
    Some(())
}

/// The tables after a frame from the guest behind `port` was looked at for a DHCPv4 request: the
/// guest's MAC is learned from a request's Ethernet source.
pub open spec fn tables_after4(f: Seq<u8>, t: TablesView, port: Port, ifindex: u32) -> TablesView {
    match request4(f) {
        Some(req) => learned(t, ifindex, port, req.client_mac),
        None => t,
    }
}

/// The frame that answers a DHCPv4 DISCOVER or REQUEST. There is none for any other frame, and
/// none where the frame cannot be given the length of a reply.
pub open spec fn answer4(f: FrameView, t: TablesView, port: Port, ifindex: u32) -> Option<
    FrameView,
> {
    match request4(f.bytes) {
        Some(req) if f.can_resize(REPLY_LEN as int) => Some(
            f.resized(REPLY_LEN as int).with(
                reply4(
                    f.bytes,
                    reply_data(req, port, tables_after4(f.bytes, t, port, ifindex), ifindex),
                ),
            ),
        ),
        _ => None,
    }
}

/// Answer a DHCPv4 request from the guest behind `port`; where there is no answer, the frame stays
/// as it was.
pub fn try_dhcpv4_reply(frame: &mut Frame, tables: &mut Tables, port: &Port, ifindex: u32) -> (r:
    Option<Verdict>)
    requires
        old(frame)@.fits(),
    ensures
        final(frame)@.fits(),
        final(tables)@ == tables_after4(old(frame)@.bytes, old(tables)@, *port, ifindex),
        match answer4(old(frame)@, old(tables)@, *port, ifindex) {
            Some(answer) => r == Some(Verdict::Reflect) && final(frame)@ == answer,
            None => r is None && final(frame)@ == old(frame)@,
        },
{
    let req: Dhcp4Request = match parse_dhcpv4_request(&frame.bytes) {
        Some(q) => q,
        None => {
            return None;
        },
    };
    learn_mac(tables, ifindex, port, &req.client_mac);
    let data = gather_dhcpv4_reply(&req, port, tables, ifindex);
    if !frame.resize_tail(REPLY_LEN) {
        return None;
    }
    let ghost grown = frame.bytes@;
    proof {
        assert(grown.take(MIN_DHCP_LEN as int) =~= old(frame).bytes@.take(MIN_DHCP_LEN as int));
        lemma_reply4_fixed_part(old(frame).bytes@, grown, data);
        lemma_reply4_len(grown, data);
    }
    let _ = write_dhcpv4_reply(&mut frame.bytes, &data);
    assert(frame.bytes@ =~= reply4(grown, data));
    Some(Verdict::Reflect)
}

/// The IPv4 header of every DHCPv4 reply carries a checksum that verifies.
pub proof fn law_dhcp4_header_verifies(f: Seq<u8>, gateway: [u8; 4])
    ensures
        csum::verifies(csum::word_sum(ip_header(f, gateway), 0, 20)),
{
    let h = ip_header_unsummed(f, gateway);
    let n = csum::word_sum(h, 0, 20);
    let c = csum::checksum(n);
    let g = ip_header(f, gateway);
    reveal_with_fuel(csum::word_sum, 11);
    assert(h.len() == 20);
    assert(bytes::be16(h, 8) == 64 * 256 + 17);
    assert(csum::word_sum(g, 0, 20) == n + c);
    csum::law_checksum_verifies(n);
}

/// Learning is consistent: after a request from a guest, its port has the MAC that the request came
/// from, and so have the owner of the port's underlay address and the interface of the guest's
/// overlay address, where those had the port's MAC before; nothing else of them changes.
pub proof fn law_learned_mac_is_consistent(f: Seq<u8>, t: TablesView, port: Port, ifindex: u32)
    requires
        request4(f) is Some,
        t.ports.contains_key(ifindex),
        t.ports[ifindex] == port,
    ensures
        ({
            let mac = bytes::at6(f, 6);
            let u = tables_after4(f, t, port, ifindex);
            let key = IfaceKey { vni: port.meta.vni, ipv4: port.meta.guest_ipv4 };
            &&& u.ports.contains_key(ifindex) && u.ports[ifindex] == (Port {
                meta: PortMeta { guest_mac: mac, ..port.meta },
                ..port
            })
            &&& t.underlay.contains_key(port.underlay_ipv6) && t.underlay[
                port.underlay_ipv6
            ].guest_mac == port.meta.guest_mac ==> u.underlay[port.underlay_ipv6] == (
            UnderlayValue { guest_mac: mac, ..t.underlay[port.underlay_ipv6] })
            &&& t.interfaces.contains_key(key) && t.interfaces[key].guest_mac
                == port.meta.guest_mac ==> u.interfaces[key] == (IfaceValue {
                guest_mac: mac,
                ..t.interfaces[key]
            })
            &&& u.underlay.dom() == t.underlay.dom()
            &&& u.interfaces.dom() == t.interfaces.dom()
            &&& u.conntrack == t.conntrack
            &&& u.routes == t.routes
        }),
{
    let u = tables_after4(f, t, port, ifindex);
    assert(u.underlay.dom() =~= t.underlay.dom());
    assert(u.interfaces.dom() =~= t.interfaces.dom());
}

/// A reply is five parts, one behind the other: the Ethernet, IPv4 and UDP headers, the BOOTP header
/// with the magic cookie, and the options.
proof fn lemma_reply4_parts(f: Seq<u8>, r: Dhcp4Reply)
    requires
        f.len() >= MIN_DHCP_LEN,
    ensures
        ({
            let x = reply4(f, r);
            let eth = f.subrange(6, 12) + GW_MAC@ + f.subrange(12, 14);
            let udp = bytes::be2(67) + bytes::be2(68) + bytes::be2(394) + bytes::be2(0);
            &&& x.len() == 428
            &&& forall|i: int| 0 <= i < 14 ==> #[trigger] x[i] == eth[i]
            &&& forall|i: int|
                14 <= i < 34 ==> #[trigger] x[i] == ip_header(f, r.gateway_ipv4)[i - 14]
            &&& forall|i: int| 34 <= i < 42 ==> #[trigger] x[i] == udp[i - 34]
            &&& forall|i: int| 42 <= i < 282 ==> #[trigger] x[i] == bootp(f, r)[i - 42]
            &&& forall|i: int| 282 <= i < 428 ==> #[trigger] x[i] == options4(r)[i - 282]
        }),
{
    lemma_reply4_len(f, r);
    let x = reply4(f, r);
    let eth = f.subrange(6, 12) + GW_MAC@ + f.subrange(12, 14);
    let ip = ip_header(f, r.gateway_ipv4);
    let udp = bytes::be2(67) + bytes::be2(68) + bytes::be2(394) + bytes::be2(0);
    let b = bootp(f, r);
    let o = options4(r);
    assert(eth.len() == 14 && ip.len() == 20 && udp.len() == 8 && b.len() == 240);
    assert(x =~= eth + ip + udp + b + o);
    assert(o.len() == 146);
    assert forall|i: int| 0 <= i < 14 implies #[trigger] x[i] == eth[i] by {
        assert((eth + ip + udp + b + o)[i] == eth[i]);
    }
    assert forall|i: int| 14 <= i < 34 implies #[trigger] x[i] == ip[i - 14] by {
        assert((eth + ip + udp + b + o)[i] == ip[i - 14]);
    }
    assert forall|i: int| 34 <= i < 42 implies #[trigger] x[i] == udp[i - 34] by {
        assert((eth + ip + udp + b + o)[i] == udp[i - 34]);
    }
    assert forall|i: int| 42 <= i < 282 implies #[trigger] x[i] == b[i - 42] by {
        assert((eth + ip + udp + b + o)[i] == b[i - 42]);
    }
    assert forall|i: int| 282 <= i < 428 implies #[trigger] x[i] == o[i - 282] by {
        assert((eth + ip + udp + b + o)[i] == o[i - 282]);
    }
}

/// Every DHCPv4 answer is a datagram from the gateway, a server, to the client that asked, by offset:
/// the Ethernet frame goes from 02:00:00:00:00:01 to the address the request came from; the IPv4
/// packet of 414 bytes goes from the gateway to the broadcast address with 64 hops to live, as UDP,
/// not fragmented; the datagram of 394 bytes goes from port 67 to port 68, without a checksum.
pub proof fn law_dhcp4_answer_is_a_datagram_to_the_client(
    f: FrameView,
    t: TablesView,
    port: Port,
    ifindex: u32,
)
    requires
        answer4(f, t, port, ifindex) is Some,
    ensures
        ({
            let b = answer4(f, t, port, ifindex)->Some_0.bytes;
            &&& b.len() == 428
            &&& bytes::at6(b, 0) == bytes::at6(f.bytes, 6)
            &&& bytes::at6(b, 6) == [2u8, 0, 0, 0, 0, 1]
            &&& b[12] == 8 && b[13] == 0
            &&& b[14] == f.bytes[14] && b[15] == f.bytes[15]
            &&& b[16] * 256 + b[17] == 414
            &&& b[18] == 0 && b[19] == 0 && b[20] == 0 && b[21] == 0
            &&& b[22] == 64
            &&& b[23] == 17
            &&& bytes::at4(b, 26) == port.meta.gateway_ipv4
            &&& bytes::at4(b, 30) == [255u8, 255, 255, 255]
            &&& b[34] * 256 + b[35] == 67
            &&& b[36] * 256 + b[37] == 68
            &&& b[38] * 256 + b[39] == 394
            &&& b[40] == 0 && b[41] == 0
        }),
{
    let req = request4(f.bytes)->Some_0;
    let data = reply_data(req, port, tables_after4(f.bytes, t, port, ifindex), ifindex);
    lemma_reply4_parts(f.bytes, data);
    let b = reply4(f.bytes, data);
    let h = ip_header(f.bytes, data.gateway_ipv4);
    let u = ip_header_unsummed(f.bytes, data.gateway_ipv4);
    assert forall|i: int| 0 <= i < 20 && i != 10 && i != 11 implies #[trigger] h[i] == u[i] by {}
    assert(bytes::at6(b, 0) =~= bytes::at6(f.bytes, 6));
    assert(bytes::at6(b, 6) =~= [2u8, 0, 0, 0, 0, 1]);
    assert(bytes::at4(b, 26) =~= port.meta.gateway_ipv4) by {
        assert(b[26] == u[12] && b[27] == u[13] && b[28] == u[14] && b[29] == u[15]);
    }
    assert(bytes::at4(b, 30) =~= [255u8, 255, 255, 255]) by {
        assert(b[30] == u[16] && b[31] == u[17] && b[32] == u[18] && b[33] == u[19]);
    }
    assert(b[14] == u[0] && b[15] == u[1] && b[16] == u[2] && b[17] == u[3]);
    assert(b[18] == u[4] && b[19] == u[5] && b[20] == u[6] && b[21] == u[7]);
    assert(b[22] == u[8] && b[23] == u[9]);
    assert(bytes::be16(f.bytes, 12) == 0x800);
}

/// Every DHCPv4 answer is a BOOTP reply to its request, by offset: the operation is 2, and the kinds
/// and lengths of hardware addresses, the hops, the transaction, the time, the flags and the client's
/// address are the request's; the address that is assigned is the guest's, the server and the relay
/// are the gateway, and the hardware address is the one the request came from. There is no server
/// name and no file, and the magic cookie stands before the options.
pub proof fn law_dhcp4_answer_assigns_the_guests_address(
    f: FrameView,
    t: TablesView,
    port: Port,
    ifindex: u32,
)
    requires
        answer4(f, t, port, ifindex) is Some,
    ensures
        ({
            let b = answer4(f, t, port, ifindex)->Some_0.bytes;
            &&& b[42] == 2
            &&& forall|i: int| 43 <= i < 58 ==> #[trigger] b[i] == f.bytes[i]
            &&& bytes::at4(b, 58) == port.meta.guest_ipv4
            &&& bytes::at4(b, 62) == port.meta.gateway_ipv4
            &&& bytes::at4(b, 66) == port.meta.gateway_ipv4
            &&& bytes::at6(b, 70) == bytes::at6(f.bytes, 6)
            &&& forall|i: int| 76 <= i < 86 ==> #[trigger] b[i] == f.bytes[i]
            &&& forall|i: int| 86 <= i < 278 ==> #[trigger] b[i] == 0
            &&& b[278] == 0x63 && b[279] == 0x82 && b[280] == 0x53 && b[281] == 0x63
        }),
{
    let g = f.bytes;
    let req = request4(g)->Some_0;
    let data = reply_data(req, port, tables_after4(g, t, port, ifindex), ifindex);
    lemma_reply4_parts(g, data);
    let b = reply4(g, data);
    let p = bootp(g, data);
    assert(p =~= seq![2u8] + g.subrange(43, 58) + data.guest_ipv4@ + data.gateway_ipv4@
        + data.gateway_ipv4@ + g.subrange(6, 12) + g.subrange(76, 86) + bytes::zeros(192)
        + g.subrange(278, 282));
    assert forall|i: int| 43 <= i < 58 implies #[trigger] b[i] == g[i] by {
        assert(p[i - 42] == g.subrange(43, 58)[i - 43]);
    }
    assert forall|i: int| 76 <= i < 86 implies #[trigger] b[i] == g[i] by {
        assert(p[i - 42] == g.subrange(76, 86)[i - 76]);
    }
    assert forall|i: int| 86 <= i < 278 implies #[trigger] b[i] == 0 by {
        assert(p[i - 42] == bytes::zeros(192)[i - 86]);
    }
    assert(bytes::at4(b, 58) =~= port.meta.guest_ipv4);
    assert(bytes::at4(b, 62) =~= port.meta.gateway_ipv4);
    assert(bytes::at4(b, 66) =~= port.meta.gateway_ipv4);
    assert(bytes::at6(b, 70) =~= bytes::at6(g, 6));
    assert(b[278] == g[278] && b[279] == g[279] && b[280] == g[280] && b[281] == g[281]);
    let n = bytes::be32(g, 278);
    assert(n == 0x63825363);
    assert(g[278] * 16777216 + g[279] * 65536 + g[280] * 256 + g[281] == 0x63825363);
}

/// The options of every DHCPv4 answer, by offset: the message type (2 where the request's is 1, 5 where
/// it is 3), a lease without end, the gateway as server, a route for 169.254.0.0/16 on the link and
/// the default route over the gateway, the netmask of a single host, the configured MTU (1500 where
/// none is), and at the very end the end mark.
pub proof fn law_dhcp4_answer_offers_a_lease(
    f: FrameView,
    t: TablesView,
    port: Port,
    ifindex: u32,
)
    requires
        answer4(f, t, port, ifindex) is Some,
    ensures
        ({
            let b = answer4(f, t, port, ifindex)->Some_0.bytes;
            let end = if f.bytes.len() < 410 {
                f.bytes.len() as int
            } else {
                410
            };
            let asked = message_type(f.bytes, 282, end, 0);
            &&& asked == 1 || asked == 3
            &&& b[282] == 53 && b[283] == 1
            &&& asked == 1 ==> b[284] == 2
            &&& asked == 3 ==> b[284] == 5
            &&& b[285] == 51 && b[286] == 4 && bytes::at4(b, 287) == [255u8, 255, 255, 255]
            &&& b[291] == 54 && b[292] == 4 && bytes::at4(b, 293) == port.meta.gateway_ipv4
            &&& b[297] == 121 && b[298] == 12
            &&& b[299] == 16 && b[300] == 169 && b[301] == 254
            &&& bytes::at4(b, 302) == [0u8, 0, 0, 0]
            &&& b[306] == 0 && bytes::at4(b, 307) == port.meta.gateway_ipv4
            &&& b[311] == 1 && b[312] == 4 && bytes::at4(b, 313) == [255u8, 255, 255, 255]
            &&& b[317] == 26 && b[318] == 2
            &&& t.dhcp_config is Some ==> b[319] * 256 + b[320] == t.dhcp_config->Some_0.mtu
            &&& t.dhcp_config is None ==> b[319] * 256 + b[320] == 1500
            &&& forall|i: int| 321 <= i < 327 ==> #[trigger] b[i] == 0
            &&& b[427] == 255
        }),
{
    let g = f.bytes;
    let req = request4(g)->Some_0;
    let data = reply_data(req, port, tables_after4(g, t, port, ifindex), ifindex);
    lemma_reply4_parts(g, data);
    let b = reply4(g, data);
    lemma_options4_parts(data);
    let o = options4(data);
    let gw = port.meta.gateway_ipv4;
    assert(data.config == t.dhcp_config);
    assert(bytes::at4(b, 287) =~= [255u8, 255, 255, 255]);
    assert(bytes::at4(b, 293) =~= gw);
    assert(bytes::at4(b, 302) =~= [0u8, 0, 0, 0]);
    assert(bytes::at4(b, 307) =~= gw);
    assert(bytes::at4(b, 313) =~= [255u8, 255, 255, 255]);
}

/// The options of a reply are four parts, one behind the other: the fixed ones, the DNS servers, the
/// hostname and the end mark.
proof fn lemma_options4_parts(r: Dhcp4Reply)
    ensures
        ({
            let o = options4(r);
            let mtu = match r.config {
                Some(c) => c.mtu,
                None => DEFAULT_MTU,
            };
            let fixed = seq![OPT_MESSAGE_TYPE, 1, r.reply_type] + seq![
                OPT_LEASE_TIME,
                4,
                255,
                255,
                255,
                255,
            ] + seq![OPT_SERVER_ID, 4] + r.gateway_ipv4@ + seq![
                OPT_CLASSLESS_ROUTE,
                12,
                16,
                169,
                254,
                0,
                0,
                0,
                0,
                0,
            ] + r.gateway_ipv4@ + seq![OPT_SUBNET_MASK, 4, 255, 255, 255, 255] + seq![OPT_MTU, 2]
                + bytes::be2(mtu) + bytes::zeros(6);
            &&& o.len() == 146
            &&& fixed.len() == 45
            &&& forall|i: int| 0 <= i < 45 ==> #[trigger] o[i] == fixed[i]
            &&& forall|i: int| 45 <= i < 79 ==> #[trigger] o[i] == dns_option(r.config)[i - 45]
            &&& forall|i: int| 79 <= i < 145 ==> #[trigger] o[i] == hostname_option(r.meta)[i - 79]
            &&& o[145] == 255
        }),
{
    assert(dns_option(r.config).len() == 34) by {
        match r.config {
            Some(c) if c.dns4_len > 0 => {
                lemma_concat4_len(c.dns4, at_most(c.dns4_len as int, 8) as nat);
            },
            _ => {},
        }
    }
    assert(hostname_option(r.meta).len() == 66);
}

/// The DNS option of every DHCPv4 answer, by offset: where servers are configured, code 6, four bytes
/// for each of them (eight at most), and their addresses in order; the rest of its 34 bytes, or all of
/// them where there is no server, is zero.
pub proof fn law_dhcp4_answer_names_the_dns_servers(
    f: FrameView,
    t: TablesView,
    port: Port,
    ifindex: u32,
    i: int,
)
    requires
        answer4(f, t, port, ifindex) is Some,
    ensures
        ({
            let b = answer4(f, t, port, ifindex)->Some_0.bytes;
            let n = match t.dhcp_config {
                Some(c) => if c.dns4_len < 8 {
                    c.dns4_len as int
                } else {
                    8
                },
                None => 0,
            };
            &&& n > 0 ==> b[327] == 6 && b[328] == 4 * n
            &&& 0 <= i < n ==> bytes::at4(b, 329 + 4 * i) == t.dhcp_config->Some_0.dns4[i]
            &&& n <= i < 8 ==> bytes::at4(b, 329 + 4 * i) == [0u8, 0, 0, 0]
            &&& n == 0 ==> b[327] == 0 && b[328] == 0
        }),
{
    let g = f.bytes;
    let req = request4(g)->Some_0;
    let data = reply_data(req, port, tables_after4(g, t, port, ifindex), ifindex);
    lemma_reply4_parts(g, data);
    lemma_options4_parts(data);
    let b = reply4(g, data);
    let d = dns_option(data.config);
    assert(data.config == t.dhcp_config);
    assert forall|k: int| 327 <= k < 361 implies #[trigger] b[k] == d[k - 327] by {
        assert(b[k] == options4(data)[k - 282]);
    }
    match t.dhcp_config {
        Some(c) if c.dns4_len > 0 => {
            let n = at_most(c.dns4_len as int, 8);
            lemma_concat4_len(c.dns4, n as nat);
            if 0 <= i < n {
                lemma_concat4_at(c.dns4, n as nat, i);
                assert(bytes::at4(b, 329 + 4 * i) =~= c.dns4[i]);
            } else if n <= i < 8 {
                assert(bytes::at4(b, 329 + 4 * i) =~= [0u8, 0, 0, 0]);
            }
        },
        _ => {
            if 0 <= i < 8 {
                assert(bytes::at4(b, 329 + 4 * i) =~= [0u8, 0, 0, 0]);
            }
        },
    }
}

proof fn lemma_concat4_at(a: [[u8; 4]; 8], n: nat, i: int)
    requires
        0 <= i < n <= 8,
    ensures
        concat4(a, n).len() == 4 * n,
        concat4(a, n)[4 * i] == a[i]@[0],
        concat4(a, n)[4 * i + 1] == a[i]@[1],
        concat4(a, n)[4 * i + 2] == a[i]@[2],
        concat4(a, n)[4 * i + 3] == a[i]@[3],
    decreases n,
{
    lemma_concat4_len(a, n);
    lemma_concat4_len(a, (n - 1) as nat);
    if i < n - 1 {
        lemma_concat4_at(a, (n - 1) as nat, i);
    }
}

/// The hostname option of every DHCPv4 answer, by offset: where the port has a hostname, code 12, its
/// length (64 at most) and its bytes; the rest of its 66 bytes, or all of them where there is none, is
/// zero.
pub proof fn law_dhcp4_answer_names_the_host(
    f: FrameView,
    t: TablesView,
    port: Port,
    ifindex: u32,
    i: int,
)
    requires
        answer4(f, t, port, ifindex) is Some,
        0 <= i < 64,
    ensures
        ({
            let b = answer4(f, t, port, ifindex)->Some_0.bytes;
            let n = if t.dhcp_meta.contains_key(ifindex) {
                if t.dhcp_meta[ifindex].hostname_len < 64 {
                    t.dhcp_meta[ifindex].hostname_len as int
                } else {
                    64
                }
            } else {
                0
            };
            &&& n > 0 ==> b[361] == 12 && b[362] == n
            &&& n == 0 ==> b[361] == 0 && b[362] == 0
            &&& i < n ==> b[363 + i] == t.dhcp_meta[ifindex].hostname[i]
            &&& n <= i ==> b[363 + i] == 0
        }),
{
    let g = f.bytes;
    let req = request4(g)->Some_0;
    let data = reply_data(req, port, tables_after4(g, t, port, ifindex), ifindex);
    lemma_reply4_parts(g, data);
    lemma_options4_parts(data);
    let b = reply4(g, data);
    let h = hostname_option(data.meta);
    assert(data.meta == t.dhcp_meta.get(ifindex));
    assert forall|k: int| 361 <= k < 427 implies #[trigger] b[k] == h[k - 361] by {
        assert(b[k] == options4(data)[k - 282]);
    }
    if let Some(m) = data.meta {
        if m.hostname_len > 0 {
            let n = at_most(m.hostname_len as int, 64);
            assert(h =~= seq![OPT_HOSTNAME, n as u8] + m.hostname@.take(n) + bytes::zeros(
                (64 - n) as nat,
            ));
            if i < n {
                assert(h[2 + i] == m.hostname@.take(n)[i]);
            }
        }
    }
}

/// Every DISCOVER and REQUEST to a server is answered: a frame of at least 282 bytes that is IPv4
/// without options, UDP, to port 67, with the magic cookie, whose message type is 1 or 3, gets an
/// answer where it can be given 428 bytes; every other frame gets none. The first 128 bytes of options
/// count.
pub proof fn law_dhcp4_requests_are_answered(
    f: FrameView,
    t: TablesView,
    port: Port,
    ifindex: u32,
)
    ensures
        ({
            let b = f.bytes;
            let end = if b.len() < 410 {
                b.len() as int
            } else {
                410
            };
            let asks = b.len() >= 282 && b[12] == 8 && b[13] == 0 && b[14] % 16 == 5 && b[23] == 17
                && b[36] * 256 + b[37] == 67 && b[278] == 0x63 && b[279] == 0x82 && b[280] == 0x53
                && b[281] == 0x63 && (message_type(b, 282, end, 0) == 1 || message_type(b, 282, end, 0)
                == 3);
            (answer4(f, t, port, ifindex) is Some) == (asks && 428 <= b.len() + f.tailroom)
        }),
{
    let b = f.bytes;
    assert(bytes::be16(b, 12) == b[12] * 256 + b[13]);
    let n = b[278] * 16777216 + b[279] * 65536 + b[280] * 256 + b[281];
    assert(bytes::be32(b, 278) == n);
    if n == 0x63825363 {
        assert(b[278] == 0x63 && b[279] == 0x82 && b[280] == 0x53 && b[281] == 0x63);
    }
}

/// Options are read one after the other: a pad is one byte, the end mark ends them, an option is its
/// code, its length and its value; the message type is the last byte of the last option 53, and every
/// other option is skipped. An option that does not fit ends the scan.
pub proof fn law_options_are_read_in_order(f: Seq<u8>, i: int, end: int, found: u8)
    ensures
        i >= end ==> message_type(f, i, end, found) == found,
        i < end && f[i] == 0 ==> message_type(f, i, end, found) == message_type(
            f,
            i + 1,
            end,
            found,
        ),
        i < end && f[i] == 255 ==> message_type(f, i, end, found) == found,
        i + 3 <= end && f[i] == 53 && f[i + 1] == 1 ==> message_type(f, i, end, found)
            == message_type(f, i + 3, end, f[i + 2]),
        i + 2 <= end && f[i] != 0 && f[i] != 53 && f[i] != 255 && i + 2 + f[i + 1] <= end
            ==> message_type(f, i, end, found) == message_type(f, i + 2 + f[i + 1], end, found),
        i + 2 <= end && f[i] != 0 && f[i] != 255 && i + 2 + f[i + 1] > end ==> message_type(
            f,
            i,
            end,
            found,
        ) == found,
{
}

/// Only a request teaches: a frame that is no DISCOVER or REQUEST changes no table, and one that is
/// changes the MAC of its own port, of the owner of the port's underlay address and of the guest's
/// interface, and nothing else.
pub proof fn law_only_a_request_teaches_a_mac(
    f: Seq<u8>,
    t: TablesView,
    port: Port,
    ifindex: u32,
    other: u32,
    addr: [u8; 16],
    key: IfaceKey,
)
    ensures
        ({
            let u = tables_after4(f, t, port, ifindex);
            &&& request4(f) is None ==> u == t
            &&& u == (TablesView {
                ports: u.ports,
                underlay: u.underlay,
                interfaces: u.interfaces,
                ..t
            })
            &&& other != ifindex ==> u.ports.get(other) == t.ports.get(other)
            &&& addr != port.underlay_ipv6 ==> u.underlay.get(addr) == t.underlay.get(addr)
            &&& key != (IfaceKey { vni: port.meta.vni, ipv4: port.meta.guest_ipv4 })
                ==> u.interfaces.get(key) == t.interfaces.get(key)
        }),
{
}

/// The IPv4 header of every DHCPv4 answer, bytes 14 to 33, carries a checksum that verifies.
pub proof fn law_dhcp4_answer_verifies_at_the_client(
    f: FrameView,
    t: TablesView,
    port: Port,
    ifindex: u32,
)
    requires
        answer4(f, t, port, ifindex) is Some,
    ensures
        csum::verifies(
            csum::word_sum(answer4(f, t, port, ifindex)->Some_0.bytes, 14, 34),
        ),
{
    let req = request4(f.bytes)->Some_0;
    let data = reply_data(req, port, tables_after4(f.bytes, t, port, ifindex), ifindex);
    lemma_reply4_parts(f.bytes, data);
    law_dhcp4_header_verifies(f.bytes, data.gateway_ipv4);
    let b = reply4(f.bytes, data);
    let h = ip_header(f.bytes, data.gateway_ipv4);
    assert forall|i: int| 14 <= i < 34 implies #[trigger] b[i] == h[i + -14] by {}
    csum::lemma_word_sum_same(b, h, 14, 34, -14);
}

} // verus!
