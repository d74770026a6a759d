//! In-datapath DHCPv6 responder.

use vstd::prelude::*;

use crate::arp_nd::GW_MAC;
use crate::bytes;
use crate::bytes::{push2, read16, read2, read6, read_be32, write1, write2, write_bytes};
use crate::csum;
use crate::csum::{address_sum, csum16};
use crate::dhcp4;
use crate::frame::{Frame, FrameView};
use crate::parse;
use crate::parse::{ETH_LEN, ETH_P_IPV6, IPPROTO_UDP};
use crate::tables::{Tables, TablesView};
use crate::types::{DhcpConfig, DhcpMeta, Port, DHCP_MAX_DNS};
use crate::verdict::Verdict;

verus! {

pub const D6_SOLICIT: u8 = 1;

pub const D6_ADVERTISE: u8 = 2;

pub const D6_REQUEST: u8 = 3;

pub const D6_CONFIRM: u8 = 4;

pub const D6_REPLY: u8 = 7;

pub const D6_OPT_CLIENTID: u16 = 1;

pub const D6_OPT_SERVERID: u16 = 2;

pub const D6_OPT_IA_NA: u16 = 3;

pub const D6_OPT_RAPID_COMMIT: u16 = 14;

pub const D6_OPT_USER_CLASS: u16 = 15;

pub const D6_OPT_VENDOR_CLASS: u16 = 16;

pub const D6_OPT_DNS: u16 = 23;

pub const D6_OPT_BOOT_FILE: u16 = 59;

/// DUID type of the server (link-layer address).
pub const DUID_LL_TYPE: u16 = 3;

pub const DP_DHCPV6_HW_ID: u16 = 0xabcd;

/// Where the DHCPv6 message starts: behind Ethernet, IPv6 and UDP.
pub const F6_DHCP: usize = 62;

/// Where the options start.
pub const F6_OPTS: usize = 66;

pub const MIN_D6_LEN: usize = 66;

/// Vendor class enterprise number that asks for PXE boot over TFTP.
pub const PXE_ENTERPRISE: u32 = 343;

pub const PXE_NONE: u8 = 0;

pub const PXE_TFTP: u8 = 1;

pub const PXE_HTTP: u8 = 2;

/// Longest boot file URL.
pub const D6_MAX_URL: usize = 120;

/// Bytes of a reply frame, padding included.
pub const D6_MAX_TOTAL: usize = 404;

/// How many option bytes of a request are looked at.
pub const D6_SCAN: usize = 128;

/// How many options of a request are looked at.
pub const D6_MAX_REQ_OPTS: u32 = 12;

/// Whether the fixed headers are those of a DHCPv6 SOLICIT, REQUEST or CONFIRM.
pub open spec fn is_dhcp6(f: Seq<u8>) -> bool {
    &&& MIN_D6_LEN <= f.len()
    &&& parse::ethertype(f) == ETH_P_IPV6
    &&& f[ETH_LEN + 6] == IPPROTO_UDP
    &&& bytes::be16(f, ETH_LEN + 42) == 547
    &&& (f[F6_DHCP as int] == D6_SOLICIT || f[F6_DHCP as int] == D6_REQUEST || f[F6_DHCP as int]
        == D6_CONFIRM)
}

/// What the options of a DHCPv6 request say.
#[derive(Copy, Clone, Debug)]
pub struct D6Options {
    pub got_clientid: bool,
    pub duid: [u8; 10],
    pub duid_len: u16,
    pub got_iana: bool,
    pub iaid: u32,
    pub rapid_commit: bool,
    pub pxe_mode: u8,
}

pub open spec fn no_options() -> D6Options {
    D6Options {
        got_clientid: false,
        duid: [0u8, 0, 0, 0, 0, 0, 0, 0, 0, 0],
        duid_len: 0,
        got_iana: false,
        iaid: 0,
        rapid_commit: false,
        pxe_mode: PXE_NONE,
    }
}

pub open spec fn at10(s: Seq<u8>, i: int) -> [u8; 10] {
    [
        s[i],
        s[i + 1],
        s[i + 2],
        s[i + 3],
        s[i + 4],
        s[i + 5],
        s[i + 6],
        s[i + 7],
        s[i + 8],
        s[i + 9],
    ]
}

/// `r` with one option taken in: its code, its length and where its value starts.
pub open spec fn with_option(g: Seq<u8>, code: u16, olen: int, at: int, r: D6Options) -> D6Options {
    if code == D6_OPT_RAPID_COMMIT {
        D6Options { rapid_commit: true, ..r }
    } else if code == D6_OPT_USER_CLASS {
        D6Options { pxe_mode: if r.pxe_mode == PXE_NONE { PXE_HTTP } else { r.pxe_mode }, ..r }
    } else if code == D6_OPT_IA_NA {
        D6Options { iaid: bytes::be32(g, at), got_iana: true, ..r }
    } else if code == D6_OPT_VENDOR_CLASS {
        D6Options {
            pxe_mode: if bytes::be32(g, at) == PXE_ENTERPRISE && r.pxe_mode == PXE_NONE {
                PXE_TFTP
            } else {
                r.pxe_mode
            },
            ..r
        }
    } else if code == D6_OPT_CLIENTID {
        D6Options {
            got_clientid: true,
            duid_len: dhcp4::at_most(olen, 10) as u16,
            duid: at10(g, at),
            ..r
        }
    } else {
        r
    }
}

/// The options of `g` from option byte `i` on, of which there are `n`; at most `left` are read.
pub open spec fn options_from(g: Seq<u8>, n: int, i: int, left: nat, r: D6Options) -> D6Options
    decreases left,
{
    if left == 0 || i + 4 > n {
        r
    } else {
        let code = bytes::be16(g, F6_OPTS + i);
        let olen = dhcp4::at_most(bytes::be16(g, F6_OPTS + i + 2) as int, D6_SCAN as int);
        options_from(
            g,
            n,
            i + 4 + olen,
            (left - 1) as nat,
            with_option(g, code, olen, F6_OPTS + i + 4, r),
        )
    }
}

/// How many option bytes of a request of `len` bytes are looked at.
pub open spec fn scan_len(len: int) -> int {
    dhcp4::at_most(len - F6_OPTS, D6_SCAN as int)
}

/// The options of the request `f`. A value cut off by the end of the frame reads on into the zero
/// bytes behind it.
pub open spec fn request_options(f: Seq<u8>) -> D6Options {
    options_from(
        f + bytes::zeros(D6_MAX_TOTAL as nat),
        scan_len(f.len() as int),
        0,
        D6_MAX_REQ_OPTS as nat,
        no_options(),
    )
}

/// Everything a DHCPv6 reply holds.
#[derive(Copy, Clone, Debug)]
pub struct D6Reply {
    pub options: D6Options,
    pub reply_type: u8,
    pub tid: [u8; 3],
    pub req_src6: [u8; 16],
    pub req_eth_src: [u8; 6],
    pub gateway_ipv6: [u8; 16],
    pub guest_ipv6: [u8; 16],
    pub guest_mac: [u8; 6],
    pub config: Option<DhcpConfig>,
    pub meta: Option<DhcpMeta>,
}

/// SOLICIT without rapid commit is advertised to; everything else gets a REPLY.
pub open spec fn reply_type_for(msg: u8, rapid_commit: bool) -> u8 {
    if msg == D6_SOLICIT && !rapid_commit {
        D6_ADVERTISE
    } else {
        D6_REPLY
    }
}

/// The reply to the request `f` from `port`.
pub open spec fn reply6_data(f: Seq<u8>, port: Port, t: TablesView, ifindex: u32) -> D6Reply {
    let o = request_options(f);
    D6Reply {
        options: o,
        reply_type: reply_type_for(f[F6_DHCP as int], o.rapid_commit),
        tid: [f[F6_DHCP + 1], f[F6_DHCP + 2], f[F6_DHCP + 3]],
        req_src6: bytes::at16(f, ETH_LEN + 8),
        req_eth_src: bytes::at6(f, 6),
        gateway_ipv6: port.gateway_ipv6,
        guest_ipv6: port.guest_ipv6,
        guest_mac: port.meta.guest_mac,
        config: t.dhcp_config,
        meta: t.dhcp_meta.get(ifindex),
    }
}

/// The path of the TFTP boot file.
pub open spec fn tftp_path() -> Seq<u8> {
    seq![
        105u8,
        112,
        120,
        101,
        47,
        120,
        56,
        54,
        95,
        54,
        52,
        47,
        105,
        112,
        120,
        101,
        46,
        110,
        101,
        119,
    ]
}

/// The boot file URL's length as announced; 0 where PXE is not asked for or not configured.
pub open spec fn url_len_of(pxe_mode: u8, dm: DhcpMeta) -> int {
    if pxe_mode == PXE_NONE || dm.pxe_host_len == 0 || dm.pxe_host_len > 46 {
        0
    } else if pxe_mode == PXE_TFTP {
        10 + dm.pxe_host_len + 20
    } else {
        10 + dm.pxe_host_len + dm.boot_filename_len
    }
}

pub open spec fn announced_url_len(r: D6Reply) -> int {
    match r.meta {
        Some(dm) => dhcp4::at_most(url_len_of(r.options.pxe_mode, dm), D6_MAX_URL as int),
        None => 0,
    }
}

/// The boot file URL: `tftp://[host]/ipxe/x86_64/ipxe.new`, or `http://[host]/` and the boot file
/// name, of which at most 64 bytes are used.
pub open spec fn url_bytes(pxe_mode: u8, dm: DhcpMeta) -> Seq<u8> {
    let scheme = if pxe_mode == PXE_TFTP {
        seq![116u8, 102, 116, 112, 58, 47, 47]
    } else {
        seq![104u8, 116, 116, 112, 58, 47, 47]
    };
    let path = if pxe_mode == PXE_TFTP {
        tftp_path()
    } else {
        dm.boot_filename@.take(dhcp4::at_most(dm.boot_filename_len as int, 64))
    };
    scheme + seq![91u8] + dm.pxe_host@.take(dm.pxe_host_len as int) + seq![93u8, 47] + path
}

/// Server identifier: a DUID made of the guest's own MAC.
pub open spec fn server_id(mac: [u8; 6]) -> Seq<u8> {
    bytes::be2(D6_OPT_SERVERID) + bytes::be2(10) + bytes::be2(DUID_LL_TYPE) + bytes::be2(
        DP_DHCPV6_HW_ID,
    ) + mac@
}

/// Client identifier: the client's DUID echoed, ten bytes of it at most.
pub open spec fn client_id(o: D6Options) -> Seq<u8> {
    if o.got_clientid && o.duid_len > 0 {
        bytes::be2(D6_OPT_CLIENTID) + bytes::be2(o.duid_len) + o.duid@.take(o.duid_len as int)
    } else {
        Seq::empty()
    }
}

/// Address assignment: the guest's address, leased without end, with status success.
pub open spec fn ia_na(o: D6Options, addr: [u8; 16]) -> Seq<u8> {
    if o.got_iana {
        seq![0u8, 3, 0, 46] + bytes::be4(o.iaid) + seq![255u8, 255, 255, 255, 255, 255, 255, 255]
            + seq![0u8, 5, 0, 30] + addr@ + seq![255u8, 255, 255, 255, 255, 255, 255, 255] + seq![
            0u8,
            13,
            0,
            2,
            0,
            0,
        ]
    } else {
        Seq::empty()
    }
}

pub open spec fn rapid_commit(o: D6Options) -> Seq<u8> {
    if o.rapid_commit {
        seq![0u8, 14, 0, 0]
    } else {
        Seq::empty()
    }
}

/// The first `n` IPv6 addresses of a list, one behind the other.
pub open spec fn concat16(a: [[u8; 16]; 8], n: nat) -> Seq<u8>
    decreases n,
{
    if n == 0 {
        Seq::empty()
    } else {
        concat16(a, (n - 1) as nat) + a[n - 1]@
    }
}

pub open spec fn dns6(config: Option<DhcpConfig>) -> Seq<u8> {
    match config {
        Some(c) if c.dns6_len > 0 => {
            let n = dhcp4::at_most(c.dns6_len as int, 8);
            bytes::be2(D6_OPT_DNS) + bytes::be2((n * 16) as u16) + concat16(c.dns6, n as nat)
        },
        _ => Seq::empty(),
    }
}

/// The boot file option: its header with the announced length, and the URL.
pub open spec fn boot_file(r: D6Reply) -> Seq<u8> {
    if announced_url_len(r) > 0 {
        bytes::be2(D6_OPT_BOOT_FILE) + bytes::be2(announced_url_len(r) as u16) + url_bytes(
            r.options.pxe_mode,
            r.meta.unwrap(),
        )
    } else {
        Seq::empty()
    }
}

/// All options of a reply but the boot file.
pub open spec fn lease_options(r: D6Reply) -> Seq<u8> {
    server_id(r.guest_mac) + client_id(r.options) + ia_na(r.options, r.guest_ipv6) + rapid_commit(
        r.options,
    ) + dns6(r.config)
}

pub open spec fn options6(r: D6Reply) -> Seq<u8> {
    lease_options(r) + boot_file(r)
}

/// Where the reply proper ends; the frame goes on with padding.
pub open spec fn reply6_end(r: D6Reply) -> int {
    F6_OPTS + lease_options(r).len() + (if announced_url_len(r) > 0 {
        4 + announced_url_len(r)
    } else {
        0
    })
}

/// Headers of a reply: Ethernet, IPv6, UDP without a checksum, DHCPv6. The first four bytes of the
/// IPv6 header are the request's.
pub open spec fn head6(g: Seq<u8>, r: D6Reply) -> Seq<u8> {
    let plen = bytes::be2((reply6_end(r) - 54) as u16);
    r.req_eth_src@ + GW_MAC@ + bytes::be2(ETH_P_IPV6) + g.subrange(14, 18) + plen + seq![
        IPPROTO_UDP,
        64,
    ] + r.gateway_ipv6@ + r.req_src6@ + bytes::be2(547) + bytes::be2(546) + plen + bytes::be2(0)
        + seq![r.reply_type] + r.tid@
}

/// The reply written over the grown request `g`, with a zero byte behind it and no checksum yet.
pub open spec fn reply6_unsummed(g: Seq<u8>, r: D6Reply) -> Seq<u8> {
    bytes::put(bytes::put(g, 0, head6(g, r) + options6(r)), reply6_end(r), seq![0u8])
}

/// The sum of the IPv6 pseudo-header of a reply.
pub open spec fn pseudo6(r: D6Reply) -> int {
    csum::word_sum(r.gateway_ipv6@, 0, 16) + csum::word_sum(r.req_src6@, 0, 16) + (reply6_end(r)
        - 54) + IPPROTO_UDP
}

/// The whole reply frame.
pub open spec fn reply6(g: Seq<u8>, r: D6Reply) -> Seq<u8> {
    let u = reply6_unsummed(g, r);
    bytes::put(
        u,
        60,
        bytes::be2(csum::checksum(pseudo6(r) + csum::word_sum(u, 54, reply6_end(r)))),
    )
}

/// Compute the boot file URL's length without building it. 0 if PXE is not configured.
pub fn d6_url_len(pxe_mode: u8, dm: &DhcpMeta) -> (r: usize)
    ensures
        r == url_len_of(pxe_mode, *dm),
{
    if pxe_mode == PXE_NONE {
        return 0;
    }
    let host_len: usize = dm.pxe_host_len as usize;
    if host_len == 0 || host_len > 46 {
        return 0;
    }
    let path_len: usize = if pxe_mode == PXE_TFTP {
        20
    } else {
        dm.boot_filename_len as usize
    };
    7 + 1 + host_len + 2 + path_len
}

fn read10(f: &Vec<u8>, i: usize) -> (r: [u8; 10])
    requires
        i + 10 <= f.len(),
    ensures
        r == at10(f@, i as int),
{
    [
        f[i],
        f[i + 1],
        f[i + 2],
        f[i + 3],
        f[i + 4],
        f[i + 5],
        f[i + 6],
        f[i + 7],
        f[i + 8],
        f[i + 9],
    ]
}

/// Read the options of a request whose frame was grown to `D6_MAX_TOTAL` bytes and had `n` option
/// bytes before.
fn d6_parse(f: &Vec<u8>, n: usize) -> (r: D6Options)
    requires
        f.len() == D6_MAX_TOTAL,
        n <= D6_SCAN,
    ensures
        r == options_from(f@, n as int, 0, D6_MAX_REQ_OPTS as nat, no_options()),
        r.duid_len <= 10,
{
    let mut r = D6Options {
        got_clientid: false,
        duid: [0u8, 0, 0, 0, 0, 0, 0, 0, 0, 0],
        duid_len: 0,
        got_iana: false,
        iaid: 0,
        rapid_commit: false,
        pxe_mode: PXE_NONE,
    };
    let mut i: usize = 0;
    let mut left: u32 = D6_MAX_REQ_OPTS;
    while left > 0 && i + 4 <= n
        invariant
            f.len() == D6_MAX_TOTAL,
            n <= D6_SCAN,
            i <= 300,
            r.duid_len <= 10,
            options_from(f@, n as int, 0, D6_MAX_REQ_OPTS as nat, no_options()) == options_from(
                f@,
                n as int,
                i as int,
                left as nat,
                r,
            ),
        decreases left,
    {
        let code: u16 = read2(f, F6_OPTS + i);
        let raw: usize = read2(f, F6_OPTS + i + 2) as usize;
        let olen: usize = if raw < D6_SCAN {
            raw
        } else {
            D6_SCAN
        };
        let at: usize = F6_OPTS + i + 4;
        if code == D6_OPT_RAPID_COMMIT {
            r.rapid_commit = true;
        } else if code == D6_OPT_USER_CLASS {
            if r.pxe_mode == PXE_NONE {
                r.pxe_mode = PXE_HTTP;
            }
        } else if code == D6_OPT_IA_NA {
            r.iaid = read_be32(f, at);
            r.got_iana = true;
        } else if code == D6_OPT_VENDOR_CLASS {
            if read_be32(f, at) == PXE_ENTERPRISE && r.pxe_mode == PXE_NONE {
                r.pxe_mode = PXE_TFTP;
            }
        } else if code == D6_OPT_CLIENTID {
            r.got_clientid = true;
            r.duid_len = if olen < 10 {
                olen as u16
            } else {
                10
            };
            r.duid = read10(f, at);
        }
        i = i + 4 + olen;
        left = left - 1;
    }
    r
}

proof fn lemma_concat16_len(a: [[u8; 16]; 8], n: nat)
    ensures
        concat16(a, n).len() == 16 * n,
    decreases n,
{
    if n > 0 {
        lemma_concat16_len(a, (n - 1) as nat);
    }
}

/// Every reply fits its frame, and no option reaches beyond the reply's end.
proof fn lemma_reply6_fits(r: D6Reply)
    requires
        r.options.duid_len <= 10,
    ensures
        14 <= lease_options(r).len(),
        F6_OPTS + options6(r).len() <= reply6_end(r) <= D6_MAX_TOTAL,
        announced_url_len(r) > 0 ==> r.meta is Some,
{
    match r.config {
        Some(c) if c.dns6_len > 0 => {
            lemma_concat16_len(c.dns6, dhcp4::at_most(c.dns6_len as int, 8) as nat);
        },
        _ => {},
    }
    assert(dns6(r.config).len() <= 132);
    assert(server_id(r.guest_mac).len() == 14);
    assert(client_id(r.options).len() <= 14);
    assert(ia_na(r.options, r.guest_ipv6).len() <= 50);
    if announced_url_len(r) > 0 {
        let dm = r.meta.unwrap();
        assert(url_bytes(r.options.pxe_mode, dm).len() <= announced_url_len(r));
    }
}

/// Append the boot file URL; gives how many bytes it has. A host of no bytes, or of more than 46,
/// makes no URL.
pub fn d6_store_url(out: &mut Vec<u8>, pxe_mode: u8, dm: &DhcpMeta) -> (n: usize)
    ensures
        if dm.pxe_host_len == 0 || dm.pxe_host_len > 46 {
            n == 0 && final(out)@ == old(out)@
        } else {
            n == url_bytes(pxe_mode, *dm).len() && final(out)@ == old(out)@ + url_bytes(
                pxe_mode,
                *dm,
            )
        },
{
    if dm.pxe_host_len == 0 || dm.pxe_host_len > 46 {
        return 0;
    }
    if pxe_mode == PXE_TFTP {
        out.extend_from_slice(&[116u8, 102, 116, 112, 58, 47, 47]);
    } else {
        out.extend_from_slice(&[104u8, 116, 116, 112, 58, 47, 47]);
    }
    out.push(91u8);
    let ghost head = out@;
    let host_len: usize = dm.pxe_host_len as usize;
    let mut i: usize = 0;
    while i < host_len
        invariant
            i <= host_len,
            host_len <= 46,
            out@ == head + dm.pxe_host@.take(i as int),
        decreases host_len - i,
    {
        out.push(dm.pxe_host[i]);
        i = i + 1;
        assert(out@ =~= head + dm.pxe_host@.take(i as int));
    }
    out.push(93u8);
    out.push(47u8);
    if pxe_mode == PXE_TFTP {
        out.extend_from_slice(
            &[
                105u8,
                112,
                120,
                101,
                47,
                120,
                56,
                54,
                95,
                54,
                52,
                47,
                105,
                112,
                120,
                101,
                46,
                110,
                101,
                119,
            ],
        );
        assert(out@ =~= old(out)@ + url_bytes(pxe_mode, *dm));
        7 + 1 + host_len + 2 + 20
    } else {
        let file_len: usize = if dm.boot_filename_len < 64 {
            dm.boot_filename_len as usize
        } else {
            64
        };
        let ghost head2 = out@;
        let mut j: usize = 0;
        while j < file_len
            invariant
                j <= file_len,
                file_len <= 64,
                out@ == head2 + dm.boot_filename@.take(j as int),
            decreases file_len - j,
        {
            out.push(dm.boot_filename[j]);
            j = j + 1;
            assert(out@ =~= head2 + dm.boot_filename@.take(j as int));
        }
        assert(out@ =~= old(out)@ + url_bytes(pxe_mode, *dm));
        7 + 1 + host_len + 2 + file_len
    }
}

fn push_client_id(out: &mut Vec<u8>, o: &D6Options)
    requires
        o.duid_len <= 10,
    ensures
        final(out)@ == old(out)@ + client_id(*o),
{
    if o.got_clientid && o.duid_len > 0 {
        push2(out, D6_OPT_CLIENTID);
        push2(out, o.duid_len);
        let ghost head = out@;
        let n: usize = o.duid_len as usize;
        let mut i: usize = 0;
        while i < n
            invariant
                i <= n,
                n <= 10,
                out@ == head + o.duid@.take(i as int),
            decreases n - i,
        {
            out.push(o.duid[i]);
            i = i + 1;
            assert(out@ =~= head + o.duid@.take(i as int));
        }
        assert(out@ =~= old(out)@ + client_id(*o));
    }
}

fn push_ia_na(out: &mut Vec<u8>, o: &D6Options, addr: &[u8; 16])
    ensures
        final(out)@ == old(out)@ + ia_na(*o, *addr),
{
    if o.got_iana {
        out.extend_from_slice(&[0u8, 3, 0, 46]);
        out.push((o.iaid / 16777216) as u8);
        out.push((o.iaid / 65536 % 256) as u8);
        out.push((o.iaid / 256 % 256) as u8);
        out.push((o.iaid % 256) as u8);
        out.extend_from_slice(&[255u8, 255, 255, 255, 255, 255, 255, 255]);
        out.extend_from_slice(&[0u8, 5, 0, 30]);
        out.extend_from_slice(addr);
        out.extend_from_slice(&[255u8, 255, 255, 255, 255, 255, 255, 255]);
        out.extend_from_slice(&[0u8, 13, 0, 2, 0, 0]);
        assert(out@ =~= old(out)@ + ia_na(*o, *addr));
    }
}

fn push_dns6(out: &mut Vec<u8>, config: &Option<DhcpConfig>)
    ensures
        final(out)@ == old(out)@ + dns6(*config),
{
    match config {
        Some(c) => {
            if c.dns6_len > 0 {
                let n: usize = if (c.dns6_len as usize) < DHCP_MAX_DNS {
                    c.dns6_len as usize
                } else {
                    DHCP_MAX_DNS
                };
                push2(out, D6_OPT_DNS);
                push2(out, (n * 16) as u16);
                let ghost head = out@;
                let mut j: usize = 0;
                while j < n
                    invariant
                        j <= n,
                        n <= 8,
                        out@ == head + concat16(c.dns6, j as nat),
                    decreases n - j,
                {
                    let a: [u8; 16] = c.dns6[j];
                    out.extend_from_slice(&a);
                    j = j + 1;
                    assert(out@ =~= head + concat16(c.dns6, j as nat));
                }
                assert(out@ =~= old(out)@ + dns6(*config));
            }
        },
        None => {},
    }
}

fn build_lease_options(r: &D6Reply) -> (out: Vec<u8>)
    requires
        r.options.duid_len <= 10,
    ensures
        out@ == lease_options(*r),
{
    let mut out: Vec<u8> = Vec::new();
    push2(&mut out, D6_OPT_SERVERID);
    push2(&mut out, 10);
    push2(&mut out, DUID_LL_TYPE);
    push2(&mut out, DP_DHCPV6_HW_ID);
    out.extend_from_slice(&r.guest_mac);
    assert(out@ =~= server_id(r.guest_mac));
    push_client_id(&mut out, &r.options);
    push_ia_na(&mut out, &r.options, &r.guest_ipv6);
    if r.options.rapid_commit {
        out.extend_from_slice(&[0u8, 14, 0, 0]);
    }
    assert(out@ =~= server_id(r.guest_mac) + client_id(r.options) + ia_na(r.options, r.guest_ipv6)
        + rapid_commit(r.options));
    push_dns6(&mut out, &r.config);
    out
}

fn announced_len(r: &D6Reply) -> (n: usize)
    ensures
        n == announced_url_len(*r),
{
    match &r.meta {
        Some(dm) => {
            let n: usize = d6_url_len(r.options.pxe_mode, dm);
            if n < D6_MAX_URL {
                n
            } else {
                D6_MAX_URL
            }
        },
        None => 0,
    }
}

fn build_head6(f: &Vec<u8>, r: &D6Reply, end: usize) -> (out: Vec<u8>)
    requires
        f.len() == D6_MAX_TOTAL,
        end == reply6_end(*r),
        F6_OPTS <= end <= D6_MAX_TOTAL,
    ensures
        out@ == head6(f@, *r),
{
    let plen: u16 = (end - 54) as u16;
    let mut out: Vec<u8> = Vec::new();
    out.extend_from_slice(&r.req_eth_src);
    let gw_mac: [u8; 6] = GW_MAC;
    out.extend_from_slice(&gw_mac);
    push2(&mut out, ETH_P_IPV6);
    out.push(f[14]);
    out.push(f[15]);
    out.push(f[16]);
    out.push(f[17]);
    push2(&mut out, plen);
    assert(out@ =~= r.req_eth_src@ + GW_MAC@ + bytes::be2(ETH_P_IPV6) + f@.subrange(14, 18)
        + bytes::be2(plen));
    out.push(IPPROTO_UDP);
    out.push(64u8);
    out.extend_from_slice(&r.gateway_ipv6);
    out.extend_from_slice(&r.req_src6);
    push2(&mut out, 547);
    push2(&mut out, 546);
    push2(&mut out, plen);
    push2(&mut out, 0);
    out.push(r.reply_type);
    out.extend_from_slice(&r.tid);
    assert(out@ =~= head6(f@, *r));
    out
}

fn push_boot_file(out: &mut Vec<u8>, r: &D6Reply, url_len: usize)
    requires
        url_len == announced_url_len(*r),
    ensures
        final(out)@ == old(out)@ + boot_file(*r),
{
    if url_len > 0 {
        match &r.meta {
            Some(dm) => {
                push2(out, D6_OPT_BOOT_FILE);
                push2(out, url_len as u16);
                let _ = d6_store_url(out, r.options.pxe_mode, dm);
                assert(out@ =~= old(out)@ + boot_file(*r));
            },
            None => {},
        }
    }
}

/// Write the reply over the grown request, all but its checksum. Gives where the reply ends.
fn d6_emit(f: &mut Vec<u8>, r: &D6Reply) -> (end: usize)
    requires
        old(f).len() == D6_MAX_TOTAL,
        r.options.duid_len <= 10,
    ensures
        end == reply6_end(*r),
        final(f)@ == reply6_unsummed(old(f)@, *r),
{
    proof {
        lemma_reply6_fits(*r);
    }
    let mut options = build_lease_options(r);
    let url_len: usize = announced_len(r);
    let end: usize = F6_OPTS + options.len() + (if url_len > 0 {
        4 + url_len
    } else {
        0
    });
    push_boot_file(&mut options, r, url_len);
    let head = build_head6(f, r, end);
    assert(head.len() == F6_OPTS);
    write_bytes(f, 0, head.as_slice());
    write_bytes(f, F6_OPTS, options.as_slice());
    if end < D6_MAX_TOTAL {
        write1(f, end, 0u8);
    }
    assert(f@ =~= reply6_unsummed(old(f)@, *r));
    end
}

/// Compute and write the UDP checksum of the reply that ends at byte `end`.
fn d6_checksum(f: &mut Vec<u8>, r: &D6Reply, end: usize)
    requires
        old(f).len() == D6_MAX_TOTAL,
        F6_OPTS <= end <= D6_MAX_TOTAL,
        end == reply6_end(*r),
    ensures
        final(f)@ == bytes::put(
            old(f)@,
            60,
            bytes::be2(
                csum::checksum(pseudo6(*r) + csum::word_sum(old(f)@, 54, end as int)),
            ),
        ),
{
    let pseudo: u32 = address_sum(&r.gateway_ipv6) + address_sum(&r.req_src6) + ((end - 54) as u32)
        + (IPPROTO_UDP as u32);
    let c: u16 = csum16(pseudo, f, 54, end - 54);
    write2(f, 60, c);
}

/// Only the scanned bytes of a request decide what its options say.
proof fn lemma_options_scanned(
    g: Seq<u8>,
    h: Seq<u8>,
    n: int,
    i: int,
    left: nat,
    r: D6Options,
)
    requires
        0 <= i,
        n <= D6_SCAN,
        forall|j: int| 0 <= j < F6_OPTS + D6_SCAN + 10 ==> g[j] == h[j],
    ensures
        options_from(g, n, i, left, r) == options_from(h, n, i, left, r),
    decreases left,
{
    if left > 0 && i + 4 <= n {
        let olen = dhcp4::at_most(bytes::be16(g, F6_OPTS + i + 2) as int, D6_SCAN as int);
        let code = bytes::be16(g, F6_OPTS + i);
        assert(with_option(g, code, olen, F6_OPTS + i + 4, r) == with_option(
            h,
            code,
            olen,
            F6_OPTS + i + 4,
            r,
        ));
        lemma_options_scanned(
            g,
            h,
            n,
            i + 4 + olen,
            (left - 1) as nat,
            with_option(g, code, olen, F6_OPTS + i + 4, r),
        );
    }
}

/// The frame that answers a DHCPv6 SOLICIT, REQUEST or CONFIRM from the guest behind `port`. There
/// is none for any other frame, and none where the frame cannot be given a reply's length.
pub open spec fn answer6(f: FrameView, t: TablesView, port: Port, ifindex: u32) -> Option<
    FrameView,
> {
    let g = f.resized(D6_MAX_TOTAL as int);
    if is_dhcp6(f.bytes) && f.can_resize(D6_MAX_TOTAL as int) {
        Some(g.with(reply6(g.bytes, reply6_data(f.bytes, port, t, ifindex))))
    } else {
        None
    }
}

/// Answer a DHCPv6 request from the guest behind `port`; where there is no answer, the frame stays
/// as it was.
pub fn try_dhcpv6_reply(frame: &mut Frame, tables: &Tables, port: &Port, ifindex: u32) -> (r: Option<
    Verdict,
>)
    requires
        old(frame)@.fits(),
    ensures
        final(frame)@.fits(),
        match answer6(old(frame)@, tables@, *port, ifindex) {
            Some(answer) => r == Some(Verdict::Reflect) && final(frame)@ == answer,
            None => r is None && final(frame)@ == old(frame)@,
        },
{
    let len: usize = frame.bytes.len();
    if len < MIN_D6_LEN {
        return None;
    }
    if read2(&frame.bytes, 12) != ETH_P_IPV6 || frame.bytes[ETH_LEN + 6] != IPPROTO_UDP || read2(
        &frame.bytes,
        ETH_LEN + 42,
    ) != 547 {
        return None;
    }
    let msg: u8 = frame.bytes[F6_DHCP];
    if msg != D6_SOLICIT && msg != D6_REQUEST && msg != D6_CONFIRM {
        return None;
    }
    let tid: [u8; 3] = [
        frame.bytes[F6_DHCP + 1],
        frame.bytes[F6_DHCP + 2],
        frame.bytes[F6_DHCP + 3],
    ];
    let req_src6: [u8; 16] = read16(&frame.bytes, ETH_LEN + 8);
    let req_eth_src: [u8; 6] = read6(&frame.bytes, 6);
    let n: usize = if len - F6_OPTS < D6_SCAN {
        len - F6_OPTS
    } else {
        D6_SCAN
    };
    if !frame.resize_tail(D6_MAX_TOTAL) {
        return None;
    }
    let options = d6_parse(&frame.bytes, n);
    proof {
        lemma_options_scanned(
            frame.bytes@,
            old(frame).bytes@ + bytes::zeros(D6_MAX_TOTAL as nat),
            n as int,
            0,
            D6_MAX_REQ_OPTS as nat,
            no_options(),
        );
    }
    let reply_type: u8 = if msg == D6_SOLICIT && !options.rapid_commit {
        D6_ADVERTISE
    } else {
        D6_REPLY
    };
    let r = D6Reply {
        options,
        reply_type,
        tid,
        req_src6,
        req_eth_src,
        gateway_ipv6: port.gateway_ipv6,
        guest_ipv6: port.guest_ipv6,
        guest_mac: port.meta.guest_mac,
        config: tables.dhcp_config,
        meta: tables.dhcp_meta.get(&ifindex),
    };
    proof {
        lemma_reply6_fits(r);
    }
    let end: usize = d6_emit(&mut frame.bytes, &r);
    d6_checksum(&mut frame.bytes, &r, end);
    Some(Verdict::Reflect)
}

/// A reply starts with its Ethernet header: to the requester, from the gateway.
pub proof fn lemma_reply6_head(g: Seq<u8>, r: D6Reply)
    requires
        g.len() == D6_MAX_TOTAL,
    ensures
        forall|i: int|
            0 <= i < 12 ==> #[trigger] reply6(g, r)[i] == (r.req_eth_src@ + GW_MAC@)[i],
{
    let h = head6(g, r);
    assert(F6_OPTS <= reply6_end(r));
    assert forall|i: int| 0 <= i < 12 implies #[trigger] reply6(g, r)[i] == (r.req_eth_src@
        + GW_MAC@)[i] by {
        assert(h[i] == (r.req_eth_src@ + GW_MAC@)[i]);
        assert((h + options6(r))[i] == h[i]);
    }
}

/// The UDP checksum of every DHCPv6 reply verifies, pseudo-header included.
pub proof fn law_dhcp6_checksum_verifies(g: Seq<u8>, r: D6Reply)
    requires
        g.len() == D6_MAX_TOTAL,
        r.options.duid_len <= 10,
    ensures
        csum::verifies(pseudo6(r) + csum::word_sum(reply6(g, r), 54, reply6_end(r))),
{
    lemma_reply6_fits(r);
    let u = reply6_unsummed(g, r);
    let n = pseudo6(r) + csum::word_sum(u, 54, reply6_end(r));
    let c = csum::checksum(n);
    assert(head6(g, r).len() == F6_OPTS);
    assert(u[60] == head6(g, r)[60]);
    assert(u[61] == head6(g, r)[61]);
    assert(bytes::be16(u, 60) == 0);
    csum::lemma_word_sum_put(u, 60, c, 54, reply6_end(r));
    csum::lemma_word_sum_nonneg(r.gateway_ipv6@, 0, 16);
    csum::lemma_word_sum_nonneg(r.req_src6@, 0, 16);
    csum::lemma_word_sum_nonneg(u, 54, reply6_end(r));
    csum::law_checksum_verifies(n);
}

/// The boot file option announces what it holds: for every host, and every boot file name of at most
/// 64 bytes, the announced length is the URL's, and no URL is cut off.
pub proof fn law_boot_url_has_the_announced_length(r: D6Reply)
    requires
        r.meta matches Some(dm) && dm.boot_filename_len <= 64,
    ensures
        ({
            let dm = r.meta->Some_0;
            let mode = r.options.pxe_mode;
            &&& announced_url_len(r) == url_len_of(mode, dm)
            &&& url_len_of(mode, dm) == 0 <==> mode == PXE_NONE || dm.pxe_host_len == 0
                || dm.pxe_host_len > 46
            &&& url_len_of(mode, dm) > 0 ==> url_bytes(mode, dm).len() == url_len_of(mode, dm)
                && boot_file(r).len() == 4 + url_len_of(mode, dm)
            &&& url_len_of(mode, dm) == 0 ==> boot_file(r).len() == 0
        }),
{
}

/// A reply frame holds its headers, but for the checksum, and behind them its options.
proof fn lemma_reply6_parts(g: Seq<u8>, r: D6Reply)
    requires
        g.len() == D6_MAX_TOTAL,
        r.options.duid_len <= 10,
    ensures
        reply6(g, r).len() == 404,
        head6(g, r).len() == 66,
        66 + options6(r).len() <= reply6_end(r) <= 404,
        forall|i: int|
            0 <= i < 66 && i != 60 && i != 61 ==> #[trigger] reply6(g, r)[i] == head6(g, r)[i],
        forall|i: int|
            66 <= i < 66 + options6(r).len() ==> #[trigger] reply6(g, r)[i] == options6(r)[i - 66],
{
    lemma_reply6_fits(r);
    let h = head6(g, r);
    let o = options6(r);
    let x = reply6(g, r);
    assert(h.len() == 66);
    assert forall|i: int| 0 <= i < 66 && i != 60 && i != 61 implies #[trigger] x[i] == h[i] by {
        assert((h + o)[i] == h[i]);
    }
    assert forall|i: int| 66 <= i < 66 + o.len() implies #[trigger] x[i] == o[i - 66] by {
        assert((h + o)[i] == o[i - 66]);
    }
}

/// What a request's options say never takes more of the client's identifier than ten bytes.
proof fn lemma_duid_len(g: Seq<u8>, n: int, i: int, left: nat, r: D6Options)
    requires
        r.duid_len <= 10,
    ensures
        options_from(g, n, i, left, r).duid_len <= 10,
    decreases left,
{
    if left > 0 && i + 4 <= n {
        let code = bytes::be16(g, F6_OPTS + i);
        let olen = dhcp4::at_most(bytes::be16(g, F6_OPTS + i + 2) as int, D6_SCAN as int);
        lemma_duid_len(
            g,
            n,
            i + 4 + olen,
            (left - 1) as nat,
            with_option(g, code, olen, F6_OPTS + i + 4, r),
        );
    }
}

/// Every DHCPv6 answer is a datagram from the gateway, a server, to the client that asked, by offset:
/// the Ethernet frame goes from 02:00:00:00:00:01 to the address the request came from; the IPv6 packet
/// goes from the gateway to the request's source, as UDP, with hop limit 64; the datagram goes from
/// port 547 to port 546, and both lengths are the same; the transaction is the request's. A SOLICIT
/// (1) without rapid commit gets an ADVERTISE (2), anything else a REPLY (7).
pub proof fn law_dhcp6_answer_is_a_datagram_to_the_client(
    f: FrameView,
    t: TablesView,
    port: Port,
    ifindex: u32,
)
    requires
        answer6(f, t, port, ifindex) is Some,
    ensures
        ({
            let b = answer6(f, t, port, ifindex)->Some_0.bytes;
            let g = f.bytes;
            &&& b.len() == 404
            &&& bytes::at6(b, 0) == bytes::at6(g, 6)
            &&& bytes::at6(b, 6) == [2u8, 0, 0, 0, 0, 1]
            &&& b[12] == 0x86 && b[13] == 0xdd
            &&& forall|i: int| 14 <= i < 18 ==> #[trigger] b[i] == g[i]
            &&& b[18] == b[58] && b[19] == b[59]
            &&& b[20] == 17
            &&& b[21] == 64
            &&& bytes::at16(b, 22) == port.gateway_ipv6
            &&& bytes::at16(b, 38) == bytes::at16(g, 22)
            &&& b[54] * 256 + b[55] == 547
            &&& b[56] * 256 + b[57] == 546
            &&& g[62] == 1 && !request_options(g).rapid_commit ==> b[62] == 2
            &&& g[62] != 1 || request_options(g).rapid_commit ==> b[62] == 7
            &&& b[63] == g[63] && b[64] == g[64] && b[65] == g[65]
        }),
{
    let g = f.bytes;
    let grown = f.resized(D6_MAX_TOTAL as int).bytes;
    let r = reply6_data(g, port, t, ifindex);
    lemma_duid_len(
        g + bytes::zeros(D6_MAX_TOTAL as nat),
        scan_len(g.len() as int),
        0,
        D6_MAX_REQ_OPTS as nat,
        no_options(),
    );
    assert(grown.len() == D6_MAX_TOTAL);
    lemma_reply6_parts(grown, r);
    let b = reply6(grown, r);
    let h = head6(grown, r);
    assert(bytes::at6(b, 0) =~= bytes::at6(g, 6));
    assert(bytes::at6(b, 6) =~= [2u8, 0, 0, 0, 0, 1]);
    assert(bytes::at16(b, 22) =~= port.gateway_ipv6);
    assert(bytes::at16(b, 38) =~= bytes::at16(g, 22));
    assert forall|i: int| 14 <= i < 18 implies #[trigger] b[i] == g[i] by {
        assert(h[i] == grown.subrange(14, 18)[i - 14]);
        assert(grown[i] == g[i]);
    }
}

/// Every DHCPv6 answer leases the guest its address, by offset: behind the headers stands the server's
/// identifier (option 2, ten bytes: type 3, hardware 0xabcd, the guest's MAC); then, where the request
/// has one, the client's identifier (option 1) as it was, ten bytes of it at most; then, where the
/// request asks for an address, the assignment (option 3, 46 bytes) under the request's identifier,
/// with the guest's address (option 5, 30 bytes) leased without end and status success (option 13);
/// and then, where the request has it, rapid commit (option 14).
#[verifier::spinoff_prover]
pub proof fn law_dhcp6_answer_leases_the_guests_address(
    f: FrameView,
    t: TablesView,
    port: Port,
    ifindex: u32,
)
    requires
        answer6(f, t, port, ifindex) is Some,
    ensures
        ({
            let b = answer6(f, t, port, ifindex)->Some_0.bytes;
            let o = request_options(f.bytes);
            let client = if o.got_clientid && o.duid_len > 0 {
                4 + o.duid_len
            } else {
                0
            };
            let ia = 80 + client;
            let rapid = if o.got_iana {
                ia + 50
            } else {
                ia
            };
            &&& o.duid_len <= 10
            &&& b[66] == 0 && b[67] == 2 && b[68] == 0 && b[69] == 10
            &&& b[70] == 0 && b[71] == 3 && b[72] == 0xab && b[73] == 0xcd
            &&& bytes::at6(b, 74) == port.meta.guest_mac
            &&& client > 0 ==> b[80] == 0 && b[81] == 1 && b[82] == 0 && b[83] == o.duid_len
                && forall|i: int| 0 <= i < o.duid_len ==> #[trigger] b[84 + i] == o.duid[i]
            &&& o.got_iana ==> {
                &&& b[ia] == 0 && b[ia + 1] == 3 && b[ia + 2] == 0 && b[ia + 3] == 46
                &&& b[ia + 4] * 16777216 + b[ia + 5] * 65536 + b[ia + 6] * 256 + b[ia + 7] == o.iaid
                &&& forall|i: int| ia + 8 <= i < ia + 16 ==> #[trigger] b[i] == 255
                &&& b[ia + 16] == 0 && b[ia + 17] == 5 && b[ia + 18] == 0 && b[ia + 19] == 30
                &&& bytes::at16(b, ia + 20) == port.guest_ipv6
                &&& forall|i: int| ia + 36 <= i < ia + 44 ==> #[trigger] b[i] == 255
                &&& b[ia + 44] == 0 && b[ia + 45] == 13 && b[ia + 46] == 0 && b[ia + 47] == 2
                &&& b[ia + 48] == 0 && b[ia + 49] == 0
            }
            &&& o.rapid_commit ==> b[rapid] == 0 && b[rapid + 1] == 14 && b[rapid + 2] == 0
                && b[rapid + 3] == 0
        }),
{
    let g = f.bytes;
    let grown = f.resized(D6_MAX_TOTAL as int).bytes;
    let r = reply6_data(g, port, t, ifindex);
    lemma_duid_len(
        g + bytes::zeros(D6_MAX_TOTAL as nat),
        scan_len(g.len() as int),
        0,
        D6_MAX_REQ_OPTS as nat,
        no_options(),
    );
    lemma_reply6_options(grown, r);
    lemma_lease_bytes(reply6(grown, r), r.options, r.guest_mac, r.guest_ipv6);
}

/// Where the options of a reply stand in its frame.
proof fn lemma_reply6_options(g: Seq<u8>, r: D6Reply)
    requires
        g.len() == D6_MAX_TOTAL,
        r.options.duid_len <= 10,
    ensures
        ({
            let b = reply6(g, r);
            let s = server_id(r.guest_mac);
            let c = client_id(r.options);
            let a = ia_na(r.options, r.guest_ipv6);
            let q = rapid_commit(r.options);
            let d = dns6(r.config);
            let ia = 80 + c.len() as int;
            let rapid = ia + a.len();
            let dns = rapid + q.len();
            &&& forall|i: int| 66 <= i < 80 ==> #[trigger] b[i] == s[i - 66]
            &&& forall|i: int| 80 <= i < ia ==> #[trigger] b[i] == c[i - 80]
            &&& forall|i: int| ia <= i < rapid ==> #[trigger] b[i] == a[i - ia]
            &&& forall|i: int| rapid <= i < dns ==> #[trigger] b[i] == q[i - rapid]
            &&& forall|i: int| dns <= i < dns + d.len() ==> #[trigger] b[i] == d[i - dns]
        }),
{
    lemma_reply6_parts(g, r);
    lemma_options6_parts(r);
    let b = reply6(g, r);
    let x = options6(r);
    let s = server_id(r.guest_mac);
    let c = client_id(r.options);
    let a = ia_na(r.options, r.guest_ipv6);
    let q = rapid_commit(r.options);
    let d = dns6(r.config);
    let ia = 80 + c.len() as int;
    let rapid = ia + a.len();
    let dns = rapid + q.len();
    assert forall|i: int| 66 <= i < 80 implies #[trigger] b[i] == s[i - 66] by {
        assert(s[i - 66] == x[i - 66]);
    }
    assert forall|i: int| 80 <= i < ia implies #[trigger] b[i] == c[i - 80] by {
        assert(c[i - 80] == x[14 + (i - 80)]);
    }
    assert forall|i: int| ia <= i < rapid implies #[trigger] b[i] == a[i - ia] by {
        assert(a[i - ia] == x[14 + c.len() + (i - ia)]);
    }
    assert forall|i: int| rapid <= i < dns implies #[trigger] b[i] == q[i - rapid] by {
        assert(q[i - rapid] == x[14 + c.len() + a.len() + (i - rapid)]);
    }
    assert forall|i: int| dns <= i < dns + d.len() implies #[trigger] b[i] == d[i - dns] by {
        assert(d[i - dns] == x[14 + c.len() + a.len() + q.len() + (i - dns)]);
    }
}

/// The lease options that stand at 66 of a frame, byte by byte.
#[verifier::spinoff_prover]
proof fn lemma_lease_bytes(b: Seq<u8>, o: D6Options, mac: [u8; 6], addr: [u8; 16])
    requires
        o.duid_len <= 10,
        ({
            let s = server_id(mac);
            let c = client_id(o);
            let a = ia_na(o, addr);
            let q = rapid_commit(o);
            let ia = 80 + c.len() as int;
            let rapid = ia + a.len();
            &&& forall|i: int| 66 <= i < 80 ==> #[trigger] b[i] == s[i - 66]
            &&& forall|i: int| 80 <= i < ia ==> #[trigger] b[i] == c[i - 80]
            &&& forall|i: int| ia <= i < rapid ==> #[trigger] b[i] == a[i - ia]
            &&& forall|i: int| rapid <= i < rapid + q.len() ==> #[trigger] b[i] == q[i - rapid]
        }),
    ensures
        ({
            let client = if o.got_clientid && o.duid_len > 0 {
                4 + o.duid_len
            } else {
                0
            };
            let ia = 80 + client;
            let rapid = if o.got_iana {
                ia + 50
            } else {
                ia
            };
            &&& b[66] == 0 && b[67] == 2 && b[68] == 0 && b[69] == 10
            &&& b[70] == 0 && b[71] == 3 && b[72] == 0xab && b[73] == 0xcd
            &&& bytes::at6(b, 74) == mac
            &&& client > 0 ==> b[80] == 0 && b[81] == 1 && b[82] == 0 && b[83] == o.duid_len
                && forall|i: int| 0 <= i < o.duid_len ==> #[trigger] b[84 + i] == o.duid[i]
            &&& o.got_iana ==> {
                &&& b[ia] == 0 && b[ia + 1] == 3 && b[ia + 2] == 0 && b[ia + 3] == 46
                &&& b[ia + 4] * 16777216 + b[ia + 5] * 65536 + b[ia + 6] * 256 + b[ia + 7] == o.iaid
                &&& forall|i: int| ia + 8 <= i < ia + 16 ==> #[trigger] b[i] == 255
                &&& b[ia + 16] == 0 && b[ia + 17] == 5 && b[ia + 18] == 0 && b[ia + 19] == 30
                &&& bytes::at16(b, ia + 20) == addr
                &&& forall|i: int| ia + 36 <= i < ia + 44 ==> #[trigger] b[i] == 255
                &&& b[ia + 44] == 0 && b[ia + 45] == 13 && b[ia + 46] == 0 && b[ia + 47] == 2
                &&& b[ia + 48] == 0 && b[ia + 49] == 0
            }
            &&& o.rapid_commit ==> b[rapid] == 0 && b[rapid + 1] == 14 && b[rapid + 2] == 0
                && b[rapid + 3] == 0
        }),
{
    lemma_lease_lens(o, addr);
    lemma_server_id_bytes(b, mac);
    if o.got_clientid && o.duid_len > 0 {
        lemma_client_id_bytes(b, o);
    }
    let ia = 80 + client_id(o).len() as int;
    if o.got_iana {
        lemma_ia_na_bytes(b, ia, o, addr);
    }
    if o.rapid_commit {
        let q = rapid_commit(o);
        assert(q[0] == 0 && q[1] == 14 && q[2] == 0 && q[3] == 0);
    }
}

/// How long the lease options are.
proof fn lemma_lease_lens(o: D6Options, addr: [u8; 16])
    requires
        o.duid_len <= 10,
    ensures
        client_id(o).len() == (if o.got_clientid && o.duid_len > 0 {
            4 + o.duid_len
        } else {
            0
        }),
        ia_na(o, addr).len() == (if o.got_iana {
            50int
        } else {
            0
        }),
        rapid_commit(o).len() == (if o.rapid_commit {
            4int
        } else {
            0
        }),
{
}

/// A server identifier that stands at 66 of a frame, byte by byte.
proof fn lemma_server_id_bytes(b: Seq<u8>, mac: [u8; 6])
    requires
        forall|i: int| 66 <= i < 80 ==> #[trigger] b[i] == server_id(mac)[i - 66],
    ensures
        b[66] == 0 && b[67] == 2 && b[68] == 0 && b[69] == 10,
        b[70] == 0 && b[71] == 3 && b[72] == 0xab && b[73] == 0xcd,
        bytes::at6(b, 74) == mac,
{
    let s = server_id(mac);
    assert(s[0] == 0 && s[1] == 2 && s[2] == 0 && s[3] == 10);
    assert(s[4] == 0 && s[5] == 3 && s[6] == 0xab && s[7] == 0xcd);
    assert(bytes::at6(b, 74) =~= mac);
}

/// A client identifier that stands at 80 of a frame, byte by byte.
proof fn lemma_client_id_bytes(b: Seq<u8>, o: D6Options)
    requires
        o.got_clientid,
        0 < o.duid_len <= 10,
        forall|i: int| 80 <= i < 84 + o.duid_len ==> #[trigger] b[i] == client_id(o)[i - 80],
    ensures
        b[80] == 0 && b[81] == 1 && b[82] == 0 && b[83] == o.duid_len,
        forall|i: int| 0 <= i < o.duid_len ==> #[trigger] b[84 + i] == o.duid[i],
{
    let c = client_id(o);
    assert(c[0] == 0 && c[1] == 1 && c[2] == 0 && c[3] == o.duid_len);
    assert forall|i: int| 0 <= i < o.duid_len implies #[trigger] b[84 + i] == o.duid[i] by {
        assert(c[4 + i] == o.duid@.take(o.duid_len as int)[i]);
    }
}

/// An assignment that stands at `ia` of a frame, byte by byte.
proof fn lemma_ia_na_bytes(b: Seq<u8>, ia: int, o: D6Options, addr: [u8; 16])
    requires
        o.got_iana,
        forall|i: int| ia <= i < ia + 50 ==> #[trigger] b[i] == ia_na(o, addr)[i - ia],
    ensures
        b[ia] == 0 && b[ia + 1] == 3 && b[ia + 2] == 0 && b[ia + 3] == 46,
        b[ia + 4] * 16777216 + b[ia + 5] * 65536 + b[ia + 6] * 256 + b[ia + 7] == o.iaid,
        forall|i: int| ia + 8 <= i < ia + 16 ==> #[trigger] b[i] == 255,
        b[ia + 16] == 0 && b[ia + 17] == 5 && b[ia + 18] == 0 && b[ia + 19] == 30,
        bytes::at16(b, ia + 20) == addr,
        forall|i: int| ia + 36 <= i < ia + 44 ==> #[trigger] b[i] == 255,
        b[ia + 44] == 0 && b[ia + 45] == 13 && b[ia + 46] == 0 && b[ia + 47] == 2,
        b[ia + 48] == 0 && b[ia + 49] == 0,
{
    let a = ia_na(o, addr);
    assert(a[0] == 0 && a[1] == 3 && a[2] == 0 && a[3] == 46);
    let n = o.iaid;
    assert(a[4] == (n / 16777216) as u8 && a[5] == (n / 65536 % 256) as u8);
    assert(a[6] == (n / 256 % 256) as u8 && a[7] == (n % 256) as u8);
    assert(a[16] == 0 && a[17] == 5 && a[18] == 0 && a[19] == 30);
    assert(a[44] == 0 && a[45] == 13 && a[46] == 0 && a[47] == 2 && a[48] == 0 && a[49] == 0);
    assert forall|i: int| ia + 8 <= i < ia + 16 implies #[trigger] b[i] == 255 by {
        assert(a[i - ia] == 255);
    }
    assert forall|i: int| ia + 36 <= i < ia + 44 implies #[trigger] b[i] == 255 by {
        assert(a[i - ia] == 255);
    }
    assert(bytes::at16(b, ia + 20) =~= addr) by {
        assert forall|i: int| 0 <= i < 16 implies #[trigger] bytes::at16(b, ia + 20)@[i]
            == addr@[i] by {
            assert(b[ia + 20 + i] == a[20 + i]);
            assert(a[20 + i] == addr@[i]);
        }
    }
}

/// The options of a reply are its parts, one behind the other.
proof fn lemma_options6_parts(r: D6Reply)
    ensures
        ({
            let x = options6(r);
            let s = server_id(r.guest_mac);
            let c = client_id(r.options);
            let a = ia_na(r.options, r.guest_ipv6);
            let q = rapid_commit(r.options);
            let d = dns6(r.config);
            let u = boot_file(r);
            &&& s.len() == 14
            &&& x.len() == s.len() + c.len() + a.len() + q.len() + d.len() + u.len()
            &&& forall|i: int| 0 <= i < s.len() ==> #[trigger] s[i] == x[i]
            &&& forall|i: int| 0 <= i < c.len() ==> #[trigger] c[i] == x[14 + i]
            &&& forall|i: int| 0 <= i < a.len() ==> #[trigger] a[i] == x[14 + c.len() + i]
            &&& forall|i: int|
                0 <= i < q.len() ==> #[trigger] q[i] == x[14 + c.len() + a.len() + i]
            &&& forall|i: int|
                0 <= i < d.len() ==> #[trigger] d[i] == x[14 + c.len() + a.len() + q.len() + i]
            &&& forall|i: int|
                0 <= i < u.len() ==> #[trigger] u[i] == x[14 + c.len() + a.len() + q.len() + d.len()
                    + i]
        }),
{
}

/// Every DHCPv6 request is answered: an IPv6 frame of at least 66 bytes with UDP in it, to port 547,
/// whose message type is 1 (SOLICIT), 3 (REQUEST) or 4 (CONFIRM), gets an answer where it can be given
/// 404 bytes; every other frame gets none.
pub proof fn law_dhcp6_requests_are_answered(
    f: FrameView,
    t: TablesView,
    port: Port,
    ifindex: u32,
)
    ensures
        ({
            let b = f.bytes;
            let asks = b.len() >= 66 && b[12] == 0x86 && b[13] == 0xdd && b[20] == 17 && b[56] * 256
                + b[57] == 547 && (b[62] == 1 || b[62] == 3 || b[62] == 4);
            (answer6(f, t, port, ifindex) is Some) == (asks && 404 <= b.len() + f.tailroom)
        }),
{
    let b = f.bytes;
    assert(bytes::be16(b, 12) == b[12] * 256 + b[13]);
}

/// Options are read one after the other, of the zero-filled request `g` with `n` option bytes: an option
/// is its code, its length and its value. Option 14 is rapid commit; option 1 is the client's
/// identifier, of which ten bytes are kept; option 3 asks for an address under the number in its first
/// four bytes; option 15 asks to boot over HTTP, and option 16 of enterprise 343 over TFTP, where
/// nothing before asked to boot. Every other option is skipped.
pub proof fn law_dhcp6_options_are_read_in_order(
    g: Seq<u8>,
    n: int,
    i: int,
    left: nat,
    r: D6Options,
)
    requires
        left > 0,
        i + 4 <= n,
    ensures
        ({
            let code = g[66 + i] * 256 + g[67 + i];
            let len = g[68 + i] * 256 + g[69 + i];
            let at = 70 + i;
            let value = g[at] * 16777216 + g[at + 1] * 65536 + g[at + 2] * 256 + g[at + 3];
            let next = if len < 128 {
                i + 4 + len
            } else {
                i + 132
            };
            let rest = |o: D6Options| options_from(g, n, next, (left - 1) as nat, o);
            let all = options_from(g, n, i, left, r);
            &&& code == 14 ==> all == rest(D6Options { rapid_commit: true, ..r })
            &&& code == 3 ==> all == rest(D6Options { got_iana: true, iaid: value as u32, ..r })
            &&& code == 1 ==> all == rest(
                D6Options {
                    got_clientid: true,
                    duid_len: if len < 10 {
                        len as u16
                    } else {
                        10
                    },
                    duid: [
                        g[at],
                        g[at + 1],
                        g[at + 2],
                        g[at + 3],
                        g[at + 4],
                        g[at + 5],
                        g[at + 6],
                        g[at + 7],
                        g[at + 8],
                        g[at + 9],
                    ],
                    ..r
                },
            )
            &&& code == 15 ==> all == rest(
                D6Options {
                    pxe_mode: if r.pxe_mode == PXE_NONE {
                        PXE_HTTP
                    } else {
                        r.pxe_mode
                    },
                    ..r
                },
            )
            &&& code == 16 ==> all == rest(
                D6Options {
                    pxe_mode: if r.pxe_mode == PXE_NONE && value == 343 {
                        PXE_TFTP
                    } else {
                        r.pxe_mode
                    },
                    ..r
                },
            )
            &&& code != 1 && code != 3 && code != 14 && code != 15 && code != 16 ==> all == rest(r)
        }),
{
    let at = 70 + i;
    let value = g[at] * 16777216 + g[at + 1] * 65536 + g[at + 2] * 256 + g[at + 3];
    assert(bytes::be32(g, at) == value as u32);
    assert(0 <= value <= u32::MAX);
}

/// The scan of a request starts behind its headers with nothing known, looks at 128 bytes and twelve
/// options at most, and stops where no whole option header is left.
pub proof fn law_dhcp6_scan_is_bounded(f: Seq<u8>, g: Seq<u8>, n: int, i: int, r: D6Options)
    requires
        f.len() >= 66,
    ensures
        ({
            let len = if f.len() - 66 < 128 {
                f.len() - 66
            } else {
                128
            };
            let none = D6Options {
                got_clientid: false,
                duid: [0u8, 0, 0, 0, 0, 0, 0, 0, 0, 0],
                duid_len: 0,
                got_iana: false,
                iaid: 0,
                rapid_commit: false,
                pxe_mode: PXE_NONE,
            };
            request_options(f) == options_from(f + bytes::zeros(404), len, 0, 12, none)
        }),
        i + 4 > n ==> forall|left: nat| #[trigger] options_from(g, n, i, left, r) == r,
        options_from(g, n, i, 0, r) == r,
{
}

/// The DNS option of every DHCPv6 answer, by offset: where servers are configured, code 23, sixteen bytes
/// for each of them (eight at most), and their addresses in order, behind the lease.
#[verifier::spinoff_prover]
pub proof fn law_dhcp6_answer_names_the_dns_servers(
    f: FrameView,
    t: TablesView,
    port: Port,
    ifindex: u32,
    i: int,
)
    requires
        answer6(f, t, port, ifindex) is Some,
        t.dhcp_config matches Some(c) && c.dns6_len > 0,
    ensures
        ({
            let b = answer6(f, t, port, ifindex)->Some_0.bytes;
            let o = request_options(f.bytes);
            let c = t.dhcp_config->Some_0;
            let n = if c.dns6_len < 8 {
                c.dns6_len as int
            } else {
                8
            };
            let at = 80 + (if o.got_clientid && o.duid_len > 0 {
                4 + o.duid_len
            } else {
                0
            }) + (if o.got_iana {
                50int
            } else {
                0
            }) + (if o.rapid_commit {
                4int
            } else {
                0
            });
            &&& b[at] == 0 && b[at + 1] == 23
            &&& b[at + 2] * 256 + b[at + 3] == 16 * n
            &&& 0 <= i < n ==> bytes::at16(b, at + 4 + 16 * i) == c.dns6[i]
        }),
{
    let g = f.bytes;
    let grown = f.resized(D6_MAX_TOTAL as int).bytes;
    let r = reply6_data(g, port, t, ifindex);
    lemma_duid_len(
        g + bytes::zeros(D6_MAX_TOTAL as nat),
        scan_len(g.len() as int),
        0,
        D6_MAX_REQ_OPTS as nat,
        no_options(),
    );
    lemma_reply6_options(grown, r);
    let o = r.options;
    let at = 80 + client_id(o).len() + ia_na(o, r.guest_ipv6).len() + rapid_commit(o).len() as int;
    lemma_dns6_bytes(reply6(grown, r), at, t.dhcp_config->Some_0, i);
}

/// A DNS option that stands at `at` of a frame, byte by byte.
proof fn lemma_dns6_bytes(b: Seq<u8>, at: int, c: DhcpConfig, i: int)
    requires
        c.dns6_len > 0,
        forall|k: int|
            at <= k < at + dns6(Some(c)).len() ==> #[trigger] b[k] == dns6(Some(c))[k - at],
    ensures
        ({
            let n = if c.dns6_len < 8 {
                c.dns6_len as int
            } else {
                8
            };
            &&& b[at] == 0 && b[at + 1] == 23
            &&& b[at + 2] * 256 + b[at + 3] == 16 * n
            &&& 0 <= i < n ==> bytes::at16(b, at + 4 + 16 * i) == c.dns6[i]
        }),
{
    let d = dns6(Some(c));
    let n = dhcp4::at_most(c.dns6_len as int, 8);
    lemma_concat16_len(c.dns6, n as nat);
    assert(d.len() == 4 + 16 * n);
    assert(d[0] == 0 && d[1] == 23 && d[2] == 0 && d[3] == 16 * n);
    if 0 <= i < n {
        lemma_concat16_at(c.dns6, n as nat, i);
        assert(bytes::at16(b, at + 4 + 16 * i) =~= c.dns6[i]) by {
            assert forall|k: int| 0 <= k < 16 implies #[trigger] bytes::at16(b, at + 4 + 16 * i)@[k]
                == c.dns6[i]@[k] by {
                assert(b[at + 4 + 16 * i + k] == d[4 + 16 * i + k]);
                assert(d[4 + 16 * i + k] == concat16(c.dns6, n as nat)[16 * i + k]);
            }
        }
    }
}

proof fn lemma_concat16_at(a: [[u8; 16]; 8], n: nat, i: int)
    requires
        0 <= i < n <= 8,
    ensures
        concat16(a, n).len() == 16 * n,
        forall|k: int| 0 <= k < 16 ==> concat16(a, n)[16 * i + k] == #[trigger] a[i]@[k],
    decreases n,
{
    lemma_concat16_len(a, n);
    lemma_concat16_len(a, (n - 1) as nat);
    if i < n - 1 {
        lemma_concat16_at(a, (n - 1) as nat, i);
    }
}

/// What the checksum of every DHCPv6 answer covers is what its receiver sums: the addresses of its own
/// IPv6 header, the length of its datagram, the protocol 17, and the datagram, which ends where the
/// length says.
pub proof fn law_dhcp6_answer_verifies_at_the_client(
    f: FrameView,
    t: TablesView,
    port: Port,
    ifindex: u32,
)
    requires
        answer6(f, t, port, ifindex) is Some,
    ensures
        ({
            let b = answer6(f, t, port, ifindex)->Some_0.bytes;
            let len = b[58] * 256 + b[59];
            &&& 26 <= len <= 350
            &&& csum::verifies(
                csum::word_sum(b, 22, 38) + csum::word_sum(b, 38, 54) + len + 17 + csum::word_sum(
                    b,
                    54,
                    54 + len,
                ),
            )
        }),
{
    let g = f.bytes;
    let grown = f.resized(D6_MAX_TOTAL as int).bytes;
    let r = reply6_data(g, port, t, ifindex);
    lemma_duid_len(
        g + bytes::zeros(D6_MAX_TOTAL as nat),
        scan_len(g.len() as int),
        0,
        D6_MAX_REQ_OPTS as nat,
        no_options(),
    );
    lemma_reply6_parts(grown, r);
    lemma_reply6_fits(r);
    let b = reply6(grown, r);
    let h = head6(grown, r);
    law_dhcp6_checksum_verifies(grown, r);
    let len = reply6_end(r) - 54;
    assert(b[58] == h[58] && b[59] == h[59]);
    assert(h[58] == (len / 256) as u8 && h[59] == (len % 256) as u8);
    assert(b[58] * 256 + b[59] == len);
    assert forall|i: int| 22 <= i < 38 implies #[trigger] b[i] == r.gateway_ipv6@[i - 22] by {
        assert(h[i] == r.gateway_ipv6@[i - 22]);
    }
    assert forall|i: int| 38 <= i < 54 implies #[trigger] b[i] == r.req_src6@[i - 38] by {
        assert(h[i] == r.req_src6@[i - 38]);
    }
    csum::lemma_word_sum_same(b, r.gateway_ipv6@, 22, 38, -22);
    csum::lemma_word_sum_same(b, r.req_src6@, 38, 54, -38);
}

/// The boot file URL reads `tftp://[host]/ipxe/x86_64/ipxe.new` where the client boots over TFTP, and
/// `http://[host]/file` where it boots over HTTP: the scheme and an opening bracket, the host's bytes, a
/// closing bracket and a slash, and the path.
pub proof fn law_boot_url_reads_scheme_host_and_path(dm: DhcpMeta, i: int)
    requires
        0 < dm.pxe_host_len <= 46,
        dm.boot_filename_len <= 64,
    ensures
        ({
            let n = dm.pxe_host_len as int;
            let t = url_bytes(PXE_TFTP, dm);
            let h = url_bytes(PXE_HTTP, dm);
            &&& t.len() == 30 + n
            &&& h.len() == 10 + n + dm.boot_filename_len
            &&& 0 <= i < 8 ==> t[i] == "tftp://["@[i] as u8 && h[i] == "http://["@[i] as u8
            &&& 0 <= i < n ==> t[8 + i] == dm.pxe_host[i] && h[8 + i] == dm.pxe_host[i]
            &&& 0 <= i < 22 ==> t[8 + n + i] == "]/ipxe/x86_64/ipxe.new"@[i] as u8
            &&& h[8 + n] == "]"@[0] as u8 && h[9 + n] == "/"@[0] as u8
            &&& 0 <= i < dm.boot_filename_len ==> h[10 + n + i] == dm.boot_filename[i]
        }),
{
    reveal_strlit("tftp://[");
    reveal_strlit("http://[");
    reveal_strlit("]/ipxe/x86_64/ipxe.new");
    reveal_strlit("]");
    reveal_strlit("/");
    let n = dm.pxe_host_len as int;
    if 0 <= i < n {
        assert(dm.pxe_host@.take(n)[i] == dm.pxe_host@[i]);
    }
    if 0 <= i < dm.boot_filename_len {
        let k = dhcp4::at_most(dm.boot_filename_len as int, 64);
        assert(dm.boot_filename@.take(k)[i] == dm.boot_filename@[i]);
    }
}

/// A client that asks to boot is told where: behind the other options of its answer stands the boot file
/// (option 59) with the URL's length and the URL; a client that does not ask, or whose port has no boot
/// server, is told nothing.
pub proof fn law_boot_file_is_for_clients_that_ask(r: D6Reply)
    requires
        r.meta matches Some(dm) && dm.boot_filename_len <= 64,
    ensures
        ({
            let dm = r.meta->Some_0;
            let mode = r.options.pxe_mode;
            let asked = mode != PXE_NONE && 0 < dm.pxe_host_len <= 46;
            let b = boot_file(r);
            &&& !asked ==> b.len() == 0
            &&& asked ==> b[0] == 0 && b[1] == 59 && b[2] * 256 + b[3] == url_bytes(mode, dm).len()
                && b.skip(4) == url_bytes(mode, dm)
        }),
{
    law_boot_url_has_the_announced_length(r);
    let dm = r.meta->Some_0;
    let mode = r.options.pxe_mode;
    if mode != PXE_NONE && 0 < dm.pxe_host_len <= 46 {
        assert(boot_file(r).skip(4) =~= url_bytes(mode, dm));
    }
}

/// The boot file stands behind the lease options of the frame that is sent.
pub proof fn law_boot_file_is_sent(f: FrameView, t: TablesView, port: Port, ifindex: u32)
    requires
        answer6(f, t, port, ifindex) is Some,
    ensures
        ({
            let b = answer6(f, t, port, ifindex)->Some_0.bytes;
            let r = reply6_data(f.bytes, port, t, ifindex);
            let at = 66 + lease_options(r).len();
            &&& at + boot_file(r).len() <= b.len()
            &&& b.subrange(at as int, (at + boot_file(r).len()) as int) == boot_file(r)
            &&& r.meta == t.dhcp_meta.get(ifindex)
            &&& r.options == request_options(f.bytes)
        }),
{
    let g = f.bytes;
    let grown = f.resized(D6_MAX_TOTAL as int).bytes;
    let r = reply6_data(g, port, t, ifindex);
    lemma_duid_len(
        g + bytes::zeros(D6_MAX_TOTAL as nat),
        scan_len(g.len() as int),
        0,
        D6_MAX_REQ_OPTS as nat,
        no_options(),
    );
    lemma_reply6_parts(grown, r);
    let b = reply6(grown, r);
    let at = 66 + lease_options(r).len();
    let u = boot_file(r);
    assert(options6(r) =~= lease_options(r) + u);
    assert(b.subrange(at as int, (at + u.len()) as int) =~= u);
}

/// The lengths of every DHCPv6 answer count all of it: the eight bytes of the UDP header, the four of the
/// message's, the server's identifier, and each option that the answer has. Here no boot file is sent.
pub proof fn law_dhcp6_length_counts_every_option(
    f: FrameView,
    t: TablesView,
    port: Port,
    ifindex: u32,
)
    requires
        answer6(f, t, port, ifindex) is Some,
        !t.dhcp_meta.contains_key(ifindex) || request_options(f.bytes).pxe_mode == PXE_NONE,
    ensures
        ({
            let b = answer6(f, t, port, ifindex)->Some_0.bytes;
            let o = request_options(f.bytes);
            let client = if o.got_clientid && o.duid_len > 0 {
                4 + o.duid_len
            } else {
                0
            };
            let ia = if o.got_iana {
                50int
            } else {
                0
            };
            let rapid = if o.rapid_commit {
                4int
            } else {
                0
            };
            let dns = match t.dhcp_config {
                Some(c) => if c.dns6_len == 0 {
                    0
                } else if c.dns6_len < 8 {
                    4 + 16 * c.dns6_len
                } else {
                    132
                },
                None => 0,
            };
            b[58] * 256 + b[59] == 8 + 4 + 14 + client + ia + rapid + dns
        }),
{
    let g = f.bytes;
    let grown = f.resized(D6_MAX_TOTAL as int).bytes;
    let r = reply6_data(g, port, t, ifindex);
    lemma_duid_len(
        g + bytes::zeros(D6_MAX_TOTAL as nat),
        scan_len(g.len() as int),
        0,
        D6_MAX_REQ_OPTS as nat,
        no_options(),
    );
    lemma_reply6_parts(grown, r);
    lemma_lease_lens(r.options, r.guest_ipv6);
    lemma_options6_parts(r);
    if let Some(c) = r.config {
        if c.dns6_len > 0 {
            lemma_concat16_len(c.dns6, dhcp4::at_most(c.dns6_len as int, 8) as nat);
        }
    }
    let b = reply6(grown, r);
    let h = head6(grown, r);
    let len = reply6_end(r) - 54;
    assert(announced_url_len(r) == 0);
    assert(b[58] == h[58] && b[59] == h[59]);
    assert(h[58] == (len / 256) as u8 && h[59] == (len % 256) as u8);
}

} // verus!
