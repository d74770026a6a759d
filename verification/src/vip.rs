//! Virtual IPs: a guest is reachable under, and sends from, a second address, one to one.

use vstd::prelude::*;

use crate::bytes;
use crate::bytes::{read4, spans};
use crate::parse;
use crate::tables::{Tables, TablesView};
use crate::translate;
use crate::translate::{translate, End};
use crate::types::VipKey;

verus! {

/// The address that one end of the packet at `ip` is mapped to.
pub open spec fn mapped(f: Seq<u8>, ip: int, t: TablesView, vni: u32, end: End) -> Option<[u8; 4]> {
    if ip + 20 <= f.len() && parse::header_len(f, ip) >= 20 {
        t.vips.get(VipKey { vni, ipv4: bytes::at4(f, translate::addr_at(ip, end)) })
    } else {
        None
    }
}

/// The packet at `ip` with one end's address replaced by the one it is mapped to. Ports stay.
pub open spec fn remapped(f: Seq<u8>, ip: int, t: TablesView, vni: u32, end: End) -> Seq<u8> {
    match mapped(f, ip, t, vni, end) {
        Some(addr) => translate::translated(
            f,
            ip,
            ip + parse::header_len(f, ip),
            end,
            addr,
            None,
        ),
        None => f,
    }
}

fn remap(f: &mut Vec<u8>, ip_off: usize, tables: &Tables, vni: u32, end: End) -> (done: bool)
    ensures
        done == (mapped(old(f)@, ip_off as int, tables@, vni, end) is Some),
        final(f)@ == remapped(old(f)@, ip_off as int, tables@, vni, end),
{
    if !spans(f, ip_off, 20) {
        return false;
    }
    let ihl: usize = ((f[ip_off] % 16) as usize) * 4;
    if ihl < 20 {
        return false;
    }
    let addr_off: usize = match end {
        End::Source => ip_off + 12,
        End::Destination => ip_off + 16,
    };
    let ipv4 = read4(f, addr_off);
    match tables.vips.get(&VipKey { vni, ipv4 }) {
        Some(addr) => {
            translate(f, ip_off, ihl, end, &addr, None);
            true
        },
        None => false,
    }
}

/// Rewrite the source of a packet that a guest with a VIP sends. Says whether it did.
pub fn snat_egress(f: &mut Vec<u8>, ip_off: usize, tables: &Tables, vni: u32) -> (done: bool)
    ensures
        done == (mapped(old(f)@, ip_off as int, tables@, vni, End::Source) is Some),
        final(f)@ == remapped(old(f)@, ip_off as int, tables@, vni, End::Source),
{
    remap(f, ip_off, tables, vni, End::Source)
}

/// Rewrite the destination of a packet that a guest sends to another guest's VIP on this host. Says
/// whether it did.
pub fn dnat_egress(f: &mut Vec<u8>, ip_off: usize, tables: &Tables, vni: u32) -> (done: bool)
    ensures
        done == (mapped(old(f)@, ip_off as int, tables@, vni, End::Destination) is Some),
        final(f)@ == remapped(old(f)@, ip_off as int, tables@, vni, End::Destination),
{
    remap(f, ip_off, tables, vni, End::Destination)
}

/// Rewrite the destination of a packet from the underlay to a VIP. Says whether it did.
pub fn dnat_ingress(f: &mut Vec<u8>, ip_off: usize, tables: &Tables, vni: u32) -> (done: bool)
    ensures
        done == (mapped(old(f)@, ip_off as int, tables@, vni, End::Destination) is Some),
        final(f)@ == remapped(old(f)@, ip_off as int, tables@, vni, End::Destination),
{
    remap(f, ip_off, tables, vni, End::Destination)
}

/// The two directions of a VIP are inverse: where a guest and its VIP are mapped to each other, a
/// packet to the VIP reaches the guest's address, and a packet from the guest leaves with the VIP.
pub proof fn law_vip_is_one_to_one(
    f: Seq<u8>,
    ip: int,
    t: TablesView,
    vni: u32,
    guest: [u8; 4],
    vip: [u8; 4],
)
    requires
        0 <= ip,
        ip + 20 <= f.len(),
        parse::header_len(f, ip) >= 20,
        t.vips.get(VipKey { vni, ipv4: guest }) == Some(vip),
        t.vips.get(VipKey { vni, ipv4: vip }) == Some(guest),
    ensures
        bytes::at4(f, ip + 12) == guest ==> bytes::at4(
            remapped(f, ip, t, vni, End::Source),
            ip + 12,
        ) == vip,
        bytes::at4(f, ip + 16) == vip ==> bytes::at4(
            remapped(f, ip, t, vni, End::Destination),
            ip + 16,
        ) == guest,
{
    if bytes::at4(f, ip + 12) == guest {
        assert(bytes::at4(remapped(f, ip, t, vni, End::Source), ip + 12) =~= vip);
    }
    if bytes::at4(f, ip + 16) == vip {
        assert(bytes::at4(remapped(f, ip, t, vni, End::Destination), ip + 16) =~= guest);
    }
}

} // verus!
