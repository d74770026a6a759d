//! Load balancing: a service's packets are spread over its backends by a consistent hash.

use vstd::prelude::*;

use crate::bytes;
use crate::bytes::{read4, spans};
use crate::parse;
use crate::parse::{hash5, l4_ports, IPPROTO_ICMP};
use crate::tables::{Tables, TablesView};
use crate::translate;
use crate::translate::{translate, End};
use crate::types::{LbKey, MaglevKey};

verus! {

/// The service key of the packet at `ip`. ICMP has no ports and counts as port zero.
pub open spec fn service_of(f: Seq<u8>, ip: int, vni: u32) -> Option<LbKey> {
    match parse::ports_of(f, ip) {
        Some((proto, _, dport)) => Some(
            LbKey {
                vni,
                ipv4: bytes::at4(f, ip + 16),
                port: if proto == IPPROTO_ICMP {
                    0
                } else {
                    dport
                },
                proto,
            },
        ),
        None => None,
    }
}

/// The hash that picks the backend of the packet at `ip`.
pub open spec fn packet_hash(f: Seq<u8>, ip: int) -> u32 {
    let (proto, sport, dport) = parse::ports_of(f, ip)->Some_0;
    parse::flow_hash(bytes::at4(f, ip + 12), bytes::at4(f, ip + 16), sport, dport, proto)
}

/// The Maglev slot of the packet at `ip`, if it goes to a load-balanced service.
pub open spec fn slot_of(f: Seq<u8>, ip: int, t: TablesView, vni: u32) -> Option<MaglevKey> {
    match service_of(f, ip, vni) {
        Some(key) => {
            if t.lb.contains_key(key) && t.lb[key].size != 0 {
                Some(
                    MaglevKey {
                        table_id: t.lb[key].table_id,
                        slot: packet_hash(f, ip) % t.lb[key].size,
                    },
                )
            } else {
                None
            }
        },
        None => None,
    }
}

fn select_slot(f: &Vec<u8>, ip_off: usize, tables: &Tables, vni: u32) -> (r: Option<MaglevKey>)
    ensures
        r == slot_of(f@, ip_off as int, tables@, vni),
{
    if !spans(f, ip_off, 20) {
        return None;
    }
    let dst = read4(f, ip_off + 16);
    let src = read4(f, ip_off + 12);
    let (proto, sport, dport) = match l4_ports(f, ip_off) {
        Some(v) => v,
        None => {
            return None;
        },
    };
    let port: u16 = if proto == IPPROTO_ICMP {
        0
    } else {
        dport
    };
    let lb = match tables.lb.get(&LbKey { vni, ipv4: dst, port, proto }) {
        Some(v) => v,
        None => {
            return None;
        },
    };
    if lb.size == 0 {
        return None;
    }
    let slot: u32 = hash5(&src, &dst, sport, dport, proto) % lb.size;
    Some(MaglevKey { table_id: lb.table_id, slot })
}

/// The underlay address of the backend that the packet at `ip` is forwarded to.
pub open spec fn forward_to(f: Seq<u8>, ip: int, t: TablesView, vni: u32) -> Option<[u8; 16]> {
    match slot_of(f, ip, t, vni) {
        Some(k) => t.maglev.get(k),
        None => None,
    }
}

/// If the packet goes to a load-balanced service, pick the backend and give its underlay address.
/// The packet is not changed: the backend owns the service's address (anycast) and replies from
/// it.
pub fn lb_select_forward(f: &Vec<u8>, ip_off: usize, tables: &Tables, vni: u32) -> (r: Option<
    [u8; 16],
>)
    ensures
        r == forward_to(f@, ip_off as int, tables@, vni),
{
    match select_slot(f, ip_off, tables, vni) {
        Some(k) => tables.maglev.get(&k),
        None => None,
    }
}

/// The overlay address of the backend that the packet at `ip` is delivered to.
pub open spec fn deliver_to(f: Seq<u8>, ip: int, t: TablesView, vni: u32) -> Option<[u8; 4]> {
    match slot_of(f, ip, t, vni) {
        Some(k) => t.maglev_overlay.get(k),
        None => None,
    }
}

/// The packet at `ip` with its destination rewritten to the backend it is delivered to.
pub open spec fn delivered(f: Seq<u8>, ip: int, t: TablesView, vni: u32) -> Seq<u8> {
    match deliver_to(f, ip, t, vni) {
        Some(backend) => translate::translated(
            f,
            ip,
            ip + parse::header_len(f, ip),
            End::Destination,
            backend,
            None,
        ),
        None => f,
    }
}

/// If the packet goes to a load-balanced service with overlay backends, pick the backend, rewrite
/// the packet's destination to it, and give its address.
pub fn lb_select_dnat(f: &mut Vec<u8>, ip_off: usize, tables: &Tables, vni: u32) -> (r: Option<
    [u8; 4],
>)
    ensures
        r == deliver_to(old(f)@, ip_off as int, tables@, vni),
        final(f)@ == delivered(old(f)@, ip_off as int, tables@, vni),
{
    let k = match select_slot(f, ip_off, tables, vni) {
        Some(k) => k,
        None => {
            return None;
        },
    };
    let backend = match tables.maglev_overlay.get(&k) {
        Some(b) => b,
        None => {
            return None;
        },
    };
    let ihl: usize = ((f[ip_off] % 16) as usize) * 4;
    translate(f, ip_off, ihl, End::Destination, &backend, None);
    Some(backend)
}

/// The packets of one flow go to one backend: two packets with the same protocol, addresses and
/// ports are sent to the same slot.
pub proof fn law_flows_stick_to_a_backend(
    f: Seq<u8>,
    g: Seq<u8>,
    ip: int,
    t: TablesView,
    vni: u32,
)
    requires
        parse::ports_of(f, ip) == parse::ports_of(g, ip),
        bytes::at4(f, ip + 12) == bytes::at4(g, ip + 12),
        bytes::at4(f, ip + 16) == bytes::at4(g, ip + 16),
    ensures
        forward_to(f, ip, t, vni) == forward_to(g, ip, t, vni),
        deliver_to(f, ip, t, vni) == deliver_to(g, ip, t, vni),
{
}

/// A packet is only ever sent to a backend of its service's own table.
pub proof fn law_backend_is_of_the_service(f: Seq<u8>, ip: int, t: TablesView, vni: u32)
    ensures
        match forward_to(f, ip, t, vni) {
            Some(backend) => {
                let key = service_of(f, ip, vni)->Some_0;
                &&& service_of(f, ip, vni) is Some
                &&& t.lb.contains_key(key)
                &&& exists|slot: u32|
                    slot < t.lb[key].size && #[trigger] t.maglev.get(
                        MaglevKey { table_id: t.lb[key].table_id, slot },
                    ) == Some(backend)
            },
            None => true,
        },
        match deliver_to(f, ip, t, vni) {
            Some(backend) => {
                let key = service_of(f, ip, vni)->Some_0;
                &&& service_of(f, ip, vni) is Some
                &&& t.lb.contains_key(key)
                &&& exists|slot: u32|
                    slot < t.lb[key].size && #[trigger] t.maglev_overlay.get(
                        MaglevKey { table_id: t.lb[key].table_id, slot },
                    ) == Some(backend)
            },
            None => true,
        },
{
    match slot_of(f, ip, t, vni) {
        Some(k) => {
            let key = service_of(f, ip, vni)->Some_0;
            let same = MaglevKey { table_id: t.lb[key].table_id, slot: k.slot };
            assert(t.maglev.get(k) == t.maglev.get(same));
            assert(t.maglev_overlay.get(k) == t.maglev_overlay.get(same));
        },
        None => {},
    }
}

/// A service is what its clients address: a TCP or UDP packet to the address and the destination port
/// of a load-balanced service goes to a backend of the service's own table, whatever its source port.
/// Every slot of the table has a backend here. The destination port is the second word behind the
/// header.
pub proof fn law_service_packets_go_to_a_backend(f: Seq<u8>, ip: int, t: TablesView, vni: u32)
    requires
        0 <= ip,
        ip + 20 <= f.len(),
        f[ip] % 16 >= 5,
        f[ip + 9] == 6 || f[ip + 9] == 17,
        ip + 4 * (f[ip] % 16) + 4 <= f.len(),
        ({
            let l4 = ip + 4 * (f[ip] % 16);
            let key = LbKey {
                vni,
                ipv4: bytes::at4(f, ip + 16),
                port: (f[l4 + 2] * 256 + f[l4 + 3]) as u16,
                proto: f[ip + 9],
            };
            t.lb.contains_key(key) && t.lb[key].size > 0
        }),
    ensures
        ({
            let l4 = ip + 4 * (f[ip] % 16);
            let key = LbKey {
                vni,
                ipv4: bytes::at4(f, ip + 16),
                port: (f[l4 + 2] * 256 + f[l4 + 3]) as u16,
                proto: f[ip + 9],
            };
            let id = t.lb[key].table_id;
            let size = t.lb[key].size;
            &&& (forall|slot: u32|
                slot < size ==> #[trigger] t.maglev.contains_key(MaglevKey { table_id: id, slot }))
                ==> exists|slot: u32|
                slot < size && #[trigger] t.maglev.get(MaglevKey { table_id: id, slot }) is Some
                    && forward_to(f, ip, t, vni) == t.maglev.get(MaglevKey { table_id: id, slot })
            &&& (forall|slot: u32|
                slot < size ==> #[trigger] t.maglev_overlay.contains_key(
                    MaglevKey { table_id: id, slot },
                )) ==> exists|slot: u32|
                slot < size && #[trigger] t.maglev_overlay.get(
                    MaglevKey { table_id: id, slot },
                ) is Some && deliver_to(f, ip, t, vni) == t.maglev_overlay.get(
                    MaglevKey { table_id: id, slot },
                )
        }),
{
    parse::law_ports_are_the_first_words(f, ip);
    let k = slot_of(f, ip, t, vni)->Some_0;
    let same = MaglevKey { table_id: k.table_id, slot: k.slot };
    assert(same == k);
    if t.maglev.contains_key(same) {
        assert(t.maglev.get(same) is Some);
    }
    if t.maglev_overlay.contains_key(same) {
        assert(t.maglev_overlay.get(same) is Some);
    }
}

/// ICMP to the address of a service counts as port zero: an echo to an address that has such a
/// service goes to a backend of its table, every slot of which has one here.
pub proof fn law_echo_goes_to_a_backend(f: Seq<u8>, ip: int, t: TablesView, vni: u32)
    requires
        0 <= ip,
        ip + 20 <= f.len(),
        f[ip] % 16 >= 5,
        f[ip + 9] == 1,
        ip + 4 * (f[ip] % 16) + 8 <= f.len(),
        ({
            let key = LbKey { vni, ipv4: bytes::at4(f, ip + 16), port: 0, proto: 1 };
            &&& t.lb.contains_key(key)
            &&& t.lb[key].size > 0
            &&& forall|slot: u32|
                slot < t.lb[key].size ==> #[trigger] t.maglev.contains_key(
                    MaglevKey { table_id: t.lb[key].table_id, slot },
                )
        }),
    ensures
        ({
            let key = LbKey { vni, ipv4: bytes::at4(f, ip + 16), port: 0, proto: 1 };
            exists|slot: u32|
                slot < t.lb[key].size && #[trigger] t.maglev.get(
                    MaglevKey { table_id: t.lb[key].table_id, slot },
                ) is Some && forward_to(f, ip, t, vni) == t.maglev.get(
                    MaglevKey { table_id: t.lb[key].table_id, slot },
                )
        }),
{
    parse::law_ports_are_the_first_words(f, ip);
    let k = slot_of(f, ip, t, vni)->Some_0;
    let same = MaglevKey { table_id: k.table_id, slot: k.slot };
    assert(same == k);
    assert(t.maglev.contains_key(same));
    assert(t.maglev.get(same) is Some);
}

/// What is no service's is not balanced: a TCP or UDP packet whose address, destination port and
/// protocol are not those of a service of its VNI goes to no backend.
pub proof fn law_other_packets_go_to_no_backend(f: Seq<u8>, ip: int, t: TablesView, vni: u32)
    requires
        0 <= ip,
        ip + 20 <= f.len(),
        f[ip] % 16 >= 5,
        f[ip + 9] == 6 || f[ip + 9] == 17,
        ip + 4 * (f[ip] % 16) + 4 <= f.len(),
        ({
            let l4 = ip + 4 * (f[ip] % 16);
            let key = LbKey {
                vni,
                ipv4: bytes::at4(f, ip + 16),
                port: (f[l4 + 2] * 256 + f[l4 + 3]) as u16,
                proto: f[ip + 9],
            };
            !t.lb.contains_key(key) || t.lb[key].size == 0
        }),
    ensures
        forward_to(f, ip, t, vni) is None,
        deliver_to(f, ip, t, vni) is None,
        delivered(f, ip, t, vni) == f,
{
    parse::law_ports_are_the_first_words(f, ip);
}

/// Flows are spread by their hash: the slot of a TCP or UDP packet of a service is the FNV-1a hash of
/// both addresses, both ports and the protocol, in this order, modulo the table's size.
pub proof fn law_flows_are_spread_by_their_hash(f: Seq<u8>, ip: int, t: TablesView, vni: u32)
    requires
        0 <= ip,
        ip + 20 <= f.len(),
        f[ip] % 16 >= 5,
        f[ip + 9] == 6 || f[ip + 9] == 17,
        ip + 4 * (f[ip] % 16) + 4 <= f.len(),
        ({
            let l4 = ip + 4 * (f[ip] % 16);
            let key = LbKey {
                vni,
                ipv4: bytes::at4(f, ip + 16),
                port: (f[l4 + 2] * 256 + f[l4 + 3]) as u16,
                proto: f[ip + 9],
            };
            t.lb.contains_key(key) && t.lb[key].size > 0
        }),
    ensures
        ({
            let l4 = ip + 4 * (f[ip] % 16);
            let key = LbKey {
                vni,
                ipv4: bytes::at4(f, ip + 16),
                port: (f[l4 + 2] * 256 + f[l4 + 3]) as u16,
                proto: f[ip + 9],
            };
            let flow = f.subrange(ip + 12, ip + 20) + f.subrange(l4, l4 + 4) + seq![f[ip + 9]];
            let slot = MaglevKey {
                table_id: t.lb[key].table_id,
                slot: parse::fnv1a(flow) % t.lb[key].size,
            };
            &&& forward_to(f, ip, t, vni) == t.maglev.get(slot)
            &&& deliver_to(f, ip, t, vni) == t.maglev_overlay.get(slot)
        }),
{
    parse::law_ports_are_the_first_words(f, ip);
    let l4 = ip + 4 * (f[ip] % 16);
    let (proto, sport, dport) = parse::ports_of(f, ip)->Some_0;
    let flow = f.subrange(ip + 12, ip + 20) + f.subrange(l4, l4 + 4) + seq![f[ip + 9]];
    assert(parse::tuple_bytes(
        bytes::at4(f, ip + 12),
        bytes::at4(f, ip + 16),
        sport,
        dport,
        proto,
    ) =~= flow);
}

/// A delivered packet is addressed to the backend: its destination (bytes 16 to 19 of the header) is
/// the backend's address, and its source, protocol and ports are what they were.
pub proof fn law_delivered_packet_is_the_backends(f: Seq<u8>, ip: int, t: TablesView, vni: u32)
    requires
        0 <= ip,
        ip + 20 <= f.len(),
        deliver_to(f, ip, t, vni) is Some,
    ensures
        ({
            let g = delivered(f, ip, t, vni);
            &&& g.len() == f.len()
            &&& Some(bytes::at4(g, ip + 16)) == deliver_to(f, ip, t, vni)
            &&& bytes::at4(g, ip + 12) == bytes::at4(f, ip + 12)
            &&& g[ip + 9] == f[ip + 9]
            &&& parse::ports_of(g, ip) == parse::ports_of(f, ip)
        }),
{
    let backend = deliver_to(f, ip, t, vni)->Some_0;
    let l4 = ip + parse::header_len(f, ip);
    assert(parse::ports_of(f, ip) is Some);
    translate::law_translated_bytes(f, ip, l4, End::Destination, backend, None);
    let g = delivered(f, ip, t, vni);
    assert(bytes::at4(g, ip + 12) =~= bytes::at4(f, ip + 12));
}

} // verus!
