//! Network NAT: guests share a public address, each within its own port range.

use vstd::prelude::*;

use crate::bytes;
use crate::bytes::{eq4, read4, spans};
use crate::csum;
use crate::parse;
use crate::parse::{hash5, l4_ports, IPPROTO_ICMP, IPPROTO_TCP, IPPROTO_UDP};
use crate::tables::{Tables, TablesView};
use crate::translate;
use crate::translate::{translate, End};
use crate::types::{NatCtVal, NatFlow, NatKey, NatValue, NeighborNatEntry};

verus! {

/// How many ports an allocation tries.
pub const PROBE_LIMIT: u16 = 64;

/// The flow of the IPv4 packet at `ip`, if it has one.
pub open spec fn flow_of(f: Seq<u8>, ip: int) -> Option<NatFlow> {
    match parse::ports_of(f, ip) {
        Some((proto, src_port, dst_port)) => Some(
            NatFlow {
                src_ip: bytes::at4(f, ip + 12),
                dst_ip: bytes::at4(f, ip + 16),
                src_port,
                dst_port,
                proto,
            },
        ),
        None => None,
    }
}

/// The flow of the replies to `fwd` when it leaves from `port` of the public address. An ICMP
/// reply echoes the rewritten identifier, which stands in both ports; other replies come from the
/// port the flow goes to.
pub open spec fn reply_flow(fwd: NatFlow, conf: NatValue, port: u16) -> NatFlow {
    NatFlow {
        src_ip: fwd.dst_ip,
        dst_ip: conf.nat_ipv4,
        src_port: if fwd.proto == IPPROTO_ICMP {
            port
        } else {
            fwd.dst_port
        },
        dst_port: port,
        proto: fwd.proto,
    }
}

/// How many ports the configuration has.
pub open spec fn range_of(conf: NatValue) -> u16 {
    conf.port_max.wrapping_sub(conf.port_min)
}

/// The slot of its range at which the search for a flow's port starts.
pub open spec fn start_of(fwd: NatFlow, conf: NatValue) -> u16 {
    (parse::flow_hash(fwd.src_ip, fwd.dst_ip, fwd.src_port, fwd.dst_port, fwd.proto) % (range_of(
        conf,
    ) as u32)) as u16
}

/// The port tried `i` steps after the start.
pub open spec fn candidate(conf: NatValue, start: u16, i: u16) -> u16 {
    conf.port_min.wrapping_add(start.wrapping_add(i) % range_of(conf))
}

/// The first candidate, from the `i`-th on, whose reply flow is not taken.
pub open spec fn first_free(
    flows: Map<NatFlow, NatCtVal>,
    fwd: NatFlow,
    conf: NatValue,
    i: nat,
) -> Option<u16>
    decreases PROBE_LIMIT - i,
{
    if i >= PROBE_LIMIT {
        None
    } else {
        let port = candidate(conf, start_of(fwd, conf), i as u16);
        if flows.contains_key(reply_flow(fwd, conf, port)) {
            first_free(flows, fwd, conf, i + 1)
        } else {
            Some(port)
        }
    }
}

/// The public port of a flow, and the flow table with the flow in it. A known flow keeps its port.
/// A new one gets the first free candidate, and its reply flow is entered; where no candidate is
/// free it shares the port it starts from.
pub open spec fn allocated(flows: Map<NatFlow, NatCtVal>, fwd: NatFlow, conf: NatValue) -> (
    u16,
    Map<NatFlow, NatCtVal>,
) {
    if flows.contains_key(fwd) {
        (flows[fwd].port, flows)
    } else {
        match first_free(flows, fwd, conf, 0) {
            Some(port) => (
                port,
                flows.insert(
                    reply_flow(fwd, conf, port),
                    NatCtVal { ipv4: fwd.src_ip, port: fwd.src_port },
                ).insert(fwd, NatCtVal { ipv4: conf.nat_ipv4, port }),
            ),
            None => {
                let port = conf.port_min.wrapping_add(start_of(fwd, conf));
                (port, flows.insert(fwd, NatCtVal { ipv4: conf.nat_ipv4, port }))
            },
        }
    }
}

/// The configuration that applies to a packet that leaves the overlay, with the packet's flow.
pub open spec fn nat_for(f: Seq<u8>, ip: int, t: TablesView, vni: u32) -> Option<
    (NatValue, NatFlow),
> {
    let key = NatKey { vni, ipv4: bytes::at4(f, ip + 12) };
    if ip + 20 <= f.len() && t.nat.contains_key(key) && range_of(t.nat[key]) != 0 {
        match flow_of(f, ip) {
            Some(fwd) => Some((t.nat[key], fwd)),
            None => None,
        }
    } else {
        None
    }
}

/// A packet after egress NAT.
pub open spec fn snat_frame(f: Seq<u8>, ip: int, t: TablesView, vni: u32, external: bool) -> Seq<
    u8,
> {
    match nat_for(f, ip, t, vni) {
        Some((conf, fwd)) if external => translate::translated(
            f,
            ip,
            ip + parse::header_len(f, ip),
            End::Source,
            conf.nat_ipv4,
            Some(allocated(t.nat_ct, fwd, conf).0),
        ),
        _ => f,
    }
}

/// The tables after egress NAT.
pub open spec fn snat_tables(
    f: Seq<u8>,
    ip: int,
    t: TablesView,
    vni: u32,
    external: bool,
) -> TablesView {
    match nat_for(f, ip, t, vni) {
        Some((conf, fwd)) if external => TablesView {
            nat_ct: allocated(t.nat_ct, fwd, conf).1,
            ..t
        },
        _ => t,
    }
}

/// Find, or allocate, the public port of a flow.
fn allocate(tables: &mut Tables, fwd: &NatFlow, conf: &NatValue) -> (port: u16)
    requires
        range_of(*conf) != 0,
    ensures
        port == allocated(old(tables)@.nat_ct, *fwd, *conf).0,
        final(tables)@ == (TablesView {
            nat_ct: allocated(old(tables)@.nat_ct, *fwd, *conf).1,
            ..old(tables)@
        }),
{
    match tables.nat_ct.get(fwd) {
        Some(v) => {
            return v.port;
        },
        None => {},
    }
    let range: u16 = conf.port_max.wrapping_sub(conf.port_min);
    let hash: u32 = hash5(&fwd.src_ip, &fwd.dst_ip, fwd.src_port, fwd.dst_port, fwd.proto);
    let start: u16 = (hash % (range as u32)) as u16;
    let mut chosen: u16 = conf.port_min.wrapping_add(start);
    let mut i: u16 = 0;
    while i < PROBE_LIMIT
        invariant_except_break
            i <= PROBE_LIMIT,
            chosen == conf.port_min.wrapping_add(start),
            tables@ == old(tables)@,
            first_free(old(tables)@.nat_ct, *fwd, *conf, 0) == first_free(
                old(tables)@.nat_ct,
                *fwd,
                *conf,
                i as nat,
            ),
        invariant
            range == range_of(*conf),
            range != 0,
            start == start_of(*fwd, *conf),
        ensures
            match first_free(old(tables)@.nat_ct, *fwd, *conf, 0) {
                Some(port) => chosen == port && tables@ == (TablesView {
                    nat_ct: old(tables)@.nat_ct.insert(
                        reply_flow(*fwd, *conf, port),
                        NatCtVal { ipv4: fwd.src_ip, port: fwd.src_port },
                    ),
                    ..old(tables)@
                }),
                None => chosen == conf.port_min.wrapping_add(start) && tables@ == old(tables)@,
            },
        decreases PROBE_LIMIT - i,
    {
        let port: u16 = conf.port_min.wrapping_add(start.wrapping_add(i) % range);
        let rev = NatFlow {
            src_ip: fwd.dst_ip,
            dst_ip: conf.nat_ipv4,
            src_port: if fwd.proto == IPPROTO_ICMP {
                port
            } else {
                fwd.dst_port
            },
            dst_port: port,
            proto: fwd.proto,
        };
        if !tables.nat_ct.contains(&rev) {
            chosen = port;
            tables.nat_ct.insert(rev, NatCtVal { ipv4: fwd.src_ip, port: fwd.src_port });
            break;
        }
        i = i + 1;
    }
    tables.nat_ct.insert(*fwd, NatCtVal { ipv4: conf.nat_ipv4, port: chosen });
    chosen
}

/// Egress NAT. If the packet's route is external and its source has a NAT configuration, rewrite
/// its source to the public address and an allocated port. Says whether it did.
pub fn nat_snat_egress(
    f: &mut Vec<u8>,
    ip_off: usize,
    tables: &mut Tables,
    vni: u32,
    is_external: bool,
) -> (done: bool)
    ensures
        done == (is_external && nat_for(old(f)@, ip_off as int, old(tables)@, vni) is Some),
        final(f)@ == snat_frame(old(f)@, ip_off as int, old(tables)@, vni, is_external),
        final(tables)@ == snat_tables(old(f)@, ip_off as int, old(tables)@, vni, is_external),
{
    if !is_external {
        return false;
    }
    if !spans(f, ip_off, 20) {
        return false;
    }
    let src_ip = read4(f, ip_off + 12);
    let dst_ip = read4(f, ip_off + 16);
    let conf = match tables.nat.get(&NatKey { vni, ipv4: src_ip }) {
        Some(v) => v,
        None => {
            return false;
        },
    };
    if conf.port_max.wrapping_sub(conf.port_min) == 0 {
        return false;
    }
    let (proto, src_port, dst_port) = match l4_ports(f, ip_off) {
        Some(v) => v,
        None => {
            return false;
        },
    };
    let fwd = NatFlow { src_ip, dst_ip, src_port, dst_port, proto };
    let port: u16 = allocate(tables, &fwd, &conf);
    let ihl: usize = ((f[ip_off] % 16) as usize) * 4;
    translate(f, ip_off, ihl, End::Source, &conf.nat_ipv4, Some(port));
    true
}

/// Where the flow table sends the packet at `ip` back to, if it knows its flow.
pub open spec fn return_of(f: Seq<u8>, ip: int, flows: Map<NatFlow, NatCtVal>) -> Option<NatCtVal> {
    match flow_of(f, ip) {
        Some(flow) => flows.get(flow),
        None => None,
    }
}

/// A packet after ingress NAT.
pub open spec fn dnat_frame(f: Seq<u8>, ip: int, flows: Map<NatFlow, NatCtVal>) -> Seq<u8> {
    match return_of(f, ip, flows) {
        Some(v) => translate::translated(
            f,
            ip,
            ip + parse::header_len(f, ip),
            End::Destination,
            v.ipv4,
            Some(v.port),
        ),
        None => f,
    }
}

/// Ingress NAT. If the packet is the return of a translated flow, restore its destination to the
/// guest's address and port, and give the guest's address for delivery.
pub fn nat_dnat_ingress(f: &mut Vec<u8>, ip_off: usize, tables: &Tables) -> (guest: Option<[u8; 4]>)
    ensures
        final(f)@ == dnat_frame(old(f)@, ip_off as int, tables@.nat_ct),
        guest == (match return_of(old(f)@, ip_off as int, tables@.nat_ct) {
            Some(v) => Some(v.ipv4),
            None => None,
        }),
{
    if !spans(f, ip_off, 20) {
        return None;
    }
    let src_ip = read4(f, ip_off + 12);
    let dst_ip = read4(f, ip_off + 16);
    let (proto, src_port, dst_port) = match l4_ports(f, ip_off) {
        Some(v) => v,
        None => {
            return None;
        },
    };
    let val = match tables.nat_ct.get(&NatFlow { src_ip, dst_ip, src_port, dst_port, proto }) {
        Some(v) => v,
        None => {
            return None;
        },
    };
    let ihl: usize = ((f[ip_off] % 16) as usize) * 4;
    translate(f, ip_off, ihl, End::Destination, &val.ipv4, Some(val.port));
    Some(val.ipv4)
}

/// Where the packet at `ip`, of VNI `vni`, goes back to, if it is the return of a flow that left that
/// VNI: its flow is known, and its destination is the public address of the guest it goes back to.
pub open spec fn returns_to(f: Seq<u8>, ip: int, t: TablesView, vni: u32) -> Option<NatCtVal> {
    match return_of(f, ip, t.nat_ct) {
        Some(v) => {
            let key = NatKey { vni, ipv4: v.ipv4 };
            if t.nat.contains_key(key) && t.nat[key].nat_ipv4 == bytes::at4(f, ip + 16) {
                Some(v)
            } else {
                None
            }
        },
        None => None,
    }
}

/// Whether the packet is the return of a flow that left the VNI.
pub fn is_nat_return(f: &Vec<u8>, ip_off: usize, tables: &Tables, vni: u32) -> (r: bool)
    ensures
        r == (returns_to(f@, ip_off as int, tables@, vni) is Some),
{
    if !spans(f, ip_off, 20) {
        return false;
    }
    let src_ip = read4(f, ip_off + 12);
    let dst_ip = read4(f, ip_off + 16);
    let (proto, src_port, dst_port) = match l4_ports(f, ip_off) {
        Some(v) => v,
        None => {
            return false;
        },
    };
    match tables.nat_ct.get(&NatFlow { src_ip, dst_ip, src_port, dst_port, proto }) {
        Some(v) => match tables.nat.get(&NatKey { vni, ipv4: v.ipv4 }) {
            Some(conf) => eq4(&conf.nat_ipv4, &dst_ip),
            None => false,
        },
        None => false,
    }
}

/// Whether a neighbor's slice holds a port of a public address.
pub open spec fn in_slice(e: NeighborNatEntry, vni: u32, nat_ip: [u8; 4], port: u16) -> bool {
    e.enabled != 0 && e.vni == vni && e.nat_ip == nat_ip && e.port_min <= port < e.port_max
}

/// The first neighbor, from the `i`-th entry on, whose slice holds a port of a public address.
pub open spec fn neighbor_from(t: TablesView, vni: u32, nat_ip: [u8; 4], port: u16, i: nat) -> Option<
    [u8; 16],
>
    decreases t.neigh_nat_count - i,
{
    if i >= t.neigh_nat_count {
        None
    } else if t.neigh_nat.contains_key(i as u32) && in_slice(
        t.neigh_nat[i as u32],
        vni,
        nat_ip,
        port,
    ) {
        Some(t.neigh_nat[i as u32].underlay)
    } else {
        neighbor_from(t, vni, nat_ip, port, i + 1)
    }
}

/// The hypervisor that the port slice of the packet's destination was given to, if to any.
pub open spec fn neighbor_of(f: Seq<u8>, ip: int, t: TablesView, vni: u32) -> Option<[u8; 16]> {
    match parse::ports_of(f, ip) {
        Some((_, _, dst_port)) => neighbor_from(t, vni, bytes::at4(f, ip + 16), dst_port, 0),
        None => None,
    }
}

/// Find the hypervisor that a returning packet belongs to (distributed NAT: the ports of one public
/// address are shared out among hypervisors).
pub fn find_neighbor(f: &Vec<u8>, ip_off: usize, tables: &Tables, vni: u32) -> (r: Option<[u8; 16]>)
    ensures
        r == neighbor_of(f@, ip_off as int, tables@, vni),
{
    if !spans(f, ip_off, 20) {
        return None;
    }
    let port: u16 = match l4_ports(f, ip_off) {
        Some((_, _, dst_port)) => dst_port,
        None => {
            return None;
        },
    };
    let nat_ip = read4(f, ip_off + 16);
    let mut i: u32 = 0;
    while i < tables.neigh_nat_count
        invariant
            i <= tables.neigh_nat_count,
            neighbor_of(f@, ip_off as int, tables@, vni) == neighbor_from(
                tables@,
                vni,
                nat_ip,
                port,
                0,
            ),
            neighbor_from(tables@, vni, nat_ip, port, 0) == neighbor_from(
                tables@,
                vni,
                nat_ip,
                port,
                i as nat,
            ),
        decreases tables.neigh_nat_count - i,
    {
        if let Some(e) = tables.neigh_nat.get(&i) {
            if e.enabled != 0 && e.vni == vni && eq4(&e.nat_ip, &nat_ip) && e.port_min <= port
                && port < e.port_max {
                return Some(e.underlay);
            }
        }
        i = i + 1;
    }
    None
}

/// What `first_free` finds is a candidate whose reply flow is not taken.
proof fn lemma_first_free(flows: Map<NatFlow, NatCtVal>, fwd: NatFlow, conf: NatValue, i: nat)
    ensures
        first_free(flows, fwd, conf, i) matches Some(port) ==> {
            &&& !flows.contains_key(reply_flow(fwd, conf, port))
            &&& exists|j: u16| port == #[trigger] candidate(conf, start_of(fwd, conf), j)
        },
    decreases PROBE_LIMIT - i,
{
    if i < PROBE_LIMIT {
        lemma_first_free(flows, fwd, conf, i + 1);
    }
}

/// The replies to a translated flow find their way back: once a new flow got a free port, every
/// packet of its reply flow is given the flow's own source address and port as its destination.
pub proof fn law_nat_replies_return(
    flows: Map<NatFlow, NatCtVal>,
    fwd: NatFlow,
    conf: NatValue,
    reply: Seq<u8>,
    ip: int,
)
    requires
        !flows.contains_key(fwd),
        first_free(flows, fwd, conf, 0) is Some,
        flow_of(reply, ip) == Some(reply_flow(fwd, conf, allocated(flows, fwd, conf).0)),
    ensures
        return_of(reply, ip, allocated(flows, fwd, conf).1) == Some(
            NatCtVal { ipv4: fwd.src_ip, port: fwd.src_port },
        ),
        dnat_frame(reply, ip, allocated(flows, fwd, conf).1) == translate::translated(
            reply,
            ip,
            ip + parse::header_len(reply, ip),
            End::Destination,
            fwd.src_ip,
            Some(fwd.src_port),
        ),
{
    lemma_first_free(flows, fwd, conf, 0);
}

/// A flow keeps its port: asking again gives the same port and changes nothing.
pub proof fn law_nat_port_is_stable(flows: Map<NatFlow, NatCtVal>, fwd: NatFlow, conf: NatValue)
    ensures
        allocated(allocated(flows, fwd, conf).1, fwd, conf) == allocated(flows, fwd, conf),
{
}

/// Known flows stay: whatever flow asks for a port, the entries of the others, in both directions,
/// are what they were.
pub proof fn law_nat_flows_stay(
    flows: Map<NatFlow, NatCtVal>,
    fwd: NatFlow,
    conf: NatValue,
    known: NatFlow,
)
    requires
        flows.contains_key(known),
    ensures
        allocated(flows, fwd, conf).1.get(known) == flows.get(known),
{
    lemma_first_free(flows, fwd, conf, 0);
}

/// A new flow's port lies in the configured range.
pub proof fn law_nat_port_in_range(flows: Map<NatFlow, NatCtVal>, fwd: NatFlow, conf: NatValue)
    requires
        !flows.contains_key(fwd),
        conf.port_min < conf.port_max,
    ensures
        conf.port_min <= allocated(flows, fwd, conf).0 < conf.port_max,
{
    lemma_first_free(flows, fwd, conf, 0);
    let range = range_of(conf);
    assert(range == conf.port_max - conf.port_min);
    assert forall|j: u16| conf.port_min <= #[trigger] candidate(conf, start_of(fwd, conf), j)
        < conf.port_max by {
        let x = start_of(fwd, conf).wrapping_add(j) % range;
        assert(x < range);
    }
    assert(start_of(fwd, conf) < range);
}

/// Two flows to the same remote endpoint (for ICMP: the same remote address) never share a port of
/// the public address, as long as free ports are found for them: the second is given another one
/// than the first.
pub proof fn law_nat_ports_are_not_shared(
    flows: Map<NatFlow, NatCtVal>,
    one: NatFlow,
    two: NatFlow,
    conf: NatValue,
    other: NatValue,
)
    requires
        !flows.contains_key(one),
        first_free(flows, one, conf, 0) is Some,
        !allocated(flows, one, conf).1.contains_key(two),
        first_free(allocated(flows, one, conf).1, two, other, 0) is Some,
        one.dst_ip == two.dst_ip,
        one.proto == two.proto,
        one.proto == IPPROTO_ICMP || one.dst_port == two.dst_port,
        conf.nat_ipv4 == other.nat_ipv4,
    ensures
        allocated(allocated(flows, one, conf).1, two, other).0 != allocated(flows, one, conf).0,
{
    let after = allocated(flows, one, conf).1;
    lemma_first_free(after, two, other, 0);
    let port = allocated(flows, one, conf).0;
    assert(after.contains_key(reply_flow(one, conf, port)));
    assert(reply_flow(one, conf, port) == reply_flow(two, other, port));
}

/// The flow in the opposite direction.
pub open spec fn opposite(flow: NatFlow) -> NatFlow {
    NatFlow {
        src_ip: flow.dst_ip,
        dst_ip: flow.src_ip,
        src_port: flow.dst_port,
        dst_port: flow.src_port,
        proto: flow.proto,
    }
}

/// Whether the transport header of the packet at `ip` is there as far as its checksum.
pub open spec fn header_complete(f: Seq<u8>, ip: int) -> bool {
    let l4 = ip + parse::header_len(f, ip);
    if f[ip + 9] == IPPROTO_TCP {
        l4 + 18 <= f.len()
    } else {
        l4 + 8 <= f.len()
    }
}

/// The reply flow that is entered is that of the packet on the wire: a translated packet (with a
/// complete transport header) leaves as a packet to which exactly `reply_flow` answers.
pub proof fn law_nat_reply_answers_the_wire(
    f: Seq<u8>,
    ip: int,
    t: TablesView,
    vni: u32,
    conf: NatValue,
    fwd: NatFlow,
)
    requires
        0 <= ip,
        nat_for(f, ip, t, vni) == Some((conf, fwd)),
        header_complete(f, ip),
    ensures
        flow_of(snat_frame(f, ip, t, vni, true), ip) == Some(
            opposite(reply_flow(fwd, conf, allocated(t.nat_ct, fwd, conf).0)),
        ),
{
    let l4 = ip + parse::header_len(f, ip);
    let port = allocated(t.nat_ct, fwd, conf).0;
    let r = snat_frame(f, ip, t, vni, true);
    assert(r == translate::translated(f, ip, l4, End::Source, conf.nat_ipv4, Some(port)));
    assert(r.len() == f.len());
    assert(r[ip] == f[ip] && r[ip + 9] == f[ip + 9]);
    assert(bytes::at4(r, ip + 12) =~= conf.nat_ipv4);
    assert(bytes::at4(r, ip + 16) =~= bytes::at4(f, ip + 16));
    if f[ip + 9] == IPPROTO_ICMP {
        assert(bytes::be16(r, l4 + 4) == port);
    } else {
        assert(bytes::be16(r, l4) == port);
        assert(bytes::be16(r, l4 + 2) == bytes::be16(f, l4 + 2));
    }
}

/// Whether the reply flow of a packet that leaves with configuration `conf` is entered: a known
/// flow has it, and a new one gets it where it finds a free port.
pub open spec fn is_pinned(flows: Map<NatFlow, NatCtVal>, fwd: NatFlow, conf: NatValue) -> bool {
    if flows.contains_key(fwd) {
        flows.get(reply_flow(fwd, conf, flows[fwd].port)) == Some(
            NatCtVal { ipv4: fwd.src_ip, port: fwd.src_port },
        )
    } else {
        first_free(flows, fwd, conf, 0) is Some
    }
}

/// Ingress NAT undoes egress NAT on the replies: where a packet left translated and its reply flow
/// is entered, every packet that answers the one on the wire is given back to the guest, as a
/// packet of the opposite of the guest's own flow. Its source address and TCP or UDP source port,
/// its protocol and its header length stay, and a valid header and a valid segment or message of
/// `len` bytes stay valid (but for an ICMP message that is left all zero).
#[verifier::spinoff_prover]
pub proof fn law_nat_round_trip(
    f: Seq<u8>,
    ip: int,
    t: TablesView,
    vni: u32,
    reply: Seq<u8>,
    at: int,
    len: int,
)
    requires
        0 <= ip,
        0 <= at,
        nat_for(f, ip, t, vni) is Some,
        header_complete(f, ip),
        ({
            let (conf, fwd) = nat_for(f, ip, t, vni)->Some_0;
            &&& is_pinned(t.nat_ct, fwd, conf)
            &&& flow_of(reply, at) == Some(
                opposite(flow_of(snat_frame(f, ip, t, vni, true), ip)->Some_0),
            )
        }),
        header_complete(reply, at),
        at + parse::header_len(reply, at) + len <= reply.len(),
        len >= (if reply[at + 9] == IPPROTO_TCP {
            18int
        } else {
            8
        }),
    ensures
        ({
            let (_, fwd) = nat_for(f, ip, t, vni)->Some_0;
            let flows = snat_tables(f, ip, t, vni, true).nat_ct;
            let g = dnat_frame(reply, at, flows);
            let l4 = at + parse::header_len(reply, at);
            &&& return_of(reply, at, flows) == Some(
                NatCtVal { ipv4: fwd.src_ip, port: fwd.src_port },
            )
            &&& flow_of(g, at) == Some(opposite(fwd))
            &&& g.len() == reply.len()
            &&& parse::header_len(g, at) == parse::header_len(reply, at)
            &&& csum::verifies(csum::word_sum(reply, at, l4)) ==> csum::verifies(
                csum::word_sum(g, at, l4),
            )
            &&& reply[at + 9] == IPPROTO_TCP || (reply[at + 9] == IPPROTO_UDP && bytes::be16(
                reply,
                l4 + 6,
            ) != 0) ==> csum::verifies(translate::segment_sum(reply, at, l4, len))
                ==> csum::verifies(translate::segment_sum(g, at, l4, len))
            &&& reply[at + 9] == IPPROTO_UDP && bytes::be16(reply, l4 + 6) == 0 ==> bytes::be16(
                g,
                l4 + 6,
            ) == 0
            &&& reply[at + 9] == IPPROTO_ICMP && csum::word_sum(g, l4, l4 + len) > 0
                ==> csum::verifies(csum::word_sum(reply, l4, l4 + len)) ==> csum::verifies(
                csum::word_sum(g, l4, l4 + len),
            )
        }),
{
    let (conf, fwd) = nat_for(f, ip, t, vni)->Some_0;
    let (port, flows) = allocated(t.nat_ct, fwd, conf);
    let back = reply_flow(fwd, conf, port);
    law_nat_reply_answers_the_wire(f, ip, t, vni, conf, fwd);
    assert(opposite(opposite(back)) == back);
    assert(flow_of(reply, at) == Some(back));
    if !t.nat_ct.contains_key(fwd) {
        law_nat_replies_return(t.nat_ct, fwd, conf, reply, at);
    }
    assert(snat_tables(f, ip, t, vni, true).nat_ct == flows);
    let g = dnat_frame(reply, at, flows);
    let l4 = at + parse::header_len(reply, at);
    let to = Some(fwd.src_port);
    assert(g == translate::translated(reply, at, l4, End::Destination, fwd.src_ip, to));
    assert(g.len() == reply.len());
    assert(g[at] == reply[at] && g[at + 9] == reply[at + 9]);
    assert(bytes::at4(g, at + 12) =~= bytes::at4(reply, at + 12));
    assert(bytes::at4(g, at + 16) =~= fwd.src_ip);
    if reply[at + 9] == IPPROTO_ICMP {
        assert(bytes::be16(g, l4 + 4) == fwd.src_port);
        assert(fwd.src_port == fwd.dst_port);
    } else {
        assert(bytes::be16(g, l4 + 2) == fwd.src_port);
        assert(bytes::be16(g, l4) == bytes::be16(reply, l4));
    }
    if csum::verifies(csum::word_sum(reply, at, l4)) {
        translate::law_ip_header_stays_valid(reply, at, l4, End::Destination, fwd.src_ip, to);
    }
    if reply[at + 9] == IPPROTO_ICMP {
        if csum::word_sum(g, l4, l4 + len) > 0 && csum::verifies(
            csum::word_sum(reply, l4, l4 + len),
        ) {
            translate::law_echo_stays_valid(reply, at, l4, len, End::Destination, fwd.src_ip, to);
        }
    } else if reply[at + 9] == IPPROTO_TCP || bytes::be16(reply, l4 + 6) != 0 {
        if csum::verifies(translate::segment_sum(reply, at, l4, len)) {
            translate::law_segment_stays_valid(
                reply,
                at,
                l4,
                len,
                End::Destination,
                fwd.src_ip,
                to,
            );
        }
    }
}

/// A packet whose flow the table does not know is left alone by ingress NAT.
pub proof fn law_unknown_flows_are_not_restored(
    f: Seq<u8>,
    ip: int,
    flows: Map<NatFlow, NatCtVal>,
)
    requires
        flow_of(f, ip) matches Some(flow) ==> !flows.contains_key(flow),
    ensures
        return_of(f, ip, flows) is None,
        dnat_frame(f, ip, flows) == f,
{
}

/// Egress NAT, by offset: a whole TCP or UDP packet of a new flow whose source has a configuration
/// gets the public address for a source and a port of the configured range for a source port; the
/// destination, its port and the protocol stay.
pub proof fn law_new_flow_leaves_from_the_public_address(
    f: Seq<u8>,
    ip: int,
    t: TablesView,
    vni: u32,
    conf: NatValue,
)
    requires
        0 <= ip,
        ip + 20 <= f.len(),
        f[ip] % 16 >= 5,
        ({
            let l4 = ip + 4 * (f[ip] % 16);
            &&& (f[ip + 9] == 6 && l4 + 18 <= f.len()) || (f[ip + 9] == 17 && l4 + 8 <= f.len())
            &&& t.nat.contains_pair(NatKey { vni, ipv4: bytes::at4(f, ip + 12) }, conf)
            &&& conf.port_min < conf.port_max
            &&& !t.nat_ct.contains_key(
                NatFlow {
                    src_ip: bytes::at4(f, ip + 12),
                    dst_ip: bytes::at4(f, ip + 16),
                    src_port: (f[l4] * 256 + f[l4 + 1]) as u16,
                    dst_port: (f[l4 + 2] * 256 + f[l4 + 3]) as u16,
                    proto: f[ip + 9],
                },
            )
        }),
    ensures
        ({
            let l4 = ip + 4 * (f[ip] % 16);
            let g = snat_frame(f, ip, t, vni, true);
            &&& g.len() == f.len()
            &&& bytes::at4(g, ip + 12) == conf.nat_ipv4
            &&& bytes::at4(g, ip + 16) == bytes::at4(f, ip + 16)
            &&& g[ip] == f[ip]
            &&& g[ip + 9] == f[ip + 9]
            &&& conf.port_min <= g[l4] * 256 + g[l4 + 1] < conf.port_max
            &&& g[l4 + 2] == f[l4 + 2]
            &&& g[l4 + 3] == f[l4 + 3]
        }),
{
    let l4 = ip + 4 * (f[ip] % 16);
    parse::law_ports_are_the_first_words(f, ip);
    let fwd = flow_of(f, ip)->Some_0;
    assert(nat_for(f, ip, t, vni) == Some((conf, fwd)));
    let p = allocated(t.nat_ct, fwd, conf).0;
    law_nat_port_in_range(t.nat_ct, fwd, conf);
    translate::law_translated_bytes(f, ip, l4, End::Source, conf.nat_ipv4, Some(p));
    assert(bytes::at4(snat_frame(f, ip, t, vni, true), ip + 16) =~= bytes::at4(f, ip + 16));
}

/// Only what is configured is translated: a packet whose route stays in the overlay, or whose source
/// has no configuration, leaves as it is, and the flow table stays.
pub proof fn law_nat_is_for_external_routes(
    f: Seq<u8>,
    ip: int,
    t: TablesView,
    vni: u32,
    external: bool,
)
    ensures
        !external || !t.nat.contains_key(NatKey { vni, ipv4: bytes::at4(f, ip + 12) })
            ==> snat_frame(f, ip, t, vni, external) == f && snat_tables(f, ip, t, vni, external)
            == t,
{
}

/// Ingress NAT, by offset: a whole TCP or UDP packet whose five-tuple the flow table knows gets the
/// guest's address for a destination and the guest's port for a destination port; the source, its
/// port and the protocol stay.
pub proof fn law_return_goes_to_the_guests_port(
    f: Seq<u8>,
    ip: int,
    flows: Map<NatFlow, NatCtVal>,
    guest: NatCtVal,
)
    requires
        0 <= ip,
        ip + 20 <= f.len(),
        f[ip] % 16 >= 5,
        ({
            let l4 = ip + 4 * (f[ip] % 16);
            &&& (f[ip + 9] == 6 && l4 + 18 <= f.len()) || (f[ip + 9] == 17 && l4 + 8 <= f.len())
            &&& flows.contains_pair(
                NatFlow {
                    src_ip: bytes::at4(f, ip + 12),
                    dst_ip: bytes::at4(f, ip + 16),
                    src_port: (f[l4] * 256 + f[l4 + 1]) as u16,
                    dst_port: (f[l4 + 2] * 256 + f[l4 + 3]) as u16,
                    proto: f[ip + 9],
                },
                guest,
            )
        }),
    ensures
        ({
            let l4 = ip + 4 * (f[ip] % 16);
            let g = dnat_frame(f, ip, flows);
            &&& return_of(f, ip, flows) == Some(guest)
            &&& g.len() == f.len()
            &&& bytes::at4(g, ip + 16) == guest.ipv4
            &&& bytes::at4(g, ip + 12) == bytes::at4(f, ip + 12)
            &&& g[ip + 9] == f[ip + 9]
            &&& g[l4 + 2] * 256 + g[l4 + 3] == guest.port
            &&& g[l4] == f[l4]
            &&& g[l4 + 1] == f[l4 + 1]
        }),
{
    let l4 = ip + 4 * (f[ip] % 16);
    parse::law_ports_are_the_first_words(f, ip);
    assert(return_of(f, ip, flows) == Some(guest));
    translate::law_translated_bytes(f, ip, l4, End::Destination, guest.ipv4, Some(guest.port));
    assert(bytes::at4(dnat_frame(f, ip, flows), ip + 12) =~= bytes::at4(f, ip + 12));
}

/// A new flow's replies are entered: the flow table maps the replies to the packet on the wire (from
/// the remote end to the public address and the allocated port) back to the guest's address and
/// port, and the flow itself to the public address and that port; where no port was free, it holds
/// the latter alone.
pub proof fn law_new_flow_is_entered_both_ways(
    flows: Map<NatFlow, NatCtVal>,
    fwd: NatFlow,
    conf: NatValue,
)
    requires
        !flows.contains_key(fwd),
        fwd.proto == 6 || fwd.proto == 17,
    ensures
        ({
            let (port, u) = allocated(flows, fwd, conf);
            let back = NatFlow {
                src_ip: fwd.dst_ip,
                dst_ip: conf.nat_ipv4,
                src_port: fwd.dst_port,
                dst_port: port,
                proto: fwd.proto,
            };
            &&& u.contains_pair(fwd, NatCtVal { ipv4: conf.nat_ipv4, port })
            &&& !flows.contains_key(back) && back != fwd && first_free(flows, fwd, conf, 0) is Some
                ==> u.contains_pair(back, NatCtVal { ipv4: fwd.src_ip, port: fwd.src_port })
        }),
{
}

/// A port is found where there is one: the search starts at the flow's hash in the range and goes
/// through up to 64 ports in a row, wrapping at the range's end; the first whose replies are not
/// someone else's is taken.
pub proof fn law_first_free_port_is_taken(
    flows: Map<NatFlow, NatCtVal>,
    fwd: NatFlow,
    conf: NatValue,
    n: nat,
)
    requires
        !flows.contains_key(fwd),
        conf.port_min < conf.port_max,
        n < 64,
        ({
            let range = (conf.port_max - conf.port_min) as int;
            let hash = parse::flow_hash(
                fwd.src_ip,
                fwd.dst_ip,
                fwd.src_port,
                fwd.dst_port,
                fwd.proto,
            );
            let start = hash as int % range;
            &&& start + 64 < 65536
            &&& forall|i: int|
                0 <= i < n ==> flows.contains_key(
                    #[trigger] reply_flow(
                        fwd,
                        conf,
                        (conf.port_min + (start + i) % range) as u16,
                    ),
                )
            &&& !flows.contains_key(
                reply_flow(fwd, conf, (conf.port_min + (start + n) % range) as u16),
            )
        }),
    ensures
        ({
            let range = (conf.port_max - conf.port_min) as int;
            let hash = parse::flow_hash(
                fwd.src_ip,
                fwd.dst_ip,
                fwd.src_port,
                fwd.dst_port,
                fwd.proto,
            );
            allocated(flows, fwd, conf).0 == conf.port_min + (hash as int % range + n) % range
        }),
{
    lemma_first_free_from(flows, fwd, conf, 0, n);
}

proof fn lemma_first_free_from(
    flows: Map<NatFlow, NatCtVal>,
    fwd: NatFlow,
    conf: NatValue,
    from: nat,
    n: nat,
)
    requires
        conf.port_min < conf.port_max,
        from <= n < 64,
        start_of(fwd, conf) + 64 < 65536,
        ({
            let range = (conf.port_max - conf.port_min) as int;
            let start = start_of(fwd, conf) as int;
            &&& forall|i: int|
                0 <= i < n ==> flows.contains_key(
                    #[trigger] reply_flow(
                        fwd,
                        conf,
                        (conf.port_min + (start + i) % range) as u16,
                    ),
                )
            &&& !flows.contains_key(
                reply_flow(fwd, conf, (conf.port_min + (start + n) % range) as u16),
            )
        }),
    ensures
        first_free(flows, fwd, conf, from) == Some(
            (conf.port_min + (start_of(fwd, conf) + n) % ((conf.port_max - conf.port_min) as int))
                as u16,
        ),
    decreases n - from,
{
    let range = (conf.port_max - conf.port_min) as int;
    let start = start_of(fwd, conf);
    assert(range_of(conf) == range);
    let x = start.wrapping_add(from as u16);
    assert(x == start + from);
    assert(x % range_of(conf) == (start + from) % range);
    assert(0 <= (start + from) % range < range);
    assert(candidate(conf, start, from as u16) == (conf.port_min + (start + from) % range) as u16);
    if from < n {
        assert(flows.contains_key(
            reply_flow(fwd, conf, (conf.port_min + (start + from as int) % range) as u16),
        ));
        lemma_first_free_from(flows, fwd, conf, from + 1, n);
    }
}

/// A slice is a range of ports of a public address in a VNI: a packet to a port that an enabled slice
/// holds (its first port included, its last port not) goes to the slice's hypervisor, where no
/// earlier entry holds it; a packet to a port that no slice holds goes to none. The port is the
/// second word behind the header.
pub proof fn law_slice_holds_its_ports(
    f: Seq<u8>,
    ip: int,
    t: TablesView,
    vni: u32,
    n: u32,
)
    requires
        0 <= ip,
        ip + 20 <= f.len(),
        f[ip] % 16 >= 5,
        f[ip + 9] == 6 || f[ip + 9] == 17,
        ip + 4 * (f[ip] % 16) + 4 <= f.len(),
        n <= t.neigh_nat_count,
        ({
            let l4 = ip + 4 * (f[ip] % 16);
            let port = f[l4 + 2] * 256 + f[l4 + 3];
            &&& forall|i: u32|
                i < n && #[trigger] t.neigh_nat.contains_key(i) ==> {
                    let e = t.neigh_nat[i];
                    e.enabled == 0 || e.vni != vni || e.nat_ip != bytes::at4(f, ip + 16) || port
                        < e.port_min || port >= e.port_max
                }
            &&& n < t.neigh_nat_count ==> t.neigh_nat.contains_key(n) && {
                let e = t.neigh_nat[n];
                e.enabled != 0 && e.vni == vni && e.nat_ip == bytes::at4(f, ip + 16) && e.port_min
                    <= port < e.port_max
            }
        }),
    ensures
        n < t.neigh_nat_count ==> neighbor_of(f, ip, t, vni) == Some(t.neigh_nat[n].underlay),
        n == t.neigh_nat_count ==> neighbor_of(f, ip, t, vni) is None,
{
    parse::law_ports_are_the_first_words(f, ip);
    let l4 = ip + 4 * (f[ip] % 16);
    lemma_neighbor_from(
        t,
        vni,
        bytes::at4(f, ip + 16),
        (f[l4 + 2] * 256 + f[l4 + 3]) as u16,
        0,
        n,
    );
}

proof fn lemma_neighbor_from(
    t: TablesView,
    vni: u32,
    nat_ip: [u8; 4],
    port: u16,
    from: nat,
    n: u32,
)
    requires
        from <= n <= t.neigh_nat_count,
        forall|i: u32|
            i < n && #[trigger] t.neigh_nat.contains_key(i) ==> !in_slice(
                t.neigh_nat[i],
                vni,
                nat_ip,
                port,
            ),
        n < t.neigh_nat_count ==> t.neigh_nat.contains_key(n) && in_slice(
            t.neigh_nat[n],
            vni,
            nat_ip,
            port,
        ),
    ensures
        n < t.neigh_nat_count ==> neighbor_from(t, vni, nat_ip, port, from) == Some(
            t.neigh_nat[n].underlay,
        ),
        n == t.neigh_nat_count ==> neighbor_from(t, vni, nat_ip, port, from) is None,
    decreases n - from,
{
    if from < n {
        let i = from as u32;
        assert(t.neigh_nat.contains_key(i) ==> !in_slice(t.neigh_nat[i], vni, nat_ip, port));
        lemma_neighbor_from(t, vni, nat_ip, port, from + 1, n);
    }
}

/// A return stays in its VNI: a packet whose flow is known goes back only where, in the packet's own VNI,
/// the guest it goes back to has a configuration with the packet's destination for its public address.
pub proof fn law_returns_stay_in_their_vni(
    f: Seq<u8>,
    ip: int,
    t: TablesView,
    vni: u32,
    guest: NatCtVal,
)
    requires
        return_of(f, ip, t.nat_ct) == Some(guest),
    ensures
        ({
            let key = NatKey { vni, ipv4: guest.ipv4 };
            &&& !t.nat.contains_key(key) ==> returns_to(f, ip, t, vni) is None
            &&& t.nat.contains_key(key) && t.nat[key].nat_ipv4 != bytes::at4(f, ip + 16)
                ==> returns_to(f, ip, t, vni) is None
            &&& t.nat.contains_key(key) && t.nat[key].nat_ipv4 == bytes::at4(f, ip + 16)
                ==> returns_to(f, ip, t, vni) == Some(guest)
        }),
{
}

/// Where all of the ports that the search goes through are taken, a new flow shares the one it starts from,
/// and no one else's replies are redirected: only the flow itself is entered.
pub proof fn law_exhausted_search_shares_the_first_port(
    flows: Map<NatFlow, NatCtVal>,
    fwd: NatFlow,
    conf: NatValue,
    other: NatFlow,
)
    requires
        !flows.contains_key(fwd),
        conf.port_min < conf.port_max,
        first_free(flows, fwd, conf, 0) is None,
        other != fwd,
    ensures
        ({
            let range = (conf.port_max - conf.port_min) as int;
            let hash = parse::flow_hash(
                fwd.src_ip,
                fwd.dst_ip,
                fwd.src_port,
                fwd.dst_port,
                fwd.proto,
            );
            let (port, u) = allocated(flows, fwd, conf);
            &&& port == conf.port_min + hash as int % range
            &&& u.contains_pair(fwd, NatCtVal { ipv4: conf.nat_ipv4, port })
            &&& u.get(other) == flows.get(other)
        }),
{
    let range = range_of(conf);
    assert(range == conf.port_max - conf.port_min);
    assert(start_of(fwd, conf) < range);
}

/// The search gives up only after 64 ports: where one of the first 64 from the start is not taken, a port
/// is found.
pub proof fn law_search_goes_through_sixty_four_ports(
    flows: Map<NatFlow, NatCtVal>,
    fwd: NatFlow,
    conf: NatValue,
    n: nat,
)
    requires
        n < 64,
        !flows.contains_key(reply_flow(fwd, conf, candidate(conf, start_of(fwd, conf), n as u16))),
    ensures
        first_free(flows, fwd, conf, 0) is Some,
{
    lemma_found_from(flows, fwd, conf, 0, n);
}

proof fn lemma_found_from(
    flows: Map<NatFlow, NatCtVal>,
    fwd: NatFlow,
    conf: NatValue,
    from: nat,
    n: nat,
)
    requires
        from <= n < 64,
        !flows.contains_key(reply_flow(fwd, conf, candidate(conf, start_of(fwd, conf), n as u16))),
    ensures
        first_free(flows, fwd, conf, from) is Some,
    decreases n - from,
{
    if from < n {
        lemma_found_from(flows, fwd, conf, from + 1, n);
    }
}

/// A known flow keeps its public port on the wire: a whole TCP or UDP packet whose five-tuple the flow
/// table knows leaves from the public address and the very port that the table holds, and the table
/// stays.
pub proof fn law_known_flow_keeps_its_public_port(
    f: Seq<u8>,
    ip: int,
    t: TablesView,
    vni: u32,
    conf: NatValue,
    known: NatCtVal,
)
    requires
        0 <= ip,
        ip + 20 <= f.len(),
        f[ip] % 16 >= 5,
        ({
            let l4 = ip + 4 * (f[ip] % 16);
            &&& (f[ip + 9] == 6 && l4 + 18 <= f.len()) || (f[ip + 9] == 17 && l4 + 8 <= f.len())
            &&& t.nat.contains_pair(NatKey { vni, ipv4: bytes::at4(f, ip + 12) }, conf)
            &&& conf.port_min < conf.port_max
            &&& t.nat_ct.contains_pair(
                NatFlow {
                    src_ip: bytes::at4(f, ip + 12),
                    dst_ip: bytes::at4(f, ip + 16),
                    src_port: (f[l4] * 256 + f[l4 + 1]) as u16,
                    dst_port: (f[l4 + 2] * 256 + f[l4 + 3]) as u16,
                    proto: f[ip + 9],
                },
                known,
            )
        }),
    ensures
        ({
            let l4 = ip + 4 * (f[ip] % 16);
            let g = snat_frame(f, ip, t, vni, true);
            &&& g.len() == f.len()
            &&& bytes::at4(g, ip + 12) == conf.nat_ipv4
            &&& bytes::at4(g, ip + 16) == bytes::at4(f, ip + 16)
            &&& g[l4] * 256 + g[l4 + 1] == known.port
            &&& g[l4 + 2] == f[l4 + 2]
            &&& g[l4 + 3] == f[l4 + 3]
            &&& snat_tables(f, ip, t, vni, true) == t
        }),
{
    let l4 = ip + 4 * (f[ip] % 16);
    parse::law_ports_are_the_first_words(f, ip);
    let fwd = flow_of(f, ip)->Some_0;
    assert(range_of(conf) == conf.port_max - conf.port_min);
    assert(nat_for(f, ip, t, vni) == Some((conf, fwd)));
    translate::law_translated_bytes(f, ip, l4, End::Source, conf.nat_ipv4, Some(known.port));
    assert(bytes::at4(snat_frame(f, ip, t, vni, true), ip + 16) =~= bytes::at4(f, ip + 16));
}

/// An echo is told apart by its identifier: a whole ICMP packet of a new flow leaves from the public
/// address with an identifier (the third word behind the header) of the configured range, and one whose
/// flow the table knows comes back to the guest's address with the guest's identifier.
pub proof fn law_echo_is_translated_by_its_identifier(
    f: Seq<u8>,
    ip: int,
    t: TablesView,
    vni: u32,
    conf: NatValue,
    guest: NatCtVal,
)
    requires
        0 <= ip,
        ip + 20 <= f.len(),
        f[ip] % 16 >= 5,
        f[ip + 9] == 1,
        ip + 4 * (f[ip] % 16) + 8 <= f.len(),
    ensures
        ({
            let l4 = ip + 4 * (f[ip] % 16);
            let id = (f[l4 + 4] * 256 + f[l4 + 5]) as u16;
            let flow = NatFlow {
                src_ip: bytes::at4(f, ip + 12),
                dst_ip: bytes::at4(f, ip + 16),
                src_port: id,
                dst_port: id,
                proto: 1,
            };
            let out = snat_frame(f, ip, t, vni, true);
            let back = dnat_frame(f, ip, t.nat_ct);
            &&& t.nat.contains_pair(NatKey { vni, ipv4: bytes::at4(f, ip + 12) }, conf)
                && conf.port_min < conf.port_max && !t.nat_ct.contains_key(flow) ==> bytes::at4(
                out,
                ip + 12,
            ) == conf.nat_ipv4 && conf.port_min <= out[l4 + 4] * 256 + out[l4 + 5] < conf.port_max
                && out[l4] == f[l4] && out[l4 + 1] == f[l4 + 1]
            &&& t.nat_ct.contains_pair(flow, guest) ==> bytes::at4(back, ip + 16) == guest.ipv4
                && back[l4 + 4] * 256 + back[l4 + 5] == guest.port && bytes::at4(back, ip + 12)
                == bytes::at4(f, ip + 12)
        }),
{
    let l4 = ip + 4 * (f[ip] % 16);
    parse::law_ports_are_the_first_words(f, ip);
    let flow = flow_of(f, ip)->Some_0;
    if t.nat.contains_pair(NatKey { vni, ipv4: bytes::at4(f, ip + 12) }, conf) && conf.port_min
        < conf.port_max && !t.nat_ct.contains_key(flow) {
        assert(range_of(conf) == conf.port_max - conf.port_min);
        assert(nat_for(f, ip, t, vni) == Some((conf, flow)));
        let p = allocated(t.nat_ct, flow, conf).0;
        law_nat_port_in_range(t.nat_ct, flow, conf);
        translate::law_translated_bytes(f, ip, l4, End::Source, conf.nat_ipv4, Some(p));
    }
    if t.nat_ct.contains_pair(flow, guest) {
        assert(return_of(f, ip, t.nat_ct) == Some(guest));
        translate::law_translated_bytes(f, ip, l4, End::Destination, guest.ipv4, Some(guest.port));
        assert(bytes::at4(dnat_frame(f, ip, t.nat_ct), ip + 12) =~= bytes::at4(f, ip + 12));
    }
}

} // verus!
