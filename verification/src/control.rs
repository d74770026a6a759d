//! The control plane's state: what has been configured, and which table changes program it.
//!
//! Every operation gives the list of changes to make, in order. Where an operation's own record
//! depends on the changes having been made, it is confirmed afterwards.

use vstd::prelude::*;

use crate::bytes::{copy_bytes, eq4, eq_bytes};
use crate::maglev;
use crate::maglev::{build, build_overlay, TABLE_SIZE};
use crate::table;
use crate::table::{Addr6, Id, Table};
use crate::tables::{MapWrite, Tables, TablesView};
use crate::types::{
    FwMeta, FwRule, FwRuleKey, IfaceKey, IfaceValue, LbKey, LbValue, Local, MaglevKey, MeterState,
    NatKey, NatValue, NeighborNatEntry, Port, PortMeta, Route, RouteKey, RouteValue, UnderlayValue,
    Uplink, VipKey, FW_DIR_EGRESS, FW_MAX_RULES, NB_MAX_ENTRIES,
};

verus! {

/// Why an operation was refused.
#[derive(Copy, Clone, Eq, PartialEq, Structural, Debug)]
pub enum ControlError {
    /// An interface of that identifier, or on that device, is there already.
    InterfaceExists,
    UnknownInterface,
    UnknownLoadBalancer,
    TooManyRules,
    NeighborNatFull,
}

impl ControlError {
    pub open spec fn text(self) -> Seq<char> {
        match self {
            ControlError::InterfaceExists => "interface already exists"@,
            ControlError::UnknownInterface => "unknown interface"@,
            ControlError::UnknownLoadBalancer => "unknown load balancer"@,
            ControlError::TooManyRules => "too many firewall rules for interface (max 16)"@,
            ControlError::NeighborNatFull => "neighbor NAT table full (max 64)"@,
        }
    }

    /// The error in words.
    pub fn message(&self) -> (r: &'static str)
        ensures
            r@ == self.text(),
    {
        match self {
            ControlError::InterfaceExists => "interface already exists",
            ControlError::UnknownInterface => "unknown interface",
            ControlError::UnknownLoadBalancer => "unknown load balancer",
            ControlError::TooManyRules => "too many firewall rules for interface (max 16)",
            ControlError::NeighborNatFull => "neighbor NAT table full (max 64)",
        }
    }
}

/// What is known of an interface.
#[derive(Copy, Clone, Debug)]
pub struct Iface {
    pub vni: u32,
    pub ipv4: [u8; 4],
    pub ifindex: u32,
    pub underlay: [u8; 16],
}

/// A load balancer: its address, the (port, protocol) services it answers, its Maglev table, and
/// its backends in the order in which they were added.
#[derive(Debug)]
pub struct LbEntry {
    pub vni: u32,
    pub ip: [u8; 4],
    pub lb_underlay: [u8; 16],
    pub ports: Vec<(u16, u8)>,
    pub table_id: u32,
    pub backends: Vec<[u8; 16]>,
    pub overlay_backends: Vec<[u8; 4]>,
}

/// The contents of an `LbEntry`.
#[verifier::ext_equal]
pub struct LbView {
    pub vni: u32,
    pub ip: [u8; 4],
    pub lb_underlay: [u8; 16],
    pub ports: Seq<(u16, u8)>,
    pub table_id: u32,
    pub backends: Seq<[u8; 16]>,
    pub overlay_backends: Seq<[u8; 4]>,
}

impl View for LbEntry {
    type V = LbView;

    open spec fn view(&self) -> LbView {
        LbView {
            vni: self.vni,
            ip: self.ip,
            lb_underlay: self.lb_underlay,
            ports: self.ports@,
            table_id: self.table_id,
            backends: self.backends@,
            overlay_backends: self.overlay_backends@,
        }
    }
}

/// A firewall rule with its identifier.
#[derive(Debug)]
pub struct RuleEntry {
    pub id: Vec<u8>,
    pub rule: FwRule,
}

/// A list of rules with their identifiers.
pub open spec fn rule_list(v: Seq<RuleEntry>) -> Seq<(Seq<u8>, FwRule)> {
    Seq::new(v.len(), |i: int| (v[i].id@, v[i].rule))
}

/// The configuration, as far as later operations depend on it.
pub struct Control {
    ifaces: Table<Id, Iface>,
    lbs: Table<Id, LbEntry>,
    pending_id: Vec<u8>,
    pending_lb: Option<LbEntry>,
    next_table_id: u32,
    prefixes: Table<Id, Vec<([u8; 4], u32)>>,
    lb_prefixes: Table<Id, Vec<([u8; 4], u32)>>,
    rules: Table<u32, Vec<RuleEntry>>,
    neighbors: Vec<NeighborNatEntry>,
}

/// The contents of a `Control`.
#[verifier::ext_equal]
pub struct ControlView {
    pub ifaces: Map<Seq<u8>, Iface>,
    pub lbs: Map<Seq<u8>, LbView>,
    /// A load balancer whose table changes are not confirmed yet.
    pub pending: Option<(Seq<u8>, LbView)>,
    pub next_table_id: u32,
    /// Alias prefixes of an interface.
    pub prefixes: Map<Seq<u8>, Seq<([u8; 4], u32)>>,
    /// Load-balancer prefixes announced for an interface.
    pub lb_prefixes: Map<Seq<u8>, Seq<([u8; 4], u32)>>,
    /// Firewall rules of a tap, in order.
    pub rules: Map<u32, Seq<(Seq<u8>, FwRule)>>,
    pub neighbors: Seq<NeighborNatEntry>,
}

spec fn lb_views(m: Map<Seq<u8>, LbEntry>) -> Map<Seq<u8>, LbView> {
    m.map_values(|e: LbEntry| e@)
}

spec fn prefix_views(m: Map<Seq<u8>, Vec<([u8; 4], u32)>>) -> Map<Seq<u8>, Seq<([u8; 4], u32)>> {
    m.map_values(|v: Vec<([u8; 4], u32)>| v@)
}

spec fn rule_views(m: Map<u32, Vec<RuleEntry>>) -> Map<u32, Seq<(Seq<u8>, FwRule)>> {
    m.map_values(|v: Vec<RuleEntry>| rule_list(v@))
}

impl View for Control {
    type V = ControlView;

    closed spec fn view(&self) -> ControlView {
        ControlView {
            ifaces: self.ifaces@,
            lbs: lb_views(self.lbs@),
            pending: match self.pending_lb {
                Some(e) => Some((self.pending_id@, e@)),
                None => None,
            },
            next_table_id: self.next_table_id,
            prefixes: prefix_views(self.prefixes@),
            lb_prefixes: prefix_views(self.lb_prefixes@),
            rules: rule_views(self.rules@),
            neighbors: self.neighbors@,
        }
    }
}

/// Whether some interface is on the device `tap`.
pub open spec fn has_tap(ifaces: Map<Seq<u8>, Iface>, tap: u32) -> bool {
    exists|id: Seq<u8>| ifaces.contains_key(id) && (#[trigger] ifaces[id]).ifindex == tap
}

impl ControlView {
    /// Whether the state is one that operations lead to: no two interfaces are on one device, rules
    /// and prefixes are those of interfaces that are there, no list exceeds its table, and every
    /// load balancer has a Maglev table of its own, with an identifier that was handed out.
    pub open spec fn wf(self) -> bool {
        &&& forall|a: Seq<u8>, b: Seq<u8>|
            self.ifaces.contains_key(a) && self.ifaces.contains_key(b) && a != b ==> (
            #[trigger] self.ifaces[a]).ifindex != (#[trigger] self.ifaces[b]).ifindex
        &&& forall|a: Seq<u8>| #[trigger]
            self.prefixes.contains_key(a) ==> self.ifaces.contains_key(a)
        &&& forall|a: Seq<u8>| #[trigger]
            self.lb_prefixes.contains_key(a) ==> self.ifaces.contains_key(a)
        &&& forall|i: u32|
            self.rules.contains_key(i) ==> (#[trigger] self.rules[i]).len() <= FW_MAX_RULES
                && has_tap(self.ifaces, i)
        &&& self.neighbors.len() <= NB_MAX_ENTRIES
        &&& forall|a: Seq<u8>|
            self.lbs.contains_key(a) ==> (#[trigger] self.lbs[a]).table_id < self.next_table_id
        &&& forall|a: Seq<u8>, b: Seq<u8>|
            self.lbs.contains_key(a) && self.lbs.contains_key(b) && a != b ==> (
            #[trigger] self.lbs[a]).table_id != (#[trigger] self.lbs[b]).table_id
        &&& self.pending matches Some((_, lb)) ==> lb.table_id < self.next_table_id && forall|
            a: Seq<u8>,
        |
            self.lbs.contains_key(a) ==> (#[trigger] self.lbs[a]).table_id != lb.table_id
    }
}

fn id_of(id: &[u8]) -> (r: Id)
    ensures
        r@ == id@,
{
    Id(copy_bytes(id))
}

/// A copy of a list.
fn copy_list<T: Copy>(v: &Vec<T>) -> (r: Vec<T>)
    ensures
        r@ == v@,
{
    let mut r: Vec<T> = Vec::new();
    let mut i: usize = 0;
    while i < v.len()
        invariant
            i <= v.len(),
            r@ == v@.take(i as int),
        decreases v.len() - i,
    {
        r.push(v[i]);
        i = i + 1;
    }
    assert(v@.take(i as int) =~= v@);
    r
}

/// The single change of a list.
fn one(w: MapWrite) -> (r: Vec<MapWrite>)
    ensures
        r@ == seq![w],
{
    let mut r: Vec<MapWrite> = Vec::new();
    r.push(w);
    r
}

/// Bytes per second of a rate in megabits per second, as far as it can be represented.
pub open spec fn byte_rate(mbps: u64) -> u64 {
    if mbps * 1_000_000 > u64::MAX {
        u64::MAX / 8
    } else {
        (mbps * 1_000_000 / 8) as u64
    }
}

/// The burst of a bucket: an eighth of a second's worth, but at least a frame of 2000 bytes.
pub open spec fn burst_of(rate: u64) -> u64 {
    if rate / 8 > 2000 {
        rate / 8
    } else {
        2000
    }
}

/// The meter that caps a port at the given rates; zero stands for no cap.
pub open spec fn meter_of(total_mbps: u64, public_mbps: u64) -> MeterState {
    let tb = byte_rate(total_mbps);
    let pb = byte_rate(public_mbps);
    MeterState {
        total_bps: tb,
        total_burst: burst_of(tb),
        total_tokens: tb / 8,
        total_last_ns: 0,
        public_bps: pb,
        public_burst: burst_of(pb),
        public_tokens: pb / 8,
        public_last_ns: 0,
    }
}

fn to_byte_rate(mbps: u64) -> (r: u64)
    ensures
        r == byte_rate(mbps),
{
    let bits: u64 = if mbps > 18_446_744_073_709 {
        18_446_744_073_709_551_615
    } else {
        mbps * 1_000_000
    };
    bits / 8
}

fn to_burst(rate: u64) -> (r: u64)
    ensures
        r == burst_of(rate),
{
    if rate / 8 > 2000 {
        rate / 8
    } else {
        2000
    }
}

/// The changes that program a local interface; a meter only where a cap is asked for.
pub open spec fn interface_writes(
    tap: u32,
    mac: [u8; 6],
    vni: u32,
    ipv4: [u8; 4],
    gateway_ipv4: [u8; 4],
    underlay: [u8; 16],
    total_mbps: u64,
    public_mbps: u64,
) -> Seq<MapWrite> {
    let zeros = [0u8, 0, 0, 0, 0, 0, 0, 0, 0, 0, 0, 0, 0, 0, 0, 0];
    let base = seq![
        MapWrite::Port(
            tap,
            Port {
                meta: PortMeta {
                    vni,
                    guest_ipv4: ipv4,
                    gateway_ipv4,
                    guest_mac: mac,
                    _pad: [0u8, 0],
                },
                underlay_ipv6: underlay,
                gateway_ipv6: zeros,
                guest_ipv6: zeros,
            },
        ),
        MapWrite::Iface(
            IfaceKey { vni, ipv4 },
            IfaceValue {
                tap_ifindex: tap,
                is_local: 1,
                underlay_ipv6: underlay,
                guest_mac: mac,
                _pad: [0u8, 0],
            },
        ),
        MapWrite::Underlay(underlay, UnderlayValue { vni, tap_ifindex: tap, guest_mac: mac }),
    ];
    if total_mbps != 0 || public_mbps != 0 {
        base.push(MapWrite::Meter(tap, meter_of(total_mbps, public_mbps)))
    } else {
        base
    }
}

/// Whether an interface of the identifier, or one on the device, is there already.
pub open spec fn is_taken(c: ControlView, id: Seq<u8>, tap: u32) -> bool {
    c.ifaces.contains_key(id) || has_tap(c.ifaces, tap)
}

/// Whether an interface or a load balancer is in a VNI.
pub open spec fn is_vni_in_use(c: ControlView, vni: u32) -> bool {
    ||| exists|id: Seq<u8>| c.ifaces.contains_key(id) && (#[trigger] c.ifaces[id]).vni == vni
    ||| exists|id: Seq<u8>| c.lbs.contains_key(id) && (#[trigger] c.lbs[id]).vni == vni
}

/// The state with one more interface.
pub open spec fn with_interface(c: ControlView, id: Seq<u8>, iface: Iface) -> ControlView {
    ControlView { ifaces: c.ifaces.insert(id, iface), ..c }
}

/// The state without an interface, its prefixes and its rules.
pub open spec fn without_interface(c: ControlView, id: Seq<u8>) -> ControlView {
    ControlView {
        ifaces: c.ifaces.remove(id),
        prefixes: c.prefixes.remove(id),
        lb_prefixes: c.lb_prefixes.remove(id),
        rules: c.rules.remove(c.ifaces[id].ifindex),
        ..c
    }
}

/// The changes that put back what an interface's changes overwrite, as it is in `t`.
pub open spec fn restore_writes(t: TablesView, iface: Iface) -> Seq<MapWrite> {
    let tap = iface.ifindex;
    let key = IfaceKey { vni: iface.vni, ipv4: iface.ipv4 };
    seq![
        match t.ports.get(tap) {
            Some(p) => MapWrite::Port(tap, p),
            None => MapWrite::PortRemove(tap),
        },
        match t.interfaces.get(key) {
            Some(v) => MapWrite::Iface(key, v),
            None => MapWrite::IfaceRemove(key),
        },
        match t.underlay.get(iface.underlay) {
            Some(v) => MapWrite::Underlay(iface.underlay, v),
            None => MapWrite::UnderlayRemove(iface.underlay),
        },
        match t.meter.get(tap) {
            Some(m) => MapWrite::Meter(tap, m),
            None => MapWrite::MeterRemove(tap),
        },
    ]
}

proof fn lemma_with_interface(c: ControlView, id: Seq<u8>, iface: Iface)
    requires
        c.wf(),
        !is_taken(c, id, iface.ifindex),
    ensures
        with_interface(c, id, iface).wf(),
{
    let d = with_interface(c, id, iface);
    assert forall|a: Seq<u8>, b: Seq<u8>|
        d.ifaces.contains_key(a) && d.ifaces.contains_key(b) && a != b implies (
    #[trigger] d.ifaces[a]).ifindex != (#[trigger] d.ifaces[b]).ifindex by {
        if a == id {
            assert(c.ifaces[b].ifindex != iface.ifindex);
        } else if b == id {
            assert(c.ifaces[a].ifindex != iface.ifindex);
        } else {
            assert(c.ifaces[a].ifindex != c.ifaces[b].ifindex);
        }
    }
    assert forall|i: u32| d.rules.contains_key(i) implies (#[trigger] d.rules[i]).len()
        <= FW_MAX_RULES && has_tap(d.ifaces, i) by {
        assert(c.rules[i].len() <= FW_MAX_RULES);
        let k = choose|k: Seq<u8>|
            c.ifaces.contains_key(k) && (#[trigger] c.ifaces[k]).ifindex == i;
        assert(d.ifaces[k].ifindex == i);
    }
}

/// Interfaces other than `id` keep their taps when it leaves.
proof fn lemma_other_taps(c: ControlView, id: Seq<u8>)
    requires
        c.wf(),
        c.ifaces.contains_key(id),
    ensures
        forall|i: u32|
            i != c.ifaces[id].ifindex && #[trigger] has_tap(c.ifaces, i) ==> has_tap(
                c.ifaces.remove(id),
                i,
            ),
{
    assert forall|i: u32| i != c.ifaces[id].ifindex && #[trigger] has_tap(c.ifaces, i) implies has_tap(
        c.ifaces.remove(id),
        i,
    ) by {
        let k = choose|k: Seq<u8>|
            c.ifaces.contains_key(k) && (#[trigger] c.ifaces[k]).ifindex == i;
        assert(c.ifaces.remove(id)[k].ifindex == i);
    }
}

proof fn lemma_without_interface(c: ControlView, id: Seq<u8>)
    requires
        c.wf(),
        c.ifaces.contains_key(id),
    ensures
        without_interface(c, id).wf(),
{
    lemma_other_taps(c, id);
    let d = without_interface(c, id);
    assert forall|i: u32| d.rules.contains_key(i) implies (#[trigger] d.rules[i]).len()
        <= FW_MAX_RULES && has_tap(d.ifaces, i) by {
        assert(c.rules[i].len() <= FW_MAX_RULES);
        assert(has_tap(c.ifaces, i));
    }
}

/// An interface is created once: while it is there, its identifier and its device are taken, and its
/// VNI is in use.
pub proof fn law_interface_is_created_once(
    c: ControlView,
    id: Seq<u8>,
    iface: Iface,
    other_id: Seq<u8>,
    other_tap: u32,
)
    ensures
        is_taken(with_interface(c, id, iface), id, other_tap),
        is_taken(with_interface(c, id, iface), other_id, iface.ifindex),
        is_vni_in_use(with_interface(c, id, iface), iface.vni),
{
    let d = with_interface(c, id, iface);
    assert(d.ifaces.contains_key(id) && d.ifaces[id] == iface);
}

/// A deleted interface frees its identifier and its device, and nothing that was configured on it is
/// left for the next one.
pub proof fn law_deleted_interface_can_be_created_again(c: ControlView, id: Seq<u8>)
    requires
        c.wf(),
        c.ifaces.contains_key(id),
    ensures
        !is_taken(without_interface(c, id), id, c.ifaces[id].ifindex),
        prefixes_of(without_interface(c, id).prefixes, id).len() == 0,
        prefixes_of(without_interface(c, id).lb_prefixes, id).len() == 0,
        rules_of(without_interface(c, id), c.ifaces[id].ifindex).len() == 0,
{
    let d = without_interface(c, id);
    assert forall|k: Seq<u8>| d.ifaces.contains_key(k) implies (#[trigger] d.ifaces[k]).ifindex
        != c.ifaces[id].ifindex by {
        assert(c.ifaces[k].ifindex != c.ifaces[id].ifindex);
    }
}

/// Taking an interface back undoes its creation: the state is what it was.
pub proof fn law_undone_interface_leaves_no_record(c: ControlView, id: Seq<u8>, iface: Iface)
    requires
        c.wf(),
        !is_taken(c, id, iface.ifindex),
    ensures
        without_interface(with_interface(c, id, iface), id) == c,
{
    let d = without_interface(with_interface(c, id, iface), id);
    assert(!c.rules.contains_key(iface.ifindex)) by {
        if c.rules.contains_key(iface.ifindex) {
            assert(c.rules[iface.ifindex].len() <= FW_MAX_RULES);
        }
    }
    assert(!c.prefixes.contains_key(id));
    assert(!c.lb_prefixes.contains_key(id));
    assert(d =~= c);
}

/// Whether an interface's address is still mapped to its tap.
pub open spec fn owns_address(t: TablesView, iface: Iface) -> bool {
    t.interfaces.get(IfaceKey { vni: iface.vni, ipv4: iface.ipv4 }) matches Some(v)
        && v.tap_ifindex == iface.ifindex
}

/// Whether an interface's underlay address is still mapped to its tap.
pub open spec fn owns_underlay(t: TablesView, iface: Iface) -> bool {
    t.underlay.get(iface.underlay) matches Some(v) && v.tap_ifindex == iface.ifindex
}

/// The changes that remove what is known of an interface's address: its delivery, its VIP and its
/// NAT configuration.
pub open spec fn address_removals(t: TablesView, iface: Iface) -> Seq<MapWrite> {
    if owns_address(t, iface) {
        vip_removals(t, iface.vni, iface.ipv4).push(
            MapWrite::NatRemove(NatKey { vni: iface.vni, ipv4: iface.ipv4 }),
        ).push(MapWrite::IfaceRemove(IfaceKey { vni: iface.vni, ipv4: iface.ipv4 }))
    } else {
        Seq::empty()
    }
}

/// The changes that remove an interface's underlay address.
pub open spec fn underlay_removals(t: TablesView, iface: Iface) -> Seq<MapWrite> {
    if owns_underlay(t, iface) {
        seq![MapWrite::UnderlayRemove(iface.underlay)]
    } else {
        Seq::empty()
    }
}

/// The changes that remove the routes to the first `n` prefixes of a list.
pub open spec fn prefix_removals(vni: u32, list: Seq<([u8; 4], u32)>, n: nat) -> Seq<MapWrite> {
    Seq::new(
        n,
        |i: int|
            MapWrite::RouteRemove(RouteKey { vni, prefix_len: list[i].1, ipv4: list[i].0 }),
    )
}

/// The changes that remove an interface: its firewall rules, the routes to its alias prefixes, its
/// address and underlay address as far as they are still its own, its meter and its port.
pub open spec fn interface_removals(
    t: TablesView,
    iface: Iface,
    prefixes: Seq<([u8; 4], u32)>,
) -> Seq<MapWrite> {
    let tap = iface.ifindex;
    rule_removals(tap, FW_MAX_RULES as nat) + prefix_removals(iface.vni, prefixes, prefixes.len())
        + address_removals(t, iface) + underlay_removals(t, iface) + seq![
        MapWrite::FwMetaRemove(tap),
        MapWrite::MeterRemove(tap),
        MapWrite::PortRemove(tap),
    ]
}

/// The change that enters a route.
pub open spec fn route_write(
    vni: u32,
    ipv4: [u8; 4],
    prefix_len: u32,
    nexthop_ipv6: [u8; 16],
    is_external: bool,
) -> MapWrite {
    MapWrite::Route(
        RouteKey { vni, prefix_len, ipv4 },
        Route {
            value: RouteValue {
                nexthop_vni: vni,
                nexthop_ipv6,
                nexthop_mac: [0u8, 0, 0, 0, 0, 0],
                _pad: [0u8, 0],
            },
            is_external,
        },
    )
}

/// The changes that program a load balancer's services, one per port, and its anycast underlay
/// address, which belongs to no tap.
pub open spec fn lb_writes(lb: LbView) -> Seq<MapWrite> {
    service_writes(lb, lb.ports.len()).push(
        MapWrite::Underlay(
            lb.lb_underlay,
            UnderlayValue { vni: lb.vni, tap_ifindex: 0, guest_mac: [0u8, 0, 0, 0, 0, 0] },
        ),
    )
}

/// The key of a load balancer's `i`-th service.
pub open spec fn service_key(lb: LbView, i: int) -> LbKey {
    LbKey { vni: lb.vni, ipv4: lb.ip, port: lb.ports[i].0, proto: lb.ports[i].1 }
}

/// The changes for the first `n` services.
pub open spec fn service_writes(lb: LbView, n: nat) -> Seq<MapWrite> {
    Seq::new(
        n,
        |i: int|
            MapWrite::Lb(service_key(lb, i), LbValue { table_id: lb.table_id, size: TABLE_SIZE }),
    )
}

/// The change for one slot of a Maglev table.
pub open spec fn slot_write(table_id: u32, backends: Seq<[u8; 16]>, slot: int) -> MapWrite {
    MapWrite::Maglev(
        MaglevKey { table_id, slot: slot as u32 },
        backends[maglev::table_of(maglev::hashes16(backends))[slot] as int],
    )
}

/// The changes that program the first `n` slots of a Maglev table of underlay backends.
pub open spec fn slot_writes(table_id: u32, backends: Seq<[u8; 16]>, n: nat) -> Seq<MapWrite> {
    Seq::new(n, |slot: int| slot_write(table_id, backends, slot))
}

/// The change for one slot of a Maglev table of overlay backends.
pub open spec fn overlay_slot_write(table_id: u32, backends: Seq<[u8; 4]>, slot: int) -> MapWrite {
    MapWrite::MaglevOverlay(
        MaglevKey { table_id, slot: slot as u32 },
        backends[maglev::table_of(maglev::hashes4(backends))[slot] as int],
    )
}

/// The changes that program the first `n` slots of a Maglev table of overlay backends.
pub open spec fn overlay_slot_writes(table_id: u32, backends: Seq<[u8; 4]>, n: nat) -> Seq<
    MapWrite,
> {
    Seq::new(n, |slot: int| overlay_slot_write(table_id, backends, slot))
}

/// The changes that remove the first `n` services of a load balancer.
pub open spec fn service_removals(lb: LbView, n: nat) -> Seq<MapWrite> {
    Seq::new(n, |i: int| MapWrite::LbRemove(service_key(lb, i)))
}

/// The changes that clear the first `n` slots of a Maglev table.
pub open spec fn slot_removals(table_id: u32, n: nat) -> Seq<MapWrite> {
    Seq::new(n, |slot: int| MapWrite::MaglevRemove(MaglevKey { table_id, slot: slot as u32 }))
}

/// The changes that clear the first `n` slots of a Maglev table of overlay backends.
pub open spec fn overlay_slot_removals(table_id: u32, n: nat) -> Seq<MapWrite> {
    Seq::new(
        n,
        |slot: int| MapWrite::MaglevOverlayRemove(MaglevKey { table_id, slot: slot as u32 }),
    )
}

/// The changes that remove a load balancer.
pub open spec fn lb_removals(lb: LbView) -> Seq<MapWrite> {
    service_removals(lb, lb.ports.len()) + slot_removals(lb.table_id, TABLE_SIZE as nat)
        + overlay_slot_removals(lb.table_id, TABLE_SIZE as nat)
}

/// A list of overlay backends without one.
pub open spec fn without_backend(list: Seq<[u8; 4]>, backend: [u8; 4]) -> Seq<[u8; 4]>
    decreases list.len(),
{
    if list.len() == 0 {
        list
    } else {
        let rest = without_backend(list.drop_last(), backend);
        if list.last() == backend {
            rest
        } else {
            rest.push(list.last())
        }
    }
}

/// The changes that program a list of overlay backends: where it is empty, the slots are cleared.
pub open spec fn overlay_writes(table_id: u32, backends: Seq<[u8; 4]>) -> Seq<MapWrite> {
    if backends.len() == 0 {
        overlay_slot_removals(table_id, TABLE_SIZE as nat)
    } else {
        overlay_slot_writes(table_id, backends, TABLE_SIZE as nat)
    }
}

/// The changes that map a guest's address and a VIP to each other.
pub open spec fn vip_writes(vni: u32, guest: [u8; 4], vip: [u8; 4]) -> Seq<MapWrite> {
    seq![
        MapWrite::Vip(VipKey { vni, ipv4: guest }, vip),
        MapWrite::Vip(VipKey { vni, ipv4: vip }, guest),
    ]
}

/// The changes that remove a guest's VIP, whatever it is.
pub open spec fn vip_removals(t: TablesView, vni: u32, guest: [u8; 4]) -> Seq<MapWrite> {
    let key = VipKey { vni, ipv4: guest };
    if t.vips.contains_key(key) {
        seq![
            MapWrite::VipRemove(VipKey { vni, ipv4: t.vips[key] }),
            MapWrite::VipRemove(key),
        ]
    } else {
        seq![MapWrite::VipRemove(key)]
    }
}

impl Control {
    /// Whether the state is one that operations lead to.
    pub open spec fn wf(&self) -> bool {
        self@.wf()
    }

    /// Nothing configured.
    pub fn new() -> (r: Control)
        ensures
            r.wf(),
            r@ == (ControlView {
                ifaces: Map::empty(),
                lbs: Map::empty(),
                pending: None,
                next_table_id: 1,
                prefixes: Map::empty(),
                lb_prefixes: Map::empty(),
                rules: Map::empty(),
                neighbors: Seq::empty(),
            }),
    {
        let r = Control {
            ifaces: Table::new(),
            lbs: Table::new(),
            pending_id: Vec::new(),
            pending_lb: None,
            next_table_id: 1,
            prefixes: Table::new(),
            lb_prefixes: Table::new(),
            rules: Table::new(),
            neighbors: Vec::new(),
        };
        assert(lb_views(r.lbs@) =~= Map::empty());
        assert(prefix_views(r.prefixes@) =~= Map::empty());
        assert(prefix_views(r.lb_prefixes@) =~= Map::empty());
        assert(rule_views(r.rules@) =~= Map::empty());
        r
    }

    /// The record of the hypervisor's uplink.
    pub fn bring_up(
        uplink_ifindex: u32,
        uplink_mac: [u8; 6],
        gateway_mac: [u8; 6],
        underlay_ipv6: [u8; 16],
    ) -> (r: Vec<MapWrite>)
        ensures
            r@ == seq![
                MapWrite::Local(
                    Uplink {
                        local: Local {
                            uplink_ifindex,
                            uplink_mac,
                            _pad: [0u8, 0],
                            underlay_ipv6,
                        },
                        gateway_mac,
                    },
                ),
            ],
    {
        one(
            MapWrite::Local(
                Uplink {
                    local: Local { uplink_ifindex, uplink_mac, _pad: [0u8, 0], underlay_ipv6 },
                    gateway_mac,
                },
            ),
        )
    }

    fn meter_state(total_mbps: u64, public_mbps: u64) -> (r: MeterState)
        ensures
            r == meter_of(total_mbps, public_mbps),
    {
        let tb: u64 = to_byte_rate(total_mbps);
        let pb: u64 = to_byte_rate(public_mbps);
        MeterState {
            total_bps: tb,
            total_burst: to_burst(tb),
            total_tokens: tb / 8,
            total_last_ns: 0,
            public_bps: pb,
            public_burst: to_burst(pb),
            public_tokens: pb / 8,
            public_last_ns: 0,
        }
    }

    /// What is known of an interface.
    pub fn interface(&self, interface_id: &[u8]) -> (r: Option<Iface>)
        ensures
            r == self@.ifaces.get(interface_id@),
    {
        self.ifaces.get(&id_of(interface_id))
    }

    /// Cap a port's rates.
    pub fn set_meter(&self, interface_id: &[u8], total_mbps: u64, public_mbps: u64) -> (r: Result<
        Vec<MapWrite>,
        ControlError,
    >)
        ensures
            match self@.ifaces.get(interface_id@) {
                Some(iface) => r matches Ok(w) && w@ == seq![
                    MapWrite::Meter(iface.ifindex, meter_of(total_mbps, public_mbps)),
                ],
                None => r matches Err(e) && e == ControlError::UnknownInterface,
            },
    {
        match self.interface(interface_id) {
            Some(iface) => Ok(
                one(MapWrite::Meter(iface.ifindex, Self::meter_state(total_mbps, public_mbps))),
            ),
            None => Err(ControlError::UnknownInterface),
        }
    }

    /// Whether some interface is on the device `tap`.
    fn tap_in_use(&self, tap: u32) -> (r: bool)
        ensures
            r == has_tap(self@.ifaces, tap),
    {
        let all = self.ifaces.entries();
        let mut i: usize = 0;
        while i < all.len()
            invariant
                i <= all.len(),
                table::keys_distinct(all@),
                table::entries_map(all@) == self@.ifaces,
                forall|j: int| 0 <= j < i ==> (#[trigger] all@[j]).1.ifindex != tap,
            decreases all.len() - i,
        {
            if all[i].1.ifindex == tap {
                proof {
                    table::lemma_entry(all@, i as int);
                    assert(self@.ifaces[all@[i as int].0@].ifindex == tap);
                }
                return true;
            }
            i = i + 1;
        }
        assert forall|id: Seq<u8>| self@.ifaces.contains_key(id) implies (
        #[trigger] self@.ifaces[id]).ifindex != tap by {
            let p = table::position(all@, id);
            assert(table::has_key(all@, id));
            assert(all@[p].1.ifindex != tap);
        }
        false
    }

    /// The changes that program a local interface.
    fn program_interface(
        tap: u32,
        mac: [u8; 6],
        vni: u32,
        ipv4: [u8; 4],
        gateway_ipv4: [u8; 4],
        underlay_ipv6: [u8; 16],
        total_mbps: u64,
        public_mbps: u64,
    ) -> (r: Vec<MapWrite>)
        ensures
            r@ == interface_writes(
                tap,
                mac,
                vni,
                ipv4,
                gateway_ipv4,
                underlay_ipv6,
                total_mbps,
                public_mbps,
            ),
    {
        let zeros: [u8; 16] = [0u8, 0, 0, 0, 0, 0, 0, 0, 0, 0, 0, 0, 0, 0, 0, 0];
        let mut r: Vec<MapWrite> = Vec::new();
        r.push(
            MapWrite::Port(
                tap,
                Port {
                    meta: PortMeta {
                        vni,
                        guest_ipv4: ipv4,
                        gateway_ipv4,
                        guest_mac: mac,
                        _pad: [0u8, 0],
                    },
                    underlay_ipv6,
                    gateway_ipv6: zeros,
                    guest_ipv6: zeros,
                },
            ),
        );
        r.push(
            MapWrite::Iface(
                IfaceKey::new(vni, ipv4),
                IfaceValue {
                    tap_ifindex: tap,
                    is_local: 1,
                    underlay_ipv6,
                    guest_mac: mac,
                    _pad: [0u8, 0],
                },
            ),
        );
        r.push(
            MapWrite::Underlay(
                underlay_ipv6,
                UnderlayValue { vni, tap_ifindex: tap, guest_mac: mac },
            ),
        );
        if total_mbps != 0 || public_mbps != 0 {
            r.push(MapWrite::Meter(tap, Self::meter_state(total_mbps, public_mbps)));
        }
        r
    }

    /// Record a local interface, and give the changes that program it. Refused, changing nothing,
    /// where an interface of that identifier or on that device is there already.
    pub fn create_interface(
        &mut self,
        interface_id: &[u8],
        tap: u32,
        mac: [u8; 6],
        vni: u32,
        ipv4: [u8; 4],
        gateway_ipv4: [u8; 4],
        underlay_ipv6: [u8; 16],
        total_mbps: u64,
        public_mbps: u64,
    ) -> (r: Result<Vec<MapWrite>, ControlError>)
        requires
            old(self).wf(),
        ensures
            final(self).wf(),
            if is_taken(old(self)@, interface_id@, tap) {
                r matches Err(e) && e == ControlError::InterfaceExists && final(self)@ == old(self)@
            } else {
                &&& r matches Ok(w)
                &&& w@ == interface_writes(
                    tap,
                    mac,
                    vni,
                    ipv4,
                    gateway_ipv4,
                    underlay_ipv6,
                    total_mbps,
                    public_mbps,
                )
                &&& final(self)@ == with_interface(
                    old(self)@,
                    interface_id@,
                    Iface { vni, ipv4, ifindex: tap, underlay: underlay_ipv6 },
                )
            },
    {
        let id = id_of(interface_id);
        if self.ifaces.contains(&id) || self.tap_in_use(tap) {
            return Err(ControlError::InterfaceExists);
        }
        let iface = Iface { vni, ipv4, ifindex: tap, underlay: underlay_ipv6 };
        self.ifaces.insert(id, iface);
        proof {
            lemma_with_interface(old(self)@, interface_id@, iface);
        }
        Ok(
            Self::program_interface(
                tap,
                mac,
                vni,
                ipv4,
                gateway_ipv4,
                underlay_ipv6,
                total_mbps,
                public_mbps,
            ),
        )
    }

    /// Forget an interface, its prefixes and its rules.
    fn forget_interface(&mut self, interface_id: &[u8], tap: u32)
        requires
            old(self).wf(),
            old(self)@.ifaces.contains_key(interface_id@),
            old(self)@.ifaces[interface_id@].ifindex == tap,
        ensures
            final(self).wf(),
            final(self)@ == without_interface(old(self)@, interface_id@),
    {
        let id = id_of(interface_id);
        proof {
            lemma_without_interface(self@, interface_id@);
            assert(prefix_views(self.prefixes@.remove(interface_id@)) =~= prefix_views(
                self.prefixes@,
            ).remove(interface_id@));
            assert(prefix_views(self.lb_prefixes@.remove(interface_id@)) =~= prefix_views(
                self.lb_prefixes@,
            ).remove(interface_id@));
            assert(rule_views(self.rules@.remove(tap)) =~= rule_views(self.rules@).remove(tap));
        }
        self.ifaces.remove(&id);
        self.prefixes.remove(&id);
        self.lb_prefixes.remove(&id);
        self.rules.remove(&tap);
    }

    /// Take back an interface whose device could not be attached, or whose changes could not all be
    /// made: forget its record, and give the changes that put what it overwrote back as it was in
    /// the tables before.
    pub fn undo_interface(&mut self, before: &Tables, interface_id: &[u8]) -> (r: Result<
        Vec<MapWrite>,
        ControlError,
    >)
        requires
            old(self).wf(),
        ensures
            final(self).wf(),
            match old(self)@.ifaces.get(interface_id@) {
                Some(iface) => {
                    &&& r matches Ok(w)
                    &&& w@ == restore_writes(before@, iface)
                    &&& final(self)@ == without_interface(old(self)@, interface_id@)
                },
                None => r matches Err(e) && e == ControlError::UnknownInterface && final(self)@
                    == old(self)@,
            },
    {
        let id = id_of(interface_id);
        let iface: Iface = match self.ifaces.get(&id) {
            Some(iface) => iface,
            None => {
                return Err(ControlError::UnknownInterface);
            },
        };
        self.forget_interface(interface_id, iface.ifindex);
        let tap: u32 = iface.ifindex;
        let key = IfaceKey::new(iface.vni, iface.ipv4);
        let mut w: Vec<MapWrite> = Vec::new();
        w.push(
            match before.ports.get(&tap) {
                Some(p) => MapWrite::Port(tap, p),
                None => MapWrite::PortRemove(tap),
            },
        );
        w.push(
            match before.interfaces.get(&key) {
                Some(v) => MapWrite::Iface(key, v),
                None => MapWrite::IfaceRemove(key),
            },
        );
        w.push(
            match before.underlay.get(&Addr6(iface.underlay)) {
                Some(v) => MapWrite::Underlay(iface.underlay, v),
                None => MapWrite::UnderlayRemove(iface.underlay),
            },
        );
        w.push(
            match before.meter.get(&tap) {
                Some(m) => MapWrite::Meter(tap, m),
                None => MapWrite::MeterRemove(tap),
            },
        );
        assert(w@ =~= restore_writes(before@, iface));
        Ok(w)
    }

    /// Delete an interface: forget it, and give the changes that remove it.
    pub fn delete_interface(&mut self, tables: &Tables, interface_id: &[u8]) -> (r: Result<
        Vec<MapWrite>,
        ControlError,
    >)
        requires
            old(self).wf(),
        ensures
            final(self).wf(),
            match old(self)@.ifaces.get(interface_id@) {
                Some(iface) => {
                    &&& r matches Ok(w)
                    &&& w@ == interface_removals(
                        tables@,
                        iface,
                        prefixes_of(old(self)@.prefixes, interface_id@),
                    )
                    &&& final(self)@ == without_interface(old(self)@, interface_id@)
                },
                None => r matches Err(e) && e == ControlError::UnknownInterface && final(self)@
                    == old(self)@,
            },
    {
        let iface: Iface = match self.interface(interface_id) {
            Some(iface) => iface,
            None => {
                return Err(ControlError::UnknownInterface);
            },
        };
        let tap: u32 = iface.ifindex;
        let prefixes = self.list_prefixes(interface_id);
        let mut w = clear_rules(tap);
        let mut i: usize = 0;
        let ghost rules = w@;
        while i < prefixes.len()
            invariant
                i <= prefixes.len(),
                w@ == rules + prefix_removals(iface.vni, prefixes@, i as nat),
            decreases prefixes.len() - i,
        {
            let (ipv4, prefix_len) = prefixes[i];
            w.push(MapWrite::RouteRemove(RouteKey { vni: iface.vni, prefix_len, ipv4 }));
            i = i + 1;
            assert(w@ =~= rules + prefix_removals(iface.vni, prefixes@, i as nat));
        }
        let mut address = remove_address(tables, &iface);
        w.append(&mut address);
        if let Some(u) = tables.underlay.get(&Addr6(iface.underlay)) {
            if u.tap_ifindex == tap {
                w.push(MapWrite::UnderlayRemove(iface.underlay));
            }
        }
        w.push(MapWrite::FwMetaRemove(tap));
        w.push(MapWrite::MeterRemove(tap));
        w.push(MapWrite::PortRemove(tap));
        assert(w@ =~= interface_removals(tables@, iface, prefixes@));
        self.forget_interface(interface_id, tap);
        Ok(w)
    }

    /// All interfaces, each once, in no particular order.
    pub fn list_interfaces(&self) -> (r: Vec<(Id, Iface)>)
        ensures
            table::keys_distinct(r@),
            table::entries_map(r@) == self@.ifaces,
    {
        self.ifaces.entries()
    }

    /// Enter a route.
    pub fn create_route(
        &self,
        vni: u32,
        ipv4: [u8; 4],
        prefix_len: u32,
        nexthop_ipv6: [u8; 16],
        is_external: bool,
    ) -> (r: Vec<MapWrite>)
        ensures
            r@ == seq![route_write(vni, ipv4, prefix_len, nexthop_ipv6, is_external)],
    {
        one(
            MapWrite::Route(
                RouteKey { vni, prefix_len, ipv4 },
                Route {
                    value: RouteValue {
                        nexthop_vni: vni,
                        nexthop_ipv6,
                        nexthop_mac: [0u8, 0, 0, 0, 0, 0],
                        _pad: [0u8, 0],
                    },
                    is_external,
                },
            ),
        )
    }
}

proof fn lemma_lbs_insert(m: Map<Seq<u8>, LbEntry>, k: Seq<u8>, e: LbEntry)
    ensures
        lb_views(m.insert(k, e)) == lb_views(m).insert(k, e@),
{
    assert(lb_views(m.insert(k, e)) =~= lb_views(m).insert(k, e@));
}

proof fn lemma_lbs_remove(m: Map<Seq<u8>, LbEntry>, k: Seq<u8>)
    ensures
        lb_views(m.remove(k)) == lb_views(m).remove(k),
{
    assert(lb_views(m.remove(k)) =~= lb_views(m).remove(k));
}

/// Program a Maglev table of underlay backends.
fn write_slots(table_id: u32, backends: &Vec<[u8; 16]>) -> (r: Vec<MapWrite>)
    requires
        backends.len() > 0,
    ensures
        r@ == slot_writes(table_id, backends@, TABLE_SIZE as nat),
{
    let table = build(backends);
    proof {
        maglev::law_every_slot_has_a_backend(maglev::hashes16(backends@));
    }
    let mut r: Vec<MapWrite> = Vec::new();
    let mut slot: u32 = 0;
    while slot < TABLE_SIZE
        invariant
            slot <= TABLE_SIZE,
            table@ == maglev::table_of(maglev::hashes16(backends@)),
            table.len() == TABLE_SIZE,
            forall|i: int| 0 <= i < TABLE_SIZE ==> #[trigger] table@[i] < backends.len(),
            r@ == slot_writes(table_id, backends@, slot as nat),
        decreases TABLE_SIZE - slot,
    {
        let bi: u32 = table[slot as usize];
        assert(bi < backends.len()) by {
            assert(table@[slot as int] < backends.len());
        }
        r.push(MapWrite::Maglev(MaglevKey { table_id, slot }, backends[bi as usize]));
        slot = slot + 1;
        assert(r@ =~= slot_writes(table_id, backends@, slot as nat));
    }
    r
}

/// Program a Maglev table of overlay backends.
fn write_overlay_slots(table_id: u32, backends: &Vec<[u8; 4]>) -> (r: Vec<MapWrite>)
    requires
        backends.len() > 0,
    ensures
        r@ == overlay_slot_writes(table_id, backends@, TABLE_SIZE as nat),
{
    let table = build_overlay(backends);
    proof {
        maglev::law_every_slot_has_a_backend(maglev::hashes4(backends@));
    }
    let mut r: Vec<MapWrite> = Vec::new();
    let mut slot: u32 = 0;
    while slot < TABLE_SIZE
        invariant
            slot <= TABLE_SIZE,
            table@ == maglev::table_of(maglev::hashes4(backends@)),
            table.len() == TABLE_SIZE,
            forall|i: int| 0 <= i < TABLE_SIZE ==> #[trigger] table@[i] < backends.len(),
            r@ == overlay_slot_writes(table_id, backends@, slot as nat),
        decreases TABLE_SIZE - slot,
    {
        let bi: u32 = table[slot as usize];
        assert(bi < backends.len()) by {
            assert(table@[slot as int] < backends.len());
        }
        r.push(MapWrite::MaglevOverlay(MaglevKey { table_id, slot }, backends[bi as usize]));
        slot = slot + 1;
        assert(r@ =~= overlay_slot_writes(table_id, backends@, slot as nat));
    }
    r
}

/// Clear a Maglev table of overlay backends.
fn clear_overlay_slots(table_id: u32) -> (r: Vec<MapWrite>)
    ensures
        r@ == overlay_slot_removals(table_id, TABLE_SIZE as nat),
{
    let mut r: Vec<MapWrite> = Vec::new();
    let mut slot: u32 = 0;
    while slot < TABLE_SIZE
        invariant
            slot <= TABLE_SIZE,
            r@ == overlay_slot_removals(table_id, slot as nat),
        decreases TABLE_SIZE - slot,
    {
        r.push(MapWrite::MaglevOverlayRemove(MaglevKey { table_id, slot }));
        slot = slot + 1;
        assert(r@ =~= overlay_slot_removals(table_id, slot as nat));
    }
    r
}

/// A copy of a list of overlay backends without one.
fn drop_backend(list: &Vec<[u8; 4]>, backend: &[u8; 4]) -> (r: Vec<[u8; 4]>)
    ensures
        r@ == without_backend(list@, *backend),
{
    let mut r: Vec<[u8; 4]> = Vec::new();
    let mut i: usize = 0;
    while i < list.len()
        invariant
            i <= list.len(),
            r@ == without_backend(list@.take(i as int), *backend),
        decreases list.len() - i,
    {
        if !eq4(&list[i], backend) {
            r.push(list[i]);
        }
        i = i + 1;
        assert(list@.take(i as int).drop_last() =~= list@.take(i - 1));
    }
    assert(list@.take(i as int) =~= list@);
    r
}

impl Control {
    /// The identifier that the next load balancer's Maglev table gets.
    pub fn next_table_id(&self) -> (r: u32)
        ensures
            r == self@.next_table_id,
    {
        self.next_table_id
    }

    /// Prepare a load balancer with a new Maglev table, and give the changes that program its
    /// services. It is registered once they are made and `confirm_lb` is called.
    pub fn create_lb(
        &mut self,
        id: &[u8],
        vni: u32,
        ip: [u8; 4],
        lb_underlay: [u8; 16],
        ports: Vec<(u16, u8)>,
    ) -> (r: Vec<MapWrite>)
        requires
            old(self).wf(),
            old(self)@.next_table_id < u32::MAX,
        ensures
            final(self).wf(),
            ({
                let lb = LbView {
                    vni,
                    ip,
                    lb_underlay,
                    ports: ports@,
                    table_id: old(self)@.next_table_id,
                    backends: Seq::empty(),
                    overlay_backends: Seq::empty(),
                };
                &&& r@ == lb_writes(lb)
                &&& final(self)@ == (ControlView {
                    pending: Some((id@, lb)),
                    next_table_id: (old(self)@.next_table_id + 1) as u32,
                    ..old(self)@
                })
            }),
    {
        let table_id: u32 = self.next_table_id;
        let e = LbEntry {
            vni,
            ip,
            lb_underlay,
            ports,
            table_id,
            backends: Vec::new(),
            overlay_backends: Vec::new(),
        };
        let mut r: Vec<MapWrite> = Vec::new();
        let mut i: usize = 0;
        while i < e.ports.len()
            invariant
                i <= e.ports.len(),
                e@.vni == vni,
                e@.ip == ip,
                e@.table_id == table_id,
                r@ == service_writes(e@, i as nat),
            decreases e.ports.len() - i,
        {
            let (port, proto) = e.ports[i];
            r.push(
                MapWrite::Lb(
                    LbKey { vni, ipv4: ip, port, proto },
                    LbValue { table_id, size: TABLE_SIZE },
                ),
            );
            i = i + 1;
            assert(r@ =~= service_writes(e@, i as nat));
        }
        r.push(
            MapWrite::Underlay(
                lb_underlay,
                UnderlayValue { vni, tap_ifindex: 0, guest_mac: [0u8, 0, 0, 0, 0, 0] },
            ),
        );
        assert(e@ =~= LbView {
            vni,
            ip,
            lb_underlay,
            ports: ports@,
            table_id,
            backends: Seq::empty(),
            overlay_backends: Seq::empty(),
        });
        self.next_table_id = table_id + 1;
        self.pending_id = copy_bytes(id);
        self.pending_lb = Some(e);
        r
    }

    /// Register the load balancer that was prepared last, if it is not registered yet.
    pub fn confirm_lb(&mut self)
        requires
            old(self).wf(),
        ensures
            final(self).wf(),
            final(self)@ == (match old(self)@.pending {
                Some((id, lb)) => ControlView {
                    lbs: old(self)@.lbs.insert(id, lb),
                    pending: None,
                    ..old(self)@
                },
                None => old(self)@,
            }),
    {
        let mut pending: Option<LbEntry> = None;
        std::mem::swap(&mut pending, &mut self.pending_lb);
        match pending {
            Some(e) => {
                let id = id_of(self.pending_id.as_slice());
                proof {
                    lemma_lbs_insert(self.lbs@, id@, e);
                }
                self.lbs.insert(id, e);
            },
            None => {},
        }
    }

    /// Append a backend to a load balancer, and give the changes that program its Maglev table
    /// anew.
    pub fn add_lb_target(&mut self, id: &[u8], backend: [u8; 16]) -> (r: Result<
        Vec<MapWrite>,
        ControlError,
    >)
        requires
            old(self).wf(),
        ensures
            final(self).wf(),
            match old(self)@.lbs.get(id@) {
                Some(lb) => {
                    let more = LbView { backends: lb.backends.push(backend), ..lb };
                    &&& r matches Ok(w)
                    &&& w@ == slot_writes(lb.table_id, more.backends, TABLE_SIZE as nat)
                    &&& final(self)@ == (ControlView {
                        lbs: old(self)@.lbs.insert(id@, more),
                        ..old(self)@
                    })
                },
                None => r matches Err(e) && e == ControlError::UnknownLoadBalancer && final(self)@
                    == old(self)@,
            },
    {
        let key = id_of(id);
        let ghost before = self.lbs@;
        match self.lbs.remove(&key) {
            Some(mut e) => {
                let ghost was = e;
                e.backends.push(backend);
                let w = write_slots(e.table_id, &e.backends);
                proof {
                    assert(before[id@] == was);
                    lemma_lbs_remove(before, id@);
                    lemma_lbs_insert(before.remove(id@), id@, e);
                    assert(lb_views(before).remove(id@).insert(id@, e@) =~= lb_views(before).insert(
                        id@,
                        e@,
                    ));
                    assert(e@ =~= LbView { backends: was@.backends.push(backend), ..was@ });
                }
                self.lbs.insert(key, e);
                Ok(w)
            },
            None => {
                assert(before.remove(id@) =~= before);
                Err(ControlError::UnknownLoadBalancer)
            },
        }
    }

    /// Append an overlay backend to a load balancer, and give the changes that program its overlay
    /// Maglev table anew.
    pub fn add_lb_overlay_target(&mut self, id: &[u8], backend: [u8; 4]) -> (r: Result<
        Vec<MapWrite>,
        ControlError,
    >)
        requires
            old(self).wf(),
        ensures
            final(self).wf(),
            match old(self)@.lbs.get(id@) {
                Some(lb) => {
                    let more = LbView { overlay_backends: lb.overlay_backends.push(backend), ..lb };
                    &&& r matches Ok(w)
                    &&& w@ == overlay_slot_writes(
                        lb.table_id,
                        more.overlay_backends,
                        TABLE_SIZE as nat,
                    )
                    &&& final(self)@ == (ControlView {
                        lbs: old(self)@.lbs.insert(id@, more),
                        ..old(self)@
                    })
                },
                None => r matches Err(e) && e == ControlError::UnknownLoadBalancer && final(self)@
                    == old(self)@,
            },
    {
        let key = id_of(id);
        let ghost before = self.lbs@;
        match self.lbs.remove(&key) {
            Some(mut e) => {
                let ghost was = e;
                e.overlay_backends.push(backend);
                let w = write_overlay_slots(e.table_id, &e.overlay_backends);
                proof {
                    assert(before[id@] == was);
                    lemma_lbs_remove(before, id@);
                    lemma_lbs_insert(before.remove(id@), id@, e);
                    assert(lb_views(before).remove(id@).insert(id@, e@) =~= lb_views(before).insert(
                        id@,
                        e@,
                    ));
                    assert(e@ =~= LbView {
                        overlay_backends: was@.overlay_backends.push(backend),
                        ..was@
                    });
                }
                self.lbs.insert(key, e);
                Ok(w)
            },
            None => {
                assert(before.remove(id@) =~= before);
                Err(ControlError::UnknownLoadBalancer)
            },
        }
    }

    /// Take an overlay backend away from a load balancer, and give the changes that program its
    /// overlay Maglev table anew.
    pub fn del_lb_overlay_target(&mut self, id: &[u8], backend: [u8; 4]) -> (r: Result<
        Vec<MapWrite>,
        ControlError,
    >)
        requires
            old(self).wf(),
        ensures
            final(self).wf(),
            match old(self)@.lbs.get(id@) {
                Some(lb) => {
                    let fewer = LbView {
                        overlay_backends: without_backend(lb.overlay_backends, backend),
                        ..lb
                    };
                    &&& r matches Ok(w)
                    &&& w@ == overlay_writes(lb.table_id, fewer.overlay_backends)
                    &&& final(self)@ == (ControlView {
                        lbs: old(self)@.lbs.insert(id@, fewer),
                        ..old(self)@
                    })
                },
                None => r matches Err(e) && e == ControlError::UnknownLoadBalancer && final(self)@
                    == old(self)@,
            },
    {
        let key = id_of(id);
        let ghost before = self.lbs@;
        match self.lbs.remove(&key) {
            Some(mut e) => {
                let ghost was = e;
                e.overlay_backends = drop_backend(&e.overlay_backends, &backend);
                let w = if e.overlay_backends.len() == 0 {
                    clear_overlay_slots(e.table_id)
                } else {
                    write_overlay_slots(e.table_id, &e.overlay_backends)
                };
                proof {
                    assert(before[id@] == was);
                    lemma_lbs_remove(before, id@);
                    lemma_lbs_insert(before.remove(id@), id@, e);
                    assert(lb_views(before).remove(id@).insert(id@, e@) =~= lb_views(before).insert(
                        id@,
                        e@,
                    ));
                    assert(e@ =~= LbView {
                        overlay_backends: without_backend(was@.overlay_backends, backend),
                        ..was@
                    });
                }
                self.lbs.insert(key, e);
                Ok(w)
            },
            None => {
                assert(before.remove(id@) =~= before);
                Err(ControlError::UnknownLoadBalancer)
            },
        }
    }

    /// A registered load balancer.
    pub fn get_lb(&self, id: &[u8]) -> (r: Option<LbEntry>)
        ensures
            match r {
                Some(e) => self@.lbs.get(id@) == Some(e@),
                None => !self@.lbs.contains_key(id@),
            },
    {
        match self.lbs.get_ref(&id_of(id)) {
            Some(e) => {
                let c = LbEntry {
                    vni: e.vni,
                    ip: e.ip,
                    lb_underlay: e.lb_underlay,
                    ports: copy_list(&e.ports),
                    table_id: e.table_id,
                    backends: copy_list(&e.backends),
                    overlay_backends: copy_list(&e.overlay_backends),
                };
                assert(c@ =~= e@);
                Some(c)
            },
            None => None,
        }
    }

    /// The identifiers of all registered load balancers, each once, in no particular order.
    pub fn list_lbs(&self) -> (r: Vec<Id>)
        ensures
            table::lists_keys(r@, self@.lbs),
    {
        let r = self.lbs.keys();
        assert forall|k: Seq<u8>| #[trigger] self@.lbs.contains_key(k) implies exists|i: int|
            0 <= i < r.len() && (#[trigger] r@[i])@ == k by {
            assert(self.lbs@.contains_key(k));
        }
        r
    }

    /// Whether an interface or a load balancer is in a VNI.
    pub fn vni_in_use(&self, vni: u32) -> (r: bool)
        ensures
            r == is_vni_in_use(self@, vni),
    {
        let all = self.ifaces.entries();
        let mut i: usize = 0;
        while i < all.len()
            invariant
                i <= all.len(),
                table::keys_distinct(all@),
                table::entries_map(all@) == self@.ifaces,
                forall|j: int| 0 <= j < i ==> (#[trigger] all@[j]).1.vni != vni,
            decreases all.len() - i,
        {
            if all[i].1.vni == vni {
                proof {
                    table::lemma_entry(all@, i as int);
                    assert(self@.ifaces[all@[i as int].0@].vni == vni);
                }
                return true;
            }
            i = i + 1;
        }
        assert forall|id: Seq<u8>| self@.ifaces.contains_key(id) implies (
        #[trigger] self@.ifaces[id]).vni != vni by {
            let p = table::position(all@, id);
            assert(table::has_key(all@, id));
            assert(all@[p].1.vni != vni);
        }
        let ids = self.lbs.keys();
        let mut k: usize = 0;
        while k < ids.len()
            invariant
                k <= ids.len(),
                table::lists_keys(ids@, self.lbs@),
                forall|j: int|
                    0 <= j < k ==> self@.lbs.contains_key((#[trigger] ids@[j])@)
                        && self@.lbs[ids@[j]@].vni != vni,
            decreases ids.len() - k,
        {
            assert(self.lbs@.contains_key(ids@[k as int]@));
            if let Some(e) = self.lbs.get_ref(&ids[k]) {
                if e.vni == vni {
                    assert(self@.lbs[ids@[k as int]@].vni == vni);
                    return true;
                }
            }
            k = k + 1;
        }
        assert forall|id: Seq<u8>| self@.lbs.contains_key(id) implies (#[trigger] self@.lbs[id]).vni
            != vni by {
            assert(self.lbs@.contains_key(id));
            let j = choose|j: int| 0 <= j < ids.len() && (#[trigger] ids@[j])@ == id;
            assert(self@.lbs[ids@[j]@].vni != vni);
        }
        false
    }

    /// Forget a load balancer, and give the changes that clear its services and Maglev slots. An
    /// unknown one needs none.
    pub fn delete_lb(&mut self, id: &[u8]) -> (r: Vec<MapWrite>)
        requires
            old(self).wf(),
        ensures
            final(self).wf(),
            final(self)@ == (ControlView { lbs: old(self)@.lbs.remove(id@), ..old(self)@ }),
            r@ == (match old(self)@.lbs.get(id@) {
                Some(lb) => lb_removals(lb),
                None => Seq::empty(),
            }),
    {
        let key = id_of(id);
        let mut r: Vec<MapWrite> = Vec::new();
        proof {
            lemma_lbs_remove(self.lbs@, id@);
        }
        let e = match self.lbs.remove(&key) {
            Some(e) => e,
            None => {
                return r;
            },
        };
        let mut i: usize = 0;
        while i < e.ports.len()
            invariant
                i <= e.ports.len(),
                r@ == service_removals(e@, i as nat),
            decreases e.ports.len() - i,
        {
            let (port, proto) = e.ports[i];
            r.push(MapWrite::LbRemove(LbKey { vni: e.vni, ipv4: e.ip, port, proto }));
            i = i + 1;
            assert(r@ =~= service_removals(e@, i as nat));
        }
        let ghost services = r@;
        let mut slot: u32 = 0;
        while slot < TABLE_SIZE
            invariant
                slot <= TABLE_SIZE,
                r@ == services + slot_removals(e.table_id, slot as nat),
            decreases TABLE_SIZE - slot,
        {
            r.push(MapWrite::MaglevRemove(MaglevKey { table_id: e.table_id, slot }));
            slot = slot + 1;
            assert(r@ =~= services + slot_removals(e.table_id, slot as nat));
        }
        let mut overlay = clear_overlay_slots(e.table_id);
        r.append(&mut overlay);
        r
    }

    /// Map a guest's address and a VIP to each other.
    pub fn create_vip(&self, interface_id: &[u8], vip: [u8; 4]) -> (r: Result<
        Vec<MapWrite>,
        ControlError,
    >)
        ensures
            match self@.ifaces.get(interface_id@) {
                Some(iface) => r matches Ok(w) && w@ == vip_writes(iface.vni, iface.ipv4, vip),
                None => r matches Err(e) && e == ControlError::UnknownInterface,
            },
    {
        match self.interface(interface_id) {
            Some(iface) => {
                let mut w: Vec<MapWrite> = Vec::new();
                w.push(MapWrite::Vip(VipKey { vni: iface.vni, ipv4: iface.ipv4 }, vip));
                w.push(MapWrite::Vip(VipKey { vni: iface.vni, ipv4: vip }, iface.ipv4));
                assert(w@ =~= vip_writes(iface.vni, iface.ipv4, vip));
                Ok(w)
            },
            None => Err(ControlError::UnknownInterface),
        }
    }

    /// Remove both directions of a guest's VIP.
    pub fn delete_vip(&self, tables: &Tables, interface_id: &[u8]) -> (r: Result<
        Vec<MapWrite>,
        ControlError,
    >)
        ensures
            match self@.ifaces.get(interface_id@) {
                Some(iface) => r matches Ok(w) && w@ == vip_removals(
                    tables@,
                    iface.vni,
                    iface.ipv4,
                ),
                None => r matches Err(e) && e == ControlError::UnknownInterface,
            },
    {
        match self.interface(interface_id) {
            Some(iface) => Ok(remove_vip(tables, iface.vni, iface.ipv4)),
            None => Err(ControlError::UnknownInterface),
        }
    }

    /// The VIP of an interface, if one has been set.
    pub fn get_vip(&self, tables: &Tables, interface_id: &[u8]) -> (r: Option<[u8; 4]>)
        ensures
            r == (match self@.ifaces.get(interface_id@) {
                Some(iface) => tables@.vips.get(VipKey { vni: iface.vni, ipv4: iface.ipv4 }),
                None => None,
            }),
    {
        match self.interface(interface_id) {
            Some(iface) => tables.vips.get(&VipKey { vni: iface.vni, ipv4: iface.ipv4 }),
            None => None,
        }
    }

    /// Set a guest's NAT configuration.
    pub fn create_nat(
        &self,
        interface_id: &[u8],
        nat_ip: [u8; 4],
        port_min: u16,
        port_max: u16,
    ) -> (r: Result<Vec<MapWrite>, ControlError>)
        ensures
            match self@.ifaces.get(interface_id@) {
                Some(iface) => r matches Ok(w) && w@ == seq![
                    MapWrite::Nat(
                        NatKey { vni: iface.vni, ipv4: iface.ipv4 },
                        NatValue { nat_ipv4: nat_ip, port_min, port_max },
                    ),
                ],
                None => r matches Err(e) && e == ControlError::UnknownInterface,
            },
    {
        match self.interface(interface_id) {
            Some(iface) => Ok(
                one(
                    MapWrite::Nat(
                        NatKey { vni: iface.vni, ipv4: iface.ipv4 },
                        NatValue { nat_ipv4: nat_ip, port_min, port_max },
                    ),
                ),
            ),
            None => Err(ControlError::UnknownInterface),
        }
    }

    /// A guest's NAT configuration (address, first port, port after the last), if set.
    pub fn get_nat(&self, tables: &Tables, interface_id: &[u8]) -> (r: Option<
        ([u8; 4], u16, u16),
    >)
        ensures
            r == (match self@.ifaces.get(interface_id@) {
                Some(iface) => match tables@.nat.get(
                    NatKey { vni: iface.vni, ipv4: iface.ipv4 },
                ) {
                    Some(v) => Some((v.nat_ipv4, v.port_min, v.port_max)),
                    None => None,
                },
                None => None,
            }),
    {
        match self.interface(interface_id) {
            Some(iface) => match tables.nat.get(&NatKey { vni: iface.vni, ipv4: iface.ipv4 }) {
                Some(v) => Some((v.nat_ipv4, v.port_min, v.port_max)),
                None => None,
            },
            None => None,
        }
    }

    /// Remove a guest's NAT configuration.
    pub fn delete_nat(&self, interface_id: &[u8]) -> (r: Result<Vec<MapWrite>, ControlError>)
        ensures
            match self@.ifaces.get(interface_id@) {
                Some(iface) => r matches Ok(w) && w@ == seq![
                    MapWrite::NatRemove(NatKey { vni: iface.vni, ipv4: iface.ipv4 }),
                ],
                None => r matches Err(e) && e == ControlError::UnknownInterface,
            },
    {
        match self.interface(interface_id) {
            Some(iface) => Ok(
                one(MapWrite::NatRemove(NatKey { vni: iface.vni, ipv4: iface.ipv4 })),
            ),
            None => Err(ControlError::UnknownInterface),
        }
    }
}

/// The position of the first rule with identifier `id`, from `i` on.
pub open spec fn rule_at(list: Seq<(Seq<u8>, FwRule)>, id: Seq<u8>, i: nat) -> Option<int>
    decreases list.len() - i,
{
    if i >= list.len() {
        None
    } else if list[i as int].0 == id {
        Some(i as int)
    } else {
        rule_at(list, id, i + 1)
    }
}

/// A list of rules with one more: it takes the place of one with the same identifier, or comes
/// last.
pub open spec fn with_rule(list: Seq<(Seq<u8>, FwRule)>, id: Seq<u8>, rule: FwRule) -> Seq<
    (Seq<u8>, FwRule),
> {
    match rule_at(list, id, 0) {
        Some(i) => list.update(i, (id, rule)),
        None => list.push((id, rule)),
    }
}

/// A list of rules without those with identifier `id`.
pub open spec fn without_rule(list: Seq<(Seq<u8>, FwRule)>, id: Seq<u8>) -> Seq<(Seq<u8>, FwRule)>
    decreases list.len(),
{
    if list.len() == 0 {
        list
    } else {
        let rest = without_rule(list.drop_last(), id);
        if list.last().0 == id {
            rest
        } else {
            rest.push(list.last())
        }
    }
}

/// The rules of a tap.
pub open spec fn rules_of(v: ControlView, ifindex: u32) -> Seq<(Seq<u8>, FwRule)> {
    if v.rules.contains_key(ifindex) {
        v.rules[ifindex]
    } else {
        Seq::empty()
    }
}

/// How many rules of a list are egress rules.
pub open spec fn egress_rules(list: Seq<(Seq<u8>, FwRule)>) -> nat
    decreases list.len(),
{
    if list.len() == 0 {
        0
    } else {
        egress_rules(list.drop_last()) + if list.last().1.direction == FW_DIR_EGRESS {
            1nat
        } else {
            0
        }
    }
}

/// The changes that clear the first `n` rule slots of a tap.
pub open spec fn rule_removals(ifindex: u32, n: nat) -> Seq<MapWrite> {
    Seq::new(n, |i: int| MapWrite::FwRuleRemove(FwRuleKey { ifindex, idx: i as u32 }))
}

/// The changes that program the first `n` rules of a list.
pub open spec fn rule_writes(ifindex: u32, list: Seq<(Seq<u8>, FwRule)>, n: nat) -> Seq<MapWrite> {
    Seq::new(n, |i: int| MapWrite::FwRule(FwRuleKey { ifindex, idx: i as u32 }, list[i].1))
}

/// The counts of a list of rules: those that are not egress rules count as ingress rules.
pub open spec fn counts(list: Seq<(Seq<u8>, FwRule)>) -> FwMeta {
    FwMeta {
        ingress_count: (list.len() - egress_rules(list)) as u32,
        egress_count: egress_rules(list) as u32,
    }
}

/// The changes that program the rules of a tap: all slots are cleared, then the rules are written
/// in order, then their counts.
pub open spec fn firewall_writes(ifindex: u32, list: Seq<(Seq<u8>, FwRule)>) -> Seq<MapWrite> {
    (rule_removals(ifindex, FW_MAX_RULES as nat) + rule_writes(ifindex, list, list.len())).push(
        MapWrite::FwMeta(ifindex, counts(list)),
    )
}

proof fn lemma_rules_insert(m: Map<u32, Vec<RuleEntry>>, k: u32, v: Vec<RuleEntry>)
    ensures
        rule_views(m.insert(k, v)) == rule_views(m).insert(k, rule_list(v@)),
{
    assert(rule_views(m.insert(k, v)) =~= rule_views(m).insert(k, rule_list(v@)));
}

proof fn lemma_prefixes_insert(
    m: Map<Seq<u8>, Vec<([u8; 4], u32)>>,
    k: Seq<u8>,
    v: Vec<([u8; 4], u32)>,
)
    ensures
        prefix_views(m.insert(k, v)) == prefix_views(m).insert(k, v@),
{
    assert(prefix_views(m.insert(k, v)) =~= prefix_views(m).insert(k, v@));
}

proof fn lemma_rules_fit(c: ControlView, id: Seq<u8>, list: Seq<(Seq<u8>, FwRule)>)
    requires
        c.wf(),
        c.ifaces.contains_key(id),
        list.len() <= FW_MAX_RULES,
    ensures
        (ControlView { rules: c.rules.insert(c.ifaces[id].ifindex, list), ..c }).wf(),
{
    let tap = c.ifaces[id].ifindex;
    let d = ControlView { rules: c.rules.insert(tap, list), ..c };
    assert(has_tap(c.ifaces, tap));
    assert forall|i: u32| d.rules.contains_key(i) implies (#[trigger] d.rules[i]).len()
        <= FW_MAX_RULES && has_tap(d.ifaces, i) by {
        if i != tap {
            assert(c.rules[i].len() <= FW_MAX_RULES);
        }
    }
}

proof fn lemma_without_rule_len(list: Seq<(Seq<u8>, FwRule)>, id: Seq<u8>)
    ensures
        without_rule(list, id).len() <= list.len(),
    decreases list.len(),
{
    if list.len() > 0 {
        lemma_without_rule_len(list.drop_last(), id);
    }
}

/// Clear all rule slots of a tap.
fn clear_rules(ifindex: u32) -> (r: Vec<MapWrite>)
    ensures
        r@ == rule_removals(ifindex, FW_MAX_RULES as nat),
{
    let mut r: Vec<MapWrite> = Vec::new();
    let mut idx: u32 = 0;
    while idx < FW_MAX_RULES
        invariant
            idx <= FW_MAX_RULES,
            r@ == rule_removals(ifindex, idx as nat),
        decreases FW_MAX_RULES - idx,
    {
        r.push(MapWrite::FwRuleRemove(FwRuleKey { ifindex, idx }));
        idx = idx + 1;
        assert(r@ =~= rule_removals(ifindex, idx as nat));
    }
    r
}

/// Remove both directions of a guest's VIP.
fn remove_vip(tables: &Tables, vni: u32, guest: [u8; 4]) -> (w: Vec<MapWrite>)
    ensures
        w@ == vip_removals(tables@, vni, guest),
{
    let key = VipKey { vni, ipv4: guest };
    let mut w: Vec<MapWrite> = Vec::new();
    if let Some(vip) = tables.vips.get(&key) {
        w.push(MapWrite::VipRemove(VipKey { vni, ipv4: vip }));
    }
    w.push(MapWrite::VipRemove(key));
    assert(w@ =~= vip_removals(tables@, vni, guest));
    w
}

/// Remove what is known of an interface's address, as far as it is still its own.
fn remove_address(tables: &Tables, iface: &Iface) -> (w: Vec<MapWrite>)
    ensures
        w@ == address_removals(tables@, *iface),
{
    let key = IfaceKey::new(iface.vni, iface.ipv4);
    if let Some(v) = tables.interfaces.get(&key) {
        if v.tap_ifindex == iface.ifindex {
            let mut w = remove_vip(tables, iface.vni, iface.ipv4);
            w.push(MapWrite::NatRemove(NatKey { vni: iface.vni, ipv4: iface.ipv4 }));
            w.push(MapWrite::IfaceRemove(key));
            return w;
        }
    }
    Vec::new()
}

/// Reprogram all rule slots of a tap.
fn fw_reprogram(ifindex: u32, list: &Vec<RuleEntry>) -> (r: Vec<MapWrite>)
    requires
        list.len() <= FW_MAX_RULES,
    ensures
        r@ == firewall_writes(ifindex, rule_list(list@)),
{
    let mut r = clear_rules(ifindex);
    let ghost cleared = r@;
    let ghost rules = rule_list(list@);
    let mut ingress: u32 = 0;
    let mut egress: u32 = 0;
    let mut i: usize = 0;
    while i < list.len()
        invariant
            i <= list.len(),
            list.len() <= FW_MAX_RULES,
            rules == rule_list(list@),
            egress == egress_rules(rules.take(i as int)),
            ingress + egress == i,
            r@ == cleared + rule_writes(ifindex, rules, i as nat),
        decreases list.len() - i,
    {
        let rule: FwRule = list[i].rule;
        r.push(MapWrite::FwRule(FwRuleKey { ifindex, idx: i as u32 }, rule));
        if rule.direction == FW_DIR_EGRESS {
            egress = egress + 1;
        } else {
            ingress = ingress + 1;
        }
        i = i + 1;
        assert(rules.take(i as int).drop_last() =~= rules.take(i - 1));
        assert(r@ =~= cleared + rule_writes(ifindex, rules, i as nat));
    }
    assert(rules.take(i as int) =~= rules);
    r.push(
        MapWrite::FwMeta(ifindex, FwMeta { ingress_count: ingress, egress_count: egress }),
    );
    r
}

/// The position of a rule.
fn find_rule(list: &Vec<RuleEntry>, id: &[u8]) -> (r: Option<usize>)
    ensures
        match r {
            Some(i) => i < list.len() && rule_at(rule_list(list@), id@, 0) == Some(i as int),
            None => rule_at(rule_list(list@), id@, 0) is None,
        },
{
    let mut i: usize = 0;
    while i < list.len()
        invariant
            i <= list.len(),
            rule_at(rule_list(list@), id@, 0) == rule_at(rule_list(list@), id@, i as nat),
        decreases list.len() - i,
    {
        if eq_bytes(list[i].id.as_slice(), id) {
            return Some(i);
        }
        i = i + 1;
    }
    None
}

/// A copy of a list of rules without those with identifier `id`.
fn drop_rule(list: &Vec<RuleEntry>, id: &[u8]) -> (r: Vec<RuleEntry>)
    ensures
        rule_list(r@) == without_rule(rule_list(list@), id@),
{
    let ghost rules = rule_list(list@);
    let mut r: Vec<RuleEntry> = Vec::new();
    let mut i: usize = 0;
    assert(rule_list(r@) =~= without_rule(rules.take(0), id@));
    while i < list.len()
        invariant
            i <= list.len(),
            rules == rule_list(list@),
            rule_list(r@) == without_rule(rules.take(i as int), id@),
        decreases list.len() - i,
    {
        let ghost before = r@;
        if !eq_bytes(list[i].id.as_slice(), id) {
            r.push(RuleEntry { id: copy_bytes(list[i].id.as_slice()), rule: list[i].rule });
            assert(rule_list(r@) =~= rule_list(before).push(rules[i as int]));
        }
        i = i + 1;
        assert(rules.take(i as int).drop_last() =~= rules.take(i - 1));
    }
    assert(rules.take(i as int) =~= rules);
    r
}

impl Control {
    /// Add or replace a firewall rule of an interface. A full list takes no rule but a replacement.
    pub fn add_fw_rule(&mut self, interface_id: &[u8], rule_id: Vec<u8>, rule: FwRule) -> (r: Result<
        Vec<MapWrite>,
        ControlError,
    >)
        requires
            old(self).wf(),
        ensures
            final(self).wf(),
            match old(self)@.ifaces.get(interface_id@) {
                None => r matches Err(e) && e == ControlError::UnknownInterface && final(self)@
                    == old(self)@,
                Some(iface) => {
                    let list = rules_of(old(self)@, iface.ifindex);
                    if list.len() >= FW_MAX_RULES && rule_at(list, rule_id@, 0) is None {
                        r matches Err(e) && e == ControlError::TooManyRules && final(self)@
                            == old(self)@
                    } else {
                        let more = with_rule(list, rule_id@, rule);
                        &&& r matches Ok(w)
                        &&& w@ == firewall_writes(iface.ifindex, more)
                        &&& final(self)@ == (ControlView {
                            rules: old(self)@.rules.insert(iface.ifindex, more),
                            ..old(self)@
                        })
                    }
                },
            },
    {
        let ifindex: u32 = match self.interface(interface_id) {
            Some(iface) => iface.ifindex,
            None => {
                return Err(ControlError::UnknownInterface);
            },
        };
        let full: bool = match self.rules.get_ref(&ifindex) {
            Some(list) => list.len() >= (FW_MAX_RULES as usize) && find_rule(
                list,
                rule_id.as_slice(),
            ).is_none(),
            None => false,
        };
        if full {
            return Err(ControlError::TooManyRules);
        }
        let ghost before = self.rules@;
        let mut list: Vec<RuleEntry> = match self.rules.remove(&ifindex) {
            Some(list) => list,
            None => Vec::new(),
        };
        let ghost was = rule_list(list@);
        assert(was =~= rules_of(old(self)@, ifindex));
        match find_rule(&list, rule_id.as_slice()) {
            Some(i) => {
                let ghost was_raw = list@;
                let ghost id = rule_id@;
                list.set(i, RuleEntry { id: rule_id, rule });
                assert(rule_list(list@) =~= was.update(i as int, (id, rule)));
            },
            None => {
                let ghost id = rule_id@;
                list.push(RuleEntry { id: rule_id, rule });
                assert(rule_list(list@) =~= was.push((id, rule)));
            },
        }
        let w = fw_reprogram(ifindex, &list);
        proof {
            lemma_rules_insert(before.remove(ifindex), ifindex, list);
            assert(rule_views(before.remove(ifindex)).insert(ifindex, rule_list(list@))
                =~= rule_views(before).insert(ifindex, rule_list(list@)));
            lemma_rules_fit(old(self)@, interface_id@, rule_list(list@));
        }
        self.rules.insert(ifindex, list);
        Ok(w)
    }

    /// Remove a firewall rule of an interface.
    pub fn del_fw_rule(&mut self, interface_id: &[u8], rule_id: &[u8]) -> (r: Result<
        Vec<MapWrite>,
        ControlError,
    >)
        requires
            old(self).wf(),
        ensures
            final(self).wf(),
            match old(self)@.ifaces.get(interface_id@) {
                None => r matches Err(e) && e == ControlError::UnknownInterface && final(self)@
                    == old(self)@,
                Some(iface) => {
                    let fewer = without_rule(rules_of(old(self)@, iface.ifindex), rule_id@);
                    &&& r matches Ok(w)
                    &&& w@ == firewall_writes(iface.ifindex, fewer)
                    &&& final(self)@ == (ControlView {
                        rules: if old(self)@.rules.contains_key(iface.ifindex) {
                            old(self)@.rules.insert(iface.ifindex, fewer)
                        } else {
                            old(self)@.rules
                        },
                        ..old(self)@
                    })
                },
            },
    {
        let ifindex: u32 = match self.interface(interface_id) {
            Some(iface) => iface.ifindex,
            None => {
                return Err(ControlError::UnknownInterface);
            },
        };
        let ghost before = self.rules@;
        let kept: Option<Vec<RuleEntry>> = match self.rules.get_ref(&ifindex) {
            Some(list) => Some(drop_rule(list, rule_id)),
            None => None,
        };
        proof {
            lemma_without_rule_len(rules_of(old(self)@, ifindex), rule_id@);
        }
        match kept {
            Some(list) => {
                let w = fw_reprogram(ifindex, &list);
                proof {
                    lemma_rules_insert(before, ifindex, list);
                    lemma_rules_fit(old(self)@, interface_id@, rule_list(list@));
                }
                self.rules.insert(ifindex, list);
                Ok(w)
            },
            None => {
                let list: Vec<RuleEntry> = Vec::new();
                let w = fw_reprogram(ifindex, &list);
                assert(rule_list(list@) =~= without_rule(rules_of(old(self)@, ifindex), rule_id@));
                Ok(w)
            },
        }
    }

    /// A firewall rule of an interface by its identifier.
    pub fn get_fw_rule(&self, interface_id: &[u8], rule_id: &[u8]) -> (r: Option<FwRule>)
        ensures
            r == (match self@.ifaces.get(interface_id@) {
                Some(iface) => {
                    let list = rules_of(self@, iface.ifindex);
                    match rule_at(list, rule_id@, 0) {
                        Some(i) => Some(list[i].1),
                        None => None,
                    }
                },
                None => None,
            }),
    {
        let ifindex: u32 = match self.interface(interface_id) {
            Some(iface) => iface.ifindex,
            None => {
                return None;
            },
        };
        match self.rules.get_ref(&ifindex) {
            Some(list) => match find_rule(list, rule_id) {
                Some(i) => Some(list[i].rule),
                None => None,
            },
            None => None,
        }
    }

    /// All firewall rules of an interface, in order.
    pub fn list_fw_rules(&self, interface_id: &[u8]) -> (r: Vec<RuleEntry>)
        ensures
            rule_list(r@) == (match self@.ifaces.get(interface_id@) {
                Some(iface) => rules_of(self@, iface.ifindex),
                None => Seq::empty(),
            }),
    {
        let mut r: Vec<RuleEntry> = Vec::new();
        assert(rule_list(r@) =~= Seq::empty());
        let ifindex: u32 = match self.interface(interface_id) {
            Some(iface) => iface.ifindex,
            None => {
                return r;
            },
        };
        if let Some(list) = self.rules.get_ref(&ifindex) {
            let ghost rules = rule_list(list@);
            let mut i: usize = 0;
            while i < list.len()
                invariant
                    i <= list.len(),
                    rules == rule_list(list@),
                    rule_list(r@) == rules.take(i as int),
                decreases list.len() - i,
            {
                let ghost before = r@;
                r.push(RuleEntry { id: copy_bytes(list[i].id.as_slice()), rule: list[i].rule });
                assert(rule_list(r@) =~= rule_list(before).push(rules[i as int]));
                i = i + 1;
                assert(rules.take(i as int) =~= rules.take(i - 1).push(rules[i - 1]));
            }
            assert(rules.take(i as int) =~= rules);
        }
        r
    }
}

/// A list of prefixes without one.
pub open spec fn without_prefix(list: Seq<([u8; 4], u32)>, prefix: [u8; 4], len: u32) -> Seq<
    ([u8; 4], u32),
>
    decreases list.len(),
{
    if list.len() == 0 {
        list
    } else {
        let rest = without_prefix(list.drop_last(), prefix, len);
        if list.last() == (prefix, len) {
            rest
        } else {
            rest.push(list.last())
        }
    }
}

/// The prefixes of an interface.
pub open spec fn prefixes_of(m: Map<Seq<u8>, Seq<([u8; 4], u32)>>, id: Seq<u8>) -> Seq<
    ([u8; 4], u32),
> {
    if m.contains_key(id) {
        m[id]
    } else {
        Seq::empty()
    }
}

fn drop_prefix(list: &Vec<([u8; 4], u32)>, prefix: [u8; 4], len: u32) -> (r: Vec<([u8; 4], u32)>)
    ensures
        r@ == without_prefix(list@, prefix, len),
{
    let mut r: Vec<([u8; 4], u32)> = Vec::new();
    let mut i: usize = 0;
    while i < list.len()
        invariant
            i <= list.len(),
            r@ == without_prefix(list@.take(i as int), prefix, len),
        decreases list.len() - i,
    {
        let (p, l) = list[i];
        if !(eq4(&p, &prefix) && l == len) {
            r.push((p, l));
        }
        i = i + 1;
        assert(list@.take(i as int).drop_last() =~= list@.take(i - 1));
    }
    assert(list@.take(i as int) =~= list@);
    r
}

/// The state with one more load-balancer prefix of an interface that is there.
pub open spec fn with_lb_prefix(c: ControlView, id: Seq<u8>, prefix: [u8; 4], len: u32) -> ControlView {
    if c.ifaces.contains_key(id) {
        ControlView {
            lb_prefixes: c.lb_prefixes.insert(
                id,
                prefixes_of(c.lb_prefixes, id).push((prefix, len)),
            ),
            ..c
        }
    } else {
        c
    }
}

/// Append a prefix to an interface's list.
fn append_prefix(
    table: &mut Table<Id, Vec<([u8; 4], u32)>>,
    interface_id: &[u8],
    prefix: [u8; 4],
    prefix_len: u32,
)
    ensures
        prefix_views(final(table)@) == prefix_views(old(table)@).insert(
            interface_id@,
            prefixes_of(prefix_views(old(table)@), interface_id@).push((prefix, prefix_len)),
        ),
{
    let key = id_of(interface_id);
    let ghost before = table@;
    let mut list: Vec<([u8; 4], u32)> = match table.remove(&key) {
        Some(list) => list,
        None => Vec::new(),
    };
    assert(list@ =~= prefixes_of(prefix_views(before), interface_id@));
    list.push((prefix, prefix_len));
    proof {
        lemma_prefixes_insert(before.remove(interface_id@), interface_id@, list);
        assert(prefix_views(before.remove(interface_id@)).insert(interface_id@, list@)
            =~= prefix_views(before).insert(interface_id@, list@));
    }
    table.insert(key, list);
}

/// A prefix that was recorded is listed last, and once it is forgotten the list is what it was, but
/// for the same prefix.
pub proof fn law_prefix_is_listed_and_forgotten(
    m: Map<Seq<u8>, Seq<([u8; 4], u32)>>,
    id: Seq<u8>,
    prefix: [u8; 4],
    len: u32,
)
    ensures
        ({
            let was = prefixes_of(m, id);
            let more = m.insert(id, was.push((prefix, len)));
            let fewer = forgetting_prefix(more, id, prefix, len);
            &&& prefixes_of(more, id).last() == (prefix, len)
            &&& prefixes_of(fewer, id) == without_prefix(was, prefix, len)
            &&& !prefixes_of(fewer, id).contains((prefix, len))
        }),
{
    let was = prefixes_of(m, id);
    assert(was.push((prefix, len)).drop_last() =~= was);
    lemma_without_prefix(was, prefix, len);
}

proof fn lemma_without_prefix(list: Seq<([u8; 4], u32)>, prefix: [u8; 4], len: u32)
    ensures
        !without_prefix(list, prefix, len).contains((prefix, len)),
    decreases list.len(),
{
    if list.len() > 0 {
        let rest = without_prefix(list.drop_last(), prefix, len);
        lemma_without_prefix(list.drop_last(), prefix, len);
        if list.last() != (prefix, len) {
            let r = rest.push(list.last());
            assert forall|i: int| 0 <= i < r.len() implies r[i] != (prefix, len) by {
                if i < rest.len() {
                    assert(rest.contains(rest[i]));
                }
            }
        }
    }
}

/// The lists of prefixes without one prefix of an interface.
pub open spec fn forgetting_prefix(
    m: Map<Seq<u8>, Seq<([u8; 4], u32)>>,
    id: Seq<u8>,
    prefix: [u8; 4],
    len: u32,
) -> Map<Seq<u8>, Seq<([u8; 4], u32)>> {
    if m.contains_key(id) {
        m.insert(id, without_prefix(m[id], prefix, len))
    } else {
        m
    }
}

/// Drop a prefix from an interface's list.
fn forget_prefix(
    table: &mut Table<Id, Vec<([u8; 4], u32)>>,
    interface_id: &[u8],
    prefix: [u8; 4],
    prefix_len: u32,
)
    ensures
        prefix_views(final(table)@) == forgetting_prefix(
            prefix_views(old(table)@),
            interface_id@,
            prefix,
            prefix_len,
        ),
{
    let key = id_of(interface_id);
    let ghost before = table@;
    let kept: Option<Vec<([u8; 4], u32)>> = match table.get_ref(&key) {
        Some(list) => Some(drop_prefix(list, prefix, prefix_len)),
        None => None,
    };
    if let Some(list) = kept {
        proof {
            lemma_prefixes_insert(before, interface_id@, list);
        }
        table.insert(key, list);
    }
}

impl Control {
    /// Announce an alias prefix of an interface: a route to its own underlay address. The prefix
    /// is recorded once the change is made and `record_prefix` is called.
    pub fn add_prefix(&self, interface_id: &[u8], prefix: [u8; 4], prefix_len: u32) -> (r: Result<
        Vec<MapWrite>,
        ControlError,
    >)
        ensures
            match self@.ifaces.get(interface_id@) {
                Some(iface) => r matches Ok(w) && w@ == seq![
                    route_write(iface.vni, prefix, prefix_len, iface.underlay, false),
                ],
                None => r matches Err(e) && e == ControlError::UnknownInterface,
            },
    {
        match self.interface(interface_id) {
            Some(iface) => Ok(
                self.create_route(iface.vni, prefix, prefix_len, iface.underlay, false),
            ),
            None => Err(ControlError::UnknownInterface),
        }
    }

    /// Record an alias prefix of an interface; refused, changing nothing, where there is no such
    /// interface.
    pub fn record_prefix(&mut self, interface_id: &[u8], prefix: [u8; 4], prefix_len: u32) -> (r:
        Result<(), ControlError>)
        requires
            old(self).wf(),
        ensures
            final(self).wf(),
            if old(self)@.ifaces.contains_key(interface_id@) {
                r is Ok && final(self)@ == (ControlView {
                    prefixes: old(self)@.prefixes.insert(
                        interface_id@,
                        prefixes_of(old(self)@.prefixes, interface_id@).push((prefix, prefix_len)),
                    ),
                    ..old(self)@
                })
            } else {
                r matches Err(e) && e == ControlError::UnknownInterface && final(self)@ == old(self)@
            },
    {
        if self.interface(interface_id).is_none() {
            return Err(ControlError::UnknownInterface);
        }
        append_prefix(&mut self.prefixes, interface_id, prefix, prefix_len);
        Ok(())
    }

    /// Withdraw an alias prefix of an interface: remove its route and forget the record.
    pub fn del_prefix(&mut self, interface_id: &[u8], prefix: [u8; 4], prefix_len: u32) -> (r: Result<
        Vec<MapWrite>,
        ControlError,
    >)
        requires
            old(self).wf(),
        ensures
            final(self).wf(),
            match old(self)@.ifaces.get(interface_id@) {
                None => r matches Err(e) && e == ControlError::UnknownInterface && final(self)@
                    == old(self)@,
                Some(iface) => {
                    &&& r matches Ok(w)
                    &&& w@ == seq![
                        MapWrite::RouteRemove(RouteKey { vni: iface.vni, prefix_len, ipv4: prefix }),
                    ]
                    &&& final(self)@ == (ControlView {
                        prefixes: forgetting_prefix(
                            old(self)@.prefixes,
                            interface_id@,
                            prefix,
                            prefix_len,
                        ),
                        ..old(self)@
                    })
                },
            },
    {
        let iface: Iface = match self.interface(interface_id) {
            Some(iface) => iface,
            None => {
                return Err(ControlError::UnknownInterface);
            },
        };
        forget_prefix(&mut self.prefixes, interface_id, prefix, prefix_len);
        Ok(
            one(MapWrite::RouteRemove(RouteKey { vni: iface.vni, prefix_len, ipv4: prefix })),
        )
    }

    /// Remember a load-balancer prefix that was announced for an interface, where there is such an
    /// interface.
    pub fn record_lb_prefix(&mut self, interface_id: &[u8], prefix: [u8; 4], prefix_len: u32)
        requires
            old(self).wf(),
        ensures
            final(self).wf(),
            final(self)@ == with_lb_prefix(old(self)@, interface_id@, prefix, prefix_len),
    {
        if self.interface(interface_id).is_some() {
            append_prefix(&mut self.lb_prefixes, interface_id, prefix, prefix_len);
        }
    }

    /// Forget a load-balancer prefix of an interface.
    pub fn forget_lb_prefix(&mut self, interface_id: &[u8], prefix: [u8; 4], prefix_len: u32)
        requires
            old(self).wf(),
        ensures
            final(self).wf(),
            final(self)@ == (ControlView {
                lb_prefixes: forgetting_prefix(
                    old(self)@.lb_prefixes,
                    interface_id@,
                    prefix,
                    prefix_len,
                ),
                ..old(self)@
            }),
    {
        forget_prefix(&mut self.lb_prefixes, interface_id, prefix, prefix_len);
    }

    /// The load-balancer prefixes of an interface, in the order in which they were announced.
    pub fn list_lb_prefixes(&self, interface_id: &[u8]) -> (r: Vec<([u8; 4], u32)>)
        ensures
            r@ == prefixes_of(self@.lb_prefixes, interface_id@),
    {
        match self.lb_prefixes.get_ref(&id_of(interface_id)) {
            Some(list) => copy_list(list),
            None => Vec::new(),
        }
    }

    /// The alias prefixes of an interface, in the order in which they were announced.
    pub fn list_prefixes(&self, interface_id: &[u8]) -> (r: Vec<([u8; 4], u32)>)
        ensures
            r@ == prefixes_of(self@.prefixes, interface_id@),
    {
        match self.prefixes.get_ref(&id_of(interface_id)) {
            Some(list) => copy_list(list),
            None => Vec::new(),
        }
    }
}

/// Whether a neighbor entry is that of the given port slice.
pub open spec fn is_slice(
    e: NeighborNatEntry,
    vni: u32,
    nat_ip: [u8; 4],
    port_min: u16,
    port_max: u16,
) -> bool {
    e.vni == vni && e.nat_ip == nat_ip && e.port_min == port_min && e.port_max == port_max
}

/// The position of the first entry of a port slice, from `i` on.
pub open spec fn slice_at(
    list: Seq<NeighborNatEntry>,
    vni: u32,
    nat_ip: [u8; 4],
    port_min: u16,
    port_max: u16,
    i: nat,
) -> Option<int>
    decreases list.len() - i,
{
    if i >= list.len() {
        None
    } else if is_slice(list[i as int], vni, nat_ip, port_min, port_max) {
        Some(i as int)
    } else {
        slice_at(list, vni, nat_ip, port_min, port_max, i + 1)
    }
}

/// The entry that gives a port slice to the hypervisor at `underlay`.
pub open spec fn neighbor(
    vni: u32,
    nat_ip: [u8; 4],
    port_min: u16,
    port_max: u16,
    underlay: [u8; 16],
) -> NeighborNatEntry {
    NeighborNatEntry { underlay, nat_ip, vni, port_min, port_max, enabled: 1 }
}

/// A list of neighbor entries with a port slice given to `underlay`: a slice that is in the list
/// changes hands, a new one comes last.
pub open spec fn with_neighbor(
    list: Seq<NeighborNatEntry>,
    vni: u32,
    nat_ip: [u8; 4],
    port_min: u16,
    port_max: u16,
    underlay: [u8; 16],
) -> Seq<NeighborNatEntry> {
    let e = neighbor(vni, nat_ip, port_min, port_max, underlay);
    match slice_at(list, vni, nat_ip, port_min, port_max, 0) {
        Some(i) => list.update(i, e),
        None => list.push(e),
    }
}

/// A list of neighbor entries without a port slice.
pub open spec fn without_neighbor(
    list: Seq<NeighborNatEntry>,
    vni: u32,
    nat_ip: [u8; 4],
    port_min: u16,
    port_max: u16,
) -> Seq<NeighborNatEntry>
    decreases list.len(),
{
    if list.len() == 0 {
        list
    } else {
        let rest = without_neighbor(list.drop_last(), vni, nat_ip, port_min, port_max);
        if is_slice(list.last(), vni, nat_ip, port_min, port_max) {
            rest
        } else {
            rest.push(list.last())
        }
    }
}

/// The changes that program the first `n` neighbor entries.
pub open spec fn neighbor_slots(list: Seq<NeighborNatEntry>, n: nat) -> Seq<MapWrite> {
    Seq::new(n, |i: int| MapWrite::NeighborNat(i as u32, list[i]))
}

/// The changes that program the neighbor entries and then their number.
pub open spec fn neighbor_writes(list: Seq<NeighborNatEntry>) -> Seq<MapWrite> {
    neighbor_slots(list, list.len()).push(MapWrite::NeighborNatCount(list.len() as u32))
}

proof fn lemma_without_neighbor_len(
    list: Seq<NeighborNatEntry>,
    vni: u32,
    nat_ip: [u8; 4],
    port_min: u16,
    port_max: u16,
)
    ensures
        without_neighbor(list, vni, nat_ip, port_min, port_max).len() <= list.len(),
    decreases list.len(),
{
    if list.len() > 0 {
        lemma_without_neighbor_len(list.drop_last(), vni, nat_ip, port_min, port_max);
    }
}

fn same_slice(e: &NeighborNatEntry, vni: u32, nat_ip: &[u8; 4], port_min: u16, port_max: u16) -> (r:
    bool)
    ensures
        r == is_slice(*e, vni, *nat_ip, port_min, port_max),
{
    e.vni == vni && eq4(&e.nat_ip, nat_ip) && e.port_min == port_min && e.port_max == port_max
}

fn neigh_nat_reprogram(list: &Vec<NeighborNatEntry>) -> (r: Vec<MapWrite>)
    requires
        list.len() <= NB_MAX_ENTRIES,
    ensures
        r@ == neighbor_writes(list@),
{
    let mut r: Vec<MapWrite> = Vec::new();
    let mut i: usize = 0;
    while i < list.len()
        invariant
            i <= list.len(),
            list.len() <= NB_MAX_ENTRIES,
            r@ == neighbor_slots(list@, i as nat),
        decreases list.len() - i,
    {
        r.push(MapWrite::NeighborNat(i as u32, list[i]));
        i = i + 1;
        assert(r@ =~= neighbor_slots(list@, i as nat));
    }
    r.push(MapWrite::NeighborNatCount(list.len() as u32));
    r
}

impl Control {
    /// Give a port slice of a NAT address to another hypervisor. A full table takes no entry, not
    /// even for a slice it has.
    pub fn add_neighbor_nat(
        &mut self,
        vni: u32,
        nat_ip: [u8; 4],
        port_min: u16,
        port_max: u16,
        underlay: [u8; 16],
    ) -> (r: Result<Vec<MapWrite>, ControlError>)
        requires
            old(self).wf(),
        ensures
            final(self).wf(),
            if old(self)@.neighbors.len() >= NB_MAX_ENTRIES {
                r matches Err(e) && e == ControlError::NeighborNatFull && final(self)@
                    == old(self)@
            } else {
                let more = with_neighbor(
                    old(self)@.neighbors,
                    vni,
                    nat_ip,
                    port_min,
                    port_max,
                    underlay,
                );
                &&& r matches Ok(w)
                &&& w@ == neighbor_writes(more)
                &&& final(self)@ == (ControlView { neighbors: more, ..old(self)@ })
            },
    {
        if self.neighbors.len() >= (NB_MAX_ENTRIES as usize) {
            return Err(ControlError::NeighborNatFull);
        }
        let e = NeighborNatEntry { underlay, nat_ip, vni, port_min, port_max, enabled: 1 };
        let mut i: usize = 0;
        while i < self.neighbors.len()
            invariant
                *self == *old(self),
                i <= self.neighbors.len(),
                slice_at(self.neighbors@, vni, nat_ip, port_min, port_max, 0) == slice_at(
                    self.neighbors@,
                    vni,
                    nat_ip,
                    port_min,
                    port_max,
                    i as nat,
                ),
                self.neighbors.len() < NB_MAX_ENTRIES,
                self.wf(),
                e == neighbor(vni, nat_ip, port_min, port_max, underlay),
            decreases self.neighbors.len() - i,
        {
            if same_slice(&self.neighbors[i], vni, &nat_ip, port_min, port_max) {
                self.neighbors.set(i, e);
                return Ok(neigh_nat_reprogram(&self.neighbors));
            }
            i = i + 1;
        }
        self.neighbors.push(e);
        Ok(neigh_nat_reprogram(&self.neighbors))
    }

    /// Take a port slice away from the hypervisor it was given to.
    pub fn del_neighbor_nat(&mut self, vni: u32, nat_ip: [u8; 4], port_min: u16, port_max: u16) -> (r:
        Vec<MapWrite>)
        requires
            old(self).wf(),
        ensures
            final(self).wf(),
            ({
                let fewer = without_neighbor(
                    old(self)@.neighbors,
                    vni,
                    nat_ip,
                    port_min,
                    port_max,
                );
                &&& r@ == neighbor_writes(fewer)
                &&& final(self)@ == (ControlView { neighbors: fewer, ..old(self)@ })
            }),
    {
        let mut kept: Vec<NeighborNatEntry> = Vec::new();
        let mut i: usize = 0;
        let ghost list = self.neighbors@;
        while i < self.neighbors.len()
            invariant
                *self == *old(self),
                list == self.neighbors@,
                i <= self.neighbors.len(),
                kept@ == without_neighbor(
                    list.take(i as int),
                    vni,
                    nat_ip,
                    port_min,
                    port_max,
                ),
            decreases self.neighbors.len() - i,
        {
            if !same_slice(&self.neighbors[i], vni, &nat_ip, port_min, port_max) {
                kept.push(self.neighbors[i]);
            }
            i = i + 1;
            assert(list.take(i as int).drop_last() =~= list.take(i - 1));
        }
        assert(list.take(i as int) =~= list);
        proof {
            lemma_without_neighbor_len(list, vni, nat_ip, port_min, port_max);
        }
        self.neighbors = kept;
        neigh_nat_reprogram(&self.neighbors)
    }

    /// All neighbor entries.
    pub fn list_neighbor_nats(&self) -> (r: Vec<NeighborNatEntry>)
        ensures
            r@ == self@.neighbors,
    {
        copy_list(&self.neighbors)
    }
}

/// A cap is a rate in megabits: the meter of a port counts 125000 bytes per second for each megabit per
/// second asked for, holds an eighth of a second's worth but never less than 2000 bytes, and starts
/// with an eighth of a second's worth. Both caps count in the same way, and zero is no cap. Rates beyond
/// what 64 bits can hold in bits are capped there.
pub proof fn law_caps_are_in_megabits(total_mbps: u64, public_mbps: u64)
    requires
        total_mbps <= 18_446_744_073_709,
        public_mbps <= 18_446_744_073_709,
    ensures
        ({
            let m = meter_of(total_mbps, public_mbps);
            &&& m.total_bps == total_mbps * 125_000
            &&& m.public_bps == public_mbps * 125_000
            &&& m.total_burst >= 2000 && m.public_burst >= 2000
            &&& m.total_bps >= 16_000 ==> m.total_burst == m.total_bps / 8
            &&& m.public_bps >= 16_000 ==> m.public_burst == m.public_bps / 8
            &&& m.total_bps < 16_000 ==> m.total_burst == 2000
            &&& m.public_bps < 16_000 ==> m.public_burst == 2000
            &&& m.total_tokens == m.total_bps / 8
            &&& m.public_tokens == m.public_bps / 8
            &&& m.total_last_ns == 0 && m.public_last_ns == 0
        }),
{
}

/// A VNI is in use exactly as long as something is in it: one that neither an interface nor a load
/// balancer is in is free, and a load balancer alone keeps it in use.
pub proof fn law_vni_is_in_use_while_something_is_in_it(c: ControlView, vni: u32, id: Seq<u8>)
    ensures
        c.ifaces.contains_key(id) && c.ifaces[id].vni == vni ==> is_vni_in_use(c, vni),
        c.lbs.contains_key(id) && c.lbs[id].vni == vni ==> is_vni_in_use(c, vni),
        (forall|k: Seq<u8>| c.ifaces.contains_key(k) ==> (#[trigger] c.ifaces[k]).vni != vni) && (
        forall|k: Seq<u8>| c.lbs.contains_key(k) ==> (#[trigger] c.lbs[k]).vni != vni)
            ==> !is_vni_in_use(c, vni),
{
}

/// The counts of a rule list are of its directions: a rule more counts as an egress rule where its
/// direction is egress, and as an ingress rule otherwise; no rules count nothing.
pub proof fn law_rules_count_by_direction(list: Seq<(Seq<u8>, FwRule)>, id: Seq<u8>, rule: FwRule)
    requires
        list.len() < 1_000_000,
    ensures
        counts(Seq::empty()).egress_count == 0 && counts(Seq::empty()).ingress_count == 0,
        rule.direction == FW_DIR_EGRESS ==> counts(list.push((id, rule))).egress_count == counts(
            list,
        ).egress_count + 1 && counts(list.push((id, rule))).ingress_count == counts(
            list,
        ).ingress_count,
        rule.direction != FW_DIR_EGRESS ==> counts(list.push((id, rule))).ingress_count == counts(
            list,
        ).ingress_count + 1 && counts(list.push((id, rule))).egress_count == counts(
            list,
        ).egress_count,
{
    assert(list.push((id, rule)).drop_last() =~= list);
    lemma_egress_rules_fit(list);
}

proof fn lemma_egress_rules_fit(list: Seq<(Seq<u8>, FwRule)>)
    ensures
        egress_rules(list) <= list.len(),
    decreases list.len(),
{
    if list.len() > 0 {
        lemma_egress_rules_fit(list.drop_last());
    }
}

/// A rule is put in once: after it was added, the list holds it, under its identifier and in the place
/// that the identifier had, or last where it had none; every other rule stays where it was. Taken out, no
/// rule of the identifier is left, and every other is still there.
pub proof fn law_rule_is_put_in_its_place(
    list: Seq<(Seq<u8>, FwRule)>,
    id: Seq<u8>,
    rule: FwRule,
    i: int,
)
    ensures
        ({
            let more = with_rule(list, id, rule);
            &&& more.contains((id, rule))
            &&& 0 <= i < list.len() && list[i].0 != id ==> more[i] == list[i]
            &&& (forall|j: int| 0 <= j < list.len() ==> (#[trigger] list[j]).0 != id) ==> more
                == list.push((id, rule))
            &&& (exists|j: int| 0 <= j < list.len() && (#[trigger] list[j]).0 == id) ==> more.len()
                == list.len()
        }),
        0 <= i < list.len() && list[i].0 != id ==> without_rule(list, id).contains(list[i]),
        forall|j: int| 0 <= j < without_rule(list, id).len() ==> (#[trigger] without_rule(
            list,
            id,
        )[j]).0 != id,
{
    lemma_rule_at(list, id, 0);
    let more = with_rule(list, id, rule);
    match rule_at(list, id, 0) {
        Some(k) => {
            assert(more[k] == (id, rule));
        },
        None => {
            assert(more[list.len() as int] == (id, rule));
        },
    }
    lemma_without_rule(list, id, i);
}

proof fn lemma_rule_at(list: Seq<(Seq<u8>, FwRule)>, id: Seq<u8>, from: nat)
    ensures
        match rule_at(list, id, from) {
            Some(k) => from <= k < list.len() && list[k].0 == id,
            None => forall|j: int| from <= j < list.len() ==> (#[trigger] list[j]).0 != id,
        },
    decreases list.len() - from,
{
    if from < list.len() && list[from as int].0 != id {
        lemma_rule_at(list, id, from + 1);
    }
}

proof fn lemma_without_rule(list: Seq<(Seq<u8>, FwRule)>, id: Seq<u8>, i: int)
    ensures
        0 <= i < list.len() && list[i].0 != id ==> without_rule(list, id).contains(list[i]),
        forall|j: int| 0 <= j < without_rule(list, id).len() ==> (#[trigger] without_rule(
            list,
            id,
        )[j]).0 != id,
    decreases list.len(),
{
    if list.len() > 0 {
        let p = list.drop_last();
        let rest = without_rule(p, id);
        let all = without_rule(list, id);
        lemma_without_rule(p, id, i);
        if 0 <= i < list.len() && list[i].0 != id {
            if i < p.len() {
                assert(p[i] == list[i]);
                let j = choose|j: int| 0 <= j < rest.len() && rest[j] == list[i];
                assert(all[j] == list[i]);
            } else {
                assert(all[all.len() - 1] == list[i]);
            }
        }
        assert forall|j: int| 0 <= j < all.len() implies (#[trigger] all[j]).0 != id by {
            if j < rest.len() {
                assert(rest[j].0 != id);
            }
        }
    }
}

/// Dropping a prefix from a list keeps every other prefix; dropping a backend keeps every other backend;
/// dropping a port slice keeps every other slice.
pub proof fn law_dropping_keeps_the_others(
    prefixes: Seq<([u8; 4], u32)>,
    prefix: ([u8; 4], u32),
    backends: Seq<[u8; 4]>,
    backend: [u8; 4],
    slices: Seq<NeighborNatEntry>,
    slice: NeighborNatEntry,
    i: int,
)
    ensures
        0 <= i < prefixes.len() && prefixes[i] != prefix ==> without_prefix(
            prefixes,
            prefix.0,
            prefix.1,
        ).contains(prefixes[i]),
        0 <= i < backends.len() && backends[i] != backend ==> without_backend(
            backends,
            backend,
        ).contains(backends[i]),
        0 <= i < slices.len() && (slices[i].vni != slice.vni || slices[i].nat_ip != slice.nat_ip
            || slices[i].port_min != slice.port_min || slices[i].port_max != slice.port_max)
            ==> without_neighbor(
            slices,
            slice.vni,
            slice.nat_ip,
            slice.port_min,
            slice.port_max,
        ).contains(slices[i]),
{
    lemma_prefix_kept(prefixes, prefix, i);
    lemma_backend_kept(backends, backend, i);
    lemma_slice_kept(slices, slice, i);
}

proof fn lemma_prefix_kept(list: Seq<([u8; 4], u32)>, prefix: ([u8; 4], u32), i: int)
    ensures
        0 <= i < list.len() && list[i] != prefix ==> without_prefix(
            list,
            prefix.0,
            prefix.1,
        ).contains(list[i]),
    decreases list.len(),
{
    if 0 <= i < list.len() && list[i] != prefix {
        let p = list.drop_last();
        let rest = without_prefix(p, prefix.0, prefix.1);
        let all = without_prefix(list, prefix.0, prefix.1);
        if i < p.len() {
            lemma_prefix_kept(p, prefix, i);
            let j = choose|j: int| 0 <= j < rest.len() && rest[j] == list[i];
            assert(all[j] == list[i]);
        } else {
            assert(all[all.len() - 1] == list[i]);
        }
    }
}

proof fn lemma_backend_kept(list: Seq<[u8; 4]>, backend: [u8; 4], i: int)
    ensures
        0 <= i < list.len() && list[i] != backend ==> without_backend(list, backend).contains(
            list[i],
        ),
    decreases list.len(),
{
    if 0 <= i < list.len() && list[i] != backend {
        let p = list.drop_last();
        let rest = without_backend(p, backend);
        let all = without_backend(list, backend);
        if i < p.len() {
            lemma_backend_kept(p, backend, i);
            let j = choose|j: int| 0 <= j < rest.len() && rest[j] == list[i];
            assert(all[j] == list[i]);
        } else {
            assert(all[all.len() - 1] == list[i]);
        }
    }
}

proof fn lemma_slice_kept(list: Seq<NeighborNatEntry>, slice: NeighborNatEntry, i: int)
    ensures
        0 <= i < list.len() && !is_slice(
            list[i],
            slice.vni,
            slice.nat_ip,
            slice.port_min,
            slice.port_max,
        ) ==> without_neighbor(
            list,
            slice.vni,
            slice.nat_ip,
            slice.port_min,
            slice.port_max,
        ).contains(list[i]),
    decreases list.len(),
{
    let (v, n, a, b) = (slice.vni, slice.nat_ip, slice.port_min, slice.port_max);
    if 0 <= i < list.len() && !is_slice(list[i], v, n, a, b) {
        let p = list.drop_last();
        let rest = without_neighbor(p, v, n, a, b);
        let all = without_neighbor(list, v, n, a, b);
        if i < p.len() {
            lemma_slice_kept(p, slice, i);
            let j = choose|j: int| 0 <= j < rest.len() && rest[j] == list[i];
            assert(all[j] == list[i]);
        } else {
            assert(all[all.len() - 1] == list[i]);
        }
    }
}

/// A slice that was given to a hypervisor is its own: the entry names the VNI, the public address, the
/// ports and the hypervisor, and is enabled; it stands in the list, and every slice of another range
/// stays where it was.
pub proof fn law_slice_is_given_as_asked(
    list: Seq<NeighborNatEntry>,
    vni: u32,
    nat_ip: [u8; 4],
    port_min: u16,
    port_max: u16,
    underlay: [u8; 16],
    i: int,
)
    ensures
        ({
            let more = with_neighbor(list, vni, nat_ip, port_min, port_max, underlay);
            let e = NeighborNatEntry { underlay, nat_ip, vni, port_min, port_max, enabled: 1 };
            &&& more.contains(e)
            &&& 0 <= i < list.len() && (list[i].vni != vni || list[i].nat_ip != nat_ip
                || list[i].port_min != port_min || list[i].port_max != port_max) ==> more[i]
                == list[i]
        }),
{
    lemma_slice_at(list, vni, nat_ip, port_min, port_max, 0);
    let more = with_neighbor(list, vni, nat_ip, port_min, port_max, underlay);
    let e = NeighborNatEntry { underlay, nat_ip, vni, port_min, port_max, enabled: 1 };
    match slice_at(list, vni, nat_ip, port_min, port_max, 0) {
        Some(k) => {
            assert(more[k] == e);
        },
        None => {
            assert(more[list.len() as int] == e);
        },
    }
}

proof fn lemma_slice_at(
    list: Seq<NeighborNatEntry>,
    vni: u32,
    nat_ip: [u8; 4],
    port_min: u16,
    port_max: u16,
    from: nat,
)
    ensures
        slice_at(list, vni, nat_ip, port_min, port_max, from) matches Some(k) ==> from <= k
            < list.len() && is_slice(list[k], vni, nat_ip, port_min, port_max),
    decreases list.len() - from,
{
    if from < list.len() && !is_slice(list[from as int], vni, nat_ip, port_min, port_max) {
        lemma_slice_at(list, vni, nat_ip, port_min, port_max, from + 1);
    }
}

/// A load-balancer prefix that was recorded is listed last, behind those that were there; forgotten, it is
/// gone and the others stay. Nothing is recorded for an interface that is not there, and no other list
/// changes.
pub proof fn law_lb_prefix_is_listed_and_forgotten(
    c: ControlView,
    id: Seq<u8>,
    prefix: [u8; 4],
    len: u32,
    other: Seq<u8>,
)
    requires
        other != id,
    ensures
        ({
            let more = with_lb_prefix(c, id, prefix, len);
            let fewer = forgetting_prefix(more.lb_prefixes, id, prefix, len);
            &&& c.ifaces.contains_key(id) ==> prefixes_of(more.lb_prefixes, id) == prefixes_of(
                c.lb_prefixes,
                id,
            ).push((prefix, len))
            &&& c.ifaces.contains_key(id) ==> !prefixes_of(fewer, id).contains((prefix, len))
            &&& !c.ifaces.contains_key(id) ==> more == c
            &&& more == (ControlView { lb_prefixes: more.lb_prefixes, ..c })
            &&& prefixes_of(more.lb_prefixes, other) == prefixes_of(c.lb_prefixes, other)
            &&& prefixes_of(fewer, other) == prefixes_of(c.lb_prefixes, other)
        }),
{
    law_prefix_is_listed_and_forgotten(c.lb_prefixes, id, prefix, len);
}

} // verus!
