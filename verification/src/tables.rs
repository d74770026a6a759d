//! The datapath's tables: every forwarding decision is a lookup in one of them.

use vstd::prelude::*;

use crate::parse;
use crate::parse::{mask16, mask4};
use crate::table;
use crate::table::{Addr6, Table};
use crate::types::{
    CtEntry, CtKey, DhcpConfig, DhcpMeta, FwMeta, FwRule, FwRuleKey, IfaceKey, IfaceValue,
    InspectEntry, LbKey, LbValue, MaglevKey, MeterState, NatCtVal, NatFlow, NatKey, NatValue,
    NeighborNatEntry, Port, Route, RouteKey, RouteKey6, UnderlayValue, Uplink, VipKey,
};

verus! {

/// All tables of the datapath.
pub struct Tables {
    /// (VNI, IPv4) to delivery data.
    pub interfaces: Table<IfaceKey, IfaceValue>,
    /// IPv4 prefixes, each with its host bits zero, to routes.
    pub routes: Table<RouteKey, Route>,
    /// IPv6 prefixes, each with its host bits zero, to routes.
    pub routes6: Table<RouteKey6, Route>,
    /// Tap ifindex to port.
    pub ports: Table<u32, Port>,
    pub local: Option<Uplink>,
    pub inspect: InspectEntry,
    /// (VNI, guest address) to VIP and (VNI, VIP) to guest address.
    pub vips: Table<VipKey, [u8; 4]>,
    pub lb: Table<LbKey, LbValue>,
    /// Maglev slots to backend underlay addresses.
    pub maglev: Table<MaglevKey, [u8; 16]>,
    /// Maglev slots to backend overlay addresses.
    pub maglev_overlay: Table<MaglevKey, [u8; 4]>,
    pub conntrack: Table<CtKey, CtEntry>,
    pub nat: Table<NatKey, NatValue>,
    /// Forward and reverse flows of network NAT.
    pub nat_ct: Table<NatFlow, NatCtVal>,
    pub fw_rules: Table<FwRuleKey, FwRule>,
    pub fw_meta: Table<u32, FwMeta>,
    /// Firewall enforcement flag (0 = evaluate only).
    pub fw_config: Option<u32>,
    /// Underlay /128 to its owner.
    pub underlay: Table<Addr6, UnderlayValue>,
    pub meter: Table<u32, MeterState>,
    pub dhcp_config: Option<DhcpConfig>,
    pub dhcp_meta: Table<u32, DhcpMeta>,
    pub neigh_nat: Table<u32, NeighborNatEntry>,
    pub neigh_nat_count: u32,
}

/// The contents of a `Tables`.
#[verifier::ext_equal]
pub struct TablesView {
    pub interfaces: Map<IfaceKey, IfaceValue>,
    pub routes: Map<RouteKey, Route>,
    pub routes6: Map<RouteKey6, Route>,
    pub ports: Map<u32, Port>,
    pub local: Option<Uplink>,
    pub inspect: InspectEntry,
    pub vips: Map<VipKey, [u8; 4]>,
    pub lb: Map<LbKey, LbValue>,
    pub maglev: Map<MaglevKey, [u8; 16]>,
    pub maglev_overlay: Map<MaglevKey, [u8; 4]>,
    pub conntrack: Map<CtKey, CtEntry>,
    pub nat: Map<NatKey, NatValue>,
    pub nat_ct: Map<NatFlow, NatCtVal>,
    pub fw_rules: Map<FwRuleKey, FwRule>,
    pub fw_meta: Map<u32, FwMeta>,
    pub fw_config: Option<u32>,
    pub underlay: Map<[u8; 16], UnderlayValue>,
    pub meter: Map<u32, MeterState>,
    pub dhcp_config: Option<DhcpConfig>,
    pub dhcp_meta: Map<u32, DhcpMeta>,
    pub neigh_nat: Map<u32, NeighborNatEntry>,
    pub neigh_nat_count: u32,
}

impl View for Tables {
    type V = TablesView;

    open spec fn view(&self) -> TablesView {
        TablesView {
            interfaces: self.interfaces@,
            routes: self.routes@,
            routes6: self.routes6@,
            ports: self.ports@,
            local: self.local,
            inspect: self.inspect,
            vips: self.vips@,
            lb: self.lb@,
            maglev: self.maglev@,
            maglev_overlay: self.maglev_overlay@,
            conntrack: self.conntrack@,
            nat: self.nat@,
            nat_ct: self.nat_ct@,
            fw_rules: self.fw_rules@,
            fw_meta: self.fw_meta@,
            fw_config: self.fw_config,
            underlay: self.underlay@,
            meter: self.meter@,
            dhcp_config: self.dhcp_config,
            dhcp_meta: self.dhcp_meta@,
            neigh_nat: self.neigh_nat@,
            neigh_nat_count: self.neigh_nat_count,
        }
    }
}

/// One change of a table.
#[derive(Copy, Clone, Debug)]
pub enum MapWrite {
    Local(Uplink),
    Port(u32, Port),
    PortRemove(u32),
    Iface(IfaceKey, IfaceValue),
    IfaceRemove(IfaceKey),
    /// The prefix may have host bits set; they do not count.
    Route(RouteKey, Route),
    RouteRemove(RouteKey),
    Vip(VipKey, [u8; 4]),
    VipRemove(VipKey),
    Lb(LbKey, LbValue),
    LbRemove(LbKey),
    Maglev(MaglevKey, [u8; 16]),
    MaglevRemove(MaglevKey),
    MaglevOverlay(MaglevKey, [u8; 4]),
    MaglevOverlayRemove(MaglevKey),
    Nat(NatKey, NatValue),
    NatRemove(NatKey),
    FwRule(FwRuleKey, FwRule),
    FwRuleRemove(FwRuleKey),
    FwMeta(u32, FwMeta),
    FwMetaRemove(u32),
    Underlay([u8; 16], UnderlayValue),
    UnderlayRemove([u8; 16]),
    Meter(u32, MeterState),
    MeterRemove(u32),
    NeighborNat(u32, NeighborNatEntry),
    NeighborNatCount(u32),
}

/// A route key with its host bits cleared.
pub open spec fn canonical(k: RouteKey) -> RouteKey {
    RouteKey {
        vni: k.vni,
        prefix_len: k.prefix_len,
        ipv4: parse::prefix4(k.ipv4, k.prefix_len as int),
    }
}

impl TablesView {
    /// Whether a change can be made at all: no IPv4 prefix is longer than 32 bits.
    pub open spec fn accepts(self, w: MapWrite) -> bool {
        match w {
            MapWrite::Route(k, _) => k.prefix_len <= 32,
            MapWrite::RouteRemove(k) => k.prefix_len <= 32,
            _ => true,
        }
    }

    /// The tables after a change.
    pub open spec fn after(self, w: MapWrite) -> TablesView {
        if !self.accepts(w) {
            self
        } else {
            match w {
                MapWrite::Local(u) => TablesView { local: Some(u), ..self },
                MapWrite::Port(k, v) => TablesView { ports: self.ports.insert(k, v), ..self },
                MapWrite::PortRemove(k) => TablesView { ports: self.ports.remove(k), ..self },
                MapWrite::Iface(k, v) => TablesView {
                    interfaces: self.interfaces.insert(k, v),
                    ..self
                },
                MapWrite::IfaceRemove(k) => TablesView {
                    interfaces: self.interfaces.remove(k),
                    ..self
                },
                MapWrite::Route(k, v) => TablesView {
                    routes: self.routes.insert(canonical(k), v),
                    ..self
                },
                MapWrite::RouteRemove(k) => TablesView {
                    routes: self.routes.remove(canonical(k)),
                    ..self
                },
                MapWrite::Vip(k, v) => TablesView { vips: self.vips.insert(k, v), ..self },
                MapWrite::VipRemove(k) => TablesView { vips: self.vips.remove(k), ..self },
                MapWrite::Lb(k, v) => TablesView { lb: self.lb.insert(k, v), ..self },
                MapWrite::LbRemove(k) => TablesView { lb: self.lb.remove(k), ..self },
                MapWrite::Maglev(k, v) => TablesView { maglev: self.maglev.insert(k, v), ..self },
                MapWrite::MaglevRemove(k) => TablesView { maglev: self.maglev.remove(k), ..self },
                MapWrite::MaglevOverlay(k, v) => TablesView {
                    maglev_overlay: self.maglev_overlay.insert(k, v),
                    ..self
                },
                MapWrite::MaglevOverlayRemove(k) => TablesView {
                    maglev_overlay: self.maglev_overlay.remove(k),
                    ..self
                },
                MapWrite::Nat(k, v) => TablesView { nat: self.nat.insert(k, v), ..self },
                MapWrite::NatRemove(k) => TablesView { nat: self.nat.remove(k), ..self },
                MapWrite::FwRule(k, v) => TablesView {
                    fw_rules: self.fw_rules.insert(k, v),
                    ..self
                },
                MapWrite::FwRuleRemove(k) => TablesView {
                    fw_rules: self.fw_rules.remove(k),
                    ..self
                },
                MapWrite::FwMeta(k, v) => TablesView { fw_meta: self.fw_meta.insert(k, v), ..self },
                MapWrite::FwMetaRemove(k) => TablesView { fw_meta: self.fw_meta.remove(k), ..self },
                MapWrite::Underlay(k, v) => TablesView {
                    underlay: self.underlay.insert(k, v),
                    ..self
                },
                MapWrite::UnderlayRemove(k) => TablesView {
                    underlay: self.underlay.remove(k),
                    ..self
                },
                MapWrite::Meter(k, v) => TablesView { meter: self.meter.insert(k, v), ..self },
                MapWrite::MeterRemove(k) => TablesView { meter: self.meter.remove(k), ..self },
                MapWrite::NeighborNat(k, v) => TablesView {
                    neigh_nat: self.neigh_nat.insert(k, v),
                    ..self
                },
                MapWrite::NeighborNatCount(n) => TablesView { neigh_nat_count: n, ..self },
            }
        }
    }

    /// The tables after a list of changes, made in order.
    pub open spec fn after_all(self, ws: Seq<MapWrite>) -> TablesView
        decreases ws.len(),
    {
        if ws.len() == 0 {
            self
        } else {
            self.after_all(ws.drop_last()).after(ws.last())
        }
    }
}

/// The route with the longest prefix of at most `len` bits that covers `dst` in `vni`.
pub open spec fn longest4(m: Map<RouteKey, Route>, vni: u32, dst: [u8; 4], len: nat) -> Option<
    Route,
>
    decreases len,
{
    let k = RouteKey { vni, prefix_len: len as u32, ipv4: parse::prefix4(dst, len as int) };
    if m.contains_key(k) {
        Some(m[k])
    } else if len == 0 {
        None
    } else {
        longest4(m, vni, dst, (len - 1) as nat)
    }
}

/// The route with the longest prefix of at most `len` bits that covers `dst` in `vni`.
pub open spec fn longest6(m: Map<RouteKey6, Route>, vni: u32, dst: [u8; 16], len: nat) -> Option<
    Route,
>
    decreases len,
{
    let k = RouteKey6 { vni, prefix_len: len as u32, ipv6: parse::prefix16(dst, len as int) };
    if m.contains_key(k) {
        Some(m[k])
    } else if len == 0 {
        None
    } else {
        longest6(m, vni, dst, (len - 1) as nat)
    }
}

/// The routes of a VNI.
pub open spec fn routes_of(m: Map<RouteKey, Route>, vni: u32) -> Map<RouteKey, Route> {
    Map::new(|k: RouteKey| m.contains_key(k) && k.vni == vni, |k: RouteKey| m[k])
}

/// Whether a list of changes drops the routes of a VNI: all of them, and nothing else.
pub open spec fn drops_routes(ws: Seq<MapWrite>, m: Map<RouteKey, Route>, vni: u32) -> bool {
    &&& forall|j: int|
        0 <= j < ws.len() ==> (#[trigger] ws[j]) is RouteRemove && m.contains_key(
            ws[j]->RouteRemove_0,
        ) && ws[j]->RouteRemove_0.vni == vni
    &&& forall|k: RouteKey| #[trigger]
        m.contains_key(k) && k.vni == vni ==> ws.contains(MapWrite::RouteRemove(k))
}

/// Whether every IPv4 prefix is written without host bits, and none is longer than 32 bits.
pub open spec fn routes_canonical(m: Map<RouteKey, Route>) -> bool {
    forall|k: RouteKey| #[trigger] m.contains_key(k) ==> k.prefix_len <= 32 && canonical(k) == k
}

impl Tables {
    /// Tables without an entry.
    pub fn new() -> (r: Self)
        ensures
            r@ == (TablesView {
                interfaces: Map::empty(),
                routes: Map::empty(),
                routes6: Map::empty(),
                ports: Map::empty(),
                local: None,
                inspect: r@.inspect,
                vips: Map::empty(),
                lb: Map::empty(),
                maglev: Map::empty(),
                maglev_overlay: Map::empty(),
                conntrack: Map::empty(),
                nat: Map::empty(),
                nat_ct: Map::empty(),
                fw_rules: Map::empty(),
                fw_meta: Map::empty(),
                fw_config: None,
                underlay: Map::empty(),
                meter: Map::empty(),
                dhcp_config: None,
                dhcp_meta: Map::empty(),
                neigh_nat: Map::empty(),
                neigh_nat_count: 0,
            }),
            r@.inspect.len == 0,
            r@.inspect.seen == 0,
            r@.inspect.bytes@ == Seq::new(32, |i: int| 0u8),
    {
        Tables {
            interfaces: Table::new(),
            routes: Table::new(),
            routes6: Table::new(),
            ports: Table::new(),
            local: None,
            inspect: InspectEntry { len: 0, seen: 0, bytes: [0u8;32] },
            vips: Table::new(),
            lb: Table::new(),
            maglev: Table::new(),
            maglev_overlay: Table::new(),
            conntrack: Table::new(),
            nat: Table::new(),
            nat_ct: Table::new(),
            fw_rules: Table::new(),
            fw_meta: Table::new(),
            fw_config: None,
            underlay: Table::new(),
            meter: Table::new(),
            dhcp_config: None,
            dhcp_meta: Table::new(),
            neigh_nat: Table::new(),
            neigh_nat_count: 0,
        }
    }

    /// Make one change. Fails, changing nothing, on an IPv4 prefix longer than 32 bits.
    pub fn apply(&mut self, w: &MapWrite) -> (ok: bool)
        ensures
            ok == old(self)@.accepts(*w),
            final(self)@ == old(self)@.after(*w),
    {
        match *w {
            MapWrite::Local(u) => {
                self.local = Some(u);
            },
            MapWrite::Port(k, v) => {
                self.ports.insert(k, v);
            },
            MapWrite::PortRemove(k) => {
                self.ports.remove(&k);
            },
            MapWrite::Iface(k, v) => {
                self.interfaces.insert(k, v);
            },
            MapWrite::IfaceRemove(k) => {
                self.interfaces.remove(&k);
            },
            MapWrite::Route(k, v) => {
                if k.prefix_len > 32 {
                    return false;
                }
                let ipv4 = mask4(&k.ipv4, k.prefix_len);
                self.routes.insert(RouteKey { vni: k.vni, prefix_len: k.prefix_len, ipv4 }, v);
            },
            MapWrite::RouteRemove(k) => {
                if k.prefix_len > 32 {
                    return false;
                }
                let ipv4 = mask4(&k.ipv4, k.prefix_len);
                self.routes.remove(&RouteKey { vni: k.vni, prefix_len: k.prefix_len, ipv4 });
            },
            MapWrite::Vip(k, v) => {
                self.vips.insert(k, v);
            },
            MapWrite::VipRemove(k) => {
                self.vips.remove(&k);
            },
            MapWrite::Lb(k, v) => {
                self.lb.insert(k, v);
            },
            MapWrite::LbRemove(k) => {
                self.lb.remove(&k);
            },
            MapWrite::Maglev(k, v) => {
                self.maglev.insert(k, v);
            },
            MapWrite::MaglevRemove(k) => {
                self.maglev.remove(&k);
            },
            MapWrite::MaglevOverlay(k, v) => {
                self.maglev_overlay.insert(k, v);
            },
            MapWrite::MaglevOverlayRemove(k) => {
                self.maglev_overlay.remove(&k);
            },
            MapWrite::Nat(k, v) => {
                self.nat.insert(k, v);
            },
            MapWrite::NatRemove(k) => {
                self.nat.remove(&k);
            },
            MapWrite::FwRule(k, v) => {
                self.fw_rules.insert(k, v);
            },
            MapWrite::FwRuleRemove(k) => {
                self.fw_rules.remove(&k);
            },
            MapWrite::FwMeta(k, v) => {
                self.fw_meta.insert(k, v);
            },
            MapWrite::FwMetaRemove(k) => {
                self.fw_meta.remove(&k);
            },
            MapWrite::Underlay(k, v) => {
                self.underlay.insert(Addr6(k), v);
            },
            MapWrite::UnderlayRemove(k) => {
                self.underlay.remove(&Addr6(k));
            },
            MapWrite::Meter(k, v) => {
                self.meter.insert(k, v);
            },
            MapWrite::MeterRemove(k) => {
                self.meter.remove(&k);
            },
            MapWrite::NeighborNat(k, v) => {
                self.neigh_nat.insert(k, v);
            },
            MapWrite::NeighborNatCount(n) => {
                self.neigh_nat_count = n;
            },
        }
        true
    }

    /// Make a list of changes in order. Stops at the first that fails; gives how many were made.
    pub fn apply_all(&mut self, ws: &Vec<MapWrite>) -> (n: usize)
        ensures
            n <= ws.len(),
            final(self)@ == old(self)@.after_all(ws@.take(n as int)),
            forall|i: int| 0 <= i < n ==> old(self)@.accepts(#[trigger] ws@[i]),
            n < ws.len() ==> !old(self)@.accepts(ws@[n as int]),
    {
        let mut i: usize = 0;
        while i < ws.len()
            invariant
                i <= ws.len(),
                self@ == old(self)@.after_all(ws@.take(i as int)),
                forall|j: int| 0 <= j < i ==> old(self)@.accepts(#[trigger] ws@[j]),
            decreases ws.len() - i,
        {
            if !self.apply(&ws[i]) {
                return i;
            }
            i = i + 1;
            assert(ws@.take(i as int).drop_last() =~= ws@.take(i - 1));
        }
        i
    }

    /// The IPv4 routes of a VNI, each once, in no particular order.
    pub fn list_routes(&self, vni: u32) -> (r: Vec<(RouteKey, Route)>)
        ensures
            table::keys_distinct(r@),
            table::entries_map(r@) == routes_of(self@.routes, vni),
    {
        let all = self.routes.entries();
        let mut r: Vec<(RouteKey, Route)> = Vec::new();
        let ghost mut from: Seq<int> = Seq::empty();
        let mut i: usize = 0;
        while i < all.len()
            invariant
                i <= all.len(),
                table::keys_distinct(all@),
                table::entries_map(all@) == self@.routes,
                from.len() == r.len(),
                forall|j: int|
                    0 <= j < r.len() ==> 0 <= #[trigger] from[j] < i && r@[j] == all@[from[j]]
                        && r@[j].0.vni == vni,
                forall|a: int, b: int| 0 <= a < b < r.len() ==> #[trigger] from[a] < #[trigger] from[b],
                forall|m: int|
                    0 <= m < i && (#[trigger] all@[m]).0.vni == vni ==> from.contains(m),
            decreases all.len() - i,
        {
            let ghost before = from;
            if all[i].0.vni == vni {
                r.push((all[i].0, all[i].1));
                proof {
                    from = from.push(i as int);
                    assert(from[from.len() - 1] == i);
                }
            }
            assert forall|m: int| 0 <= m < i + 1 && (#[trigger] all@[m]).0.vni
                == vni implies from.contains(m) by {
                if m < i {
                    assert(before.contains(m));
                    let x = choose|x: int| 0 <= x < before.len() && before[x] == m;
                    assert(from[x] == m);
                }
            }
            i = i + 1;
        }
        assert(table::keys_distinct(r@)) by {
            assert forall|a: int, b: int| 0 <= a < r.len() && 0 <= b < r.len() && a != b implies (
            #[trigger] r@[a]).0@ != (#[trigger] r@[b]).0@ by {
                assert(from[a] != from[b]);
                assert(all@[from[a]].0@ != all@[from[b]].0@);
            }
        }
        assert forall|k: RouteKey| #[trigger]
            table::entries_map(r@).contains_key(k) == routes_of(self@.routes, vni).contains_key(k)
                && (table::entries_map(r@).contains_key(k) ==> table::entries_map(r@)[k]
                == routes_of(self@.routes, vni)[k]) by {
            if table::entries_map(r@).contains_key(k) {
                let j = table::position(r@, k);
                assert(table::has_key(r@, k));
                assert(r@[j] == all@[from[j]]);
                table::lemma_entry(r@, j);
                table::lemma_entry(all@, from[j]);
            }
            if routes_of(self@.routes, vni).contains_key(k) {
                let m = table::position(all@, k);
                assert(table::has_key(all@, k));
                assert(all@[m].0.vni == vni);
                assert(from.contains(m));
                let j = choose|x: int| 0 <= x < from.len() && from[x] == m;
                assert(r@[j].0@ == k);
                table::lemma_entry(r@, j);
            }
        }
        assert(table::entries_map(r@) =~= routes_of(self@.routes, vni));
        r
    }

    /// The changes that drop all IPv4 routes of a VNI.
    pub fn reset_vni(&self, vni: u32) -> (r: Vec<MapWrite>)
        ensures
            drops_routes(r@, self@.routes, vni),
    {
        let list = self.list_routes(vni);
        let mut r: Vec<MapWrite> = Vec::new();
        let mut i: usize = 0;
        while i < list.len()
            invariant
                i <= list.len(),
                r.len() == i,
                forall|j: int| 0 <= j < i ==> r@[j] == MapWrite::RouteRemove((#[trigger] list@[j]).0),
            decreases list.len() - i,
        {
            r.push(MapWrite::RouteRemove(list[i].0));
            i = i + 1;
        }
        assert forall|j: int| 0 <= j < r.len() implies (#[trigger] r@[j]) is RouteRemove
            && self@.routes.contains_key(r@[j]->RouteRemove_0) && r@[j]->RouteRemove_0.vni == vni by {
            table::lemma_entry(list@, j);
            assert(r@[j] == MapWrite::RouteRemove(list@[j].0));
        }
        assert forall|k: RouteKey| #[trigger]
            self@.routes.contains_key(k) && k.vni == vni implies r@.contains(
            MapWrite::RouteRemove(k),
        ) by {
            let p = table::position(list@, k);
            assert(routes_of(self@.routes, vni).contains_key(k));
            assert(table::has_key(list@, k));
            assert(r@[p] == MapWrite::RouteRemove(list@[p].0));
        }
        r
    }

    /// The NAT configurations of this host's guests, each once, in no particular order.
    pub fn list_nats(&self) -> (r: Vec<(NatKey, NatValue)>)
        ensures
            table::keys_distinct(r@),
            table::entries_map(r@) == self@.nat,
    {
        self.nat.entries()
    }

    /// Longest-prefix match of an IPv4 destination.
    pub fn route4(&self, vni: u32, dst: &[u8; 4]) -> (r: Option<Route>)
        ensures
            r == longest4(self@.routes, vni, *dst, 32),
    {
        let mut len: u32 = 32;
        while len > 0
            invariant
                len <= 32,
                longest4(self@.routes, vni, *dst, 32) == longest4(
                    self@.routes,
                    vni,
                    *dst,
                    len as nat,
                ),
            decreases len,
        {
            let k = RouteKey { vni, prefix_len: len, ipv4: mask4(dst, len) };
            match self.routes.get(&k) {
                Some(r) => {
                    return Some(r);
                },
                None => {},
            }
            len = len - 1;
        }
        self.routes.get(&RouteKey { vni, prefix_len: 0, ipv4: mask4(dst, 0) })
    }

    /// Longest-prefix match of an IPv6 destination.
    pub fn route6(&self, vni: u32, dst: &[u8; 16]) -> (r: Option<Route>)
        ensures
            r == longest6(self@.routes6, vni, *dst, 128),
    {
        let mut len: u32 = 128;
        while len > 0
            invariant
                len <= 128,
                longest6(self@.routes6, vni, *dst, 128) == longest6(
                    self@.routes6,
                    vni,
                    *dst,
                    len as nat,
                ),
            decreases len,
        {
            let k = RouteKey6 { vni, prefix_len: len, ipv6: mask16(dst, len) };
            match self.routes6.get(&k) {
                Some(r) => {
                    return Some(r);
                },
                None => {},
            }
            len = len - 1;
        }
        self.routes6.get(&RouteKey6 { vni, prefix_len: 0, ipv6: mask16(dst, 0) })
    }
}

/// Longest-prefix match finds the longest prefix: a route is found exactly where some prefix
/// covers the destination, and it is the route of one that no longer prefix beats.
pub proof fn law_longest_prefix_wins(m: Map<RouteKey, Route>, vni: u32, dst: [u8; 4], len: nat)
    requires
        len <= 32,
    ensures
        match longest4(m, vni, dst, len) {
            Some(r) => exists|n: u32|
                n <= len && {
                    let k = #[trigger] canonical(RouteKey { vni, prefix_len: n, ipv4: dst });
                    m.contains_key(k) && m[k] == r && forall|p: u32|
                        n < p <= len ==> !m.contains_key(
                            #[trigger] canonical(RouteKey { vni, prefix_len: p, ipv4: dst }),
                        )
                },
            None => forall|p: u32|
                p <= len ==> !m.contains_key(
                    #[trigger] canonical(RouteKey { vni, prefix_len: p, ipv4: dst }),
                ),
        },
    decreases len,
{
    let here = canonical(RouteKey { vni, prefix_len: len as u32, ipv4: dst });
    if m.contains_key(here) {
    } else if len > 0 {
        law_longest_prefix_wins(m, vni, dst, (len - 1) as nat);
    }
}

/// Tenants are separate: a lookup in one VNI depends on the routes of that VNI alone.
pub proof fn law_routes_are_per_vni(
    m: Map<RouteKey, Route>,
    other: Map<RouteKey, Route>,
    vni: u32,
    dst: [u8; 4],
    len: nat,
)
    requires
        forall|k: RouteKey|
            k.vni == vni ==> #[trigger] m.contains_key(k) == other.contains_key(k) && (
            m.contains_key(k) ==> m[k] == other[k]),
    ensures
        longest4(m, vni, dst, len) == longest4(other, vni, dst, len),
    decreases len,
{
    let k = RouteKey { vni, prefix_len: len as u32, ipv4: parse::prefix4(dst, len as int) };
    assert(m.contains_key(k) == other.contains_key(k));
    if len > 0 {
        law_routes_are_per_vni(m, other, vni, dst, (len - 1) as nat);
    }
}

proof fn lemma_top_bits_twice(b: u8, n: int)
    ensures
        parse::top_bits(parse::top_bits(b, n), n) == parse::top_bits(b, n),
{
}

/// Every change keeps the prefixes free of host bits.
pub proof fn law_routes_stay_canonical(t: TablesView, w: MapWrite)
    requires
        routes_canonical(t.routes),
    ensures
        routes_canonical(t.after(w).routes),
{
    if let MapWrite::Route(k, _) = w {
        let n = k.prefix_len as int;
        lemma_top_bits_twice(k.ipv4[0], n);
        lemma_top_bits_twice(k.ipv4[1], n - 8);
        lemma_top_bits_twice(k.ipv4[2], n - 16);
        lemma_top_bits_twice(k.ipv4[3], n - 24);
        assert(canonical(canonical(k)) == canonical(k));
    }
}

/// Resetting a VNI drops its routes, and no route of another VNI.
pub proof fn law_reset_vni_has_no_routes(t: TablesView, ws: Seq<MapWrite>, vni: u32)
    requires
        routes_canonical(t.routes),
        drops_routes(ws, t.routes, vni),
    ensures
        t.after_all(ws) == (TablesView {
            routes: t.routes.remove_keys(routes_of(t.routes, vni).dom()),
            ..t
        }),
        routes_of(t.after_all(ws).routes, vni) == Map::<RouteKey, Route>::empty(),
        forall|other: u32|
            other != vni ==> #[trigger] routes_of(t.after_all(ws).routes, other) == routes_of(
                t.routes,
                other,
            ),
{
    lemma_drops(t, ws, t.routes, vni);
    let u = t.after_all(ws);
    assert forall|k: RouteKey| u.routes.contains_key(k) == (t.routes.contains_key(k) && k.vni
        != vni) by {
        if t.routes.contains_key(k) && k.vni == vni {
            assert(ws.contains(MapWrite::RouteRemove(k)));
        }
    }
    assert(u =~= TablesView {
        routes: t.routes.remove_keys(routes_of(t.routes, vni).dom()),
        ..t
    });
    assert(routes_of(u.routes, vni) =~= Map::<RouteKey, Route>::empty());
    assert forall|other: u32| other != vni implies #[trigger] routes_of(u.routes, other)
        == routes_of(t.routes, other) by {
        assert(routes_of(u.routes, other) =~= routes_of(t.routes, other));
    }
}

proof fn lemma_drops(t: TablesView, ws: Seq<MapWrite>, m: Map<RouteKey, Route>, vni: u32)
    requires
        routes_canonical(m),
        forall|j: int|
            0 <= j < ws.len() ==> (#[trigger] ws[j]) is RouteRemove && m.contains_key(
                ws[j]->RouteRemove_0,
            ) && ws[j]->RouteRemove_0.vni == vni,
    ensures
        ({
            let u = t.after_all(ws);
            &&& u == (TablesView { routes: u.routes, ..t })
            &&& forall|k: RouteKey|
                #![trigger u.routes.contains_key(k)]
                u.routes.contains_key(k) == (t.routes.contains_key(k) && !ws.contains(
                    MapWrite::RouteRemove(k),
                )) && (u.routes.contains_key(k) ==> u.routes[k] == t.routes[k])
            &&& forall|k: RouteKey|
                k.vni != vni ==> !#[trigger] ws.contains(MapWrite::RouteRemove(k))
        }),
    decreases ws.len(),
{
    if ws.len() > 0 {
        let p = ws.drop_last();
        assert forall|j: int| 0 <= j < p.len() implies (#[trigger] p[j]) is RouteRemove
            && m.contains_key(p[j]->RouteRemove_0) && p[j]->RouteRemove_0.vni == vni by {
            assert(ws[j] is RouteRemove);
        }
        lemma_drops(t, p, m, vni);
        let last = ws[ws.len() - 1]->RouteRemove_0;
        assert(ws.last() == MapWrite::RouteRemove(last));
        assert(canonical(last) == last);
        assert forall|w: MapWrite| #[trigger] ws.contains(w) == (p.contains(w) || w
            == ws.last()) by {
            if ws.contains(w) {
                let j = choose|j: int| 0 <= j < ws.len() && ws[j] == w;
                if j < p.len() {
                    assert(p[j] == w);
                }
            }
            if p.contains(w) {
                let j = choose|j: int| 0 <= j < p.len() && p[j] == w;
                assert(ws[j] == w);
            }
            assert(ws[ws.len() - 1] == ws.last());
        }
    }
}

/// A route key with its host bits cleared.
pub open spec fn canonical6(k: RouteKey6) -> RouteKey6 {
    RouteKey6 {
        vni: k.vni,
        prefix_len: k.prefix_len,
        ipv6: parse::prefix16(k.ipv6, k.prefix_len as int),
    }
}

/// Longest-prefix match finds the longest prefix in the IPv6 overlay too.
pub proof fn law_longest_prefix_wins6(m: Map<RouteKey6, Route>, vni: u32, dst: [u8; 16], len: nat)
    requires
        len <= 128,
    ensures
        match longest6(m, vni, dst, len) {
            Some(r) => exists|n: u32|
                n <= len && {
                    let k = #[trigger] canonical6(RouteKey6 { vni, prefix_len: n, ipv6: dst });
                    m.contains_key(k) && m[k] == r && forall|p: u32|
                        n < p <= len ==> !m.contains_key(
                            #[trigger] canonical6(RouteKey6 { vni, prefix_len: p, ipv6: dst }),
                        )
                },
            None => forall|p: u32|
                p <= len ==> !m.contains_key(
                    #[trigger] canonical6(RouteKey6 { vni, prefix_len: p, ipv6: dst }),
                ),
        },
    decreases len,
{
    let here = canonical6(RouteKey6 { vni, prefix_len: len as u32, ipv6: dst });
    if m.contains_key(here) {
    } else if len > 0 {
        law_longest_prefix_wins6(m, vni, dst, (len - 1) as nat);
    }
}

/// Tenants are separate in the IPv6 overlay too.
pub proof fn law_routes6_are_per_vni(
    m: Map<RouteKey6, Route>,
    other: Map<RouteKey6, Route>,
    vni: u32,
    dst: [u8; 16],
    len: nat,
)
    requires
        forall|k: RouteKey6|
            k.vni == vni ==> #[trigger] m.contains_key(k) == other.contains_key(k) && (
            m.contains_key(k) ==> m[k] == other[k]),
    ensures
        longest6(m, vni, dst, len) == longest6(other, vni, dst, len),
    decreases len,
{
    let k = RouteKey6 { vni, prefix_len: len as u32, ipv6: parse::prefix16(dst, len as int) };
    assert(m.contains_key(k) == other.contains_key(k));
    if len > 0 {
        law_routes6_are_per_vni(m, other, vni, dst, (len - 1) as nat);
    }
}

/// A change changes the one entry it names, in the one table it is for: after it the entry is what was
/// written, or gone where it was removed, and everything else is what it was.
pub proof fn law_change_is_of_one_entry(
    t: TablesView,
    tap: u32,
    other: u32,
    m: MeterState,
    u: Uplink,
    slot: MaglevKey,
    far: [u8; 16],
    near: [u8; 4],
    meta: FwMeta,
)
    requires
        other != tap,
    ensures
        t.after(MapWrite::Local(u)) == (TablesView { local: Some(u), ..t }),
        ({
            let a = t.after(MapWrite::Meter(tap, m));
            let b = a.after(MapWrite::MeterRemove(tap));
            &&& a.meter.contains_pair(tap, m) && !b.meter.contains_key(tap)
            &&& a.meter.get(other) == t.meter.get(other) && b.meter.get(other) == t.meter.get(other)
            &&& b == (TablesView { meter: b.meter, ..t })
        }),
        ({
            let a = t.after(MapWrite::Maglev(slot, far));
            let b = a.after(MapWrite::MaglevRemove(slot));
            &&& a.maglev.contains_pair(slot, far) && !b.maglev.contains_key(slot)
            &&& a.maglev_overlay == t.maglev_overlay
            &&& b == (TablesView { maglev: b.maglev, ..t })
        }),
        ({
            let a = t.after(MapWrite::MaglevOverlay(slot, near));
            let b = a.after(MapWrite::MaglevOverlayRemove(slot));
            &&& a.maglev_overlay.contains_pair(slot, near) && !b.maglev_overlay.contains_key(slot)
            &&& a.maglev == t.maglev
            &&& b == (TablesView { maglev_overlay: b.maglev_overlay, ..t })
        }),
        ({
            let a = t.after(MapWrite::FwMeta(tap, meta));
            let b = a.after(MapWrite::FwMetaRemove(tap));
            &&& a.fw_meta.contains_pair(tap, meta) && !b.fw_meta.contains_key(tap)
            &&& b.fw_meta.get(other) == t.fw_meta.get(other)
            &&& b == (TablesView { fw_meta: b.fw_meta, ..t })
        }),
        ({
            let a = t.after(MapWrite::NeighborNatCount(tap));
            a == (TablesView { neigh_nat_count: tap, ..t })
        }),
{
}

/// Removing an entry that was written leaves the rest as it was, in the tables of ports, interfaces,
/// underlay addresses, services, NAT configurations and rules alike.
pub proof fn law_removal_undoes_a_write(
    t: TablesView,
    tap: u32,
    port: Port,
    ikey: IfaceKey,
    iface: IfaceValue,
    addr: [u8; 16],
    owner: UnderlayValue,
    lkey: LbKey,
    lb: LbValue,
    rkey: FwRuleKey,
    rule: FwRule,
)
    ensures
        !t.ports.contains_key(tap) ==> t.after(MapWrite::Port(tap, port)).ports.contains_pair(
            tap,
            port,
        ) && t.after(MapWrite::Port(tap, port)).after(MapWrite::PortRemove(tap)) == t,
        !t.interfaces.contains_key(ikey) ==> t.after(
            MapWrite::Iface(ikey, iface),
        ).interfaces.contains_pair(ikey, iface) && t.after(MapWrite::Iface(ikey, iface)).after(
            MapWrite::IfaceRemove(ikey),
        ) == t,
        !t.underlay.contains_key(addr) ==> t.after(
            MapWrite::Underlay(addr, owner),
        ).underlay.contains_pair(addr, owner) && t.after(MapWrite::Underlay(addr, owner)).after(
            MapWrite::UnderlayRemove(addr),
        ) == t,
        !t.lb.contains_key(lkey) ==> t.after(MapWrite::Lb(lkey, lb)).lb.contains_pair(lkey, lb)
            && t.after(MapWrite::Lb(lkey, lb)).after(MapWrite::LbRemove(lkey)) == t,
        !t.fw_rules.contains_key(rkey) ==> t.after(
            MapWrite::FwRule(rkey, rule),
        ).fw_rules.contains_pair(rkey, rule) && t.after(MapWrite::FwRule(rkey, rule)).after(
            MapWrite::FwRuleRemove(rkey),
        ) == t,
{
    assert(!t.ports.contains_key(tap) ==> t.ports.insert(tap, port).remove(tap) =~= t.ports);
    assert(!t.interfaces.contains_key(ikey) ==> t.interfaces.insert(ikey, iface).remove(ikey)
        =~= t.interfaces);
    assert(!t.underlay.contains_key(addr) ==> t.underlay.insert(addr, owner).remove(addr)
        =~= t.underlay);
    assert(!t.lb.contains_key(lkey) ==> t.lb.insert(lkey, lb).remove(lkey) =~= t.lb);
    assert(!t.fw_rules.contains_key(rkey) ==> t.fw_rules.insert(rkey, rule).remove(rkey)
        =~= t.fw_rules);
}

} // verus!
