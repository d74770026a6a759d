//! What the control plane's changes mean to the datapath: laws that tie the configuration to the
//! decisions made on packets.

use vstd::prelude::*;

use crate::bytes;
use crate::control;
use crate::control::{Iface, LbView};
use crate::firewall;
use crate::firewall::FwPacket;
use crate::frame::FrameView;
use crate::ingress;
use crate::lb;
use crate::maglev;
use crate::maglev::TABLE_SIZE;
use crate::network_nat;
use crate::parse;
use crate::parse::ETH_LEN;
use crate::tables;
use crate::tables::{MapWrite, TablesView};
use crate::types::{
    FwRule, FwRuleKey, IfaceKey, LbKey, LbValue, MaglevKey, NatKey, NatValue, NeighborNatEntry,
    Route, RouteKey, RouteKey6, UnderlayValue, VipKey, FW_ACTION_ACCEPT, FW_ACTION_DROP,
    FW_DIR_EGRESS, FW_DIR_INGRESS, FW_MAX_RULES, NB_MAX_ENTRIES,
};

verus! {

proof fn lemma_push(t: TablesView, ws: Seq<MapWrite>, w: MapWrite)
    ensures
        t.after_all(ws.push(w)) == t.after_all(ws).after(w),
{
    assert(ws.push(w).drop_last() =~= ws);
}

proof fn lemma_concat(t: TablesView, a: Seq<MapWrite>, b: Seq<MapWrite>)
    ensures
        t.after_all(a + b) == t.after_all(a).after_all(b),
    decreases b.len(),
{
    if b.len() == 0 {
        assert(a + b =~= a);
    } else {
        assert((a + b).drop_last() =~= a + b.drop_last());
        lemma_concat(t, a, b.drop_last());
    }
}

proof fn lemma_one(t: TablesView, w: MapWrite)
    ensures
        t.after_all(seq![w]) == t.after(w),
{
    assert(seq![w].drop_last() =~= Seq::<MapWrite>::empty());
    assert(t.after_all(Seq::<MapWrite>::empty()) == t);
}

proof fn lemma_two(t: TablesView, v: MapWrite, w: MapWrite)
    ensures
        t.after_all(seq![v, w]) == t.after(v).after(w),
{
    assert(seq![v, w].drop_last() =~= seq![v]);
    lemma_one(t, v);
}

/// A VIP that was created is there in both directions, and once deleted it is gone in both; the
/// mappings of other addresses are what they were throughout.
pub proof fn law_vip_comes_and_goes(t: TablesView, vni: u32, guest: [u8; 4], vip: [u8; 4])
    ensures
        ({
            let u = t.after_all(control::vip_writes(vni, guest, vip));
            let v = u.after_all(control::vip_removals(u, vni, guest));
            let g = VipKey { vni, ipv4: guest };
            let w = VipKey { vni, ipv4: vip };
            &&& u.vips.get(g) == Some(vip)
            &&& u.vips.get(w) == Some(guest)
            &&& !v.vips.contains_key(g)
            &&& !v.vips.contains_key(w)
            &&& forall|k: VipKey| k != g && k != w ==> #[trigger] v.vips.get(k) == t.vips.get(k)
        }),
{
    let g = VipKey { vni, ipv4: guest };
    let w = VipKey { vni, ipv4: vip };
    lemma_two(t, MapWrite::Vip(g, vip), MapWrite::Vip(w, guest));
    let u = t.after_all(control::vip_writes(vni, guest, vip));
    lemma_two(u, MapWrite::VipRemove(w), MapWrite::VipRemove(g));
}

/// A NAT configuration that was set is in force, and once deleted it is gone.
pub proof fn law_nat_comes_and_goes(t: TablesView, key: NatKey, value: NatValue)
    ensures
        ({
            let u = t.after_all(seq![MapWrite::Nat(key, value)]);
            let v = u.after_all(seq![MapWrite::NatRemove(key)]);
            &&& u.nat.get(key) == Some(value)
            &&& !v.nat.contains_key(key)
            &&& forall|k: NatKey| k != key ==> #[trigger] v.nat.get(k) == t.nat.get(k)
        }),
{
    lemma_one(t, MapWrite::Nat(key, value));
    lemma_one(t.after(MapWrite::Nat(key, value)), MapWrite::NatRemove(key));
}

proof fn lemma_longest_found(
    m: Map<RouteKey, Route>,
    vni: u32,
    dst: [u8; 4],
    n: u32,
    len: nat,
)
    requires
        n <= len <= 32,
        m.contains_key(tables::canonical(RouteKey { vni, prefix_len: n, ipv4: dst })),
        forall|p: u32|
            n < p <= len ==> !m.contains_key(
                #[trigger] tables::canonical(RouteKey { vni, prefix_len: p, ipv4: dst }),
            ),
    ensures
        tables::longest4(m, vni, dst, len) == Some(
            m[tables::canonical(RouteKey { vni, prefix_len: n, ipv4: dst })],
        ),
    decreases len - n,
{
    if n < len {
        assert(!m.contains_key(
            tables::canonical(RouteKey { vni, prefix_len: len as u32, ipv4: dst }),
        ));
        lemma_longest_found(m, vni, dst, n, (len - 1) as nat);
    }
}

/// A route that was entered is taken: every destination that its prefix covers, and that no longer
/// prefix of the VNI covers, is sent to its nexthop.
pub proof fn law_route_is_taken(
    t: TablesView,
    vni: u32,
    ipv4: [u8; 4],
    prefix_len: u32,
    nexthop: [u8; 16],
    is_external: bool,
    dst: [u8; 4],
)
    requires
        prefix_len <= 32,
        firewall::covers(ipv4, prefix_len, dst),
        forall|p: u32|
            prefix_len < p <= 32 ==> !t.routes.contains_key(
                #[trigger] tables::canonical(RouteKey { vni, prefix_len: p, ipv4: dst }),
            ),
    ensures
        ({
            let u = t.after_all(
                seq![control::route_write(vni, ipv4, prefix_len, nexthop, is_external)],
            );
            &&& tables::longest4(u.routes, vni, dst, 32) matches Some(route)
            &&& route.value.nexthop_ipv6 == nexthop
            &&& route.is_external == is_external
        }),
{
    let w = control::route_write(vni, ipv4, prefix_len, nexthop, is_external);
    lemma_one(t, w);
    let u = t.after(w);
    let k = tables::canonical(RouteKey { vni, prefix_len, ipv4: dst });
    assert(k == tables::canonical(RouteKey { vni, prefix_len, ipv4 }));
    assert forall|p: u32| prefix_len < p <= 32 implies !u.routes.contains_key(
        #[trigger] tables::canonical(RouteKey { vni, prefix_len: p, ipv4: dst }),
    ) by {
        let q = tables::canonical(RouteKey { vni, prefix_len: p, ipv4: dst });
        assert(q.prefix_len != k.prefix_len);
    }
    lemma_longest_found(u.routes, vni, dst, prefix_len, 32);
}

/// A route that was entered is listed in its VNI, and once deleted it is not; the routes listed in
/// other VNIs are what they were throughout.
pub proof fn law_route_comes_and_goes(
    t: TablesView,
    vni: u32,
    ipv4: [u8; 4],
    prefix_len: u32,
    nexthop: [u8; 16],
    is_external: bool,
    other: u32,
)
    requires
        prefix_len <= 32,
        other != vni,
    ensures
        ({
            let w = control::route_write(vni, ipv4, prefix_len, nexthop, is_external);
            let key = RouteKey { vni, prefix_len, ipv4 };
            let u = t.after_all(seq![w]);
            let v = u.after_all(seq![MapWrite::RouteRemove(key)]);
            &&& tables::routes_of(u.routes, vni).contains_key(tables::canonical(key))
            &&& !tables::routes_of(v.routes, vni).contains_key(tables::canonical(key))
            &&& tables::routes_of(u.routes, other) == tables::routes_of(t.routes, other)
            &&& tables::routes_of(v.routes, other) == tables::routes_of(t.routes, other)
        }),
{
    let w = control::route_write(vni, ipv4, prefix_len, nexthop, is_external);
    let r = MapWrite::RouteRemove(RouteKey { vni, prefix_len, ipv4 });
    lemma_one(t, w);
    lemma_one(t.after(w), r);
    assert(tables::routes_of(t.after(w).routes, other) =~= tables::routes_of(t.routes, other));
    assert(tables::routes_of(t.after(w).after(r).routes, other) =~= tables::routes_of(
        t.routes,
        other,
    ));
}

/// Withdrawing a prefix undoes announcing it: where its route was not there before, the routes are
/// what they were.
pub proof fn law_prefix_comes_and_goes(
    t: TablesView,
    vni: u32,
    prefix: [u8; 4],
    prefix_len: u32,
    underlay: [u8; 16],
)
    requires
        prefix_len <= 32,
        !t.routes.contains_key(
            tables::canonical(RouteKey { vni, prefix_len, ipv4: prefix }),
        ),
    ensures
        t.after_all(
            seq![control::route_write(vni, prefix, prefix_len, underlay, false)],
        ).after_all(
            seq![MapWrite::RouteRemove(RouteKey { vni, prefix_len, ipv4: prefix })],
        ) == t,
{
    let w = control::route_write(vni, prefix, prefix_len, underlay, false);
    lemma_one(t, w);
    let r = MapWrite::RouteRemove(RouteKey { vni, prefix_len, ipv4: prefix });
    lemma_one(t.after(w), r);
    assert(t.after(w).after(r) =~= t);
}

/// The first matching rule of direction `dir` in a list, from `i` on.
pub open spec fn first_in_list(
    list: Seq<(Seq<u8>, FwRule)>,
    i: nat,
    dir: u8,
    p: FwPacket,
) -> u8
    decreases list.len() - i,
{
    if i >= list.len() {
        FW_ACTION_DROP
    } else if list[i as int].1.direction == dir && firewall::matches_rule(list[i as int].1, p) {
        list[i as int].1.action
    } else {
        first_in_list(list, i + 1, dir, p)
    }
}

proof fn lemma_rule_removals(t: TablesView, ifindex: u32, n: nat)
    requires
        n <= FW_MAX_RULES,
    ensures
        ({
            let u = t.after_all(control::rule_removals(ifindex, n));
            &&& u == (TablesView { fw_rules: u.fw_rules, ..t })
            &&& forall|k: FwRuleKey|
                #![trigger u.fw_rules.contains_key(k)]
                if k.ifindex == ifindex && k.idx < n {
                    !u.fw_rules.contains_key(k)
                } else {
                    u.fw_rules.contains_key(k) == t.fw_rules.contains_key(k) && u.fw_rules[k]
                        == t.fw_rules[k]
                }
        }),
    decreases n,
{
    let ws = control::rule_removals(ifindex, n);
    if n > 0 {
        let m = (n - 1) as nat;
        lemma_rule_removals(t, ifindex, m);
        let last = MapWrite::FwRuleRemove(FwRuleKey { ifindex, idx: m as u32 });
        assert(ws =~= control::rule_removals(ifindex, m).push(last));
        lemma_push(t, control::rule_removals(ifindex, m), last);
    } else {
        assert(ws =~= Seq::<MapWrite>::empty());
    }
}

proof fn lemma_rule_writes(t: TablesView, ifindex: u32, list: Seq<(Seq<u8>, FwRule)>, n: nat)
    requires
        n <= list.len() <= FW_MAX_RULES,
    ensures
        ({
            let u = t.after_all(control::rule_writes(ifindex, list, n));
            &&& u == (TablesView { fw_rules: u.fw_rules, ..t })
            &&& forall|k: FwRuleKey|
                #![trigger u.fw_rules.contains_key(k)]
                if k.ifindex == ifindex && k.idx < n {
                    u.fw_rules.contains_key(k) && u.fw_rules[k] == list[k.idx as int].1
                } else {
                    u.fw_rules.contains_key(k) == t.fw_rules.contains_key(k) && u.fw_rules[k]
                        == t.fw_rules[k]
                }
        }),
    decreases n,
{
    let ws = control::rule_writes(ifindex, list, n);
    if n > 0 {
        let m = (n - 1) as nat;
        lemma_rule_writes(t, ifindex, list, m);
        let last = MapWrite::FwRule(FwRuleKey { ifindex, idx: m as u32 }, list[m as int].1);
        assert(ws =~= control::rule_writes(ifindex, list, m).push(last));
        lemma_push(t, control::rule_writes(ifindex, list, m), last);
    } else {
        assert(ws =~= Seq::<MapWrite>::empty());
    }
}

/// The tables after a tap's rules were programmed.
proof fn lemma_firewall_writes(t: TablesView, ifindex: u32, list: Seq<(Seq<u8>, FwRule)>)
    requires
        list.len() <= FW_MAX_RULES,
    ensures
        ({
            let u = t.after_all(control::firewall_writes(ifindex, list));
            &&& u == (TablesView {
                fw_rules: u.fw_rules,
                fw_meta: t.fw_meta.insert(ifindex, control::counts(list)),
                ..t
            })
            &&& forall|k: FwRuleKey|
                #![trigger u.fw_rules.contains_key(k)]
                if k.ifindex == ifindex && k.idx < FW_MAX_RULES {
                    if k.idx < list.len() {
                        u.fw_rules.contains_key(k) && u.fw_rules[k] == list[k.idx as int].1
                    } else {
                        !u.fw_rules.contains_key(k)
                    }
                } else {
                    u.fw_rules.contains_key(k) == t.fw_rules.contains_key(k) && u.fw_rules[k]
                        == t.fw_rules[k]
                }
        }),
{
    let a = control::rule_removals(ifindex, FW_MAX_RULES as nat);
    let b = control::rule_writes(ifindex, list, list.len());
    let t1 = t.after_all(a);
    let t2 = t1.after_all(b);
    lemma_rule_removals(t, ifindex, FW_MAX_RULES as nat);
    lemma_rule_writes(t1, ifindex, list, list.len());
    lemma_concat(t, a, b);
    lemma_push(t, a + b, MapWrite::FwMeta(ifindex, control::counts(list)));
    let u = t.after_all(control::firewall_writes(ifindex, list));
    assert(u == t2.after(MapWrite::FwMeta(ifindex, control::counts(list))));
    assert(u.fw_rules == t2.fw_rules);
    assert(u == (TablesView {
        fw_rules: u.fw_rules,
        fw_meta: t.fw_meta.insert(ifindex, control::counts(list)),
        ..t
    }));
    assert forall|k: FwRuleKey|
        #![trigger u.fw_rules.contains_key(k)]
        if k.ifindex == ifindex && k.idx < FW_MAX_RULES {
            if k.idx < list.len() {
                u.fw_rules.contains_key(k) && u.fw_rules[k] == list[k.idx as int].1
            } else {
                !u.fw_rules.contains_key(k)
            }
        } else {
            u.fw_rules.contains_key(k) == t.fw_rules.contains_key(k) && u.fw_rules[k]
                == t.fw_rules[k]
        } by {
        assert(t2.fw_rules.contains_key(k) == u.fw_rules.contains_key(k));
        assert(t1.fw_rules.contains_key(k) || !t1.fw_rules.contains_key(k));
    }
}

proof fn lemma_first_action_is_first_in_list(
    u: TablesView,
    ifindex: u32,
    list: Seq<(Seq<u8>, FwRule)>,
    i: nat,
    dir: u8,
    p: FwPacket,
)
    requires
        list.len() <= FW_MAX_RULES,
        forall|k: FwRuleKey|
            #![trigger u.fw_rules.contains_key(k)]
            k.ifindex == ifindex && k.idx < FW_MAX_RULES ==> if k.idx < list.len() {
                u.fw_rules.contains_key(k) && u.fw_rules[k] == list[k.idx as int].1
            } else {
                !u.fw_rules.contains_key(k)
            },
    ensures
        firewall::first_action(u.fw_rules, ifindex, i, dir, p) == first_in_list(list, i, dir, p),
    decreases FW_MAX_RULES - i,
{
    if i < FW_MAX_RULES {
        let k = FwRuleKey { ifindex, idx: i as u32 };
        assert(u.fw_rules.contains_key(k) == (i < list.len()));
        if i < list.len() {
            assert(u.fw_rules[k] == list[i as int].1);
        }
        lemma_first_action_is_first_in_list(u, ifindex, list, i + 1, dir, p);
    }
}

/// The firewall does what the list of rules says: after a tap's rules were programmed, a packet is
/// accepted where the list has none for the direction, and else the first rule of the list that
/// matches decides, dropping where none does. Other taps are not affected.
pub proof fn law_firewall_follows_the_list(
    t: TablesView,
    ifindex: u32,
    list: Seq<(Seq<u8>, FwRule)>,
    f: Seq<u8>,
    ip: int,
    dir: u8,
    other: u32,
)
    requires
        list.len() <= FW_MAX_RULES,
        ip + 20 <= f.len(),
        other != ifindex,
    ensures
        ({
            let u = t.after_all(control::firewall_writes(ifindex, list));
            &&& firewall::action(f, ip, u, ifindex, dir) == (if firewall::rule_count(
                control::counts(list),
                dir,
            ) == 0 {
                FW_ACTION_ACCEPT
            } else {
                first_in_list(list, 0, dir, firewall::seen(f, ip))
            })
            &&& firewall::action(f, ip, u, other, dir) == firewall::action(f, ip, t, other, dir)
        }),
{
    let u = t.after_all(control::firewall_writes(ifindex, list));
    lemma_firewall_writes(t, ifindex, list);
    let p = firewall::seen(f, ip);
    lemma_first_action_is_first_in_list(u, ifindex, list, 0, dir, p);
    lemma_other_tap(t, u, other, 0, dir, p);
}

proof fn lemma_other_tap(
    t: TablesView,
    u: TablesView,
    other: u32,
    i: nat,
    dir: u8,
    p: FwPacket,
)
    requires
        forall|k: FwRuleKey|
            #![trigger u.fw_rules.contains_key(k)]
            k.ifindex == other ==> u.fw_rules.contains_key(k) == t.fw_rules.contains_key(k)
                && u.fw_rules[k] == t.fw_rules[k],
    ensures
        firewall::first_action(u.fw_rules, other, i, dir, p) == firewall::first_action(
            t.fw_rules,
            other,
            i,
            dir,
            p,
        ),
    decreases FW_MAX_RULES - i,
{
    if i < FW_MAX_RULES {
        let k = FwRuleKey { ifindex: other, idx: i as u32 };
        assert(u.fw_rules.contains_key(k) == t.fw_rules.contains_key(k));
        lemma_other_tap(t, u, other, i + 1, dir, p);
    }
}

/// A rule that was added is found under its identifier, one that was removed is not, and neither
/// changes what is found under another identifier.
pub proof fn law_rules_come_and_go(
    list: Seq<(Seq<u8>, FwRule)>,
    id: Seq<u8>,
    rule: FwRule,
    other: Seq<u8>,
)
    requires
        other != id,
    ensures
        ({
            let more = control::with_rule(list, id, rule);
            &&& control::rule_at(more, id, 0) matches Some(i) && more[i].1 == rule
            &&& control::rule_at(control::without_rule(list, id), id, 0) is None
            &&& found(more, other) == found(list, other)
            &&& found(control::without_rule(list, id), other) == found(list, other)
        }),
{
    lemma_with_rule(list, id, rule);
    lemma_with_rule_other(list, id, rule, other);
    lemma_without_rule(list, id, other);
}

/// Replacing a rule keeps the list's length, identifiers and order, and changes no other rule. So a
/// full list takes it.
pub proof fn law_replacement_keeps_the_list(
    list: Seq<(Seq<u8>, FwRule)>,
    id: Seq<u8>,
    rule: FwRule,
)
    requires
        control::rule_at(list, id, 0) is Some,
    ensures
        ({
            let at = control::rule_at(list, id, 0)->Some_0;
            let new = control::with_rule(list, id, rule);
            &&& new.len() == list.len()
            &&& 0 <= at < list.len()
            &&& new[at] == (id, rule)
            &&& forall|i: int| 0 <= i < list.len() ==> (#[trigger] new[i]).0 == list[i].0
            &&& forall|i: int| 0 <= i < list.len() && i != at ==> #[trigger] new[i] == list[i]
        }),
{
    lemma_rule_at(list, id, 0);
}

/// The rule found under an identifier.
pub open spec fn found(list: Seq<(Seq<u8>, FwRule)>, id: Seq<u8>) -> Option<FwRule> {
    match control::rule_at(list, id, 0) {
        Some(i) => Some(list[i].1),
        None => None,
    }
}

proof fn lemma_rule_at(list: Seq<(Seq<u8>, FwRule)>, id: Seq<u8>, i: nat)
    requires
        i <= list.len(),
    ensures
        match control::rule_at(list, id, i) {
            Some(j) => i <= j < list.len() && list[j].0 == id && forall|k: int|
                i <= k < j ==> (#[trigger] list[k]).0 != id,
            None => forall|k: int| i <= k < list.len() ==> (#[trigger] list[k]).0 != id,
        },
    decreases list.len() - i,
{
    if i < list.len() && list[i as int].0 != id {
        lemma_rule_at(list, id, i + 1);
    }
}

/// Where the first rule of an identifier stands.
proof fn lemma_rule_at_is(list: Seq<(Seq<u8>, FwRule)>, id: Seq<u8>, j: int)
    requires
        0 <= j < list.len(),
        list[j].0 == id,
        forall|k: int| 0 <= k < j ==> (#[trigger] list[k]).0 != id,
    ensures
        control::rule_at(list, id, 0) == Some(j),
{
    lemma_rule_at(list, id, 0);
    match control::rule_at(list, id, 0) {
        Some(i) => {
            if i < j {
                assert(list[i].0 != id);
            }
        },
        None => {
            assert(list[j].0 != id);
        },
    }
}

proof fn lemma_with_rule(list: Seq<(Seq<u8>, FwRule)>, id: Seq<u8>, rule: FwRule)
    ensures
        control::rule_at(control::with_rule(list, id, rule), id, 0) matches Some(i)
            && control::with_rule(list, id, rule)[i].1 == rule,
{
    let more = control::with_rule(list, id, rule);
    lemma_rule_at(list, id, 0);
    match control::rule_at(list, id, 0) {
        Some(j) => {
            assert forall|k: int| 0 <= k < j implies (#[trigger] more[k]).0 != id by {
                assert(list[k].0 != id);
            }
            lemma_rule_at_is(more, id, j);
        },
        None => {
            assert forall|k: int| 0 <= k < list.len() implies (#[trigger] more[k]).0 != id by {
                assert(list[k].0 != id);
            }
            lemma_rule_at_is(more, id, list.len() as int);
        },
    }
}

proof fn lemma_with_rule_other(
    list: Seq<(Seq<u8>, FwRule)>,
    id: Seq<u8>,
    rule: FwRule,
    other: Seq<u8>,
)
    requires
        other != id,
    ensures
        found(control::with_rule(list, id, rule), other) == found(list, other),
{
    let more = control::with_rule(list, id, rule);
    lemma_rule_at(list, id, 0);
    lemma_rule_at(list, other, 0);
    lemma_rule_at(more, other, 0);
    match control::rule_at(list, other, 0) {
        Some(j) => {
            assert(more[j] == list[j]);
            assert forall|k: int| 0 <= k < j implies (#[trigger] more[k]).0 != other by {
                assert(list[k].0 != other);
            }
            lemma_rule_at_is(more, other, j);
        },
        None => {
            match control::rule_at(more, other, 0) {
                Some(j) => {
                    if j < list.len() {
                        assert(list[j].0 != other);
                    }
                },
                None => {},
            }
        },
    }
}

proof fn lemma_without_rule(list: Seq<(Seq<u8>, FwRule)>, id: Seq<u8>, other: Seq<u8>)
    requires
        other != id,
    ensures
        forall|k: int|
            0 <= k < control::without_rule(list, id).len() ==> (#[trigger] control::without_rule(
                list,
                id,
            )[k]).0 != id,
        control::rule_at(control::without_rule(list, id), id, 0) is None,
        found(control::without_rule(list, id), other) == found(list, other),
    decreases list.len(),
{
    let fewer = control::without_rule(list, id);
    if list.len() > 0 {
        let p = list.drop_last();
        let rest = control::without_rule(p, id);
        lemma_without_rule(p, id, other);
        lemma_found_push(p, list.last(), other);
        assert(p.push(list.last()) =~= list);
        lemma_found_push(rest, list.last(), other);
    }
    lemma_rule_at(fewer, id, 0);
}

/// A rule at the end is found only where none before it has the identifier.
proof fn lemma_found_push(
    list: Seq<(Seq<u8>, FwRule)>,
    e: (Seq<u8>, FwRule),
    id: Seq<u8>,
)
    ensures
        found(list.push(e), id) == (match found(list, id) {
            Some(r) => Some(r),
            None => if e.0 == id {
                Some(e.1)
            } else {
                None
            },
        }),
{
    let more = list.push(e);
    lemma_rule_at(list, id, 0);
    lemma_rule_at(more, id, 0);
    match control::rule_at(list, id, 0) {
        Some(j) => {
            assert forall|k: int| 0 <= k < j implies (#[trigger] more[k]).0 != id by {
                assert(list[k].0 != id);
            }
            assert(more[j] == list[j]);
            lemma_rule_at_is(more, id, j);
        },
        None => {
            assert forall|k: int| 0 <= k < list.len() implies (#[trigger] more[k]).0 != id by {
                assert(list[k].0 != id);
            }
            if e.0 == id {
                lemma_rule_at_is(more, id, list.len() as int);
            }
        },
    }
}

proof fn lemma_service_writes(t: TablesView, lb: LbView, n: nat)
    requires
        n <= lb.ports.len(),
    ensures
        ({
            let u = t.after_all(control::service_writes(lb, n));
            &&& u == (TablesView { lb: u.lb, ..t })
            &&& forall|i: int|
                0 <= i < n ==> u.lb.get(#[trigger] control::service_key(lb, i)) == Some(
                    LbValue { table_id: lb.table_id, size: TABLE_SIZE },
                )
        }),
    decreases n,
{
    let ws = control::service_writes(lb, n);
    if n > 0 {
        let m = (n - 1) as nat;
        lemma_service_writes(t, lb, m);
        let last = MapWrite::Lb(
            control::service_key(lb, m as int),
            LbValue { table_id: lb.table_id, size: TABLE_SIZE },
        );
        assert(ws =~= control::service_writes(lb, m).push(last));
        lemma_push(t, control::service_writes(lb, m), last);
    } else {
        assert(ws =~= Seq::<MapWrite>::empty());
    }
}

proof fn lemma_slot_writes(t: TablesView, table_id: u32, backends: Seq<[u8; 16]>, n: nat)
    requires
        n <= TABLE_SIZE,
    ensures
        ({
            let u = t.after_all(control::slot_writes(table_id, backends, n));
            let table = maglev::table_of(maglev::hashes16(backends));
            &&& u == (TablesView { maglev: u.maglev, ..t })
            &&& forall|k: MaglevKey|
                #![trigger u.maglev.get(k)]
                u.maglev.get(k) == if k.table_id == table_id && k.slot < n {
                    Some(backends[table[k.slot as int] as int])
                } else {
                    t.maglev.get(k)
                }
        }),
    decreases n,
{
    let ws = control::slot_writes(table_id, backends, n);
    if n > 0 {
        let m = (n - 1) as nat;
        lemma_slot_writes(t, table_id, backends, m);
        let last = control::slot_write(table_id, backends, m as int);
        assert(ws =~= control::slot_writes(table_id, backends, m).push(last));
        lemma_push(t, control::slot_writes(table_id, backends, m), last);
        let u = t.after_all(ws);
        let p = t.after_all(control::slot_writes(table_id, backends, m));
        let table = maglev::table_of(maglev::hashes16(backends));
        assert forall|k: MaglevKey|
            #![trigger u.maglev.get(k)]
            u.maglev.get(k) == if k.table_id == table_id && k.slot < n {
                Some(backends[table[k.slot as int] as int])
            } else {
                t.maglev.get(k)
            } by {
            assert(p.maglev.get(k) == p.maglev.get(k));
        }
    } else {
        assert(ws =~= Seq::<MapWrite>::empty());
    }
}

proof fn lemma_overlay_slot_writes(t: TablesView, table_id: u32, backends: Seq<[u8; 4]>, n: nat)
    requires
        n <= TABLE_SIZE,
    ensures
        ({
            let u = t.after_all(control::overlay_slot_writes(table_id, backends, n));
            let table = maglev::table_of(maglev::hashes4(backends));
            &&& u == (TablesView { maglev_overlay: u.maglev_overlay, ..t })
            &&& forall|k: MaglevKey|
                #![trigger u.maglev_overlay.get(k)]
                u.maglev_overlay.get(k) == if k.table_id == table_id && k.slot < n {
                    Some(backends[table[k.slot as int] as int])
                } else {
                    t.maglev_overlay.get(k)
                }
        }),
    decreases n,
{
    let ws = control::overlay_slot_writes(table_id, backends, n);
    if n > 0 {
        let m = (n - 1) as nat;
        lemma_overlay_slot_writes(t, table_id, backends, m);
        let last = control::overlay_slot_write(table_id, backends, m as int);
        assert(ws =~= control::overlay_slot_writes(table_id, backends, m).push(last));
        lemma_push(t, control::overlay_slot_writes(table_id, backends, m), last);
        let u = t.after_all(ws);
        let p = t.after_all(control::overlay_slot_writes(table_id, backends, m));
        let table = maglev::table_of(maglev::hashes4(backends));
        assert forall|k: MaglevKey|
            #![trigger u.maglev_overlay.get(k)]
            u.maglev_overlay.get(k) == if k.table_id == table_id && k.slot < n {
                Some(backends[table[k.slot as int] as int])
            } else {
                t.maglev_overlay.get(k)
            } by {
            assert(p.maglev_overlay.get(k) == p.maglev_overlay.get(k));
        }
    } else {
        assert(ws =~= Seq::<MapWrite>::empty());
    }
}

/// A load balancer serves its backends: once its services and then a list of backends are
/// programmed, every packet to one of its services is forwarded, and to one of these backends.
pub proof fn law_lb_serves_its_backends(
    t: TablesView,
    lb: LbView,
    backends: Seq<[u8; 16]>,
    f: Seq<u8>,
    ip: int,
    i: int,
)
    requires
        0 <= i < lb.ports.len(),
        backends.len() > 0,
        lb::service_of(f, ip, lb.vni) == Some(control::service_key(lb, i)),
    ensures
        ({
            let u = t.after_all(control::lb_writes(lb)).after_all(
                control::slot_writes(lb.table_id, backends, TABLE_SIZE as nat),
            );
            &&& lb::forward_to(f, ip, u, lb.vni) matches Some(b)
            &&& backends.contains(b)
        }),
{
    lemma_services_in_force(t, lb, i);
    let t1 = t.after_all(control::lb_writes(lb));
    lemma_slot_writes(t1, lb.table_id, backends, TABLE_SIZE as nat);
    let u = t1.after_all(control::slot_writes(lb.table_id, backends, TABLE_SIZE as nat));
    let hashes = maglev::hashes16(backends);
    maglev::law_every_slot_has_a_backend(hashes);
    let slot = lb::packet_hash(f, ip) % TABLE_SIZE;
    let k = MaglevKey { table_id: lb.table_id, slot };
    assert(lb::slot_of(f, ip, u, lb.vni) == Some(k));
    assert(maglev::table_of(hashes)[slot as int] < backends.len());
    assert(u.maglev.get(k) == Some(backends[maglev::table_of(hashes)[slot as int] as int]));
}

/// The same for overlay backends: every packet to one of the services is delivered to one of them.
pub proof fn law_lb_serves_its_overlay_backends(
    t: TablesView,
    lb: LbView,
    backends: Seq<[u8; 4]>,
    f: Seq<u8>,
    ip: int,
    i: int,
)
    requires
        0 <= i < lb.ports.len(),
        backends.len() > 0,
        lb::service_of(f, ip, lb.vni) == Some(control::service_key(lb, i)),
    ensures
        ({
            let u = t.after_all(control::lb_writes(lb)).after_all(
                control::overlay_slot_writes(lb.table_id, backends, TABLE_SIZE as nat),
            );
            &&& lb::deliver_to(f, ip, u, lb.vni) matches Some(b)
            &&& backends.contains(b)
        }),
{
    lemma_services_in_force(t, lb, i);
    let t1 = t.after_all(control::lb_writes(lb));
    lemma_overlay_slot_writes(t1, lb.table_id, backends, TABLE_SIZE as nat);
    let u = t1.after_all(control::overlay_slot_writes(lb.table_id, backends, TABLE_SIZE as nat));
    let hashes = maglev::hashes4(backends);
    maglev::law_every_slot_has_a_backend(hashes);
    let slot = lb::packet_hash(f, ip) % TABLE_SIZE;
    let k = MaglevKey { table_id: lb.table_id, slot };
    assert(lb::slot_of(f, ip, u, lb.vni) == Some(k));
    assert(maglev::table_of(hashes)[slot as int] < backends.len());
    assert(u.maglev_overlay.get(k) == Some(
        backends[maglev::table_of(hashes)[slot as int] as int],
    ));
}

proof fn lemma_services_in_force(t: TablesView, lb: LbView, i: int)
    requires
        0 <= i < lb.ports.len(),
    ensures
        t.after_all(control::lb_writes(lb)).lb.get(control::service_key(lb, i)) == Some(
            LbValue { table_id: lb.table_id, size: TABLE_SIZE },
        ),
{
    lemma_service_writes(t, lb, lb.ports.len());
    lemma_push(
        t,
        control::service_writes(lb, lb.ports.len()),
        MapWrite::Underlay(
            lb.lb_underlay,
            UnderlayValue { vni: lb.vni, tap_ifindex: 0, guest_mac: [0u8, 0, 0, 0, 0, 0] },
        ),
    );
}

/// Programming one load balancer's Maglev table leaves those of all others alone.
pub proof fn law_lb_tables_are_separate(
    t: TablesView,
    table_id: u32,
    backends: Seq<[u8; 16]>,
    overlay_backends: Seq<[u8; 4]>,
    k: MaglevKey,
)
    requires
        k.table_id != table_id,
    ensures
        t.after_all(
            control::slot_writes(table_id, backends, TABLE_SIZE as nat),
        ).maglev.get(k) == t.maglev.get(k),
        t.after_all(
            control::overlay_slot_writes(table_id, overlay_backends, TABLE_SIZE as nat),
        ).maglev_overlay.get(k) == t.maglev_overlay.get(k),
{
    lemma_slot_writes(t, table_id, backends, TABLE_SIZE as nat);
    lemma_overlay_slot_writes(t, table_id, overlay_backends, TABLE_SIZE as nat);
}

proof fn lemma_removals_keep_lb_gone(t: TablesView, ws: Seq<MapWrite>, k: LbKey)
    requires
        !t.lb.contains_key(k),
        forall|i: int| 0 <= i < ws.len() ==> !((#[trigger] ws[i]) is Lb),
    ensures
        !t.after_all(ws).lb.contains_key(k),
    decreases ws.len(),
{
    if ws.len() > 0 {
        let p = ws.drop_last();
        assert forall|i: int| 0 <= i < p.len() implies !((#[trigger] p[i]) is Lb) by {
            assert(p[i] == ws[i]);
        }
        lemma_removals_keep_lb_gone(t, p, k);
        assert(!(ws[ws.len() - 1] is Lb));
    }
}

proof fn lemma_service_removals(t: TablesView, lb: LbView, n: nat, i: int)
    requires
        0 <= i < n <= lb.ports.len(),
    ensures
        !t.after_all(control::service_removals(lb, n)).lb.contains_key(control::service_key(lb, i)),
    decreases n,
{
    let m = (n - 1) as nat;
    let last = MapWrite::LbRemove(control::service_key(lb, m as int));
    assert(control::service_removals(lb, n) =~= control::service_removals(lb, m).push(last));
    lemma_push(t, control::service_removals(lb, m), last);
    if i < m {
        lemma_service_removals(t, lb, m, i);
    }
}

/// A load balancer that was deleted serves nobody: no packet to one of its services is forwarded
/// or delivered to a backend.
pub proof fn law_deleted_lb_serves_nobody(
    t: TablesView,
    lb: LbView,
    f: Seq<u8>,
    ip: int,
    i: int,
)
    requires
        0 <= i < lb.ports.len(),
        lb::service_of(f, ip, lb.vni) == Some(control::service_key(lb, i)),
    ensures
        ({
            let u = t.after_all(control::lb_removals(lb));
            &&& lb::forward_to(f, ip, u, lb.vni) is None
            &&& lb::deliver_to(f, ip, u, lb.vni) is None
        }),
{
    let a = control::service_removals(lb, lb.ports.len());
    let b = control::slot_removals(lb.table_id, TABLE_SIZE as nat);
    let c = control::overlay_slot_removals(lb.table_id, TABLE_SIZE as nat);
    let k = control::service_key(lb, i);
    lemma_service_removals(t, lb, lb.ports.len(), i);
    lemma_removals_keep_lb_gone(t.after_all(a), b, k);
    lemma_removals_keep_lb_gone(t.after_all(a).after_all(b), c, k);
    lemma_concat(t, a, b);
    lemma_concat(t, a + b, c);
}

/// An interface that was created is reachable: frames from its tap find its port, and frames to
/// its underlay address find its VNI, its tap and its MAC.
pub proof fn law_interface_is_reachable(
    t: TablesView,
    tap: u32,
    mac: [u8; 6],
    vni: u32,
    ipv4: [u8; 4],
    gateway_ipv4: [u8; 4],
    underlay: [u8; 16],
    total_mbps: u64,
    public_mbps: u64,
)
    ensures
        ({
            let u = t.after_all(
                control::interface_writes(
                    tap,
                    mac,
                    vni,
                    ipv4,
                    gateway_ipv4,
                    underlay,
                    total_mbps,
                    public_mbps,
                ),
            );
            &&& u.ports.get(tap) matches Some(port)
            &&& port.meta.vni == vni
            &&& port.meta.guest_ipv4 == ipv4
            &&& port.meta.gateway_ipv4 == gateway_ipv4
            &&& port.meta.guest_mac == mac
            &&& port.underlay_ipv6 == underlay
            &&& u.underlay.get(underlay) == Some(
                UnderlayValue { vni, tap_ifindex: tap, guest_mac: mac },
            )
            &&& u.interfaces.get(IfaceKey { vni, ipv4 }) matches Some(iface)
            &&& iface.tap_ifindex == tap
            &&& iface.is_local == 1
            &&& total_mbps == 0 && public_mbps == 0 ==> u.meter == t.meter
            &&& total_mbps != 0 || public_mbps != 0 ==> u.meter.get(tap) == Some(
                control::meter_of(total_mbps, public_mbps),
            )
        }),
{
    let ws = control::interface_writes(
        tap,
        mac,
        vni,
        ipv4,
        gateway_ipv4,
        underlay,
        total_mbps,
        public_mbps,
    );
    let base = ws.take(3);
    assert(base =~= seq![ws[0], ws[1], ws[2]]);
    assert(base.drop_last() =~= seq![ws[0], ws[1]]);
    lemma_two(t, ws[0], ws[1]);
    let u = t.after(ws[0]).after(ws[1]).after(ws[2]);
    assert(t.after_all(base) == u);
    if total_mbps != 0 || public_mbps != 0 {
        assert(ws =~= base.push(ws[3]));
        lemma_push(t, base, ws[3]);
    } else {
        assert(ws =~= base);
    }
}

proof fn lemma_neighbor_slots(t: TablesView, list: Seq<NeighborNatEntry>, n: nat)
    requires
        n <= list.len() <= 64,
    ensures
        ({
            let u = t.after_all(control::neighbor_slots(list, n));
            &&& u == (TablesView { neigh_nat: u.neigh_nat, ..t })
            &&& forall|i: u32| i < n ==> #[trigger] u.neigh_nat.get(i) == Some(list[i as int])
        }),
    decreases n,
{
    let ws = control::neighbor_slots(list, n);
    if n > 0 {
        let m = (n - 1) as nat;
        lemma_neighbor_slots(t, list, m);
        let last = MapWrite::NeighborNat(m as u32, list[m as int]);
        assert(ws =~= control::neighbor_slots(list, m).push(last));
        lemma_push(t, control::neighbor_slots(list, m), last);
        let u = t.after_all(ws);
        let p = t.after_all(control::neighbor_slots(list, m));
        assert forall|i: u32| i < n implies #[trigger] u.neigh_nat.get(i) == Some(
            list[i as int],
        ) by {
            if i < m {
                assert(p.neigh_nat.get(i) == Some(list[i as int]));
            }
        }
    } else {
        assert(ws =~= Seq::<MapWrite>::empty());
    }
}

/// The neighbor table holds the list: after programming, its count is the list's length, and its
/// first entries are the list's.
pub proof fn law_neighbor_table_holds_the_list(t: TablesView, list: Seq<NeighborNatEntry>)
    requires
        list.len() <= NB_MAX_ENTRIES,
    ensures
        ({
            let u = t.after_all(control::neighbor_writes(list));
            &&& u.neigh_nat_count == list.len()
            &&& forall|i: u32|
                i < list.len() ==> #[trigger] u.neigh_nat.get(i) == Some(list[i as int])
        }),
{
    lemma_neighbor_slots(t, list, list.len());
    lemma_push(
        t,
        control::neighbor_slots(list, list.len()),
        MapWrite::NeighborNatCount(list.len() as u32),
    );
}

/// A port slice belongs to at most one hypervisor, and after it was given to one, to that one.
pub proof fn law_slices_have_one_owner(
    list: Seq<NeighborNatEntry>,
    vni: u32,
    nat_ip: [u8; 4],
    port_min: u16,
    port_max: u16,
    underlay: [u8; 16],
)
    requires
        slices_distinct(list),
    ensures
        ({
            let more = control::with_neighbor(list, vni, nat_ip, port_min, port_max, underlay);
            &&& slices_distinct(more)
            &&& control::slice_at(more, vni, nat_ip, port_min, port_max, 0) matches Some(i)
            &&& more[i].underlay == underlay
        }),
{
    let more = control::with_neighbor(list, vni, nat_ip, port_min, port_max, underlay);
    lemma_slice_at(list, vni, nat_ip, port_min, port_max, 0);
    lemma_slice_at(more, vni, nat_ip, port_min, port_max, 0);
    match control::slice_at(list, vni, nat_ip, port_min, port_max, 0) {
        Some(j) => {
            assert(control::is_slice(more[j], vni, nat_ip, port_min, port_max));
            assert(slices_distinct(more)) by {
                assert forall|a: int, b: int|
                    0 <= a < more.len() && 0 <= b < more.len() && a != b implies !same(
                    #[trigger] more[a],
                    #[trigger] more[b],
                ) by {
                    assert(!same(list[a], list[b]));
                }
            }
        },
        None => {
            let n = list.len() as int;
            assert(control::is_slice(more[n], vni, nat_ip, port_min, port_max));
            assert forall|a: int, b: int|
                0 <= a < more.len() && 0 <= b < more.len() && a != b implies !same(
                #[trigger] more[a],
                #[trigger] more[b],
            ) by {
                if a < n && b < n {
                    assert(!same(list[a], list[b]));
                } else if a < n {
                    assert(!control::is_slice(list[a], vni, nat_ip, port_min, port_max));
                } else {
                    assert(!control::is_slice(list[b], vni, nat_ip, port_min, port_max));
                }
            }
        },
    }
}

/// Whether two entries are of the same port slice.
pub open spec fn same(a: NeighborNatEntry, b: NeighborNatEntry) -> bool {
    control::is_slice(a, b.vni, b.nat_ip, b.port_min, b.port_max)
}

/// No port slice occurs twice.
pub open spec fn slices_distinct(list: Seq<NeighborNatEntry>) -> bool {
    forall|a: int, b: int|
        0 <= a < list.len() && 0 <= b < list.len() && a != b ==> !same(
            #[trigger] list[a],
            #[trigger] list[b],
        )
}

proof fn lemma_slice_at(
    list: Seq<NeighborNatEntry>,
    vni: u32,
    nat_ip: [u8; 4],
    port_min: u16,
    port_max: u16,
    i: nat,
)
    requires
        i <= list.len(),
    ensures
        match control::slice_at(list, vni, nat_ip, port_min, port_max, i) {
            Some(j) => i <= j < list.len() && control::is_slice(
                list[j],
                vni,
                nat_ip,
                port_min,
                port_max,
            ),
            None => forall|k: int|
                i <= k < list.len() ==> !control::is_slice(
                    #[trigger] list[k],
                    vni,
                    nat_ip,
                    port_min,
                    port_max,
                ),
        },
    decreases list.len() - i,
{
    if i < list.len() && !control::is_slice(list[i as int], vni, nat_ip, port_min, port_max) {
        lemma_slice_at(list, vni, nat_ip, port_min, port_max, i + 1);
    }
}

/// Taking an interface back leaves nothing behind: however many of its changes were made, the
/// tables are what they were before.
pub proof fn law_undone_interface_leaves_no_trace(
    t: TablesView,
    tap: u32,
    mac: [u8; 6],
    vni: u32,
    ipv4: [u8; 4],
    gateway_ipv4: [u8; 4],
    underlay: [u8; 16],
    total_mbps: u64,
    public_mbps: u64,
    n: int,
)
    requires
        0 <= n <= control::interface_writes(
            tap,
            mac,
            vni,
            ipv4,
            gateway_ipv4,
            underlay,
            total_mbps,
            public_mbps,
        ).len(),
    ensures
        ({
            let made = control::interface_writes(
                tap,
                mac,
                vni,
                ipv4,
                gateway_ipv4,
                underlay,
                total_mbps,
                public_mbps,
            ).take(n);
            let iface = Iface { vni, ipv4, ifindex: tap, underlay };
            t.after_all(made).after_all(control::restore_writes(t, iface)) == t
        }),
{
    let ws = control::interface_writes(
        tap,
        mac,
        vni,
        ipv4,
        gateway_ipv4,
        underlay,
        total_mbps,
        public_mbps,
    );
    let iface = Iface { vni, ipv4, ifindex: tap, underlay };
    assert forall|i: int| 0 <= i < ws.len() implies is_of_interface(#[trigger] ws[i], iface) by {
        assert(i == 0 || i == 1 || i == 2 || i == 3);
    }
    lemma_touches_only(t, ws, iface, n);
    lemma_restored(t, t.after_all(ws.take(n)), iface);
}

/// Whether a change is to an interface's port, address, underlay address or meter.
spec fn is_of_interface(w: MapWrite, iface: Iface) -> bool {
    match w {
        MapWrite::Port(k, _) => k == iface.ifindex,
        MapWrite::Iface(k, _) => k == (IfaceKey { vni: iface.vni, ipv4: iface.ipv4 }),
        MapWrite::Underlay(k, _) => k == iface.underlay,
        MapWrite::Meter(k, _) => k == iface.ifindex,
        _ => false,
    }
}

/// Whether two states of the tables differ at most in an interface's port, address, underlay
/// address and meter.
spec fn differ_in_interface(t: TablesView, u: TablesView, iface: Iface) -> bool {
    let key = IfaceKey { vni: iface.vni, ipv4: iface.ipv4 };
    &&& u == (TablesView {
        ports: u.ports,
        interfaces: u.interfaces,
        underlay: u.underlay,
        meter: u.meter,
        ..t
    })
    &&& u.ports.remove(iface.ifindex) == t.ports.remove(iface.ifindex)
    &&& u.interfaces.remove(key) == t.interfaces.remove(key)
    &&& u.underlay.remove(iface.underlay) == t.underlay.remove(iface.underlay)
    &&& u.meter.remove(iface.ifindex) == t.meter.remove(iface.ifindex)
}

proof fn lemma_touches_only(t: TablesView, ws: Seq<MapWrite>, iface: Iface, n: int)
    requires
        0 <= n <= ws.len(),
        forall|i: int| 0 <= i < ws.len() ==> is_of_interface(#[trigger] ws[i], iface),
    ensures
        differ_in_interface(t, t.after_all(ws.take(n)), iface),
    decreases n,
{
    if n == 0 {
        assert(ws.take(0) =~= Seq::<MapWrite>::empty());
    } else {
        lemma_touches_only(t, ws, iface, n - 1);
        assert(ws.take(n) =~= ws.take(n - 1).push(ws[n - 1]));
        lemma_push(t, ws.take(n - 1), ws[n - 1]);
        let p = t.after_all(ws.take(n - 1));
        let u = p.after(ws[n - 1]);
        let key = IfaceKey { vni: iface.vni, ipv4: iface.ipv4 };
        assert(is_of_interface(ws[n - 1], iface));
        assert(u.ports.remove(iface.ifindex) =~= p.ports.remove(iface.ifindex));
        assert(u.interfaces.remove(key) =~= p.interfaces.remove(key));
        assert(u.underlay.remove(iface.underlay) =~= p.underlay.remove(iface.underlay));
        assert(u.meter.remove(iface.ifindex) =~= p.meter.remove(iface.ifindex));
    }
}

/// Maps that differ at most in one key are equal once that key is put back.
proof fn lemma_put_back<K, V>(m: Map<K, V>, was: Map<K, V>, k: K)
    requires
        m.remove(k) == was.remove(k),
    ensures
        was.contains_key(k) ==> m.insert(k, was[k]) == was,
        !was.contains_key(k) ==> m.remove(k) == was,
{
    if was.contains_key(k) {
        assert(m.remove(k).insert(k, was[k]) =~= m.insert(k, was[k]));
        assert(was.remove(k).insert(k, was[k]) =~= was);
    } else {
        assert(was.remove(k) =~= was);
    }
}

proof fn lemma_restored(t: TablesView, u: TablesView, iface: Iface)
    requires
        differ_in_interface(t, u, iface),
    ensures
        u.after_all(control::restore_writes(t, iface)) == t,
{
    let r = control::restore_writes(t, iface);
    let two = seq![r[0], r[1]];
    lemma_two(u, r[0], r[1]);
    lemma_push(u, two, r[2]);
    lemma_push(u, two.push(r[2]), r[3]);
    assert(r =~= two.push(r[2]).push(r[3]));
    lemma_put_back(u.ports, t.ports, iface.ifindex);
    lemma_put_back(
        u.interfaces,
        t.interfaces,
        IfaceKey { vni: iface.vni, ipv4: iface.ipv4 },
    );
    lemma_put_back(u.underlay, t.underlay, iface.underlay);
    lemma_put_back(u.meter, t.meter, iface.ifindex);
}

/// Whether a route key is that of one of the first `n` prefixes of a list.
pub open spec fn is_prefix_route(vni: u32, list: Seq<([u8; 4], u32)>, n: int, k: RouteKey) -> bool {
    exists|i: int|
        0 <= i < n && (#[trigger] list[i]).1 <= 32 && k == tables::canonical(
            RouteKey { vni, prefix_len: list[i].1, ipv4: list[i].0 },
        )
}

proof fn lemma_prefix_removals(t: TablesView, vni: u32, list: Seq<([u8; 4], u32)>, n: nat)
    requires
        n <= list.len(),
    ensures
        ({
            let u = t.after_all(control::prefix_removals(vni, list, n));
            &&& u == (TablesView { routes: u.routes, ..t })
            &&& forall|k: RouteKey|
                #![trigger u.routes.get(k)]
                u.routes.get(k) == if is_prefix_route(vni, list, n as int, k) {
                    None
                } else {
                    t.routes.get(k)
                }
        }),
    decreases n,
{
    let ws = control::prefix_removals(vni, list, n);
    if n > 0 {
        let m = (n - 1) as nat;
        lemma_prefix_removals(t, vni, list, m);
        let key = RouteKey { vni, prefix_len: list[m as int].1, ipv4: list[m as int].0 };
        let last = MapWrite::RouteRemove(key);
        assert(ws =~= control::prefix_removals(vni, list, m).push(last));
        lemma_push(t, control::prefix_removals(vni, list, m), last);
        let u = t.after_all(ws);
        let p = t.after_all(control::prefix_removals(vni, list, m));
        assert forall|k: RouteKey|
            #![trigger u.routes.get(k)]
            u.routes.get(k) == if is_prefix_route(vni, list, n as int, k) {
                None
            } else {
                t.routes.get(k)
            } by {
            assert(p.routes.get(k) == p.routes.get(k));
            if is_prefix_route(vni, list, m as int, k) {
                let i = choose|i: int|
                    0 <= i < m && (#[trigger] list[i]).1 <= 32 && k == tables::canonical(
                        RouteKey { vni, prefix_len: list[i].1, ipv4: list[i].0 },
                    );
                assert(list[i].1 <= 32);
                assert(is_prefix_route(vni, list, n as int, k));
            }
            if is_prefix_route(vni, list, n as int, k) && !is_prefix_route(
                vni,
                list,
                m as int,
                k,
            ) {
                assert(list[m as int].1 <= 32 && k == tables::canonical(key));
            }
            if list[m as int].1 <= 32 && k == tables::canonical(key) {
                assert(is_prefix_route(vni, list, n as int, k));
            }
        }
    } else {
        assert(ws =~= Seq::<MapWrite>::empty());
    }
}

/// The VIP table without a guest's VIP.
pub open spec fn vips_without(vips: Map<VipKey, [u8; 4]>, vni: u32, guest: [u8; 4]) -> Map<
    VipKey,
    [u8; 4],
> {
    let g = VipKey { vni, ipv4: guest };
    if vips.contains_key(g) {
        vips.remove(VipKey { vni, ipv4: vips[g] }).remove(g)
    } else {
        vips.remove(g)
    }
}

proof fn lemma_address_removals(t: TablesView, u: TablesView, iface: Iface)
    requires
        u.vips == t.vips,
    ensures
        ({
            let v = u.after_all(control::address_removals(t, iface));
            let key = IfaceKey { vni: iface.vni, ipv4: iface.ipv4 };
            if control::owns_address(t, iface) {
                v == (TablesView {
                    interfaces: u.interfaces.remove(key),
                    vips: vips_without(t.vips, iface.vni, iface.ipv4),
                    nat: u.nat.remove(NatKey { vni: iface.vni, ipv4: iface.ipv4 }),
                    ..u
                })
            } else {
                v == u
            }
        }),
{
    if control::owns_address(t, iface) {
        let g = VipKey { vni: iface.vni, ipv4: iface.ipv4 };
        let vips = control::vip_removals(t, iface.vni, iface.ipv4);
        if t.vips.contains_key(g) {
            lemma_two(
                u,
                MapWrite::VipRemove(VipKey { vni: iface.vni, ipv4: t.vips[g] }),
                MapWrite::VipRemove(g),
            );
        } else {
            lemma_one(u, MapWrite::VipRemove(g));
        }
        let conf = MapWrite::NatRemove(NatKey { vni: iface.vni, ipv4: iface.ipv4 });
        lemma_push(u, vips, conf);
        lemma_push(
            u,
            vips.push(conf),
            MapWrite::IfaceRemove(IfaceKey { vni: iface.vni, ipv4: iface.ipv4 }),
        );
    }
}

/// The tables without an interface, with the given firewall rules and routes.
pub open spec fn stripped(
    t: TablesView,
    iface: Iface,
    fw_rules: Map<FwRuleKey, FwRule>,
    routes: Map<RouteKey, Route>,
) -> TablesView {
    let own = control::owns_address(t, iface);
    TablesView {
        ports: t.ports.remove(iface.ifindex),
        meter: t.meter.remove(iface.ifindex),
        fw_meta: t.fw_meta.remove(iface.ifindex),
        fw_rules,
        routes,
        interfaces: if own {
            t.interfaces.remove(IfaceKey { vni: iface.vni, ipv4: iface.ipv4 })
        } else {
            t.interfaces
        },
        vips: if own {
            vips_without(t.vips, iface.vni, iface.ipv4)
        } else {
            t.vips
        },
        nat: if own {
            t.nat.remove(NatKey { vni: iface.vni, ipv4: iface.ipv4 })
        } else {
            t.nat
        },
        underlay: if control::owns_underlay(t, iface) {
            t.underlay.remove(iface.underlay)
        } else {
            t.underlay
        },
        ..t
    }
}

/// The tables after an interface's removal.
#[verifier::spinoff_prover]
proof fn lemma_interface_removals(t: TablesView, iface: Iface, prefixes: Seq<([u8; 4], u32)>)
    ensures
        ({
            let u = t.after_all(control::interface_removals(t, iface, prefixes));
            let tap = iface.ifindex;
            &&& u == stripped(t, iface, u.fw_rules, u.routes)
            &&& forall|k: RouteKey| #[trigger]
                u.routes.get(k) == if is_prefix_route(
                    iface.vni,
                    prefixes,
                    prefixes.len() as int,
                    k,
                ) {
                    None
                } else {
                    t.routes.get(k)
                }
            &&& forall|k: FwRuleKey|
                #![trigger u.fw_rules.contains_key(k)]
                if k.ifindex == tap && k.idx < FW_MAX_RULES {
                    !u.fw_rules.contains_key(k)
                } else {
                    u.fw_rules.contains_key(k) == t.fw_rules.contains_key(k) && u.fw_rules[k]
                        == t.fw_rules[k]
                }
        }),
{
    let tap = iface.ifindex;
    let a = control::rule_removals(tap, FW_MAX_RULES as nat);
    let b = control::prefix_removals(iface.vni, prefixes, prefixes.len());
    let c = control::address_removals(t, iface);
    let d = control::underlay_removals(t, iface);
    let e = seq![
        MapWrite::FwMetaRemove(tap),
        MapWrite::MeterRemove(tap),
        MapWrite::PortRemove(tap),
    ];
    let t1 = t.after_all(a);
    let t2 = t1.after_all(b);
    let t3 = t2.after_all(c);
    let t4 = t3.after_all(d);
    let u = t4.after_all(e);
    lemma_rule_removals(t, tap, FW_MAX_RULES as nat);
    lemma_prefix_removals(t1, iface.vni, prefixes, prefixes.len());
    lemma_address_removals(t, t2, iface);
    if control::owns_underlay(t, iface) {
        lemma_one(t3, MapWrite::UnderlayRemove(iface.underlay));
    } else {
        assert(t3.after_all(d) == t3);
    }
    lemma_two(t4, e[0], e[1]);
    lemma_push(t4, seq![e[0], e[1]], e[2]);
    assert(e =~= seq![e[0], e[1]].push(e[2]));
    lemma_concat(t, a, b);
    lemma_concat(t, a + b, c);
    lemma_concat(t, a + b + c, d);
    lemma_concat(t, a + b + c + d, e);
    assert(t.after_all(control::interface_removals(t, iface, prefixes)) == u);
    assert(t2.routes == u.routes && t1.fw_rules == u.fw_rules);
    assert(u == stripped(t, iface, u.fw_rules, u.routes));
    assert forall|k: FwRuleKey|
        #![trigger u.fw_rules.contains_key(k)]
        if k.ifindex == tap && k.idx < FW_MAX_RULES {
            !u.fw_rules.contains_key(k)
        } else {
            u.fw_rules.contains_key(k) == t.fw_rules.contains_key(k) && u.fw_rules[k]
                == t.fw_rules[k]
        } by {
        assert(t1.fw_rules.contains_key(k) == u.fw_rules.contains_key(k));
    }
    assert forall|k: RouteKey| #[trigger]
        u.routes.get(k) == if is_prefix_route(iface.vni, prefixes, prefixes.len() as int, k) {
            None
        } else {
            t.routes.get(k)
        } by {
        assert(t2.routes.get(k) == u.routes.get(k));
    }
}

/// An interface that was deleted is gone: its tap has no port, meter or rule left, its address and
/// underlay address lead to its tap no more, and the routes to its alias prefixes are removed. What
/// belongs to other taps, addresses and VNIs stays as it is.
pub proof fn law_deleted_interface_is_gone(
    t: TablesView,
    iface: Iface,
    prefixes: Seq<([u8; 4], u32)>,
)
    ensures
        ({
            let u = t.after_all(control::interface_removals(t, iface, prefixes));
            let tap = iface.ifindex;
            &&& !u.ports.contains_key(tap)
            &&& !u.meter.contains_key(tap)
            &&& !u.fw_meta.contains_key(tap)
            &&& forall|k: FwRuleKey|
                k.ifindex == tap && k.idx < FW_MAX_RULES ==> !#[trigger] u.fw_rules.contains_key(k)
            &&& !control::owns_address(u, iface)
            &&& !control::owns_underlay(u, iface)
            &&& control::owns_address(t, iface) ==> !u.vips.contains_key(
                VipKey { vni: iface.vni, ipv4: iface.ipv4 },
            ) && !u.nat.contains_key(NatKey { vni: iface.vni, ipv4: iface.ipv4 })
            &&& forall|i: int|
                0 <= i < prefixes.len() && (#[trigger] prefixes[i]).1 <= 32
                    ==> !u.routes.contains_key(
                    tables::canonical(
                        RouteKey {
                            vni: iface.vni,
                            prefix_len: prefixes[i].1,
                            ipv4: prefixes[i].0,
                        },
                    ),
                )
            &&& forall|o: u32| o != tap ==> #[trigger] u.ports.get(o) == t.ports.get(o)
            &&& forall|o: u32| o != tap ==> #[trigger] u.meter.get(o) == t.meter.get(o)
            &&& forall|o: u32| o != tap ==> #[trigger] u.fw_meta.get(o) == t.fw_meta.get(o)
            &&& forall|k: FwRuleKey|
                k.ifindex != tap ==> #[trigger] u.fw_rules.contains_key(k)
                    == t.fw_rules.contains_key(k) && u.fw_rules[k] == t.fw_rules[k]
            &&& forall|k: RouteKey|
                k.vni != iface.vni ==> #[trigger] u.routes.get(k) == t.routes.get(k)
            &&& forall|a: [u8; 16]|
                a != iface.underlay ==> #[trigger] u.underlay.get(a) == t.underlay.get(a)
            &&& forall|k: IfaceKey|
                k != (IfaceKey { vni: iface.vni, ipv4: iface.ipv4 }) ==> #[trigger] u.interfaces.get(
                    k,
                ) == t.interfaces.get(k)
        }),
{
    lemma_interface_removals(t, iface, prefixes);
    let u = t.after_all(control::interface_removals(t, iface, prefixes));
    assert forall|i: int|
        0 <= i < prefixes.len() && (#[trigger] prefixes[i]).1 <= 32 implies !u.routes.contains_key(
        tables::canonical(
            RouteKey { vni: iface.vni, prefix_len: prefixes[i].1, ipv4: prefixes[i].0 },
        ),
    ) by {
        let k = tables::canonical(
            RouteKey { vni: iface.vni, prefix_len: prefixes[i].1, ipv4: prefixes[i].0 },
        );
        assert(is_prefix_route(iface.vni, prefixes, prefixes.len() as int, k));
        assert(u.routes.get(k) is None);
    }
}

/// Deleting an interface undoes creating it: where its tap, its address and its underlay address
/// were free, the tables are what they were.
pub proof fn law_interface_comes_and_goes(
    t: TablesView,
    tap: u32,
    mac: [u8; 6],
    vni: u32,
    ipv4: [u8; 4],
    gateway_ipv4: [u8; 4],
    underlay: [u8; 16],
    total_mbps: u64,
    public_mbps: u64,
)
    requires
        !t.ports.contains_key(tap),
        !t.meter.contains_key(tap),
        !t.fw_meta.contains_key(tap),
        forall|k: FwRuleKey| k.ifindex == tap ==> !#[trigger] t.fw_rules.contains_key(k),
        !t.interfaces.contains_key(IfaceKey { vni, ipv4 }),
        !t.vips.contains_key(VipKey { vni, ipv4 }),
        !t.nat.contains_key(NatKey { vni, ipv4 }),
        !t.underlay.contains_key(underlay),
    ensures
        ({
            let u = t.after_all(
                control::interface_writes(
                    tap,
                    mac,
                    vni,
                    ipv4,
                    gateway_ipv4,
                    underlay,
                    total_mbps,
                    public_mbps,
                ),
            );
            let iface = Iface { vni, ipv4, ifindex: tap, underlay };
            u.after_all(control::interface_removals(u, iface, Seq::empty())) == t
        }),
{
    let ws = control::interface_writes(
        tap,
        mac,
        vni,
        ipv4,
        gateway_ipv4,
        underlay,
        total_mbps,
        public_mbps,
    );
    let u = t.after_all(ws);
    let base = ws.take(3);
    assert(base.drop_last() =~= seq![ws[0], ws[1]]);
    lemma_two(t, ws[0], ws[1]);
    let three = t.after(ws[0]).after(ws[1]).after(ws[2]);
    assert(t.after_all(base) == three);
    if total_mbps != 0 || public_mbps != 0 {
        assert(ws =~= base.push(ws[3]));
        lemma_push(t, base, ws[3]);
    } else {
        assert(ws =~= base);
    }
    let iface = Iface { vni, ipv4, ifindex: tap, underlay };
    lemma_interface_removals(u, iface, Seq::empty());
    let v = u.after_all(control::interface_removals(u, iface, Seq::empty()));
    assert(control::owns_address(u, iface));
    assert(control::owns_underlay(u, iface));
    assert(v.ports =~= t.ports);
    assert(v.meter =~= t.meter);
    assert(v.fw_meta =~= t.fw_meta);
    assert(v.interfaces =~= t.interfaces);
    assert(v.underlay =~= t.underlay);
    assert(v.vips =~= t.vips);
    assert(v.nat =~= t.nat);
    assert(v.fw_rules =~= t.fw_rules);
    assert forall|k: RouteKey| #[trigger] v.routes.contains_key(k) == t.routes.contains_key(k) && (
    v.routes.contains_key(k) ==> v.routes[k] == t.routes[k]) by {
        assert(v.routes.get(k) == u.routes.get(k));
    }
    assert(v.routes =~= t.routes);
    assert(v =~= t);
}

proof fn lemma_overlay_slot_removals(t: TablesView, table_id: u32, n: nat)
    requires
        n <= TABLE_SIZE,
    ensures
        ({
            let u = t.after_all(control::overlay_slot_removals(table_id, n));
            &&& u == (TablesView { maglev_overlay: u.maglev_overlay, ..t })
            &&& forall|k: MaglevKey|
                #![trigger u.maglev_overlay.get(k)]
                u.maglev_overlay.get(k) == if k.table_id == table_id && k.slot < n {
                    None
                } else {
                    t.maglev_overlay.get(k)
                }
        }),
    decreases n,
{
    let ws = control::overlay_slot_removals(table_id, n);
    if n > 0 {
        let m = (n - 1) as nat;
        lemma_overlay_slot_removals(t, table_id, m);
        let last = MapWrite::MaglevOverlayRemove(MaglevKey { table_id, slot: m as u32 });
        assert(ws =~= control::overlay_slot_removals(table_id, m).push(last));
        lemma_push(t, control::overlay_slot_removals(table_id, m), last);
        let u = t.after_all(ws);
        let p = t.after_all(control::overlay_slot_removals(table_id, m));
        assert forall|k: MaglevKey|
            #![trigger u.maglev_overlay.get(k)]
            u.maglev_overlay.get(k) == if k.table_id == table_id && k.slot < n {
                None
            } else {
                t.maglev_overlay.get(k)
            } by {
            assert(p.maglev_overlay.get(k) == p.maglev_overlay.get(k));
        }
    } else {
        assert(ws =~= Seq::<MapWrite>::empty());
    }
}

proof fn lemma_without_backend(list: Seq<[u8; 4]>, backend: [u8; 4])
    ensures
        !control::without_backend(list, backend).contains(backend),
    decreases list.len(),
{
    if list.len() > 0 {
        let rest = control::without_backend(list.drop_last(), backend);
        lemma_without_backend(list.drop_last(), backend);
        if list.last() != backend {
            let r = rest.push(list.last());
            assert forall|i: int| 0 <= i < r.len() implies r[i] != backend by {
                if i < rest.len() {
                    assert(rest.contains(rest[i]));
                }
            }
        }
    }
}

/// A backend that was taken away gets nothing: no packet to a service of the load balancer is
/// delivered to it, and the others share all of them.
pub proof fn law_removed_backend_gets_nothing(
    t: TablesView,
    lb: LbView,
    backends: Seq<[u8; 4]>,
    backend: [u8; 4],
    f: Seq<u8>,
    ip: int,
    i: int,
)
    requires
        0 <= i < lb.ports.len(),
        lb::service_of(f, ip, lb.vni) == Some(control::service_key(lb, i)),
    ensures
        ({
            let fewer = control::without_backend(backends, backend);
            let u = t.after_all(control::lb_writes(lb)).after_all(
                control::overlay_writes(lb.table_id, fewer),
            );
            &&& lb::deliver_to(f, ip, u, lb.vni) != Some(backend)
            &&& fewer.len() == 0 ==> lb::deliver_to(f, ip, u, lb.vni) is None
            &&& fewer.len() > 0 ==> lb::deliver_to(f, ip, u, lb.vni) is Some && fewer.contains(
                lb::deliver_to(f, ip, u, lb.vni)->Some_0,
            )
        }),
{
    let fewer = control::without_backend(backends, backend);
    lemma_without_backend(backends, backend);
    if fewer.len() > 0 {
        law_lb_serves_its_overlay_backends(t, lb, fewer, f, ip, i);
    } else {
        lemma_services_in_force(t, lb, i);
        let t1 = t.after_all(control::lb_writes(lb));
        lemma_overlay_slot_removals(t1, lb.table_id, TABLE_SIZE as nat);
        let u = t1.after_all(control::overlay_slot_removals(lb.table_id, TABLE_SIZE as nat));
        let slot = lb::packet_hash(f, ip) % TABLE_SIZE;
        let k = MaglevKey { table_id: lb.table_id, slot };
        assert(lb::slot_of(f, ip, u, lb.vni) == Some(k));
        assert(u.maglev_overlay.get(k) is None);
    }
}

/// A packet from the uplink to a load balancer's anycast address reaches a backend: once the
/// services and a list of backends are programmed, it is handed to the guest of one of them on this
/// host, where its rules let it in, or sent on to one of them elsewhere.
pub proof fn law_lb_packet_reaches_a_backend(
    t: TablesView,
    lb: LbView,
    backends: Seq<[u8; 16]>,
    f: FrameView,
    i: int,
    now: u64,
)
    requires
        0 <= i < lb.ports.len(),
        backends.len() > 0,
        ingress::is_overlay4(f.bytes),
        bytes::at16(f.bytes, ETH_LEN + 24) == lb.lb_underlay,
        lb::service_of(f.bytes, ingress::INNER as int, lb.vni) == Some(control::service_key(lb, i)),
    ensures
        ({
            let u = t.after_all(control::lb_writes(lb)).after_all(
                control::slot_writes(lb.table_id, backends, TABLE_SIZE as nat),
            );
            exists|b: [u8; 16]|
                backends.contains(b) && ingress::uplink_rx4(f, u, now)
                    == #[trigger] ingress::balanced(f, u, lb.vni, lb.lb_underlay, b)
        }),
{
    law_lb_serves_its_backends(t, lb, backends, f.bytes, ingress::INNER as int, i);
    lemma_service_writes(t, lb, lb.ports.len());
    let anycast = UnderlayValue {
        vni: lb.vni,
        tap_ifindex: 0,
        guest_mac: [0u8, 0, 0, 0, 0, 0],
    };
    lemma_push(
        t,
        control::service_writes(lb, lb.ports.len()),
        MapWrite::Underlay(lb.lb_underlay, anycast),
    );
    let t1 = t.after_all(control::lb_writes(lb));
    lemma_slot_writes(t1, lb.table_id, backends, TABLE_SIZE as nat);
    let u = t1.after_all(control::slot_writes(lb.table_id, backends, TABLE_SIZE as nat));
    assert(u.underlay.contains_key(lb.lb_underlay) && u.underlay[lb.lb_underlay] == anycast);
    let b = lb::forward_to(f.bytes, ingress::INNER as int, u, lb.vni)->Some_0;
    assert(ingress::uplink_rx4(f, u, now) == ingress::balanced(
        f,
        u,
        lb.vni,
        lb.lb_underlay,
        b,
    ));
}

proof fn lemma_neighbor_from(
    t: TablesView,
    list: Seq<NeighborNatEntry>,
    vni: u32,
    nat_ip: [u8; 4],
    port: u16,
    i: nat,
    j: nat,
)
    requires
        j <= i < list.len() <= NB_MAX_ENTRIES,
        t.neigh_nat_count == list.len(),
        forall|k: u32| k < list.len() ==> #[trigger] t.neigh_nat.get(k) == Some(list[k as int]),
        network_nat::in_slice(list[i as int], vni, nat_ip, port),
        forall|k: int|
            0 <= k < i ==> !network_nat::in_slice(#[trigger] list[k], vni, nat_ip, port),
    ensures
        network_nat::neighbor_from(t, vni, nat_ip, port, j) == Some(list[i as int].underlay),
    decreases i - j,
{
    assert(t.neigh_nat.get(j as u32) == Some(list[j as int]));
    if j < i {
        assert(!network_nat::in_slice(list[j as int], vni, nat_ip, port));
        lemma_neighbor_from(t, list, vni, nat_ip, port, i, j + 1);
    }
}

/// A packet to a port slice that was given to a neighbor belongs to that neighbor: the first entry
/// of the list that holds its destination decides.
pub proof fn law_slice_belongs_to_its_neighbor(
    t: TablesView,
    list: Seq<NeighborNatEntry>,
    f: Seq<u8>,
    ip: int,
    vni: u32,
    i: nat,
)
    requires
        i < list.len() <= NB_MAX_ENTRIES,
        parse::ports_of(f, ip) is Some,
        network_nat::in_slice(
            list[i as int],
            vni,
            bytes::at4(f, ip + 16),
            parse::ports_of(f, ip)->Some_0.2,
        ),
        forall|k: int|
            0 <= k < i ==> !network_nat::in_slice(
                #[trigger] list[k],
                vni,
                bytes::at4(f, ip + 16),
                parse::ports_of(f, ip)->Some_0.2,
            ),
    ensures
        network_nat::neighbor_of(f, ip, t.after_all(control::neighbor_writes(list)), vni) == Some(
            list[i as int].underlay,
        ),
{
    law_neighbor_table_holds_the_list(t, list);
    let u = t.after_all(control::neighbor_writes(list));
    lemma_neighbor_from(
        u,
        list,
        vni,
        bytes::at4(f, ip + 16),
        parse::ports_of(f, ip)->Some_0.2,
        i,
        0,
    );
}

/// Setting a VIP changes the mappings of the guest and of the VIP, in the guest's VNI, and nothing else.
pub proof fn law_vip_leaves_others_alone(
    t: TablesView,
    vni: u32,
    guest: [u8; 4],
    vip: [u8; 4],
    other: [u8; 4],
)
    ensures
        ({
            let u = t.after_all(control::vip_writes(vni, guest, vip));
            &&& u == (TablesView { vips: u.vips, ..t })
            &&& other != guest && other != vip ==> u.vips.get(VipKey { vni, ipv4: other })
                == t.vips.get(VipKey { vni, ipv4: other })
            &&& forall|k: VipKey| k.vni != vni ==> #[trigger] u.vips.get(k) == t.vips.get(k)
        }),
{
    let g = VipKey { vni, ipv4: guest };
    let w = VipKey { vni, ipv4: vip };
    lemma_two(t, MapWrite::Vip(g, vip), MapWrite::Vip(w, guest));
}

/// Whether a prefix covers an address: their first `prefix_len` bits agree.
pub open spec fn agrees(k: RouteKey, dst: [u8; 4]) -> bool {
    forall|i: int|
        0 <= i < k.prefix_len ==> #[trigger] parse::bit(k.ipv4@, i) == parse::bit(dst@, i)
}

/// A destination takes the route of the longest prefix that agrees with it, bit by bit: where a prefix of
/// the VNI has the destination's leading bits, and no longer one of the VNI has, its route is found;
/// where none has, there is no route.
pub proof fn law_longest_agreeing_prefix_wins(
    m: Map<RouteKey, Route>,
    vni: u32,
    dst: [u8; 4],
    best: RouteKey,
)
    requires
        tables::routes_canonical(m),
    ensures
        m.contains_key(best) && best.vni == vni && agrees(best, dst) && (forall|k: RouteKey|
            #[trigger]
            m.contains_key(k) && k.vni == vni && k.prefix_len > best.prefix_len ==> !agrees(k, dst))
            ==> tables::longest4(m, vni, dst, 32) == Some(m[best]),
        (forall|k: RouteKey| #[trigger] m.contains_key(k) && k.vni == vni ==> !agrees(k, dst))
            ==> tables::longest4(m, vni, dst, 32) is None,
{
    assert forall|p: u32| p <= 32 implies ({
        let k = #[trigger] tables::canonical(RouteKey { vni, prefix_len: p, ipv4: dst });
        agrees(k, dst) && k.prefix_len == p && k.vni == vni
    }) by {
        let k = tables::canonical(RouteKey { vni, prefix_len: p, ipv4: dst });
        parse::law_prefix_keeps_the_leading_bits(dst, p as int);
        parse::law_prefix4_is_the_leading_bits(k.ipv4, dst, p as int);
    }
    if m.contains_key(best) && best.vni == vni && agrees(best, dst) && (forall|k: RouteKey|
        #[trigger]
        m.contains_key(k) && k.vni == vni && k.prefix_len > best.prefix_len ==> !agrees(k, dst)) {
        let n = best.prefix_len;
        parse::law_prefix4_is_the_leading_bits(best.ipv4, dst, n as int);
        assert(tables::canonical(best) == best);
        assert(best == tables::canonical(RouteKey { vni, prefix_len: n, ipv4: dst }));
        lemma_longest_found(m, vni, dst, n, 32);
    }
    tables::law_longest_prefix_wins(m, vni, dst, 32);
}

/// Whether an IPv6 prefix covers an address: their first `prefix_len` bits agree.
pub open spec fn agrees6(k: RouteKey6, dst: [u8; 16]) -> bool {
    forall|i: int|
        0 <= i < k.prefix_len ==> #[trigger] parse::bit(k.ipv6@, i) == parse::bit(dst@, i)
}

proof fn lemma_longest_found6(
    m: Map<RouteKey6, Route>,
    vni: u32,
    dst: [u8; 16],
    n: u32,
    len: nat,
)
    requires
        n <= len <= 128,
        m.contains_key(tables::canonical6(RouteKey6 { vni, prefix_len: n, ipv6: dst })),
        forall|p: u32|
            n < p <= len ==> !m.contains_key(
                #[trigger] tables::canonical6(RouteKey6 { vni, prefix_len: p, ipv6: dst }),
            ),
    ensures
        tables::longest6(m, vni, dst, len) == Some(
            m[tables::canonical6(RouteKey6 { vni, prefix_len: n, ipv6: dst })],
        ),
    decreases len - n,
{
    if n < len {
        assert(!m.contains_key(
            tables::canonical6(RouteKey6 { vni, prefix_len: len as u32, ipv6: dst }),
        ));
        lemma_longest_found6(m, vni, dst, n, (len - 1) as nat);
    }
}

/// The same of the IPv6 overlay, whose prefixes have no host bits here.
pub proof fn law_longest_agreeing_prefix_wins6(
    m: Map<RouteKey6, Route>,
    vni: u32,
    dst: [u8; 16],
    best: RouteKey6,
)
    requires
        forall|k: RouteKey6| #[trigger]
            m.contains_key(k) ==> k.prefix_len <= 128 && forall|i: int|
                k.prefix_len <= i < 128 ==> !#[trigger] parse::bit(k.ipv6@, i),
    ensures
        m.contains_key(best) && best.vni == vni && agrees6(best, dst) && (forall|k: RouteKey6|
            #[trigger]
            m.contains_key(k) && k.vni == vni && k.prefix_len > best.prefix_len ==> !agrees6(
                k,
                dst,
            )) ==> tables::longest6(m, vni, dst, 128) == Some(m[best]),
        (forall|k: RouteKey6| #[trigger] m.contains_key(k) && k.vni == vni ==> !agrees6(k, dst))
            ==> tables::longest6(m, vni, dst, 128) is None,
{
    assert forall|p: u32| p <= 128 implies ({
        let k = #[trigger] tables::canonical6(RouteKey6 { vni, prefix_len: p, ipv6: dst });
        agrees6(k, dst) && k.prefix_len == p && k.vni == vni
    }) by {
        let k = tables::canonical6(RouteKey6 { vni, prefix_len: p, ipv6: dst });
        parse::law_prefix16_keeps_the_leading_bits(dst, p as int);
        parse::law_prefix16_is_the_leading_bits(k.ipv6, dst, p as int);
    }
    if m.contains_key(best) && best.vni == vni && agrees6(best, dst) && (forall|k: RouteKey6|
        #[trigger]
        m.contains_key(k) && k.vni == vni && k.prefix_len > best.prefix_len ==> !agrees6(k, dst)) {
        let n = best.prefix_len;
        parse::law_prefix16_is_the_leading_bits(best.ipv6, dst, n as int);
        parse::law_prefix16_keeps_the_leading_bits(best.ipv6, n as int);
        assert(best == tables::canonical6(RouteKey6 { vni, prefix_len: n, ipv6: dst }));
        lemma_longest_found6(m, vni, dst, n, 128);
    }
    tables::law_longest_prefix_wins6(m, vni, dst, 128);
}

/// A rule that was programmed alone is alone: after a tap's list of one rule was programmed, the tap has
/// that rule, and no other, in the rule's direction, and none in the other.
#[verifier::spinoff_prover]
pub proof fn law_sole_rule_is_programmed(
    t: TablesView,
    ifindex: u32,
    id: Seq<u8>,
    rule: FwRule,
    other: u8,
)
    requires
        rule.direction == FW_DIR_EGRESS || rule.direction == FW_DIR_INGRESS,
        other == FW_DIR_EGRESS || other == FW_DIR_INGRESS,
        other != rule.direction,
    ensures
        ({
            let u = t.after_all(control::firewall_writes(ifindex, seq![(id, rule)]));
            &&& firewall::sole_rule(u, ifindex, rule.direction, 0, rule)
            &&& forall|f: Seq<u8>, ip: int|
                #[trigger] firewall::action(f, ip, u, ifindex, other) == FW_ACTION_ACCEPT
        }),
{
    let list = seq![(id, rule)];
    let u = t.after_all(control::firewall_writes(ifindex, list));
    lemma_firewall_writes(t, ifindex, list);
    assert(list.drop_last() =~= Seq::<(Seq<u8>, FwRule)>::empty());
    assert(control::egress_rules(list.drop_last()) == 0);
    assert(list.last() == (id, rule));
    assert(u.fw_meta.contains_pair(ifindex, control::counts(list)));
    assert(u.fw_rules.contains_pair(FwRuleKey { ifindex, idx: 0 }, rule));
}

} // verus!
