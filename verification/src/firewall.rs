//! The stateful whitelist firewall: each interface has a list of rules per direction.

use vstd::prelude::*;

use crate::bytes;
use crate::bytes::{eq4, read4, spans};
use crate::parse;
use crate::parse::{l4_ports, mask4, IPPROTO_ICMP, IPPROTO_TCP, IPPROTO_UDP};
use crate::tables::{Tables, TablesView};
use crate::types::{
    FwMeta, FwRule, FwRuleKey, FW_ACTION_ACCEPT, FW_ACTION_DROP, FW_ANY, FW_DIR_EGRESS,
    FW_DIR_INGRESS, FW_MAX_RULES,
};

verus! {

/// Whether denied packets are dropped, or only evaluated. Enforced where nothing is configured.
pub open spec fn enforced(t: TablesView) -> bool {
    match t.fw_config {
        Some(v) => v != 0,
        None => true,
    }
}

/// Whether enforcement is enabled.
pub fn fw_enforcing(tables: &Tables) -> (r: bool)
    ensures
        r == enforced(tables@),
{
    match tables.fw_config {
        Some(v) => v != 0,
        None => true,
    }
}

/// What the rules see of a packet.
#[derive(Copy, Clone, Eq, PartialEq, Debug)]
pub struct FwPacket {
    pub src: [u8; 4],
    pub dst: [u8; 4],
    pub proto: u8,
    pub sport: u16,
    pub dport: u16,
    /// ICMP type; zero for anything else.
    pub itype: u16,
    /// ICMP code; zero for anything else.
    pub icode: u16,
}

/// The ICMP type and code of the packet at `ip`: zeros where it is no ICMP, is cut off, or has
/// IPv4 options.
pub open spec fn type_code_of(f: Seq<u8>, ip: int) -> (u16, u16) {
    if ip + 22 <= f.len() && f[ip] % 16 == 5 && f[ip + 9] == IPPROTO_ICMP {
        (f[ip + 20] as u16, f[ip + 21] as u16)
    } else {
        (0, 0)
    }
}

/// What the rules see of the packet at `ip`. A packet without ports has zero ports.
pub open spec fn seen(f: Seq<u8>, ip: int) -> FwPacket {
    let (proto, sport, dport) = match parse::ports_of(f, ip) {
        Some(v) => v,
        None => (f[ip + 9], 0, 0),
    };
    let (itype, icode) = type_code_of(f, ip);
    FwPacket {
        src: bytes::at4(f, ip + 12),
        dst: bytes::at4(f, ip + 16),
        proto,
        sport,
        dport,
        itype,
        icode,
    }
}

fn type_code(f: &Vec<u8>, ip_off: usize) -> (r: (u16, u16))
    ensures
        r == type_code_of(f@, ip_off as int),
{
    if !spans(f, ip_off, 22) {
        return (0, 0);
    }
    if f[ip_off] % 16 != 5 || f[ip_off + 9] != IPPROTO_ICMP {
        return (0, 0);
    }
    (f[ip_off + 20] as u16, f[ip_off + 21] as u16)
}

/// Whether `addr` lies in the prefix of `len` bits that `net` starts with.
pub open spec fn covers(net: [u8; 4], len: u32, addr: [u8; 4]) -> bool {
    parse::prefix4(net, len as int) == parse::prefix4(addr, len as int)
}

/// Whether a rule matches a packet: both address prefixes cover it and the protocol is the rule's
/// (or the rule takes any). A TCP or UDP rule also needs both ports in its ranges, an ICMP rule
/// the type and code.
pub open spec fn matches_rule(r: FwRule, p: FwPacket) -> bool {
    &&& covers(r.src_ip, r.src_prefix_len, p.src)
    &&& covers(r.dst_ip, r.dst_prefix_len, p.dst)
    &&& r.proto == 0 || r.proto == p.proto
    &&& r.proto == IPPROTO_TCP || r.proto == IPPROTO_UDP ==> r.src_port_min <= p.sport
        <= r.src_port_max && r.dst_port_min <= p.dport <= r.dst_port_max
    &&& r.proto == IPPROTO_ICMP ==> (r.itype == FW_ANY || r.itype == p.itype) && (r.icode == FW_ANY
        || r.icode == p.icode)
}

fn in_prefix(net: &[u8; 4], len: u32, addr: &[u8; 4]) -> (r: bool)
    ensures
        r == covers(*net, len, *addr),
{
    let a = mask4(net, len);
    let b = mask4(addr, len);
    eq4(&a, &b)
}

/// Whether a rule matches a packet.
pub fn fw_rule_matches(r: &FwRule, p: &FwPacket) -> (m: bool)
    ensures
        m == matches_rule(*r, *p),
{
    if !in_prefix(&r.src_ip, r.src_prefix_len, &p.src) || !in_prefix(
        &r.dst_ip,
        r.dst_prefix_len,
        &p.dst,
    ) {
        return false;
    }
    if r.proto != 0 && r.proto != p.proto {
        return false;
    }
    if r.proto == IPPROTO_TCP || r.proto == IPPROTO_UDP {
        return r.src_port_min <= p.sport && p.sport <= r.src_port_max && r.dst_port_min <= p.dport
            && p.dport <= r.dst_port_max;
    }
    if r.proto == IPPROTO_ICMP {
        return (r.itype == FW_ANY || r.itype == p.itype) && (r.icode == FW_ANY || r.icode
            == p.icode);
    }
    true
}

/// Whether slot `idx` of an interface holds a rule of direction `dir` that matches.
pub open spec fn slot_matches(
    rules: Map<FwRuleKey, FwRule>,
    ifindex: u32,
    idx: u32,
    dir: u8,
    p: FwPacket,
) -> bool {
    let k = FwRuleKey { ifindex, idx };
    rules.contains_key(k) && rules[k].direction == dir && matches_rule(rules[k], p)
}

/// The action of the first matching rule from slot `idx` on; drop where none matches.
pub open spec fn first_action(
    rules: Map<FwRuleKey, FwRule>,
    ifindex: u32,
    idx: nat,
    dir: u8,
    p: FwPacket,
) -> u8
    decreases FW_MAX_RULES - idx,
{
    if idx >= FW_MAX_RULES {
        FW_ACTION_DROP
    } else if slot_matches(rules, ifindex, idx as u32, dir, p) {
        rules[FwRuleKey { ifindex, idx: idx as u32 }].action
    } else {
        first_action(rules, ifindex, idx + 1, dir, p)
    }
}

/// How many rules an interface has in a direction.
pub open spec fn rule_count(m: FwMeta, dir: u8) -> u32 {
    if dir == FW_DIR_EGRESS {
        m.egress_count
    } else {
        m.ingress_count
    }
}

/// The firewall's verdict on the packet at `ip`: accept where the interface has no rules in this
/// direction, and for a packet too short to have an IPv4 header; else the first match decides.
pub open spec fn action(f: Seq<u8>, ip: int, t: TablesView, ifindex: u32, dir: u8) -> u8 {
    if !t.fw_meta.contains_key(ifindex) || rule_count(t.fw_meta[ifindex], dir) == 0 || ip + 20
        > f.len() {
        FW_ACTION_ACCEPT
    } else {
        first_action(t.fw_rules, ifindex, 0, dir, seen(f, ip))
    }
}

/// Whether the packet at `ip` is to be dropped.
pub open spec fn denied(f: Seq<u8>, ip: int, t: TablesView, ifindex: u32, dir: u8) -> bool {
    action(f, ip, t, ifindex, dir) == FW_ACTION_DROP && enforced(t)
}

/// Evaluate the firewall for the IPv4 packet at `ip_off` against an interface in one direction.
pub fn fw_eval_dir(f: &Vec<u8>, ip_off: usize, tables: &Tables, ifindex: u32, dir: u8) -> (r: u8)
    ensures
        r == action(f@, ip_off as int, tables@, ifindex, dir),
{
    let meta: FwMeta = match tables.fw_meta.get(&ifindex) {
        Some(m) => m,
        None => {
            return FW_ACTION_ACCEPT;
        },
    };
    let count: u32 = if dir == FW_DIR_EGRESS {
        meta.egress_count
    } else {
        meta.ingress_count
    };
    if count == 0 {
        return FW_ACTION_ACCEPT;
    }
    if !spans(f, ip_off, 20) {
        return FW_ACTION_ACCEPT;
    }
    let src = read4(f, ip_off + 12);
    let dst = read4(f, ip_off + 16);
    let (proto, sport, dport) = match l4_ports(f, ip_off) {
        Some(v) => v,
        None => (f[ip_off + 9], 0u16, 0u16),
    };
    let (itype, icode) = type_code(f, ip_off);
    let p = FwPacket { src, dst, proto, sport, dport, itype, icode };
    let mut idx: u32 = 0;
    while idx < FW_MAX_RULES
        invariant
            idx <= FW_MAX_RULES,
            action(f@, ip_off as int, tables@, ifindex, dir) == first_action(
                tables@.fw_rules,
                ifindex,
                idx as nat,
                dir,
                p,
            ),
        decreases FW_MAX_RULES - idx,
    {
        if let Some(r) = tables.fw_rules.get(&FwRuleKey { ifindex, idx }) {
            if r.direction == dir && fw_rule_matches(&r, &p) {
                return r.action;
            }
        }
        idx = idx + 1;
    }
    FW_ACTION_DROP
}

/// Whether the firewall drops the packet.
pub fn fw_denies(f: &Vec<u8>, ip_off: usize, tables: &Tables, ifindex: u32, dir: u8) -> (r: bool)
    ensures
        r == denied(f@, ip_off as int, tables@, ifindex, dir),
{
    fw_eval_dir(f, ip_off, tables, ifindex, dir) == FW_ACTION_DROP && fw_enforcing(tables)
}

/// The firewall is a whitelist: an interface without rules in a direction accepts every packet;
/// with rules there, a packet that none of them matches is dropped.
pub proof fn law_whitelist(f: Seq<u8>, ip: int, t: TablesView, ifindex: u32, dir: u8)
    ensures
        !t.fw_meta.contains_key(ifindex) || rule_count(t.fw_meta[ifindex], dir) == 0 ==> action(
            f,
            ip,
            t,
            ifindex,
            dir,
        ) == FW_ACTION_ACCEPT,
        t.fw_meta.contains_key(ifindex) && rule_count(t.fw_meta[ifindex], dir) != 0 && ip + 20
            <= f.len() && (forall|idx: u32|
            idx < FW_MAX_RULES ==> !#[trigger] slot_matches(
                t.fw_rules,
                ifindex,
                idx,
                dir,
                seen(f, ip),
            )) ==> action(f, ip, t, ifindex, dir) == FW_ACTION_DROP,
{
    if forall|idx: u32|
        idx < FW_MAX_RULES ==> !#[trigger] slot_matches(
            t.fw_rules,
            ifindex,
            idx,
            dir,
            seen(f, ip),
        ) {
        lemma_no_match_drops(t.fw_rules, ifindex, 0, dir, seen(f, ip));
    }
}

proof fn lemma_no_match_drops(
    rules: Map<FwRuleKey, FwRule>,
    ifindex: u32,
    from: nat,
    dir: u8,
    p: FwPacket,
)
    requires
        forall|idx: u32|
            idx < FW_MAX_RULES ==> !#[trigger] slot_matches(rules, ifindex, idx, dir, p),
    ensures
        first_action(rules, ifindex, from, dir, p) == FW_ACTION_DROP,
    decreases FW_MAX_RULES - from,
{
    if from < FW_MAX_RULES {
        assert(!slot_matches(rules, ifindex, from as u32, dir, p));
        lemma_no_match_drops(rules, ifindex, from + 1, dir, p);
    }
}

/// The first matching rule decides: of all slots that match, the lowest one's action is taken.
pub proof fn law_first_match_decides(
    rules: Map<FwRuleKey, FwRule>,
    ifindex: u32,
    from: nat,
    idx: u32,
    dir: u8,
    p: FwPacket,
)
    requires
        from <= idx < FW_MAX_RULES,
        slot_matches(rules, ifindex, idx, dir, p),
        forall|j: u32| from <= j < idx ==> !#[trigger] slot_matches(rules, ifindex, j, dir, p),
    ensures
        first_action(rules, ifindex, from, dir, p) == rules[FwRuleKey { ifindex, idx }].action,
    decreases idx - from,
{
    if from < idx {
        assert(!slot_matches(rules, ifindex, from as u32, dir, p));
        law_first_match_decides(rules, ifindex, from + 1, idx, dir, p);
    }
}

/// With enforcement off the firewall drops nothing.
pub proof fn law_evaluate_only_drops_nothing(
    f: Seq<u8>,
    ip: int,
    t: TablesView,
    ifindex: u32,
    dir: u8,
)
    requires
        t.fw_config == Some(0u32),
    ensures
        !denied(f, ip, t, ifindex, dir),
{
}

/// Whether an interface has exactly one rule in direction `dir`: `r`, in slot `idx`. Rules of the
/// other direction, and of other interfaces, may be there.
pub open spec fn sole_rule(t: TablesView, ifindex: u32, dir: u8, idx: u32, r: FwRule) -> bool {
    &&& dir == FW_DIR_EGRESS || dir == FW_DIR_INGRESS
    &&& t.fw_meta.contains_key(ifindex)
    &&& dir == FW_DIR_EGRESS ==> t.fw_meta[ifindex].egress_count == 1
    &&& dir == FW_DIR_INGRESS ==> t.fw_meta[ifindex].ingress_count == 1
    &&& idx < 16
    &&& r.direction == dir
    &&& t.fw_rules.contains_pair(FwRuleKey { ifindex, idx }, r)
    &&& forall|j: u32|
        j < 16 && j != idx && #[trigger] t.fw_rules.contains_key(FwRuleKey { ifindex, idx: j })
            ==> t.fw_rules[FwRuleKey { ifindex, idx: j }].direction != dir
}

/// A packet that the sole rule of a direction matches gets the rule's action; any other packet is
/// dropped.
proof fn lemma_sole_rule(
    f: Seq<u8>,
    ip: int,
    t: TablesView,
    ifindex: u32,
    dir: u8,
    idx: u32,
    r: FwRule,
)
    requires
        0 <= ip,
        ip + 20 <= f.len(),
        sole_rule(t, ifindex, dir, idx, r),
    ensures
        action(f, ip, t, ifindex, dir) == (if matches_rule(r, seen(f, ip)) {
            r.action
        } else {
            0
        }),
{
    let p = seen(f, ip);
    assert forall|j: u32| j < 16 && j != idx implies !#[trigger] slot_matches(
        t.fw_rules,
        ifindex,
        j,
        dir,
        p,
    ) by {
        let k = FwRuleKey { ifindex, idx: j };
        if t.fw_rules.contains_key(k) {
            assert(t.fw_rules[k].direction != dir);
        }
    }
    if matches_rule(r, p) {
        assert(slot_matches(t.fw_rules, ifindex, idx, dir, p));
        law_first_match_decides(t.fw_rules, ifindex, 0, idx, dir, p);
    } else {
        assert(!slot_matches(t.fw_rules, ifindex, idx, dir, p));
        lemma_no_match_drops(t.fw_rules, ifindex, 0, dir, p);
    }
}

/// An ICMP rule looks at the message's type, its first byte, and its code, the second: of the ICMP
/// packets to and from anywhere, the sole rule of an interface takes those whose type and code are
/// the rule's (65535 stands for any), and the rest are dropped.
pub proof fn law_icmp_rule_reads_type_and_code(
    f: Seq<u8>,
    ip: int,
    t: TablesView,
    ifindex: u32,
    dir: u8,
    idx: u32,
    r: FwRule,
)
    requires
        0 <= ip,
        ip + 22 <= f.len(),
        f[ip] % 16 == 5,
        f[ip + 9] == 1,
        sole_rule(t, ifindex, dir, idx, r),
        r.proto == 1,
        r.src_prefix_len == 0,
        r.dst_prefix_len == 0,
    ensures
        (r.itype == 65535 || r.itype == f[ip + 20]) && (r.icode == 65535 || r.icode == f[ip + 21])
            ==> action(f, ip, t, ifindex, dir) == r.action,
        r.itype != 65535 && r.itype != f[ip + 20] ==> action(f, ip, t, ifindex, dir) == 0,
        r.icode != 65535 && r.icode != f[ip + 21] ==> action(f, ip, t, ifindex, dir) == 0,
{
    lemma_sole_rule(f, ip, t, ifindex, dir, idx, r);
}

/// A TCP or UDP rule looks at the first two words of the segment: of the packets of its protocol to
/// and from anywhere, the sole rule of an interface takes those whose source port (the first word)
/// and destination port (the second) lie in the rule's ranges, both ends included, and the rest are
/// dropped.
pub proof fn law_port_rule_reads_both_ports(
    f: Seq<u8>,
    ip: int,
    t: TablesView,
    ifindex: u32,
    dir: u8,
    idx: u32,
    r: FwRule,
)
    requires
        0 <= ip,
        ip + 20 <= f.len(),
        f[ip] % 16 >= 5,
        f[ip + 9] == 6 || f[ip + 9] == 17,
        ip + 4 * (f[ip] % 16) + 4 <= f.len(),
        sole_rule(t, ifindex, dir, idx, r),
        r.proto == f[ip + 9],
        r.src_prefix_len == 0,
        r.dst_prefix_len == 0,
    ensures
        ({
            let l4 = ip + 4 * (f[ip] % 16);
            let from = f[l4] * 256 + f[l4 + 1];
            let to = f[l4 + 2] * 256 + f[l4 + 3];
            let wanted = r.src_port_min <= from <= r.src_port_max && r.dst_port_min <= to
                <= r.dst_port_max;
            action(f, ip, t, ifindex, dir) == (if wanted {
                r.action
            } else {
                0
            })
        }),
{
    lemma_sole_rule(f, ip, t, ifindex, dir, idx, r);
}

/// A rule is of one protocol: a packet of another is dropped where the rule is the only one. A rule
/// of protocol 0 takes every protocol, whatever ports, type and code it holds.
pub proof fn law_rule_is_of_one_protocol(
    f: Seq<u8>,
    ip: int,
    t: TablesView,
    ifindex: u32,
    dir: u8,
    idx: u32,
    r: FwRule,
)
    requires
        0 <= ip,
        ip + 20 <= f.len(),
        sole_rule(t, ifindex, dir, idx, r),
    ensures
        r.proto != 0 && r.proto != f[ip + 9] ==> action(f, ip, t, ifindex, dir) == 0,
        r.proto == 0 && r.src_prefix_len == 0 && r.dst_prefix_len == 0 ==> action(
            f,
            ip,
            t,
            ifindex,
            dir,
        ) == r.action,
        r.proto == f[ip + 9] && r.proto != 1 && r.proto != 6 && r.proto != 17 && r.src_prefix_len
            == 0 && r.dst_prefix_len == 0 ==> action(f, ip, t, ifindex, dir) == r.action,
{
    lemma_sole_rule(f, ip, t, ifindex, dir, idx, r);
}

/// A rule's prefixes are leading bits: the sole rule of an interface, for every protocol, takes the
/// packets whose source address (bytes 12 to 15 of the header) has the first `src_prefix_len` bits
/// of the rule's source, and whose destination address (bytes 16 to 19) those of its destination;
/// the rest are dropped.
pub proof fn law_rule_prefixes_are_leading_bits(
    f: Seq<u8>,
    ip: int,
    t: TablesView,
    ifindex: u32,
    dir: u8,
    idx: u32,
    r: FwRule,
)
    requires
        0 <= ip,
        ip + 20 <= f.len(),
        sole_rule(t, ifindex, dir, idx, r),
        r.proto == 0,
        r.src_prefix_len <= 32,
        r.dst_prefix_len <= 32,
    ensures
        ({
            let from_there = forall|i: int|
                0 <= i < r.src_prefix_len ==> #[trigger] parse::bit(r.src_ip@, i) == parse::bit(
                    f.skip(ip + 12),
                    i,
                );
            let to_there = forall|i: int|
                0 <= i < r.dst_prefix_len ==> #[trigger] parse::bit(r.dst_ip@, i) == parse::bit(
                    f.skip(ip + 16),
                    i,
                );
            action(f, ip, t, ifindex, dir) == (if from_there && to_there {
                r.action
            } else {
                0
            })
        }),
{
    lemma_sole_rule(f, ip, t, ifindex, dir, idx, r);
    lemma_covers_bits(r.src_ip, r.src_prefix_len, f, ip + 12);
    lemma_covers_bits(r.dst_ip, r.dst_prefix_len, f, ip + 16);
}

proof fn lemma_covers_bits(net: [u8; 4], len: u32, f: Seq<u8>, at: int)
    requires
        len <= 32,
        0 <= at,
        at + 4 <= f.len(),
    ensures
        covers(net, len, bytes::at4(f, at)) == (forall|i: int|
            0 <= i < len ==> #[trigger] parse::bit(net@, i) == parse::bit(f.skip(at), i)),
{
    let addr = bytes::at4(f, at);
    parse::law_prefix4_is_the_leading_bits(net, addr, len as int);
    assert forall|i: int| 0 <= i < 32 implies #[trigger] parse::bit(addr@, i) == parse::bit(
        f.skip(at),
        i,
    ) by {
        let k = i / 8;
        assert(0 <= k < 4);
        assert(addr@[k] == f.skip(at)[k]);
    }
}

/// Denial takes both: the rules drop the packet, and enforcement is not switched off. Nothing
/// configured means that it is on.
pub proof fn law_denied_where_dropped_and_enforced(
    f: Seq<u8>,
    ip: int,
    t: TablesView,
    ifindex: u32,
    dir: u8,
)
    ensures
        t.fw_config != Some(0u32) ==> denied(f, ip, t, ifindex, dir) == (action(
            f,
            ip,
            t,
            ifindex,
            dir,
        ) == 0),
{
}

/// What a rule takes, byte by byte: the sole rule of a direction takes a packet exactly where the leading
/// bits of both addresses are the rule's, the protocol is the rule's or the rule's is 0, a TCP or UDP
/// rule has both ports in its ranges, and an ICMP rule has the type and the code or 65535 for them. What
/// it takes gets its action, and the rest is dropped. The packet has a whole transport header, and no
/// IPv4 options.
pub proof fn law_rule_takes_what_it_says(
    f: Seq<u8>,
    ip: int,
    t: TablesView,
    ifindex: u32,
    dir: u8,
    idx: u32,
    r: FwRule,
)
    requires
        0 <= ip,
        ip + 28 <= f.len(),
        f[ip] % 16 == 5,
        sole_rule(t, ifindex, dir, idx, r),
        r.src_prefix_len <= 32,
        r.dst_prefix_len <= 32,
    ensures
        ({
            let from_there = forall|i: int|
                0 <= i < r.src_prefix_len ==> #[trigger] parse::bit(r.src_ip@, i) == parse::bit(
                    f.skip(ip + 12),
                    i,
                );
            let to_there = forall|i: int|
                0 <= i < r.dst_prefix_len ==> #[trigger] parse::bit(r.dst_ip@, i) == parse::bit(
                    f.skip(ip + 16),
                    i,
                );
            let from = f[ip + 20] * 256 + f[ip + 21];
            let to = f[ip + 22] * 256 + f[ip + 23];
            let ports = r.src_port_min <= from <= r.src_port_max && r.dst_port_min <= to
                <= r.dst_port_max;
            let message = (r.itype == 65535 || r.itype == f[ip + 20]) && (r.icode == 65535
                || r.icode == f[ip + 21]);
            let taken = from_there && to_there && (r.proto == 0 || r.proto == f[ip + 9]) && ((r.proto
                == 6 || r.proto == 17) ==> ports) && (r.proto == 1 ==> message);
            action(f, ip, t, ifindex, dir) == (if taken {
                r.action
            } else {
                0
            })
        }),
{
    lemma_sole_rule(f, ip, t, ifindex, dir, idx, r);
    lemma_covers_bits(r.src_ip, r.src_prefix_len, f, ip + 12);
    lemma_covers_bits(r.dst_ip, r.dst_prefix_len, f, ip + 16);
    parse::law_ports_are_the_first_words(f, ip);
}

/// Of two rules of a direction the one in the lower slot decides where both take a packet; where the
/// first does not take it, the second decides as if it were alone.
pub proof fn law_lower_slot_decides(
    f: Seq<u8>,
    ip: int,
    t: TablesView,
    ifindex: u32,
    dir: u8,
    a: u32,
    b: u32,
)
    requires
        0 <= ip,
        ip + 20 <= f.len(),
        a < b < 16,
        t.fw_meta.contains_key(ifindex),
        rule_count(t.fw_meta[ifindex], dir) != 0,
        t.fw_rules.contains_key(FwRuleKey { ifindex, idx: a }),
        t.fw_rules.contains_key(FwRuleKey { ifindex, idx: b }),
        t.fw_rules[FwRuleKey { ifindex, idx: a }].direction == dir,
        t.fw_rules[FwRuleKey { ifindex, idx: b }].direction == dir,
        forall|j: u32|
            j < 16 && j != a && j != b && #[trigger] t.fw_rules.contains_key(
                FwRuleKey { ifindex, idx: j },
            ) ==> t.fw_rules[FwRuleKey { ifindex, idx: j }].direction != dir,
    ensures
        ({
            let first = t.fw_rules[FwRuleKey { ifindex, idx: a }];
            let second = t.fw_rules[FwRuleKey { ifindex, idx: b }];
            action(f, ip, t, ifindex, dir) == (if matches_rule(first, seen(f, ip)) {
                first.action
            } else if matches_rule(second, seen(f, ip)) {
                second.action
            } else {
                0
            })
        }),
{
    let p = seen(f, ip);
    assert forall|j: u32| j < 16 && j != a && j != b implies !#[trigger] slot_matches(
        t.fw_rules,
        ifindex,
        j,
        dir,
        p,
    ) by {
        let k = FwRuleKey { ifindex, idx: j };
        if t.fw_rules.contains_key(k) {
            assert(t.fw_rules[k].direction != dir);
        }
    }
    if slot_matches(t.fw_rules, ifindex, a, dir, p) {
        law_first_match_decides(t.fw_rules, ifindex, 0, a, dir, p);
    } else if slot_matches(t.fw_rules, ifindex, b, dir, p) {
        law_first_match_decides(t.fw_rules, ifindex, 0, b, dir, p);
    } else {
        lemma_no_match_drops(t.fw_rules, ifindex, 0, dir, p);
    }
}

} // verus!
