use xdp_dp::arp_nd::{try_arp_reply, try_nd_reply, GW_MAC};
use xdp_dp::conntrack::{ct_apply, ct_ensure_default, ct_key, ct_touch, invert_key, tcp_advance};
use xdp_dp::conntrack_gc::{stale, sweep, timeout_ns};
use xdp_dp::csum::{csum16, csum_replace2, csum_replace4};
use xdp_dp::encap::{encap_and_redirect, reforward};
use xdp_dp::firewall::{fw_enforcing, fw_eval_dir, fw_rule_matches, FwPacket};
use xdp_dp::frame::Frame;
use xdp_dp::inspect::try_inspect;
use xdp_dp::lb::{lb_select_dnat, lb_select_forward};
use xdp_dp::maglev::{build, build_overlay, TABLE_SIZE};
use xdp_dp::meter::meter_pass;
use xdp_dp::network_nat::{nat_dnat_ingress, nat_snat_egress};
use xdp_dp::parse::{hash5, hash_bytes, l4_ports, mask16, mask4, tcp_flags};
use xdp_dp::tables::Tables;
use xdp_dp::types::{
    CtEntry, CtKey, FwMeta, FwRule, FwRuleKey, LbKey, LbValue, MaglevKey, MeterState, NatKey,
    NatValue, Port, PortMeta, Route, RouteKey, RouteKey6, RouteValue, Uplink, VipKey, CT_REWRITE_DST,
    CT_REWRITE_SRC, FW_ACTION_ACCEPT, FW_ACTION_DROP, FW_ANY, FW_DIR_EGRESS, FW_DIR_INGRESS,
    TCP_ESTABLISHED, TCP_FINWAIT, TCP_NEW_SYN, TCP_NEW_SYNACK, TCP_NONE, TCP_RST_FIN,
};
use xdp_dp::verdict::Verdict;
use xdp_dp::vip::{dnat_egress, dnat_ingress, snat_egress};

/// The one's-complement sum of a byte string's big-endian words.
fn sum(b: &[u8]) -> u32 {
    let mut s: u32 = 0;
    for w in b.chunks(2) {
        s += (w[0] as u32) * 256 + if w.len() == 2 { w[1] as u32 } else { 0 };
    }
    s
}

fn folded(mut s: u32) -> u16 {
    while s > 0xffff {
        s = (s & 0xffff) + (s >> 16);
    }
    s as u16
}

/// An IPv4 frame with valid checksums: TCP (6), UDP (17) or ICMP echo (1), `extra` bytes of payload.
fn ipv4(proto: u8, src: [u8; 4], dst: [u8; 4], sport: u16, dport: u16, extra: usize) -> Vec<u8> {
    let mut l4: Vec<u8> = match proto {
        6 => {
            let mut h = Vec::new();
            h.extend_from_slice(&sport.to_be_bytes());
            h.extend_from_slice(&dport.to_be_bytes());
            h.extend_from_slice(&[0, 0, 0, 1, 0, 0, 0, 0, 0x50, 0x02, 1, 0, 0, 0, 0, 0]);
            h
        }
        17 => {
            let mut h = Vec::new();
            h.extend_from_slice(&sport.to_be_bytes());
            h.extend_from_slice(&dport.to_be_bytes());
            h.extend_from_slice(&((8 + extra) as u16).to_be_bytes());
            h.extend_from_slice(&[0, 0]);
            h
        }
        _ => {
            let mut h = vec![8, 0, 0, 0];
            h.extend_from_slice(&sport.to_be_bytes());
            h.extend_from_slice(&[0, 1]);
            h
        }
    };
    for i in 0..extra {
        l4.push(i as u8 ^ 0x5a);
    }
    let at = match proto {
        6 => 16,
        17 => 6,
        _ => 2,
    };
    let pseudo = if proto == 1 {
        0
    } else {
        sum(&src) + sum(&dst) + proto as u32 + l4.len() as u32
    };
    let c = !folded(pseudo + sum(&l4));
    l4[at] = (c >> 8) as u8;
    l4[at + 1] = c as u8;
    let mut ip = vec![0x45, 0];
    ip.extend_from_slice(&((20 + l4.len()) as u16).to_be_bytes());
    ip.extend_from_slice(&[0, 1, 0, 0, 64, proto, 0, 0]);
    ip.extend_from_slice(&src);
    ip.extend_from_slice(&dst);
    let c = !folded(sum(&ip));
    ip[10] = (c >> 8) as u8;
    ip[11] = c as u8;
    let mut f = vec![2, 0, 0, 0, 0, 1, 2, 0, 0, 0, 0, 5, 8, 0];
    f.extend_from_slice(&ip);
    f.extend_from_slice(&l4);
    f
}

fn checksums_hold(f: &[u8]) -> bool {
    let ip = &f[14..34];
    let l4 = &f[34..];
    let pseudo = if ip[9] == 1 {
        0
    } else {
        sum(&ip[12..20]) + ip[9] as u32 + l4.len() as u32
    };
    folded(sum(ip)) == 0xffff && folded(pseudo + sum(l4)) == 0xffff
}

fn port(f: &[u8], at: usize) -> u16 {
    u16::from_be_bytes([f[at], f[at + 1]])
}

fn guest_port() -> Port {
    Port {
        meta: PortMeta {
            vni: 100,
            guest_ipv4: [10, 0, 0, 5],
            gateway_ipv4: [10, 0, 0, 1],
            guest_mac: [2, 0, 0, 0, 0, 5],
            _pad: [0; 2],
        },
        underlay_ipv6: [0xfd; 16],
        gateway_ipv6: [0xfe; 16],
        guest_ipv6: [0xfc; 16],
    }
}

#[test]
fn csum_replace_follows_rfc_1624() {
    // The worked example of RFC 1624: 0xdd2f, a word 0x5555 that becomes 0x3285.
    assert_eq!(csum_replace2(0xdd2f, 0x5555, 0x3285), 0x0000);
    assert_eq!(csum_replace4(0xdd2f, &[0x55, 0x55, 1, 2], &[0x32, 0x85, 1, 2]), 0x0000);
    assert_eq!(csum_replace2(0x1234, 7, 7), 0x1234);
}

#[test]
fn csum16_of_a_known_header() {
    // A header whose checksum is well known: 0xb861.
    let h = vec![
        0x45, 0x00, 0x00, 0x73, 0x00, 0x00, 0x40, 0x00, 0x40, 0x11, 0x00, 0x00, 0xc0, 0xa8, 0x00, 0x01,
        0xc0, 0xa8, 0x00, 0xc7,
    ];
    assert_eq!(csum16(0, &h, 0, 20), 0xb861);
    assert_eq!(csum16(0, &vec![1, 2, 3], 0, 3), !(0x0102 + 0x0300));
}

#[test]
fn hashes_are_fnv1a() {
    assert_eq!(hash_bytes(b""), 0x811c9dc5);
    assert_eq!(hash_bytes(b"a"), 0xe40c292c);
    assert_eq!(hash_bytes(b"foobar"), 0xbf9cf968);
    assert_eq!(hash5(&[10, 0, 0, 5], &[8, 8, 8, 8], 1000, 53, 17), 3017427567);
}

#[test]
fn prefixes_keep_their_leading_bits() {
    assert_eq!(mask4(&[10, 255, 7, 9], 12), [10, 240, 0, 0]);
    assert_eq!(mask4(&[10, 255, 7, 9], 0), [0; 4]);
    assert_eq!(mask4(&[10, 255, 7, 9], 32), [10, 255, 7, 9]);
    assert_eq!(mask16(&[0xff; 16], 65)[8], 0x80);
    assert_eq!(mask16(&[0xff; 16], 65)[9], 0);
}

#[test]
fn ports_and_flags_are_read() {
    let f = ipv4(6, [1, 2, 3, 4], [5, 6, 7, 8], 1000, 80, 3);
    assert_eq!(l4_ports(&f, 14), Some((6, 1000, 80)));
    assert_eq!(tcp_flags(&f, 14), Some(0x02));
    let g = ipv4(1, [1, 2, 3, 4], [5, 6, 7, 8], 77, 0, 0);
    assert_eq!(l4_ports(&g, 14), Some((1, 77, 77)));
    assert_eq!(tcp_flags(&g, 14), None);
    assert_eq!(l4_ports(&g[..41].to_vec(), 14), None);
    let mut other = ipv4(17, [1, 2, 3, 4], [5, 6, 7, 8], 1, 2, 0);
    other[23] = 47;
    assert_eq!(l4_ports(&other, 14), None);
    // An offset beyond the frame finds nothing, however large it is.
    assert_eq!(l4_ports(&f, f.len()), None);
    assert_eq!(l4_ports(&f, usize::MAX), None);
    assert_eq!(nat_dnat_ingress(&mut f.clone(), usize::MAX, &natted()), None);
}

#[test]
fn arp_for_the_gateway_is_answered() {
    let mut f = vec![0xff; 6];
    f.extend_from_slice(&[2, 0, 0, 0, 0, 5, 8, 6, 0, 1, 8, 0, 6, 4, 0, 1]);
    f.extend_from_slice(&[2, 0, 0, 0, 0, 5, 10, 0, 0, 5, 0, 0, 0, 0, 0, 0, 10, 0, 0, 1]);
    let mut other = f.clone();
    other[41] = 2;
    assert_eq!(try_arp_reply(&mut f, &guest_port()), Some(Verdict::Reflect));
    assert_eq!(&f[0..6], &[2, 0, 0, 0, 0, 5]);
    assert_eq!(&f[6..12], &GW_MAC);
    assert_eq!(&f[20..22], &[0, 2]);
    assert_eq!(&f[22..28], &GW_MAC);
    assert_eq!(&f[28..32], &[10, 0, 0, 1]);
    assert_eq!(&f[32..42], &[2, 0, 0, 0, 0, 5, 10, 0, 0, 5]);
    // The answer is no request.
    assert_eq!(try_arp_reply(&mut f, &guest_port()), None);
    let before = other.clone();
    assert_eq!(try_arp_reply(&mut other, &guest_port()), None);
    assert_eq!(other, before);
}

#[test]
fn neighbor_solicitation_for_the_gateway_is_answered() {
    let mut f = vec![0x33, 0x33, 0xff, 0, 0, 1, 2, 0, 0, 0, 0, 5, 0x86, 0xdd];
    f.extend_from_slice(&[0x60, 0, 0, 0, 0, 32, 58, 255]);
    f.extend_from_slice(&[0xaa; 16]);
    f.extend_from_slice(&[0xbb; 16]);
    f.extend_from_slice(&[135, 0, 0, 0, 0, 0, 0, 0]);
    f.extend_from_slice(&[0xfe; 16]);
    f.extend_from_slice(&[1, 1, 2, 0, 0, 0, 0, 0x55]);
    assert_eq!(f.len(), 86);
    let mut other = f.clone();
    other[62] = 0;
    assert_eq!(try_nd_reply(&mut f, &guest_port()), Some(Verdict::Reflect));
    assert_eq!(f[54], 136);
    assert_eq!(f[58], 0x60);
    assert_eq!(&f[22..38], &[0xfe; 16]);
    assert_eq!(&f[38..54], &[0xaa; 16]);
    // The Ethernet destination stays; the answer announces the gateway.
    assert_eq!(&f[0..6], &[0x33, 0x33, 0xff, 0, 0, 1]);
    assert_eq!(&f[6..12], &GW_MAC);
    assert_eq!(&f[78..80], &[2, 1]);
    assert_eq!(&f[80..86], &GW_MAC);
    let pseudo = sum(&f[22..54]) + 32 + 58;
    assert_eq!(folded(pseudo + sum(&f[54..86])), 0xffff);
    assert_eq!(try_nd_reply(&mut other, &guest_port()), None);
}

#[test]
fn tcp_states_advance() {
    assert_eq!(tcp_advance(TCP_NONE, 0x02), TCP_NEW_SYN);
    assert_eq!(tcp_advance(TCP_NEW_SYN, 0x12), TCP_NEW_SYNACK);
    assert_eq!(tcp_advance(TCP_NEW_SYNACK, 0x10), TCP_ESTABLISHED);
    assert_eq!(tcp_advance(TCP_ESTABLISHED, 0x18), TCP_ESTABLISHED);
    assert_eq!(tcp_advance(TCP_ESTABLISHED, 0x11), TCP_FINWAIT);
    assert_eq!(tcp_advance(TCP_FINWAIT, 0x10), TCP_FINWAIT);
    assert_eq!(tcp_advance(TCP_ESTABLISHED, 0x15), TCP_RST_FIN);
    assert_eq!(tcp_advance(TCP_NONE, 0x10), TCP_NONE);
}

#[test]
fn conntrack_keys_and_their_inverse() {
    let f = ipv4(6, [1, 2, 3, 4], [5, 6, 7, 8], 1000, 80, 0);
    let k = ct_key(&f, 14, 9).unwrap();
    assert_eq!(
        k,
        CtKey { vni: 9, src_ip: [1, 2, 3, 4], dst_ip: [5, 6, 7, 8], src_port: 1000, dst_port: 80, proto: 6 }
    );
    let r = invert_key(&k);
    assert_eq!((r.src_ip, r.src_port, r.dst_ip, r.dst_port), ([5, 6, 7, 8], 80, [1, 2, 3, 4], 1000));
    assert_eq!(invert_key(&r), k);
    assert_eq!(ct_key(&f[..30].to_vec(), 14, 9), None);
}

#[test]
fn conntrack_translations_keep_checksums() {
    for proto in [6u8, 17, 1] {
        for (flag, addr_at) in [(CT_REWRITE_SRC, 26usize), (CT_REWRITE_DST, 30)] {
            let mut f = ipv4(proto, [10, 0, 0, 5], [8, 8, 8, 8], 1000, 53, 5);
            let before = f.clone();
            assert!(checksums_hold(&f));
            let e = CtEntry { xlate_ip: [203, 0, 113, 7], xlate_port: 40000, flags: flag, ..CtEntry::default() };
            ct_apply(&mut f, 14, &e);
            assert_eq!(&f[addr_at..addr_at + 4], &[203, 0, 113, 7]);
            assert!(checksums_hold(&f), "{proto} {flag}");
            // Translating back gives the packet back.
            let old_ip = [before[addr_at], before[addr_at + 1], before[addr_at + 2], before[addr_at + 3]];
            let old_port = if proto == 1 || flag == CT_REWRITE_SRC { 1000 } else { 53 };
            let back = CtEntry { xlate_ip: old_ip, xlate_port: old_port, flags: flag, ..CtEntry::default() };
            ct_apply(&mut f, 14, &back);
            assert_eq!(f, before);
        }
    }
}

#[test]
fn conntrack_entries_without_translation_change_nothing() {
    let mut f = ipv4(6, [10, 0, 0, 5], [8, 8, 8, 8], 1000, 53, 0);
    let before = f.clone();
    ct_apply(&mut f, 14, &CtEntry::default());
    assert_eq!(f, before);
    // Packets with IPv4 options are not translated.
    f[14] = 0x46;
    let before = f.clone();
    ct_apply(&mut f, 14, &CtEntry { flags: CT_REWRITE_SRC, xlate_ip: [1; 4], ..CtEntry::default() });
    assert_eq!(f, before);
}

#[test]
fn udp_without_checksum_stays_without() {
    let mut f = ipv4(17, [10, 0, 0, 5], [8, 8, 8, 8], 1000, 53, 4);
    f[40] = 0;
    f[41] = 0;
    ct_apply(&mut f, 14, &CtEntry { flags: CT_REWRITE_SRC, xlate_ip: [9; 4], xlate_port: 5, ..CtEntry::default() });
    assert_eq!(&f[40..42], &[0, 0]);
    assert_eq!(port(&f, 34), 5);
    assert_eq!(folded(sum(&f[14..34])), 0xffff);
}

#[test]
fn new_flows_are_entered_both_ways() {
    let mut t = Tables::new();
    let f = ipv4(6, [10, 0, 0, 5], [10, 0, 0, 6], 1000, 80, 0);
    let k = ct_key(&f, 14, 1).unwrap();
    let nat = CtEntry { flags: CT_REWRITE_DST, xlate_ip: [7; 4], ..CtEntry::default() };
    ct_ensure_default(&f, 14, &mut t, &k, 55);
    assert_eq!(t.conntrack.get(&k).unwrap().tcp_state, TCP_NEW_SYN);
    assert_eq!(t.conntrack.get(&k).unwrap().last_seen, 55);
    assert!(t.conntrack.contains(&invert_key(&k)));
    // An entry of the reverse direction is not overwritten.
    let mut u = Tables::new();
    u.conntrack.insert(invert_key(&k), nat);
    ct_ensure_default(&f, 14, &mut u, &k, 55);
    assert_eq!(u.conntrack.get(&invert_key(&k)), Some(nat));
    let mut e = t.conntrack.get(&k).unwrap();
    ct_touch(&f, 14, &mut t, &k, &mut e, 99);
    assert_eq!(t.conntrack.get(&k).unwrap().last_seen, 99);
}

#[test]
fn idle_entries_are_swept() {
    let mut t = Tables::new();
    let k = |p: u16| CtKey { vni: 1, src_ip: [1; 4], dst_ip: [2; 4], src_port: p, dst_port: 2, proto: 6 };
    let e = |seen: u64, state: u8| CtEntry { last_seen: seen, tcp_state: state, ..CtEntry::default() };
    t.conntrack.insert(k(1), e(0, TCP_NEW_SYN));
    t.conntrack.insert(k(2), e(1, TCP_NEW_SYN));
    t.conntrack.insert(k(3), e(0, TCP_ESTABLISHED));
    t.conntrack.insert(k(4), e(90_000_000_000, TCP_NONE));
    assert_eq!(timeout_ns(&e(0, TCP_NONE)), 30_000_000_000);
    assert_eq!(timeout_ns(&e(0, TCP_ESTABLISHED)), 86_400_000_000_000);
    assert_eq!(stale(&t.conntrack.entries(), 30_000_000_000), vec![]);
    assert_eq!(stale(&t.conntrack.entries(), 30_000_000_001), vec![k(1)]);
    sweep(&mut t, 30_000_000_001);
    assert!(!t.conntrack.contains(&k(1)));
    assert!(t.conntrack.contains(&k(2)) && t.conntrack.contains(&k(3)) && t.conntrack.contains(&k(4)));
    sweep(&mut t, 86_400_000_000_001);
    assert_eq!(t.conntrack.entries().len(), 0);
}

fn natted() -> Tables {
    let mut t = Tables::new();
    t.nat.insert(
        NatKey { vni: 100, ipv4: [10, 0, 0, 5] },
        NatValue { nat_ipv4: [203, 0, 113, 7], port_min: 40000, port_max: 40100 },
    );
    t
}

#[test]
fn nat_round_trip() {
    for proto in [6u8, 17, 1] {
        let mut t = natted();
        let mut f = ipv4(proto, [10, 0, 0, 5], [8, 8, 8, 8], 1000, 53, 4);
        assert!(nat_snat_egress(&mut f, 14, &mut t, 100, true));
        assert!(checksums_hold(&f));
        assert_eq!(&f[26..30], &[203, 0, 113, 7]);
        let nat_port = if proto == 1 { port(&f, 38) } else { port(&f, 34) };
        assert!((40000..40100).contains(&nat_port));
        if proto == 17 {
            // 3017427567 % 100 = 67.
            assert_eq!(nat_port, 40067);
        }
        // The reply, from the remote end to the public address and port.
        let reply_src = if proto == 1 { nat_port } else { 53 };
        let mut r = ipv4(proto, [8, 8, 8, 8], [203, 0, 113, 7], reply_src, nat_port, 2);
        assert_eq!(nat_dnat_ingress(&mut r, 14, &t), Some([10, 0, 0, 5]));
        assert!(checksums_hold(&r));
        assert_eq!(&r[30..34], &[10, 0, 0, 5]);
        assert_eq!(if proto == 1 { port(&r, 38) } else { port(&r, 36) }, 1000);
        // The flow keeps its port.
        let mut again = ipv4(proto, [10, 0, 0, 5], [8, 8, 8, 8], 1000, 53, 1);
        assert!(nat_snat_egress(&mut again, 14, &mut t, 100, true));
        assert_eq!(if proto == 1 { port(&again, 38) } else { port(&again, 34) }, nat_port);
        assert_eq!(t.nat_ct.entries().len(), 2);
    }
}

#[test]
fn nat_flows_do_not_share_a_port() {
    let mut t = Tables::new();
    for g in 1..=4u8 {
        t.nat.insert(
            NatKey { vni: 100, ipv4: [10, 0, 0, g] },
            NatValue { nat_ipv4: [203, 0, 113, 7], port_min: 5000, port_max: 5004 },
        );
    }
    let mut seen = Vec::new();
    for g in 1..=4u8 {
        let mut f = ipv4(17, [10, 0, 0, g], [8, 8, 8, 8], 1000, 53, 0);
        assert!(nat_snat_egress(&mut f, 14, &mut t, 100, true));
        let p = port(&f, 34);
        assert!(!seen.contains(&p));
        seen.push(p);
    }
    seen.sort();
    assert_eq!(seen, vec![5000, 5001, 5002, 5003]);
}

#[test]
fn nat_echoes_do_not_share_an_identifier() {
    let mut t = Tables::new();
    for g in 1..=3u8 {
        t.nat.insert(
            NatKey { vni: 100, ipv4: [10, 0, 0, g] },
            NatValue { nat_ipv4: [203, 0, 113, 7], port_min: 5000, port_max: 5003 },
        );
    }
    let mut seen = Vec::new();
    for g in 1..=3u8 {
        let mut f = ipv4(1, [10, 0, 0, g], [8, 8, 8, 8], 40 + g as u16, 0, 4);
        assert!(nat_snat_egress(&mut f, 14, &mut t, 100, true));
        assert!(checksums_hold(&f));
        seen.push(port(&f, 38));
    }
    seen.sort();
    assert_eq!(seen, vec![5000, 5001, 5002]);
}

#[test]
fn nat_of_a_flow_to_its_own_address_returns() {
    let own = [203, 0, 113, 7];
    let mut t = Tables::new();
    t.nat.insert(NatKey { vni: 100, ipv4: own }, NatValue { nat_ipv4: own, port_min: 5000, port_max: 5001 });
    let mut f = ipv4(17, own, own, 5000, 5000, 0);
    let sent = f.clone();
    assert!(nat_snat_egress(&mut f, 14, &mut t, 100, true));
    assert_eq!(port(&f, 34), 5000);
    assert_eq!(nat_dnat_ingress(&mut f, 14, &t), Some(own));
    assert_eq!(&f[26..38], &sent[26..38]);
}

#[test]
fn nat_leaves_other_packets_alone() {
    let mut t = natted();
    let f = ipv4(17, [10, 0, 0, 5], [8, 8, 8, 8], 1000, 53, 0);
    let mut g = f.clone();
    assert!(!nat_snat_egress(&mut g, 14, &mut t, 100, false));
    assert!(!nat_snat_egress(&mut g, 14, &mut t, 101, true));
    assert_eq!(nat_dnat_ingress(&mut g, 14, &t), None);
    assert_eq!(g, f);
    t.nat.insert(
        NatKey { vni: 100, ipv4: [10, 0, 0, 5] },
        NatValue { nat_ipv4: [1; 4], port_min: 7, port_max: 7 },
    );
    assert!(!nat_snat_egress(&mut g, 14, &mut t, 100, true));
    assert_eq!(g, f);
}

fn accept_all() -> FwRule {
    FwRule {
        src_port_max: 65535,
        dst_port_max: 65535,
        itype: FW_ANY,
        icode: FW_ANY,
        direction: FW_DIR_EGRESS,
        action: FW_ACTION_ACCEPT,
        ..FwRule::default()
    }
}

#[test]
fn rules_match_by_every_field() {
    let p = FwPacket { src: [10, 0, 0, 5], dst: [8, 8, 8, 8], proto: 6, sport: 1000, dport: 80, itype: 0, icode: 0 };
    assert!(fw_rule_matches(&accept_all(), &p));
    let r = FwRule { src_ip: [10, 0, 0, 0], src_prefix_len: 24, proto: 6, dst_port_min: 80, dst_port_max: 80, ..accept_all() };
    assert!(fw_rule_matches(&r, &p));
    assert!(!fw_rule_matches(&FwRule { dst_port_min: 81, dst_port_max: 90, ..r }, &p));
    assert!(!fw_rule_matches(&FwRule { src_port_max: 999, ..r }, &p));
    assert!(!fw_rule_matches(&FwRule { proto: 17, ..r }, &p));
    assert!(!fw_rule_matches(&FwRule { src_ip: [10, 0, 1, 0], ..r }, &p));
    assert!(!fw_rule_matches(&FwRule { dst_ip: [9, 0, 0, 0], dst_prefix_len: 8, ..r }, &p));
    let icmp = FwRule { proto: 1, itype: 8, icode: 0, ..accept_all() };
    let ping = FwPacket { proto: 1, itype: 8, ..p };
    assert!(fw_rule_matches(&icmp, &ping));
    assert!(!fw_rule_matches(&icmp, &FwPacket { itype: 0, ..ping }));
    assert!(!fw_rule_matches(&FwRule { icode: 3, ..icmp }, &ping));
}

#[test]
fn firewall_is_a_whitelist() {
    let mut t = Tables::new();
    let f = ipv4(6, [10, 0, 0, 5], [8, 8, 8, 8], 1000, 80, 0);
    assert_eq!(fw_eval_dir(&f, 14, &t, 7, FW_DIR_EGRESS), FW_ACTION_ACCEPT);
    t.fw_meta.insert(7, FwMeta { ingress_count: 0, egress_count: 2 });
    assert_eq!(fw_eval_dir(&f, 14, &t, 7, FW_DIR_EGRESS), FW_ACTION_DROP);
    assert_eq!(fw_eval_dir(&f, 14, &t, 7, FW_DIR_INGRESS), FW_ACTION_ACCEPT);
    assert_eq!(fw_eval_dir(&f[..20].to_vec(), 14, &t, 7, FW_DIR_EGRESS), FW_ACTION_ACCEPT);
    let deny = FwRule { proto: 6, dst_port_min: 80, dst_port_max: 80, action: FW_ACTION_DROP, ..accept_all() };
    t.fw_rules.insert(FwRuleKey { ifindex: 7, idx: 0 }, deny);
    t.fw_rules.insert(FwRuleKey { ifindex: 7, idx: 1 }, accept_all());
    assert_eq!(fw_eval_dir(&f, 14, &t, 7, FW_DIR_EGRESS), FW_ACTION_DROP);
    let g = ipv4(6, [10, 0, 0, 5], [8, 8, 8, 8], 1000, 443, 0);
    assert_eq!(fw_eval_dir(&g, 14, &t, 7, FW_DIR_EGRESS), FW_ACTION_ACCEPT);
    assert!(fw_enforcing(&t));
    t.fw_config = Some(0);
    assert!(!fw_enforcing(&t));
    t.fw_config = Some(1);
    assert!(fw_enforcing(&t));
}

#[test]
fn load_balancer_picks_a_backend() {
    let mut t = Tables::new();
    let key = LbKey { vni: 100, ipv4: [8, 8, 8, 8], port: 53, proto: 17 };
    t.lb.insert(key, LbValue { table_id: 3, size: 100 });
    t.maglev.insert(MaglevKey { table_id: 3, slot: 67 }, [0xab; 16]);
    t.maglev_overlay.insert(MaglevKey { table_id: 3, slot: 67 }, [10, 0, 0, 9]);
    let f = ipv4(17, [10, 0, 0, 5], [8, 8, 8, 8], 1000, 53, 4);
    // 3017427567 % 100 = 67.
    assert_eq!(lb_select_forward(&f, 14, &t, 100), Some([0xab; 16]));
    assert_eq!(lb_select_forward(&f, 14, &t, 101), None);
    let mut g = f.clone();
    assert_eq!(lb_select_dnat(&mut g, 14, &t, 100), Some([10, 0, 0, 9]));
    assert_eq!(&g[30..34], &[10, 0, 0, 9]);
    assert!(checksums_hold(&g));
    t.lb.insert(key, LbValue { table_id: 3, size: 0 });
    assert_eq!(lb_select_forward(&f, 14, &t, 100), None);
    // ICMP counts as port zero.
    t.lb.insert(LbKey { vni: 100, ipv4: [8, 8, 8, 8], port: 0, proto: 1 }, LbValue { table_id: 4, size: 1 });
    t.maglev.insert(MaglevKey { table_id: 4, slot: 0 }, [0xcd; 16]);
    assert_eq!(lb_select_forward(&ipv4(1, [1; 4], [8, 8, 8, 8], 9, 9, 0), 14, &t, 100), Some([0xcd; 16]));
}

#[test]
fn maglev_shares_evenly() {
    let one = build(&vec![[1; 16]]);
    assert_eq!(one, vec![0; TABLE_SIZE as usize]);
    let backends: Vec<[u8; 16]> = (0..7u8).map(|i| [i; 16]).collect();
    let table = build(&backends);
    assert_eq!(table.len(), 1024);
    for b in 0..7u32 {
        let n = table.iter().filter(|&&x| x == b).count();
        // 1024 = 7 * 146 + 2.
        assert_eq!(n, if b < 2 { 147 } else { 146 });
    }
    assert_eq!(build(&backends), table);
    let overlay = build_overlay(&vec![[1; 4], [2; 4]]);
    assert_eq!(overlay.iter().filter(|&&x| x == 1).count(), 512);
}

#[test]
fn vips_are_applied_both_ways() {
    let mut t = Tables::new();
    t.vips.insert(VipKey { vni: 1, ipv4: [10, 0, 0, 5] }, [203, 0, 113, 5]);
    t.vips.insert(VipKey { vni: 1, ipv4: [203, 0, 113, 5] }, [10, 0, 0, 5]);
    let mut f = ipv4(6, [10, 0, 0, 5], [8, 8, 8, 8], 1000, 80, 1);
    assert!(snat_egress(&mut f, 14, &t, 1));
    assert_eq!(&f[26..30], &[203, 0, 113, 5]);
    assert!(checksums_hold(&f));
    let mut r = ipv4(6, [8, 8, 8, 8], [203, 0, 113, 5], 80, 1000, 1);
    assert!(dnat_ingress(&mut r, 14, &t, 1));
    assert_eq!(&r[30..34], &[10, 0, 0, 5]);
    assert!(checksums_hold(&r));
    let mut e = ipv4(17, [10, 0, 0, 6], [203, 0, 113, 5], 80, 1000, 1);
    assert!(dnat_egress(&mut e, 14, &t, 1));
    assert_eq!(&e[30..34], &[10, 0, 0, 5]);
    let before = e.clone();
    assert!(!dnat_egress(&mut e, 14, &t, 2));
    assert_eq!(e, before);
}

#[test]
fn meters_cap_the_rate() {
    let mut t = Tables::new();
    assert!(meter_pass(&mut t, 7, 1_000_000, true, 0));
    t.meter.insert(7, MeterState { total_bps: 1000, total_burst: 2000, total_tokens: 1500, ..MeterState::default() });
    assert!(meter_pass(&mut t, 7, 1500, false, 0));
    assert!(!meter_pass(&mut t, 7, 1, false, 0));
    // Half a second later there are 500 tokens.
    assert!(!meter_pass(&mut t, 7, 501, false, 500_000_000));
    assert!(meter_pass(&mut t, 7, 500, false, 500_000_000));
    // The bucket never holds more than its burst.
    assert!(!meter_pass(&mut t, 7, 2001, false, 3_600_000_000_000));
    assert!(meter_pass(&mut t, 7, 2000, false, 3_600_000_000_000));
    // The second bucket counts only traffic that leaves the overlay.
    t.meter.insert(8, MeterState { public_bps: 8, public_burst: 10, public_tokens: 10, ..MeterState::default() });
    assert!(meter_pass(&mut t, 8, 9999, false, 0));
    assert!(!meter_pass(&mut t, 8, 11, true, 0));
    assert!(meter_pass(&mut t, 8, 10, true, 0));
    assert_eq!(t.meter.get(&8).unwrap().public_tokens, 0);
}

fn uplink() -> Uplink {
    let mut u = Uplink::default();
    u.local.uplink_ifindex = 3;
    u.local.uplink_mac = [2, 0, 0, 0, 0, 3];
    u.local.underlay_ipv6 = [0xfd; 16];
    u.gateway_mac = [2, 0, 0, 0, 0, 4];
    u
}

#[test]
fn encapsulation_writes_the_outer_headers() {
    let f = ipv4(17, [10, 0, 0, 5], [10, 0, 0, 6], 1, 2, 4);
    let inner = f[14..].to_vec();
    let route = RouteValue { nexthop_ipv6: [0xee; 16], ..RouteValue::default() };
    let mut frame = Frame { bytes: f.clone(), headroom: 40, tailroom: 0 };
    let r = encap_and_redirect(&mut frame, &uplink(), &[0xfd; 16], &route, inner.len() as u16, 4);
    assert_eq!(r, Ok(Verdict::Redirect(3)));
    assert_eq!(frame.headroom, 0);
    let mut expected = vec![2, 0, 0, 0, 0, 4, 2, 0, 0, 0, 0, 3, 0x86, 0xdd, 0x60, 0, 0, 0, 0, 32, 4, 64];
    expected.extend_from_slice(&[0xfd; 16]);
    expected.extend_from_slice(&[0xee; 16]);
    expected.extend_from_slice(&inner);
    assert_eq!(frame.bytes, expected);
    assert_eq!(reforward(&mut frame.bytes, &uplink(), &[0x11; 16], &[0x22; 16]), Verdict::Redirect(3));
    assert_eq!(&frame.bytes[22..38], &[0x11; 16]);
    assert_eq!(&frame.bytes[38..54], &[0x22; 16]);
    assert_eq!(&frame.bytes[54..], &inner[..]);
    let mut short = vec![0u8; 53];
    assert_eq!(reforward(&mut short, &uplink(), &[0x11; 16], &[0x22; 16]), Verdict::Drop);
    // No room for the outer headers.
    let mut tight = Frame { bytes: f.clone(), headroom: 39, tailroom: 0 };
    assert_eq!(encap_and_redirect(&mut tight, &uplink(), &[0; 16], &route, 1, 4), Err(()));
    assert_eq!(tight.bytes, f);
}

#[test]
fn routes_are_looked_up_by_longest_prefix() {
    let mut t = Tables::new();
    let route = |n: u8| Route { value: RouteValue { nexthop_ipv6: [n; 16], ..RouteValue::default() }, is_external: false };
    t.routes.insert(RouteKey { vni: 1, prefix_len: 0, ipv4: [0; 4] }, route(1));
    t.routes.insert(RouteKey { vni: 1, prefix_len: 8, ipv4: [10, 0, 0, 0] }, route(2));
    t.routes.insert(RouteKey { vni: 1, prefix_len: 32, ipv4: [10, 0, 0, 6] }, route(3));
    assert_eq!(t.route4(1, &[10, 0, 0, 6]), Some(route(3)));
    assert_eq!(t.route4(1, &[10, 9, 0, 6]), Some(route(2)));
    assert_eq!(t.route4(1, &[11, 9, 0, 6]), Some(route(1)));
    assert_eq!(t.route4(2, &[10, 0, 0, 6]), None);
}

#[test]
fn ipv6_routes_are_looked_up_by_longest_prefix() {
    let mut t = Tables::new();
    let route = |n: u8| Route { value: RouteValue { nexthop_ipv6: [n; 16], ..RouteValue::default() }, is_external: false };
    let net = |last: u8| [0xfd, 0, 0, 0, 0, 0, 0, 0, 0, 0, 0, 0, 0, 0, 0, last];
    t.routes6.insert(RouteKey6 { vni: 1, prefix_len: 0, ipv6: [0; 16] }, route(1));
    t.routes6.insert(RouteKey6 { vni: 1, prefix_len: 120, ipv6: net(0) }, route(2));
    t.routes6.insert(RouteKey6 { vni: 1, prefix_len: 127, ipv6: net(4) }, route(3));
    assert_eq!(t.route6(1, &net(5)), Some(route(3)));
    assert_eq!(t.route6(1, &net(6)), Some(route(2)));
    assert_eq!(t.route6(1, &[0x20; 16]), Some(route(1)));
    assert_eq!(t.route6(2, &net(5)), None);
}

#[test]
fn inspector_keeps_the_head() {
    let mut t = Tables::new();
    assert_eq!(try_inspect(&vec![7; 40], &mut t), Verdict::Pass);
    assert_eq!((t.inspect.len, t.inspect.seen, t.inspect.bytes), (40, 1, [7; 32]));
    t.inspect.seen = u32::MAX;
    assert_eq!(try_inspect(&vec![9; 2], &mut t), Verdict::Pass);
    assert_eq!((t.inspect.len, t.inspect.seen), (2, 0));
    assert_eq!(&t.inspect.bytes[..3], &[9, 9, 0]);
}

#[test]
fn gateway_mac_is_locally_administered() {
    assert_eq!(GW_MAC, [0x02, 0, 0, 0, 0, 1]);
}
