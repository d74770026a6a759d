use xdp_dp::arp_nd::GW_MAC;
use xdp_dp::dhcp6::{d6_store_url, d6_url_len};
use xdp_dp::egress::{dhcp_handle, try_guest_tx};
use xdp_dp::frame::Frame;
use xdp_dp::ingress::try_uplink_rx;
use xdp_dp::programs::{guest_tx, uplink_rx, xdp_inspect, xdp_pass};
use xdp_dp::table::Addr6;
use xdp_dp::tables::Tables;
use xdp_dp::tc::{tc_guest_dhcp, tc_guest_tx};
use xdp_dp::types::{
    CtEntry, CtKey, DhcpConfig, DhcpMeta, FwMeta, IfaceKey, IfaceValue, LbKey, LbValue, MaglevKey,
    MeterState, NatKey, NatValue, NeighborNatEntry, Port, PortMeta, Route, RouteKey, RouteKey6, RouteValue, UnderlayValue, Uplink,
    VipKey, CT_REWRITE_DST,
};
use xdp_dp::v6::v6_guest_tx;
use xdp_dp::verdict::Verdict;

const NEAR: [u8; 16] = [0xfd, 0, 0, 0, 0, 0, 0, 0, 0, 0, 0, 0, 0, 0, 0, 1];
const FAR: [u8; 16] = [0xfd, 0, 0, 0, 0, 0, 0, 0, 0, 0, 0, 0, 0, 0, 0, 2];

fn sum(b: &[u8]) -> u32 {
    let mut s: u32 = 0;
    for w in b.chunks(2) {
        s += (w[0] as u32) * 256 + if w.len() == 2 { w[1] as u32 } else { 0 };
    }
    s
}

fn folded(mut s: u32) -> u16 {
    while s > 0xffff {
        s = (s & 0xffff) + (s >> 16);
    }
    s as u16
}

fn udp(src: [u8; 4], dst: [u8; 4], sport: u16, dport: u16) -> Vec<u8> {
    let mut f = vec![2, 0, 0, 0, 0, 1, 2, 0, 0, 0, 0, 5, 8, 0, 0x45, 0, 0, 32, 0, 0, 0, 0, 64, 17, 0, 0];
    f.extend_from_slice(&src);
    f.extend_from_slice(&dst);
    let c = !folded(sum(&f[14..34]));
    f[24] = (c >> 8) as u8;
    f[25] = c as u8;
    f.extend_from_slice(&sport.to_be_bytes());
    f.extend_from_slice(&dport.to_be_bytes());
    f.extend_from_slice(&[0, 12, 0, 0, 1, 2, 3, 4]);
    f
}

fn framed(bytes: Vec<u8>) -> Frame {
    Frame { bytes, headroom: 256, tailroom: 512 }
}

fn guest(n: u8, vni: u32, underlay: [u8; 16]) -> Port {
    Port {
        meta: PortMeta {
            vni,
            guest_ipv4: [10, 0, 0, n],
            gateway_ipv4: [10, 0, 0, 1],
            guest_mac: [2, 0, 0, 0, 0, n],
            _pad: [0; 2],
        },
        underlay_ipv6: underlay,
        gateway_ipv6: [0xfe; 16],
        guest_ipv6: [0xfc; 16],
    }
}

/// A hypervisor at `underlay` with one guest, 10.0.0.`n` on tap `n`, in VNI 100.
fn host(n: u8, underlay: [u8; 16]) -> Tables {
    let mut t = Tables::new();
    t.ports.insert(n as u32, guest(n, 100, underlay));
    t.underlay.insert(Addr6(underlay), UnderlayValue { vni: 100, tap_ifindex: n as u32, guest_mac: [2, 0, 0, 0, 0, n] });
    t.interfaces.insert(
        IfaceKey::new(100, [10, 0, 0, n]),
        IfaceValue { tap_ifindex: n as u32, is_local: 1, underlay_ipv6: underlay, guest_mac: [2, 0, 0, 0, 0, n], _pad: [0; 2] },
    );
    let mut u = Uplink::default();
    u.local.uplink_ifindex = 99;
    u.local.uplink_mac = [2, 9, 9, 9, 9, n];
    u.gateway_mac = [2, 8, 8, 8, 8, 8];
    t.local = Some(u);
    t
}

fn route(t: &mut Tables, ipv4: [u8; 4], len: u32, nexthop: [u8; 16], external: bool) {
    t.routes.insert(
        RouteKey { vni: 100, prefix_len: len, ipv4 },
        Route { value: RouteValue { nexthop_vni: 100, nexthop_ipv6: nexthop, ..RouteValue::default() }, is_external: external },
    );
}

#[test]
fn packet_crosses_the_underlay() {
    let mut near = host(5, NEAR);
    let mut far = host(6, FAR);
    route(&mut near, [10, 0, 0, 6], 32, FAR, false);
    let f = udp([10, 0, 0, 5], [10, 0, 0, 6], 1000, 2000);
    let inner = f[14..].to_vec();
    let mut frame = framed(f);
    assert_eq!(guest_tx(&mut frame, &mut near, 5, 1), Verdict::Redirect(99));
    assert_eq!(frame.bytes.len(), 14 + 40 + inner.len());
    assert_eq!(&frame.bytes[38..54], &FAR);
    assert_eq!(frame.bytes[20], 4);
    assert_eq!(uplink_rx(&mut frame, &mut far, 2), Verdict::Redirect(6));
    assert_eq!(&frame.bytes[0..6], &[2, 0, 0, 0, 0, 6]);
    assert_eq!(&frame.bytes[6..12], &GW_MAC);
    assert_eq!(&frame.bytes[12..14], &[8, 0]);
    assert_eq!(&frame.bytes[14..], &inner[..]);
    // Both ends know the flow now, in both directions.
    let k = CtKey { vni: 100, src_ip: [10, 0, 0, 6], dst_ip: [10, 0, 0, 5], src_port: 2000, dst_port: 1000, proto: 17 };
    assert_eq!(near.conntrack.get(&k).unwrap().last_seen, 1);
    assert_eq!(far.conntrack.get(&k).unwrap().last_seen, 2);
}

#[test]
fn same_host_packet_is_not_encapsulated() {
    let mut t = host(5, NEAR);
    t.underlay.insert(Addr6(FAR), UnderlayValue { vni: 100, tap_ifindex: 6, guest_mac: [2, 0, 0, 0, 0, 6] });
    route(&mut t, [10, 0, 0, 6], 32, FAR, false);
    let f = udp([10, 0, 0, 5], [10, 0, 0, 6], 1, 2);
    let mut frame = framed(f.clone());
    assert_eq!(try_guest_tx(&mut frame, &mut t, 5, 1), Ok(Verdict::Redirect(6)));
    assert_eq!(frame.bytes.len(), f.len());
    assert_eq!(&frame.bytes[0..6], &[2, 0, 0, 0, 0, 6]);
    assert_eq!(&frame.bytes[12..], &f[12..]);
    // An anycast owner has no tap: the packet is encapsulated.
    t.underlay.insert(Addr6(FAR), UnderlayValue { vni: 100, tap_ifindex: 0, guest_mac: [0; 6] });
    let mut frame = framed(f);
    assert_eq!(try_guest_tx(&mut frame, &mut t, 5, 1), Ok(Verdict::Redirect(99)));
}

#[test]
fn unknown_taps_and_routes_pass() {
    let mut t = host(5, NEAR);
    let mut frame = framed(udp([10, 0, 0, 5], [10, 0, 0, 9], 1, 2));
    assert_eq!(try_guest_tx(&mut frame, &mut t, 4, 1), Err(()));
    assert_eq!(try_guest_tx(&mut frame, &mut t, 5, 1), Err(()));
    assert_eq!(guest_tx(&mut frame, &mut t, 5, 1), Verdict::Pass);
    let mut short = framed(vec![0; 20]);
    assert_eq!(try_guest_tx(&mut short, &mut t, 5, 1), Ok(Verdict::Pass));
    assert_eq!(try_uplink_rx(&mut short, &mut t, 1), Ok(Verdict::Pass));
    assert_eq!(xdp_pass(&short), Verdict::Pass);
    assert_eq!(xdp_inspect(&short, &mut t), Verdict::Pass);
    assert_eq!(t.inspect.len, 20);
}

#[test]
fn egress_firewall_drops_new_flows_only() {
    let mut t = host(5, NEAR);
    route(&mut t, [10, 0, 0, 6], 32, FAR, false);
    t.fw_meta.insert(5, FwMeta { ingress_count: 0, egress_count: 1 });
    let f = udp([10, 0, 0, 5], [10, 0, 0, 6], 1, 2);
    let mut frame = framed(f.clone());
    assert_eq!(guest_tx(&mut frame, &mut t, 5, 1), Verdict::Drop);
    assert_eq!(frame.bytes, f);
    assert!(t.conntrack.entries().is_empty());
    let k = CtKey { vni: 100, src_ip: [10, 0, 0, 5], dst_ip: [10, 0, 0, 6], src_port: 1, dst_port: 2, proto: 17 };
    t.conntrack.insert(k, CtEntry::default());
    assert_eq!(guest_tx(&mut frame, &mut t, 5, 7), Verdict::Redirect(99));
    assert_eq!(t.conntrack.get(&k).unwrap().last_seen, 7);
}

#[test]
fn ingress_firewall_lets_returns_in() {
    let mut near = host(5, NEAR);
    let mut far = host(6, FAR);
    route(&mut near, [10, 0, 0, 6], 32, FAR, false);
    route(&mut far, [10, 0, 0, 5], 32, NEAR, false);
    near.fw_meta.insert(5, FwMeta { ingress_count: 1, egress_count: 0 });
    // A new flow from the far guest is refused.
    let mut frame = framed(udp([10, 0, 0, 6], [10, 0, 0, 5], 2, 1));
    assert_eq!(guest_tx(&mut frame, &mut far, 6, 1), Verdict::Redirect(99));
    assert_eq!(uplink_rx(&mut frame, &mut near, 1), Verdict::Drop);
    // Once the near guest has started the flow, it is let in.
    let mut out = framed(udp([10, 0, 0, 5], [10, 0, 0, 6], 1, 2));
    assert_eq!(guest_tx(&mut out, &mut near, 5, 1), Verdict::Redirect(99));
    let mut frame = framed(udp([10, 0, 0, 6], [10, 0, 0, 5], 2, 1));
    assert_eq!(guest_tx(&mut frame, &mut far, 6, 1), Verdict::Redirect(99));
    assert_eq!(uplink_rx(&mut frame, &mut near, 1), Verdict::Redirect(5));
}

#[test]
fn meter_drops_what_exceeds_the_rate() {
    let mut t = host(5, NEAR);
    route(&mut t, [10, 0, 0, 6], 32, FAR, false);
    t.meter.insert(5, MeterState { total_bps: 1, total_burst: 50, total_tokens: 50, ..MeterState::default() });
    let f = udp([10, 0, 0, 5], [10, 0, 0, 6], 1, 2);
    assert_eq!(guest_tx(&mut framed(f.clone()), &mut t, 5, 0), Verdict::Redirect(99));
    assert_eq!(guest_tx(&mut framed(f), &mut t, 5, 0), Verdict::Drop);
}

#[test]
fn vip_destination_is_restored_on_ingress() {
    let mut near = host(5, NEAR);
    let mut far = host(6, FAR);
    route(&mut near, [203, 0, 113, 6], 32, FAR, true);
    far.vips.insert(VipKey { vni: 100, ipv4: [203, 0, 113, 6] }, [10, 0, 0, 6]);
    let mut frame = framed(udp([10, 0, 0, 5], [203, 0, 113, 6], 1, 2));
    assert_eq!(guest_tx(&mut frame, &mut near, 5, 0), Verdict::Redirect(99));
    assert_eq!(uplink_rx(&mut frame, &mut far, 0), Verdict::Redirect(6));
    assert_eq!(&frame.bytes[30..34], &[10, 0, 0, 6]);
    assert_eq!(folded(sum(&frame.bytes[14..34])), 0xffff);
}

#[test]
fn tracked_destination_translation_is_applied_on_ingress() {
    let mut near = host(5, NEAR);
    let mut far = host(6, FAR);
    route(&mut near, [203, 0, 113, 6], 32, FAR, false);
    let k = CtKey { vni: 100, src_ip: [10, 0, 0, 5], dst_ip: [203, 0, 113, 6], src_port: 1, dst_port: 2, proto: 17 };
    far.conntrack.insert(k, CtEntry { flags: CT_REWRITE_DST, xlate_ip: [10, 0, 0, 6], xlate_port: 77, ..CtEntry::default() });
    let mut frame = framed(udp([10, 0, 0, 5], [203, 0, 113, 6], 1, 2));
    assert_eq!(guest_tx(&mut frame, &mut near, 5, 0), Verdict::Redirect(99));
    assert_eq!(uplink_rx(&mut frame, &mut far, 9), Verdict::Redirect(6));
    assert_eq!(&frame.bytes[30..34], &[10, 0, 0, 6]);
    assert_eq!(&frame.bytes[36..38], &[0, 77]);
    assert_eq!(far.conntrack.get(&k).unwrap().last_seen, 9);
}

#[test]
fn load_balanced_packet_reaches_a_local_backend() {
    let mut near = host(5, NEAR);
    let mut far = host(6, FAR);
    route(&mut near, [203, 0, 113, 9], 32, FAR, false);
    far.lb.insert(LbKey { vni: 100, ipv4: [203, 0, 113, 9], port: 2, proto: 17 }, LbValue { table_id: 1, size: 1 });
    far.maglev_overlay.insert(MaglevKey { table_id: 1, slot: 0 }, [10, 0, 0, 6]);
    let f = udp([10, 0, 0, 5], [203, 0, 113, 9], 1, 2);
    let mut frame = framed(f.clone());
    assert_eq!(guest_tx(&mut frame, &mut near, 5, 0), Verdict::Redirect(99));
    let wire = frame.bytes.clone();
    assert_eq!(uplink_rx(&mut frame, &mut far, 0), Verdict::Redirect(6));
    assert_eq!(&frame.bytes[30..34], &[10, 0, 0, 6]);
    // A backend that is not on this host, and one that is unknown.
    far.maglev_overlay.insert(MaglevKey { table_id: 1, slot: 0 }, [10, 0, 0, 7]);
    assert_eq!(try_uplink_rx(&mut framed(wire.clone()), &mut far, 0), Err(()));
    far.interfaces.insert(IfaceKey::new(100, [10, 0, 0, 7]), IfaceValue::default());
    assert_eq!(try_uplink_rx(&mut framed(wire), &mut far, 0), Ok(Verdict::Pass));
}

fn ipv6(dst: [u8; 16]) -> Vec<u8> {
    let mut f = vec![2, 0, 0, 0, 0, 1, 2, 0, 0, 0, 0, 5, 0x86, 0xdd, 0x60, 0, 0, 0, 0, 4, 59, 64];
    f.extend_from_slice(&[0xaa; 16]);
    f.extend_from_slice(&dst);
    f.extend_from_slice(&[1, 2, 3, 4]);
    f
}

#[test]
fn ipv6_packet_crosses_the_underlay() {
    let mut near = host(5, NEAR);
    let mut far = host(6, FAR);
    let dst = [0xbb; 16];
    let mut ipv6_net = [0u8; 16];
    ipv6_net[0] = 0xbb;
    near.routes6.insert(
        RouteKey6 { vni: 100, prefix_len: 8, ipv6: ipv6_net },
        Route { value: RouteValue { nexthop_ipv6: FAR, ..RouteValue::default() }, is_external: false },
    );
    let f = ipv6(dst);
    let mut frame = framed(f.clone());
    assert_eq!(guest_tx(&mut frame, &mut near, 5, 0), Verdict::Redirect(99));
    assert_eq!(frame.bytes[20], 41);
    assert_eq!(uplink_rx(&mut frame, &mut far, 0), Verdict::Redirect(6));
    assert_eq!(&frame.bytes[12..], &f[12..]);
    // The same host: no encapsulation.
    near.underlay.insert(Addr6(FAR), UnderlayValue { vni: 100, tap_ifindex: 6, guest_mac: [2, 0, 0, 0, 0, 6] });
    let mut frame = framed(f.clone());
    assert_eq!(v6_guest_tx(&mut frame, &near, &guest(5, 100, NEAR)), Ok(Verdict::Redirect(6)));
    assert_eq!(frame.bytes.len(), f.len());
    assert_eq!(v6_guest_tx(&mut framed(ipv6([0xcc; 16])), &near, &guest(5, 100, NEAR)), Err(()));
}

/// A DHCPv4 message with the given options after the magic cookie.
fn dhcp4(options: &[u8]) -> Vec<u8> {
    let mut f = vec![0xff; 6];
    f.extend_from_slice(&[2, 0, 0, 0, 0, 0x77, 8, 0, 0x45, 0, 1, 0, 0, 0, 0, 0, 64, 17, 0, 0, 0, 0, 0, 0]);
    f.extend_from_slice(&[255, 255, 255, 255, 0, 68, 0, 67, 0, 0, 0, 0]);
    f.extend_from_slice(&[1, 1, 6, 0, 0xde, 0xad, 0xbe, 0xef]);
    f.resize(278, 0);
    f.extend_from_slice(&[0x63, 0x82, 0x53, 0x63]);
    f.extend_from_slice(options);
    f
}

#[test]
fn foreign_frames_pass_the_uplink() {
    let mut t = host(6, FAR);
    let plain = udp([10, 0, 0, 5], [10, 0, 0, 6], 1, 2);
    let mut frame = framed(plain.clone());
    assert_eq!(uplink_rx(&mut frame, &mut t, 1), Verdict::Pass);
    assert_eq!(frame.bytes, plain);
    let mut near = host(5, NEAR);
    route(&mut near, [10, 0, 0, 0], 8, [0xee; 16], false);
    let mut frame = framed(plain);
    assert_eq!(guest_tx(&mut frame, &mut near, 5, 1), Verdict::Redirect(99));
    let wire = frame.bytes.clone();
    assert_eq!(uplink_rx(&mut frame, &mut t, 1), Verdict::Pass);
    assert_eq!(frame.bytes, wire);
}

#[test]
fn dhcp_discover_is_offered_the_address() {
    let mut t = host(5, NEAR);
    let mut config = DhcpConfig::default();
    config.mtu = 1450;
    config.dns4_len = 1;
    config.dns4[0] = [9, 9, 9, 9];
    t.dhcp_config = Some(config);
    let mut frame = framed(dhcp4(&[53, 1, 1, 255]));
    assert_eq!(guest_tx(&mut frame, &mut t, 5, 0), Verdict::Reflect);
    let b = &frame.bytes;
    assert_eq!(b.len(), 428);
    assert_eq!(b[42], 2);
    assert_eq!(&b[46..50], &[0xde, 0xad, 0xbe, 0xef]);
    assert_eq!(&b[58..62], &[10, 0, 0, 5]);
    assert_eq!(folded(sum(&b[14..34])), 0xffff);
    assert_eq!(&b[282..285], &[53, 1, 2]);
    // The guest's MAC is learned everywhere.
    let mac = [2, 0, 0, 0, 0, 0x77];
    assert_eq!(t.ports.get(&5).unwrap().meta.guest_mac, mac);
    assert_eq!(t.underlay.get(&Addr6(NEAR)).unwrap().guest_mac, mac);
    assert_eq!(t.interfaces.get(&IfaceKey::new(100, [10, 0, 0, 5])).unwrap().guest_mac, mac);
    let mut frame = framed(dhcp4(&[53, 1, 3, 255]));
    assert_eq!(dhcp_handle(&mut frame, &mut t, 5), Verdict::Reflect);
    assert_eq!(&frame.bytes[282..285], &[53, 1, 5]);
    // No room for the reply: no answer.
    let mut tight = Frame { bytes: dhcp4(&[53, 1, 1, 255]), headroom: 0, tailroom: 100 };
    assert_eq!(dhcp_handle(&mut tight, &mut t, 5), Verdict::Pass);
    assert_eq!(dhcp_handle(&mut framed(dhcp4(&[53, 1, 7, 255])), &mut t, 5), Verdict::Pass);
}

#[test]
fn tc_hooks_answer_by_redirect() {
    let mut t = host(5, NEAR);
    let mut f = dhcp4(&[53, 1, 1, 255]);
    assert_eq!(tc_guest_tx(&mut f, &t, 5, true, true), Verdict::TailCallDhcp);
    assert_eq!(tc_guest_tx(&mut f, &t, 4, true, true), Verdict::Pass);
    let mut frame = framed(f);
    assert_eq!(tc_guest_dhcp(&mut frame, &mut t, 5, false, true), Verdict::Pass);
    assert_eq!(tc_guest_dhcp(&mut frame, &mut t, 5, true, true), Verdict::Redirect(5));
    assert_eq!(frame.bytes.len(), 428);
    assert_eq!(&frame.bytes[282..285], &[53, 1, 2]);
    let mut arp = vec![0xff; 6];
    arp.extend_from_slice(&[2, 0, 0, 0, 0, 5, 8, 6, 0, 1, 8, 0, 6, 4, 0, 1]);
    arp.extend_from_slice(&[2, 0, 0, 0, 0, 5, 10, 0, 0, 5, 0, 0, 0, 0, 0, 0, 10, 0, 0, 1]);
    assert_eq!(tc_guest_tx(&mut arp, &t, 5, false, true), Verdict::Pass);
    assert_eq!(tc_guest_tx(&mut arp, &t, 5, true, true), Verdict::Redirect(5));
    assert_eq!(&arp[20..22], &[0, 2]);
    assert_eq!(&arp[22..28], &GW_MAC);
}

#[test]
fn dhcpv6_solicit_is_advertised() {
    let mut t = host(5, NEAR);
    let mut f = vec![0x33, 0x33, 0, 1, 0, 2, 2, 0, 0, 0, 0, 5, 0x86, 0xdd, 0x60, 0, 0, 0, 0, 40, 17, 64];
    f.extend_from_slice(&[0xaa; 16]);
    f.extend_from_slice(&[0xff; 16]);
    f.extend_from_slice(&[2, 0x22, 2, 0x23, 0, 40, 0, 0, 1, 7, 8, 9]);
    f.extend_from_slice(&[0, 1, 0, 10, 0, 3, 0, 1, 2, 0, 0, 0, 0, 5]);
    f.extend_from_slice(&[0, 3, 0, 12, 0, 0, 0, 42, 0, 0, 0, 0, 0, 0, 0, 0]);
    let mut frame = framed(f);
    assert_eq!(guest_tx(&mut frame, &mut t, 5, 0), Verdict::Reflect);
    let b = &frame.bytes;
    assert_eq!(&b[62..66], &[2, 7, 8, 9]);
    assert_eq!(&b[22..38], &[0xfe; 16]);
    assert_eq!(&b[38..54], &[0xaa; 16]);
    let n = u16::from_be_bytes([b[58], b[59]]) as usize;
    let pseudo = sum(&b[22..54]) + 17 + n as u32;
    assert_eq!(folded(pseudo + sum(&b[54..54 + n])), 0xffff);
    assert!(b.windows(16).any(|w| w == [0xfc; 16]));
    // Anything but a request is left alone.
    let mut other = framed(ipv6([1; 16]));
    assert_eq!(dhcp_handle(&mut other, &mut t, 5), Verdict::Pass);
}

#[test]
fn boot_url_lengths() {
    let mut m = DhcpMeta { hostname_len: 0, hostname: [0; 64], pxe_host_len: 4, pxe_host: [b'h'; 46], boot_filename_len: 3, boot_filename: [b'f'; 64] };
    assert_eq!(d6_url_len(0, &m), 0);
    // "tftp://[" host "]/ipxe/x86_64/ipxe.new"
    assert_eq!(d6_url_len(1, &m) , "tftp://[hhhh]/ipxe/x86_64/ipxe.new".len());
    assert_eq!(d6_url_len(2, &m) , "http://[hhhh]/fff".len());
    // What is announced is what is written.
    for (mode, url) in [(1, "tftp://[hhhh]/ipxe/x86_64/ipxe.new"), (2, "http://[hhhh]/fff")] {
        let mut out = vec![7];
        assert_eq!(d6_store_url(&mut out, mode, &m), d6_url_len(mode, &m));
        assert_eq!(&out[1..], url.as_bytes());
    }
    m.pxe_host_len = 0;
    assert_eq!(d6_url_len(1, &m), 0);
    let mut out = vec![7];
    assert_eq!(d6_store_url(&mut out, 1, &m), 0);
    assert_eq!(out, vec![7]);
}

/// The host of guest 5 with network NAT at 203.0.113.5, ports 4000 to 4003.
fn natting_host() -> Tables {
    let mut t = host(5, NEAR);
    route(&mut t, [8, 8, 8, 0], 24, FAR, true);
    t.nat.insert(NatKey { vni: 100, ipv4: [10, 0, 0, 5] }, NatValue { nat_ipv4: [203, 0, 113, 5], port_min: 4000, port_max: 4004 });
    t
}

/// A packet as it comes from a router on the underlay to the host at `to`.
fn from_underlay(f: Vec<u8>, dst: [u8; 4], to: [u8; 16]) -> Vec<u8> {
    let mut router = host(9, FAR);
    route(&mut router, dst, 32, to, false);
    let mut frame = framed(f);
    assert_eq!(guest_tx(&mut frame, &mut router, 9, 0), Verdict::Redirect(99));
    frame.bytes
}

#[test]
fn nat_reply_is_delivered_to_the_guest() {
    let mut t = natting_host();
    // Rules that let nothing in but replies.
    t.fw_meta.insert(5, FwMeta { ingress_count: 1, egress_count: 0 });
    let mut frame = framed(udp([10, 0, 0, 5], [8, 8, 8, 8], 1000, 53));
    assert_eq!(guest_tx(&mut frame, &mut t, 5, 1), Verdict::Redirect(99));
    assert_eq!(&frame.bytes[66..70], &[203, 0, 113, 5]);
    let port = u16::from_be_bytes([frame.bytes[74], frame.bytes[75]]);
    assert!((4000..4004).contains(&port));
    let reply = from_underlay(udp([8, 8, 8, 8], [203, 0, 113, 5], 53, port), [203, 0, 113, 5], NEAR);
    let mut frame = framed(reply);
    assert_eq!(uplink_rx(&mut frame, &mut t, 2), Verdict::Redirect(5));
    assert_eq!(&frame.bytes[0..6], &[2, 0, 0, 0, 0, 5]);
    assert_eq!(&frame.bytes[26..34], &[8, 8, 8, 8, 10, 0, 0, 5]);
    assert_eq!(&frame.bytes[34..38], &[0, 53, 1000u16.to_be_bytes()[0], 1000u16.to_be_bytes()[1]]);
    assert_eq!(folded(sum(&frame.bytes[14..34])), 0xffff);
    // The flow keeps its port, and its replies their way back.
    let mut again = framed(udp([10, 0, 0, 5], [8, 8, 8, 8], 1000, 53));
    assert_eq!(guest_tx(&mut again, &mut t, 5, 3), Verdict::Redirect(99));
    assert_eq!(u16::from_be_bytes([again.bytes[74], again.bytes[75]]), port);
    let reply = from_underlay(udp([8, 8, 8, 8], [203, 0, 113, 5], 53, port), [203, 0, 113, 5], NEAR);
    let mut frame = framed(reply);
    assert_eq!(uplink_rx(&mut frame, &mut t, 4), Verdict::Redirect(5));
    assert_eq!(&frame.bytes[30..34], &[10, 0, 0, 5]);
    // Another port of the public address belongs to no flow, and the rules refuse it.
    let other = from_underlay(udp([8, 8, 8, 8], [203, 0, 113, 5], 53, 3999), [203, 0, 113, 5], NEAR);
    assert_eq!(uplink_rx(&mut framed(other), &mut t, 2), Verdict::Drop);
}

#[test]
fn nat_flow_of_another_vni_is_left_alone() {
    let mut t = natting_host();
    let mut frame = framed(udp([10, 0, 0, 5], [8, 8, 8, 8], 1000, 53));
    assert_eq!(guest_tx(&mut frame, &mut t, 5, 1), Verdict::Redirect(99));
    let port = u16::from_be_bytes([frame.bytes[74], frame.bytes[75]]);
    // The same flow towards an interface of VNI 200.
    t.underlay.insert(Addr6([0xee; 16]), UnderlayValue { vni: 200, tap_ifindex: 8, guest_mac: [2, 0, 0, 0, 0, 8] });
    let reply = from_underlay(udp([8, 8, 8, 8], [203, 0, 113, 5], 53, port), [203, 0, 113, 5], [0xee; 16]);
    let mut frame = framed(reply);
    assert_eq!(uplink_rx(&mut frame, &mut t, 2), Verdict::Redirect(8));
    assert_eq!(&frame.bytes[30..34], &[203, 0, 113, 5]);
}

#[test]
fn neighbor_gets_its_port_slice() {
    let other = [0xdd; 16];
    let mut t = natting_host();
    t.neigh_nat.insert(0, NeighborNatEntry { underlay: other, nat_ip: [203, 0, 113, 5], vni: 100, port_min: 5000, port_max: 5100, enabled: 1 });
    t.neigh_nat_count = 1;
    let wire = from_underlay(udp([8, 8, 8, 8], [203, 0, 113, 5], 53, 5000), [203, 0, 113, 5], NEAR);
    let mut frame = framed(wire.clone());
    assert_eq!(uplink_rx(&mut frame, &mut t, 2), Verdict::Redirect(99));
    assert_eq!(&frame.bytes[22..38], &NEAR);
    assert_eq!(&frame.bytes[38..54], &other);
    assert_eq!(&frame.bytes[54..], &wire[54..]);
    assert!(t.conntrack.entries().is_empty());
    // The port after the last one is not the neighbor's.
    let wire = from_underlay(udp([8, 8, 8, 8], [203, 0, 113, 5], 53, 5100), [203, 0, 113, 5], NEAR);
    assert_eq!(uplink_rx(&mut framed(wire.clone()), &mut t, 2), Verdict::Redirect(5));
    // Without an uplink nothing can be sent on.
    t.local = None;
    let wire = from_underlay(udp([8, 8, 8, 8], [203, 0, 113, 5], 53, 5000), [203, 0, 113, 5], NEAR);
    assert_eq!(try_uplink_rx(&mut framed(wire), &mut t, 2), Err(()));
}

#[test]
fn anycast_packet_is_forwarded_to_a_backend() {
    let anycast = [0xab; 16];
    let mut t = host(6, FAR);
    t.underlay.insert(Addr6(anycast), UnderlayValue { vni: 100, tap_ifindex: 0, guest_mac: [0; 6] });
    t.lb.insert(LbKey { vni: 100, ipv4: [203, 0, 113, 9], port: 2, proto: 17 }, LbValue { table_id: 1, size: 1 });
    t.maglev.insert(MaglevKey { table_id: 1, slot: 0 }, NEAR);
    let f = udp([10, 0, 0, 5], [203, 0, 113, 9], 1, 2);
    let wire = from_underlay(f.clone(), [203, 0, 113, 9], anycast);
    // A backend elsewhere gets the packet as it is, readdressed.
    let mut frame = framed(wire.clone());
    assert_eq!(uplink_rx(&mut frame, &mut t, 0), Verdict::Redirect(99));
    assert_eq!(&frame.bytes[22..38], &anycast);
    assert_eq!(&frame.bytes[38..54], &NEAR);
    assert_eq!(&frame.bytes[54..], &f[14..]);
    // One on this host gets it at once, still addressed to the service.
    t.maglev.insert(MaglevKey { table_id: 1, slot: 0 }, FAR);
    let mut frame = framed(wire.clone());
    assert_eq!(uplink_rx(&mut frame, &mut t, 0), Verdict::Redirect(6));
    assert_eq!(&frame.bytes[0..6], &[2, 0, 0, 0, 0, 6]);
    assert_eq!(&frame.bytes[14..], &f[14..]);
    assert!(t.conntrack.entries().is_empty());
    // Its rules may refuse it.
    t.fw_meta.insert(6, FwMeta { ingress_count: 1, egress_count: 0 });
    let mut frame = framed(wire.clone());
    assert_eq!(uplink_rx(&mut frame, &mut t, 0), Verdict::Drop);
    assert_eq!(frame.bytes, wire);
}
