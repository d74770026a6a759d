use xdp_dp::control::{Control, ControlError};
use xdp_dp::firewall::fw_eval_dir;
use xdp_dp::grpc::{
    decode_ipv4, decode_ipv6, Code, Field, PrefixField, RouteField, Service, ServiceError,
};
use xdp_dp::lb::{lb_select_dnat, lb_select_forward};
use xdp_dp::table::Addr6;
use xdp_dp::tables::{MapWrite, Tables};
use xdp_dp::types::{
    FwRule, IfaceKey, NatKey, NatValue, RouteKey, FW_ACTION_ACCEPT, FW_ACTION_DROP, FW_ANY, FW_DIR_EGRESS,
    FW_DIR_INGRESS,
};

const UNDERLAY: [u8; 16] = [0xfd, 0, 0, 0, 0, 0, 0, 0, 0, 0, 0, 0, 0, 0, 0, 7];

fn with_interface() -> (Control, Tables) {
    let mut c = Control::new();
    let mut t = Tables::new();
    let w = c.create_interface(b"vm1", 7, [2, 0, 0, 0, 0, 5], 100, [10, 0, 0, 5], [10, 0, 0, 1], UNDERLAY, 0, 0).unwrap();
    assert_eq!(w.len(), 3);
    assert_eq!(t.apply_all(&w), 3);
    (c, t)
}

fn udp(dst: [u8; 4], sport: u16, dport: u16) -> Vec<u8> {
    let mut f = vec![0; 14];
    f.extend_from_slice(&[0x45, 0, 0, 28, 0, 0, 0, 0, 64, 17, 0, 0, 10, 0, 0, 5]);
    f.extend_from_slice(&dst);
    f.extend_from_slice(&sport.to_be_bytes());
    f.extend_from_slice(&dport.to_be_bytes());
    f.extend_from_slice(&[0, 8, 0, 0]);
    f
}

#[test]
fn uplink_is_recorded() {
    let mut t = Tables::new();
    assert_eq!(t.apply_all(&Control::bring_up(3, [1; 6], [2; 6], [3; 16])), 1);
    let u = t.local.unwrap();
    assert_eq!((u.local.uplink_ifindex, u.local.uplink_mac, u.gateway_mac, u.local.underlay_ipv6), (3, [1; 6], [2; 6], [3; 16]));
}

#[test]
fn interface_is_programmed() {
    let (c, t) = with_interface();
    let port = t.ports.get(&7).unwrap();
    assert_eq!(port.meta.gateway_ipv4, [10, 0, 0, 1]);
    assert_eq!(port.underlay_ipv6, UNDERLAY);
    let u = t.underlay.get(&Addr6(UNDERLAY)).unwrap();
    assert_eq!((u.vni, u.tap_ifindex, u.guest_mac), (100, 7, [2, 0, 0, 0, 0, 5]));
    assert_eq!(t.interfaces.get(&IfaceKey::new(100, [10, 0, 0, 5])).unwrap().is_local, 1);
    assert!(t.meter.get(&7).is_none());
    assert_eq!(c.interface(b"vm1").unwrap().ifindex, 7);
    assert!(c.interface(b"vm2").is_none());
}

#[test]
fn meters_are_programmed_in_bytes() {
    let (mut c, mut t) = with_interface();
    assert_eq!(t.apply_all(&c.set_meter(b"vm1", 8, 1).unwrap()), 1);
    let m = t.meter.get(&7).unwrap();
    assert_eq!((m.total_bps, m.total_burst, m.total_tokens), (1_000_000, 125_000, 125_000));
    assert_eq!((m.public_bps, m.public_burst, m.public_tokens), (125_000, 15_625, 15_625));
    assert_eq!(c.set_meter(b"vm2", 8, 1).err(), Some(ControlError::UnknownInterface));
    t.apply_all(&c.set_meter(b"vm1", u64::MAX, 0).unwrap());
    let m = t.meter.get(&7).unwrap();
    assert_eq!(m.total_bps, u64::MAX / 8);
    assert_eq!((m.public_bps, m.public_burst), (0, 2000));
    let w = c.create_interface(b"vm3", 9, [0; 6], 1, [1; 4], [1; 4], [9; 16], 0, 5).unwrap();
    assert_eq!(w.len(), 4);
}

#[test]
fn routes_are_programmed() {
    let (c, mut t) = with_interface();
    assert_eq!(t.apply_all(&c.create_route(100, [10, 1, 2, 3], 16, [0xee; 16], true)), 1);
    let r = t.route4(100, &[10, 1, 255, 255]).unwrap();
    assert!(r.is_external);
    assert_eq!(r.value.nexthop_ipv6, [0xee; 16]);
    assert!(t.route4(100, &[10, 2, 0, 0]).is_none());
    // No IPv4 prefix is longer than 32 bits.
    assert_eq!(t.apply_all(&c.create_route(100, [10, 1, 2, 3], 33, [0xee; 16], true)), 0);
}

#[test]
fn vip_comes_and_goes() {
    let (c, mut t) = with_interface();
    assert_eq!(c.get_vip(&t, b"vm1"), None);
    t.apply_all(&c.create_vip(b"vm1", [203, 0, 113, 5]).unwrap());
    assert_eq!(c.get_vip(&t, b"vm1"), Some([203, 0, 113, 5]));
    assert_eq!(t.vips.entries().len(), 2);
    t.apply_all(&c.delete_vip(&t, b"vm1").unwrap());
    assert_eq!(c.get_vip(&t, b"vm1"), None);
    assert!(t.vips.entries().is_empty());
    assert_eq!(c.create_vip(b"vm2", [1; 4]).err(), Some(ControlError::UnknownInterface));
    assert_eq!(c.delete_vip(&t, b"vm2").err(), Some(ControlError::UnknownInterface));
    assert_eq!(c.get_vip(&t, b"vm2"), None);
}

#[test]
fn nat_comes_and_goes() {
    let (c, mut t) = with_interface();
    t.apply_all(&c.create_nat(b"vm1", [203, 0, 113, 5], 1000, 2000).unwrap());
    assert_eq!(c.get_nat(&t, b"vm1"), Some(([203, 0, 113, 5], 1000, 2000)));
    t.apply_all(&c.delete_nat(b"vm1").unwrap());
    assert_eq!(c.get_nat(&t, b"vm1"), None);
    assert_eq!(c.create_nat(b"vm2", [1; 4], 1, 2).err(), Some(ControlError::UnknownInterface));
    assert_eq!(c.delete_nat(b"vm2").err(), Some(ControlError::UnknownInterface));
}

fn rule(direction: u8, dport: u16, action: u8) -> FwRule {
    FwRule {
        proto: 17,
        src_port_max: 65535,
        dst_port_min: dport,
        dst_port_max: dport,
        itype: FW_ANY,
        icode: FW_ANY,
        direction,
        action,
        ..FwRule::default()
    }
}

#[test]
fn firewall_follows_the_rules() {
    let (mut c, mut t) = with_interface();
    let dns = rule(FW_DIR_EGRESS, 53, FW_ACTION_ACCEPT);
    t.apply_all(&c.add_fw_rule(b"vm1", b"dns".to_vec(), dns).unwrap());
    t.apply_all(&c.add_fw_rule(b"vm1", b"in".to_vec(), rule(FW_DIR_INGRESS, 1, FW_ACTION_ACCEPT)).unwrap());
    let meta = t.fw_meta.get(&7).unwrap();
    assert_eq!((meta.ingress_count, meta.egress_count), (1, 1));
    assert_eq!(fw_eval_dir(&udp([8; 4], 1, 53), 14, &t, 7, FW_DIR_EGRESS), FW_ACTION_ACCEPT);
    assert_eq!(fw_eval_dir(&udp([8; 4], 1, 54), 14, &t, 7, FW_DIR_EGRESS), FW_ACTION_DROP);
    assert_eq!(c.get_fw_rule(b"vm1", b"dns"), Some(dns));
    // Replacing keeps the place.
    let deny = rule(FW_DIR_EGRESS, 53, FW_ACTION_DROP);
    t.apply_all(&c.add_fw_rule(b"vm1", b"dns".to_vec(), deny).unwrap());
    assert_eq!(fw_eval_dir(&udp([8; 4], 1, 53), 14, &t, 7, FW_DIR_EGRESS), FW_ACTION_DROP);
    let ids: Vec<Vec<u8>> = c.list_fw_rules(b"vm1").iter().map(|r| r.id.clone()).collect();
    assert_eq!(ids, vec![b"dns".to_vec(), b"in".to_vec()]);
    // Without egress rules everything leaves.
    t.apply_all(&c.del_fw_rule(b"vm1", b"dns").unwrap());
    assert_eq!(fw_eval_dir(&udp([8; 4], 1, 54), 14, &t, 7, FW_DIR_EGRESS), FW_ACTION_ACCEPT);
    assert_eq!(c.get_fw_rule(b"vm1", b"dns"), None);
    assert_eq!(t.fw_rules.entries().len(), 1);
    assert_eq!(c.add_fw_rule(b"vm2", vec![], deny).err(), Some(ControlError::UnknownInterface));
    assert_eq!(c.del_fw_rule(b"vm2", b"x").err(), Some(ControlError::UnknownInterface));
    assert_eq!(c.get_fw_rule(b"vm2", b"x"), None);
    assert!(c.list_fw_rules(b"vm2").is_empty());
}

#[test]
fn full_rule_list_takes_only_replacements() {
    let (mut c, mut t) = with_interface();
    for i in 0..16u8 {
        assert!(c.add_fw_rule(b"vm1", vec![i], rule(FW_DIR_EGRESS, i as u16, 1)).is_ok());
    }
    assert_eq!(c.add_fw_rule(b"vm1", vec![16], rule(0, 0, 0)).err(), Some(ControlError::TooManyRules));
    let other = rule(FW_DIR_EGRESS, 4000, FW_ACTION_DROP);
    t.apply_all(&c.add_fw_rule(b"vm1", vec![3], other).unwrap());
    assert_eq!(c.list_fw_rules(b"vm1").len(), 16);
    assert_eq!(c.list_fw_rules(b"vm1")[3].rule, other);
    assert_eq!(c.get_fw_rule(b"vm1", &[3]), Some(other));
    assert_eq!(t.fw_rules.entries().len(), 16);
    assert_eq!(fw_eval_dir(&udp([8; 4], 1, 3), 14, &t, 7, FW_DIR_EGRESS), FW_ACTION_DROP);
    assert_eq!(fw_eval_dir(&udp([8; 4], 1, 4), 14, &t, 7, FW_DIR_EGRESS), 1);
    assert_eq!(ControlError::TooManyRules.message(), "too many firewall rules for interface (max 16)");
}

#[test]
fn prefixes_come_and_go() {
    let (mut c, mut t) = with_interface();
    t.apply_all(&c.add_prefix(b"vm1", [10, 9, 0, 0], 16).unwrap());
    c.record_prefix(b"vm1", [10, 9, 0, 0], 16).unwrap();
    c.record_prefix(b"vm1", [10, 8, 0, 0], 16).unwrap();
    assert_eq!(c.record_prefix(b"vm2", [10, 8, 0, 0], 16), Err(ControlError::UnknownInterface));
    assert_eq!(c.list_prefixes(b"vm1"), vec![([10, 9, 0, 0], 16), ([10, 8, 0, 0], 16)]);
    let r = t.route4(100, &[10, 9, 1, 1]).unwrap();
    assert_eq!(r.value.nexthop_ipv6, UNDERLAY);
    assert!(!r.is_external);
    t.apply_all(&c.del_prefix(b"vm1", [10, 9, 0, 0], 16).unwrap());
    assert!(t.route4(100, &[10, 9, 1, 1]).is_none());
    assert_eq!(c.list_prefixes(b"vm1"), vec![([10, 8, 0, 0], 16)]);
    assert!(c.list_prefixes(b"vm2").is_empty());
    assert_eq!(c.add_prefix(b"vm2", [1; 4], 8).err(), Some(ControlError::UnknownInterface));
    assert_eq!(c.del_prefix(b"vm2", [1; 4], 8).err(), Some(ControlError::UnknownInterface));
}

#[test]
fn neighbor_slices_have_one_owner() {
    let mut c = Control::new();
    let mut t = Tables::new();
    t.apply_all(&c.add_neighbor_nat(1, [2; 4], 10, 20, [3; 16]).unwrap());
    t.apply_all(&c.add_neighbor_nat(1, [2; 4], 20, 30, [4; 16]).unwrap());
    t.apply_all(&c.add_neighbor_nat(1, [2; 4], 10, 20, [5; 16]).unwrap());
    let list = c.list_neighbor_nats();
    assert_eq!(list.len(), 2);
    assert_eq!((list[0].underlay, list[0].enabled), ([5; 16], 1));
    assert_eq!(t.neigh_nat_count, 2);
    assert_eq!(t.neigh_nat.get(&0), Some(list[0]));
    t.apply_all(&c.del_neighbor_nat(1, [2; 4], 10, 20));
    assert_eq!(t.neigh_nat_count, 1);
    assert_eq!(t.neigh_nat.get(&0).unwrap().underlay, [4; 16]);
    for i in 0..63u16 {
        assert!(c.add_neighbor_nat(2, [2; 4], i, i, [3; 16]).is_ok());
    }
    assert_eq!(c.add_neighbor_nat(1, [2; 4], 20, 30, [6; 16]).err(), Some(ControlError::NeighborNatFull));
    assert_eq!(ControlError::NeighborNatFull.message(), "neighbor NAT table full (max 64)");
}

#[test]
fn load_balancer_comes_and_goes() {
    let mut c = Control::new();
    let mut t = Tables::new();
    assert_eq!(c.add_lb_target(b"lb", [1; 16]).err(), Some(ControlError::UnknownLoadBalancer));
    let id = c.next_table_id();
    let w = c.create_lb(b"lb", 100, [203, 0, 113, 9], [0xab; 16], vec![(53, 17), (80, 6)]);
    assert_eq!(w.len(), 3);
    // Not registered before it is confirmed.
    assert_eq!(c.add_lb_target(b"lb", [1; 16]).err(), Some(ControlError::UnknownLoadBalancer));
    t.apply_all(&w);
    c.confirm_lb();
    assert_eq!(c.next_table_id(), id + 1);
    assert_eq!(t.underlay.get(&Addr6([0xab; 16])).unwrap().tap_ifindex, 0);
    assert_eq!(t.apply_all(&c.add_lb_target(b"lb", [1; 16]).unwrap()), 1024);
    let f = udp([203, 0, 113, 9], 1000, 53);
    assert_eq!(lb_select_forward(&f, 14, &t, 100), Some([1; 16]));
    t.apply_all(&c.add_lb_target(b"lb", [2; 16]).unwrap());
    let mut hits = [0; 3];
    for sport in 0..200u16 {
        let b = lb_select_forward(&udp([203, 0, 113, 9], sport, 53), 14, &t, 100).unwrap();
        hits[b[0] as usize] += 1;
    }
    assert_eq!(hits[0], 0);
    assert!(hits[1] > 50 && hits[2] > 50);
    t.apply_all(&c.add_lb_overlay_target(b"lb", [10, 0, 0, 9]).unwrap());
    assert_eq!(lb_select_dnat(&mut f.clone(), 14, &t, 100), Some([10, 0, 0, 9]));
    assert_eq!(t.apply_all(&c.delete_lb(b"lb")), 2 + 2048);
    assert_eq!(lb_select_forward(&f, 14, &t, 100), None);
    assert!(t.maglev.entries().is_empty() && t.maglev_overlay.entries().is_empty());
    assert!(c.delete_lb(b"lb").is_empty());
    assert_eq!(ControlError::UnknownLoadBalancer.message(), "unknown load balancer");
    assert_eq!(ControlError::UnknownInterface.message(), "unknown interface");
}

#[test]
fn decode_ipv4_valid() {
    assert_eq!(decode_ipv4(&[10, 0, 0, 5]).unwrap(), [10u8, 0, 0, 5]);
}

#[test]
fn decode_ipv4_rejects_wrong_length() {
    assert!(decode_ipv4(&[10, 0, 0]).is_err());
    assert!(decode_ipv4(&[10, 0, 0, 5, 6]).is_err());
}

#[test]
fn decode_ipv6_valid() {
    let mut b = [0u8; 16];
    b[0] = 0xfd;
    b[15] = 0x01;
    assert_eq!(decode_ipv6(&b).unwrap(), b);
}

#[test]
fn decode_ipv6_rejects_wrong_length() {
    assert!(decode_ipv6(&[0u8; 4]).is_err());
    assert!(decode_ipv6(&[0u8; 17]).is_err());
}

#[test]
fn service_without_a_datapath_refuses() {
    let mut s = Service { control: None, underlay: UNDERLAY };
    let e = ServiceError::NotInitialized;
    assert_eq!(e.code(), Code::FailedPrecondition);
    let t = Tables::new();
    assert_eq!(s.create_interface(b"x", 1, &None, None).err(), Some(e));
    assert_eq!(s.undo_interface(&t, b"x").err(), Some(e));
    assert_eq!(s.delete_interface(&t, b"x").err(), Some(e));
    assert_eq!(s.get_interface(b"x").err(), Some(e));
    assert_eq!(s.list_interfaces().err(), Some(e));
    assert_eq!(s.list_routes(&t, 1).err(), Some(e));
    assert_eq!(s.delete_route(1, &None).err(), Some(e));
    assert_eq!(s.create_prefix(b"x", &None).err(), Some(e));
    assert_eq!(s.record_prefix(b"x", &None).err(), Some(e));
    assert_eq!(s.delete_prefix(b"x", &None).err(), Some(e));
    assert_eq!(s.list_prefixes(b"x").err(), Some(e));
    assert_eq!(s.delete_load_balancer_prefix(b"x", &None).err(), Some(e));
    assert_eq!(s.list_load_balancer_prefixes(b"x").err(), Some(e));
    assert_eq!(s.get_load_balancer(b"x").err(), Some(e));
    assert_eq!(s.list_load_balancers().err(), Some(e));
    assert_eq!(s.list_load_balancer_targets(b"x").err(), Some(e));
    assert_eq!(s.delete_load_balancer_target(b"x", &None).err(), Some(e));
    assert_eq!(s.create_nat(b"x", &None, 1, 2).err(), Some(e));
    assert_eq!(s.get_nat(&t, b"x").err(), Some(e));
    assert_eq!(s.delete_nat(b"x").err(), Some(e));
    assert_eq!(s.list_local_nats(&t).err(), Some(e));
    assert_eq!(s.create_neighbor_nat(1, &None, 1, 2, &[]).err(), Some(e));
    assert_eq!(s.delete_neighbor_nat(1, &None, 1, 2).err(), Some(e));
    assert_eq!(s.list_neighbor_nats().err(), Some(e));
    assert_eq!(s.create_firewall_rule(b"x", vec![], FwRule::default()).err(), Some(e));
    assert_eq!(s.get_firewall_rule(b"x", b"r").err(), Some(e));
    assert_eq!(s.delete_firewall_rule(b"x", b"r").err(), Some(e));
    assert_eq!(s.list_firewall_rules(b"x").err(), Some(e));
    assert_eq!(s.check_vni_in_use(1), Err(e));
    assert_eq!(s.reset_vni(&t, 1).err(), Some(e));
    assert_eq!(s.create_route(1, &None).err(), Some(e));
    assert_eq!(s.create_vip(b"x", &None).err(), Some(e));
    assert_eq!(s.get_vip(&Tables::new(), b"x"), Err(e));
    assert_eq!(s.delete_vip(&Tables::new(), b"x").err(), Some(e));
    assert_eq!(s.create_load_balancer(b"x", 1, &None, &vec![]).err(), Some(e));
    assert_eq!(s.create_load_balancer_target(b"x", &None).err(), Some(e));
    assert_eq!(s.delete_load_balancer(b"x").err(), Some(e));
    assert_eq!(s.create_load_balancer_prefix(b"x", &None), UNDERLAY);
    assert_eq!(s.not_implemented().code(), Code::Unimplemented);
}

#[test]
fn service_names_what_is_missing() {
    let mut s = Service { control: Some(Control::new()), underlay: UNDERLAY };
    let missing = |f: Field| ServiceError::Missing(f);
    assert_eq!(s.create_interface(b"x", 1, &None, None).err(), Some(missing(Field::Ipv4Config)));
    assert_eq!(
        s.create_interface(b"x", 1, &Some(vec![1, 2, 3]), None).err(),
        Some(ServiceError::BadLength { expected: 4, got: 3 })
    );
    assert_eq!(s.create_prefix(b"x", &None).err(), Some(missing(Field::Prefix)));
    assert_eq!(s.delete_prefix(b"x", &Some(PrefixField { ip: None, length: 8 })).err(), Some(missing(Field::PrefixIp)));
    assert_eq!(s.create_nat(b"x", &None, 1, 2).err(), Some(missing(Field::NatIp)));
    assert_eq!(s.delete_load_balancer_target(b"x", &None).err(), Some(missing(Field::TargetIp)));
    assert_eq!(s.create_route(1, &None).err(), Some(missing(Field::Route)));
    let r = |prefix, nexthop_address| Some(RouteField { prefix, nexthop_address });
    assert_eq!(s.create_route(1, &r(None, None)).err(), Some(missing(Field::RoutePrefix)));
    let p = |ip| Some(PrefixField { ip, length: 24 });
    assert_eq!(s.create_route(1, &r(p(None), None)).err(), Some(missing(Field::RoutePrefixIp)));
    assert_eq!(s.create_route(1, &r(p(Some(vec![10, 0, 0, 0])), None)).err(), Some(missing(Field::RouteNexthop)));
    assert_eq!(
        s.create_route(1, &r(p(Some(vec![10, 0, 0, 0])), Some(vec![1; 15]))).err(),
        Some(ServiceError::BadLength { expected: 16, got: 15 })
    );
    let w = s.create_route(1, &r(p(Some(vec![10, 0, 0, 9])), Some(vec![7; 16]))).unwrap();
    assert!(matches!(w[0], MapWrite::Route(k, v) if k == RouteKey { vni: 1, prefix_len: 24, ipv4: [10, 0, 0, 9] }
        && v.value.nexthop_ipv6 == [7; 16] && !v.is_external));
    assert_eq!(s.create_vip(b"x", &None).err(), Some(missing(Field::VipIp)));
    let unknown = ServiceError::Refused(ControlError::UnknownInterface);
    assert_eq!(unknown.code(), Code::Internal);
    assert_eq!(s.create_vip(b"x", &Some(vec![1; 4])).err(), Some(unknown));
    assert_eq!(s.create_load_balancer(b"x", 1, &None, &vec![]).err(), Some(missing(Field::LoadbalancedIp)));
    assert_eq!(s.create_load_balancer_target(b"x", &None).err(), Some(missing(Field::TargetIp)));
    assert_eq!(missing(Field::Route).code(), Code::InvalidArgument);
    for (f, text) in [
        (Field::Ipv4Config, "ipv4_config is required"),
        (Field::Route, "route is required"),
        (Field::RoutePrefix, "route.prefix is required"),
        (Field::RoutePrefixIp, "route.prefix.ip is required"),
        (Field::RouteNexthop, "route.nexthop_address is required"),
        (Field::VipIp, "vip_ip is required"),
        (Field::LoadbalancedIp, "loadbalanced_ip is required"),
        (Field::TargetIp, "target_ip is required"),
        (Field::Prefix, "prefix is required"),
        (Field::PrefixIp, "prefix.ip is required"),
        (Field::NatIp, "nat_ip is required"),
    ] {
        assert_eq!(f.message(), text);
    }
}

#[test]
fn service_drives_the_control_plane() {
    let mut s = Service { control: Some(Control::new()), underlay: UNDERLAY };
    let mut t = Tables::new();
    let w = s.create_interface(b"vm1", 100, &Some(vec![10, 0, 0, 5]), Some((7, [2, 0, 0, 0, 0, 5]))).unwrap();
    t.apply_all(&w);
    assert_eq!(t.ports.get(&7).unwrap().underlay_ipv6, UNDERLAY);
    assert_eq!(t.ports.get(&7).unwrap().meta.gateway_ipv4, [10, 0, 0, 1]);
    t.apply_all(&s.create_vip(b"vm1", &Some(vec![203, 0, 113, 5])).unwrap());
    assert_eq!(s.get_vip(&t, b"vm1"), Ok(Some([203, 0, 113, 5])));
    t.apply_all(&s.delete_vip(&t, b"vm1").unwrap());
    assert_eq!(s.get_vip(&t, b"vm1"), Ok(None));
    // Ports and protocols are cut to their width in a packet.
    let w = s.create_load_balancer(b"lb", 100, &Some(vec![203, 0, 113, 9]), &vec![(65536 + 53, 256 + 17)]).unwrap();
    t.apply_all(&w);
    s.confirm_load_balancer();
    t.apply_all(&s.create_load_balancer_target(b"lb", &Some(vec![10, 0, 0, 5])).unwrap());
    let mut f = udp([203, 0, 113, 9], 1, 53);
    assert_eq!(lb_select_dnat(&mut f, 14, &t, 100), Some([10, 0, 0, 5]));
    let unknown = ServiceError::Refused(ControlError::UnknownLoadBalancer);
    assert_eq!(s.create_load_balancer_target(b"no", &Some(vec![1; 4])).err(), Some(unknown));
    t.apply_all(&s.delete_load_balancer(b"lb").unwrap());
    assert_eq!(lb_select_dnat(&mut udp([203, 0, 113, 9], 1, 53), 14, &t, 100), None);
}

fn service() -> (Service, Tables) {
    let mut s = Service { control: Some(Control::new()), underlay: UNDERLAY };
    let mut t = Tables::new();
    let w = s.create_interface(b"vm1", 100, &Some(vec![10, 0, 0, 5]), Some((7, [2, 0, 0, 0, 0, 5]))).unwrap();
    assert_eq!(t.apply_all(&w), 3);
    (s, t)
}

/// How many entries the tables that interfaces are in hold.
fn sizes(t: &Tables) -> [usize; 8] {
    [
        t.ports.entries().len(),
        t.interfaces.entries().len(),
        t.underlay.entries().len(),
        t.meter.entries().len(),
        t.fw_rules.entries().len(),
        t.fw_meta.entries().len(),
        t.vips.entries().len() + t.nat.entries().len(),
        t.routes.entries().len(),
    ]
}

#[test]
fn interface_is_created_once() {
    let (mut s, _) = service();
    let exists = ServiceError::Refused(ControlError::InterfaceExists);
    assert_eq!(exists.code(), Code::AlreadyExists);
    assert_eq!(ControlError::InterfaceExists.message(), "interface already exists");
    let address = Some(vec![10, 0, 0, 6]);
    // The same identifier, and the same device.
    assert_eq!(s.create_interface(b"vm1", 100, &address, Some((8, [1; 6]))).err(), Some(exists));
    assert_eq!(s.create_interface(b"vm2", 100, &address, Some((7, [1; 6]))).err(), Some(exists));
    assert_eq!(s.get_interface(b"vm1").unwrap().ipv4, [10, 0, 0, 5]);
    assert_eq!(s.get_interface(b"vm2").err(), Some(ServiceError::NotFound));
    assert_eq!(s.list_interfaces().unwrap().len(), 1);
    assert!(s.create_interface(b"vm2", 100, &address, Some((8, [1; 6]))).is_ok());
    let (mut c, _) = with_interface();
    let w = c.create_interface(b"vm1", 8, [1; 6], 1, [1; 4], [1; 4], [9; 16], 0, 0);
    assert_eq!(w.err(), Some(ControlError::InterfaceExists));
    assert_eq!(c.interface(b"vm1").unwrap().ifindex, 7);
}

#[test]
fn unknown_device_is_an_invalid_argument() {
    let (mut s, _) = service();
    let e = s.create_interface(b"vm2", 100, &Some(vec![10, 0, 0, 6]), None).err().unwrap();
    assert_eq!(e, ServiceError::UnknownDevice);
    assert_eq!(e.code(), Code::InvalidArgument);
    assert_eq!(s.list_interfaces().unwrap().len(), 1);
}

#[test]
fn undone_interface_leaves_nothing_behind() {
    let (mut s, t) = service();
    for made in 0..4 {
        let w = s.create_interface(b"vm2", 100, &Some(vec![10, 0, 0, 6]), Some((8, [1; 6]))).unwrap();
        let mut after = Tables::new();
        // The tables as they were, then as many changes as could be made.
        let (_, before) = service();
        for (k, v) in before.ports.entries() {
            after.ports.insert(k, v);
        }
        for (k, v) in before.interfaces.entries() {
            after.interfaces.insert(k, v);
        }
        for (k, v) in before.underlay.entries() {
            after.underlay.insert(k, v);
        }
        after.apply_all(&w[..made].to_vec());
        let back = s.undo_interface(&t, b"vm2").unwrap();
        assert_eq!(after.apply_all(&back), 4);
        assert_eq!(sizes(&after), sizes(&t));
        assert_eq!(after.underlay.get(&Addr6(UNDERLAY)).unwrap().tap_ifindex, 7);
        assert_eq!(s.get_interface(b"vm2").err(), Some(ServiceError::NotFound));
    }
    assert_eq!(s.undo_interface(&t, b"vm2").err(), Some(ServiceError::NotFound));
}

#[test]
fn deleted_interface_is_gone() {
    let (mut s, mut t) = service();
    assert_eq!(s.delete_interface(&t, b"vm2").err(), Some(ServiceError::NotFound));
    assert_eq!(ServiceError::NotFound.code(), Code::NotFound);
    let prefix = Some(PrefixField { ip: Some(vec![10, 9, 0, 0]), length: 16 });
    t.apply_all(&s.create_prefix(b"vm1", &prefix).unwrap());
    s.record_prefix(b"vm1", &prefix).unwrap();
    assert_eq!(s.create_load_balancer_prefix(b"vm1", &prefix), UNDERLAY);
    t.apply_all(&s.create_vip(b"vm1", &Some(vec![203, 0, 113, 5])).unwrap());
    t.apply_all(&s.create_nat(b"vm1", &Some(vec![203, 0, 113, 6]), 1, 9).unwrap());
    let r = rule(FW_DIR_INGRESS, 1, FW_ACTION_ACCEPT);
    t.apply_all(&s.create_firewall_rule(b"vm1", b"r".to_vec(), r).unwrap());
    assert_eq!(sizes(&t), [1, 1, 1, 0, 1, 1, 3, 1]);
    t.apply_all(&s.delete_interface(&t, b"vm1").unwrap());
    assert_eq!(sizes(&t), [0; 8]);
    assert_eq!(s.delete_interface(&t, b"vm1").err(), Some(ServiceError::NotFound));
    assert!(s.list_prefixes(b"vm1").unwrap().is_empty());
    // The identifier and the device are free again, and no rule is left over.
    t.apply_all(&s.create_interface(b"vm1", 100, &Some(vec![10, 0, 0, 5]), Some((7, [1; 6]))).unwrap());
    assert!(s.list_firewall_rules(b"vm1").unwrap().is_empty());
    assert!(s.list_load_balancer_prefixes(b"vm1").unwrap().is_empty());
}

#[test]
fn deleting_leaves_an_underlay_address_to_its_later_owner() {
    let (mut s, mut t) = service();
    t.apply_all(&s.create_interface(b"vm2", 100, &Some(vec![10, 0, 0, 6]), Some((8, [1; 6]))).unwrap());
    assert_eq!(t.underlay.get(&Addr6(UNDERLAY)).unwrap().tap_ifindex, 8);
    t.apply_all(&s.delete_interface(&t, b"vm1").unwrap());
    assert_eq!(t.underlay.get(&Addr6(UNDERLAY)).unwrap().tap_ifindex, 8);
    assert!(t.ports.get(&7).is_none() && t.ports.get(&8).is_some());
}

#[test]
fn routes_are_listed_deleted_and_reset() {
    let (s, mut t) = service();
    let route = |ip: Vec<u8>, length| {
        Some(RouteField { prefix: Some(PrefixField { ip: Some(ip), length }), nexthop_address: Some(vec![7; 16]) })
    };
    for (vni, ip, len) in [(1, vec![10, 1, 2, 3], 16), (1, vec![10, 2, 0, 0], 16), (2, vec![10, 1, 0, 0], 16)] {
        assert_eq!(t.apply_all(&s.create_route(vni, &route(ip, len)).unwrap()), 1);
    }
    let mut keys: Vec<[u8; 4]> = s.list_routes(&t, 1).unwrap().iter().map(|(k, _)| k.ipv4).collect();
    keys.sort();
    assert_eq!(keys, vec![[10, 1, 0, 0], [10, 2, 0, 0]]);
    t.apply_all(&s.delete_route(1, &route(vec![10, 1, 9, 9], 16)).unwrap());
    assert_eq!(s.list_routes(&t, 1).unwrap().len(), 1);
    assert_eq!(s.delete_route(1, &None).err(), Some(ServiceError::Missing(Field::Route)));
    let bare = Some(RouteField { prefix: None, nexthop_address: None });
    assert_eq!(s.delete_route(1, &bare).err(), Some(ServiceError::Missing(Field::RoutePrefix)));
    t.apply_all(&s.create_route(1, &route(vec![0, 0, 0, 0], 0)).unwrap());
    assert_eq!(t.apply_all(&s.reset_vni(&t, 1).unwrap()), 2);
    assert!(s.list_routes(&t, 1).unwrap().is_empty());
    assert_eq!(s.list_routes(&t, 2).unwrap().len(), 1);
}

#[test]
fn vnis_in_use() {
    let (mut s, mut t) = service();
    assert_eq!(s.check_vni_in_use(100), Ok(true));
    assert_eq!(s.check_vni_in_use(200), Ok(false));
    t.apply_all(&s.create_load_balancer(b"lb", 200, &Some(vec![1; 4]), &vec![(53, 17)]).unwrap());
    assert_eq!(s.check_vni_in_use(200), Ok(false));
    s.confirm_load_balancer();
    assert_eq!(s.check_vni_in_use(200), Ok(true));
    s.delete_interface(&t, b"vm1").unwrap();
    assert_eq!(s.check_vni_in_use(100), Ok(false));
}

#[test]
fn load_balancers_are_listed_and_lose_targets() {
    let (mut s, mut t) = service();
    assert_eq!(s.get_load_balancer(b"lb").err(), Some(ServiceError::NotFound));
    assert_eq!(s.list_load_balancer_targets(b"lb").err(), Some(ServiceError::NotFound));
    t.apply_all(&s.create_load_balancer(b"lb", 100, &Some(vec![203, 0, 113, 9]), &vec![(53, 17)]).unwrap());
    s.confirm_load_balancer();
    for n in [5u8, 6] {
        t.apply_all(&s.create_load_balancer_target(b"lb", &Some(vec![10, 0, 0, n])).unwrap());
    }
    let lb = s.get_load_balancer(b"lb").unwrap();
    assert_eq!((lb.vni, lb.ip, lb.ports), (100, [203, 0, 113, 9], vec![(53, 17)]));
    assert_eq!(s.list_load_balancers().unwrap().iter().map(|i| i.0.clone()).collect::<Vec<_>>(), vec![b"lb".to_vec()]);
    assert_eq!(s.list_load_balancer_targets(b"lb").unwrap(), vec![[10, 0, 0, 5], [10, 0, 0, 6]]);
    t.apply_all(&s.delete_load_balancer_target(b"lb", &Some(vec![10, 0, 0, 5])).unwrap());
    for sport in 0..50 {
        let mut f = udp([203, 0, 113, 9], sport, 53);
        assert_eq!(lb_select_dnat(&mut f, 14, &t, 100), Some([10, 0, 0, 6]));
    }
    t.apply_all(&s.delete_load_balancer_target(b"lb", &Some(vec![10, 0, 0, 6])).unwrap());
    assert_eq!(lb_select_dnat(&mut udp([203, 0, 113, 9], 1, 53), 14, &t, 100), None);
    assert!(t.maglev_overlay.entries().is_empty());
    let unknown = ServiceError::Refused(ControlError::UnknownLoadBalancer);
    assert_eq!(s.delete_load_balancer_target(b"no", &Some(vec![1; 4])).err(), Some(unknown));
}

#[test]
fn prefixes_through_the_service() {
    let (mut s, mut t) = service();
    let prefix = |n: u8| Some(PrefixField { ip: Some(vec![10, n, 0, 0]), length: 16 });
    t.apply_all(&s.create_prefix(b"vm1", &prefix(9)).unwrap());
    assert!(s.list_prefixes(b"vm1").unwrap().is_empty());
    s.record_prefix(b"vm1", &prefix(9)).unwrap();
    assert_eq!(s.list_prefixes(b"vm1").unwrap(), vec![([10, 9, 0, 0], 16)]);
    assert_eq!(t.route4(100, &[10, 9, 1, 1]).unwrap().value.nexthop_ipv6, UNDERLAY);
    t.apply_all(&s.delete_prefix(b"vm1", &prefix(9)).unwrap());
    assert!(s.list_prefixes(b"vm1").unwrap().is_empty());
    assert!(t.route4(100, &[10, 9, 1, 1]).is_none());
    let unknown = ServiceError::Refused(ControlError::UnknownInterface);
    assert_eq!(s.create_prefix(b"no", &prefix(9)).err(), Some(unknown));
    assert_eq!(s.record_prefix(b"no", &prefix(9)).err(), Some(unknown));
    assert_eq!(s.delete_prefix(b"no", &prefix(9)).err(), Some(unknown));
    // Load-balancer prefixes program nothing.
    assert_eq!(s.create_load_balancer_prefix(b"vm1", &prefix(7)), UNDERLAY);
    assert_eq!(s.create_load_balancer_prefix(b"vm1", &prefix(8)), UNDERLAY);
    assert_eq!(s.create_load_balancer_prefix(b"no", &prefix(8)), UNDERLAY);
    assert_eq!(s.create_load_balancer_prefix(b"vm1", &None), UNDERLAY);
    assert_eq!(s.list_load_balancer_prefixes(b"vm1").unwrap(), vec![([10, 7, 0, 0], 16), ([10, 8, 0, 0], 16)]);
    s.delete_load_balancer_prefix(b"vm1", &prefix(7)).unwrap();
    assert_eq!(s.list_load_balancer_prefixes(b"vm1").unwrap(), vec![([10, 8, 0, 0], 16)]);
    assert!(s.list_load_balancer_prefixes(b"no").unwrap().is_empty());
    assert_eq!(s.delete_load_balancer_prefix(b"vm1", &None).err(), Some(ServiceError::Missing(Field::Prefix)));
}

#[test]
fn nat_and_rules_through_the_service() {
    let (mut s, mut t) = service();
    let ip = Some(vec![203, 0, 113, 6]);
    assert_eq!(s.get_nat(&t, b"vm1"), Ok(None));
    t.apply_all(&s.create_nat(b"vm1", &ip, 1000, 2000).unwrap());
    assert_eq!(s.get_nat(&t, b"vm1"), Ok(Some(([203, 0, 113, 6], 1000, 2000))));
    assert_eq!(
        s.list_local_nats(&t).unwrap(),
        vec![(NatKey { vni: 100, ipv4: [10, 0, 0, 5] }, NatValue { nat_ipv4: [203, 0, 113, 6], port_min: 1000, port_max: 2000 })]
    );
    assert_eq!(s.create_nat(b"vm1", &ip, 0, 65536).err(), Some(ServiceError::BadPort));
    assert_eq!(ServiceError::BadPort.code(), Code::InvalidArgument);
    let unknown = ServiceError::Refused(ControlError::UnknownInterface);
    assert_eq!(s.create_nat(b"no", &ip, 1, 2).err(), Some(unknown));
    assert_eq!(s.delete_nat(b"no").err(), Some(unknown));
    t.apply_all(&s.delete_nat(b"vm1").unwrap());
    assert!(s.list_local_nats(&t).unwrap().is_empty());
    t.apply_all(&s.create_neighbor_nat(100, &ip, 10, 20, &[3; 16]).unwrap());
    assert_eq!(s.list_neighbor_nats().unwrap()[0].underlay, [3; 16]);
    assert_eq!(s.create_neighbor_nat(100, &ip, 10, 20, &[3; 15]).err(), Some(ServiceError::BadLength { expected: 16, got: 15 }));
    t.apply_all(&s.delete_neighbor_nat(100, &ip, 10, 20).unwrap());
    assert!(s.list_neighbor_nats().unwrap().is_empty());
    assert_eq!(t.neigh_nat_count, 0);
    let r = rule(FW_DIR_EGRESS, 53, FW_ACTION_ACCEPT);
    t.apply_all(&s.create_firewall_rule(b"vm1", b"dns".to_vec(), r).unwrap());
    assert_eq!(s.get_firewall_rule(b"vm1", b"dns"), Ok(r));
    assert_eq!(s.get_firewall_rule(b"vm1", b"no"), Err(ServiceError::NotFound));
    assert_eq!(s.get_firewall_rule(b"no", b"dns"), Err(ServiceError::NotFound));
    assert_eq!(s.list_firewall_rules(b"vm1").unwrap().len(), 1);
    assert_eq!(s.create_firewall_rule(b"no", vec![], r).err(), Some(unknown));
    assert_eq!(s.delete_firewall_rule(b"no", b"dns").err(), Some(unknown));
    t.apply_all(&s.delete_firewall_rule(b"vm1", b"dns").unwrap());
    assert!(s.list_firewall_rules(b"vm1").unwrap().is_empty());
    assert!(t.fw_rules.entries().is_empty());
}
