use xdp_dp::types::{Config, IfaceKey, IfaceValue, Local, PortMeta, RouteKey, RouteValue};

#[test]
fn iface_key_is_word_packed() {
    // POD layout must be stable for sharing with the kernel: 4 (vni) + 4 (ipv4).
    assert_eq!(core::mem::size_of::<IfaceKey>(), 8);
    let k = IfaceKey::new(100, [10, 0, 0, 5]);
    assert_eq!(k.vni, 100);
    assert_eq!(k.ipv4, [10, 0, 0, 5]);
}

#[test]
fn route_types_have_stable_layout() {
    // 4 (vni) + 4 (prefix_len) + 4 (ipv4) = 12.
    // 4 (nexthop_vni) + 16 (ipv6) + 6 (mac) + 2 (pad) = 28.
    assert_eq!(core::mem::size_of::<RouteKey>(), 12);
    assert_eq!(core::mem::size_of::<RouteValue>(), 28);
    // 4 (uplink_ifindex) + 6 (uplink_mac) + 2 (pad) + 16 (underlay_ipv6) = 28.
    assert_eq!(core::mem::size_of::<Local>(), 28);
}

#[test]
fn port_meta_and_iface_layout() {
    assert_eq!(core::mem::size_of::<PortMeta>(), 20);
    assert_eq!(core::mem::size_of::<IfaceValue>(), 32);
    assert_eq!(core::mem::align_of::<PortMeta>(), 4);
}

#[test]
fn config_has_stable_layout() {
    // 4*4 (u32s) + 16 + 16 (underlays) + 6+6+6+2 (macs+pad) = 16 + 32 + 20 = 68.
    assert_eq!(core::mem::size_of::<Config>(), 68);
    assert_eq!(core::mem::align_of::<Config>(), 4);
}
