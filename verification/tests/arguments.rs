use xdp_dp::args::{
    parse_ipv4, parse_ipv6, parse_mac, parse_max_entries, split_guest, split_remote, static_guest,
    static_remote, static_uplink, MacError, RemoteError,
};
use xdp_dp::loader::{map_override, table_size, Size, OVERRIDES};
use xdp_dp::tables::{MapWrite, Tables};

#[test]
fn parse_mac_valid() {
    assert_eq!(parse_mac("02:00:00:00:00:01").unwrap(), [2, 0, 0, 0, 0, 1]);
}

#[test]
fn parse_mac_rejects_bad_octet() {
    assert!(parse_mac("zz:00:00:00:00:01").is_err());
}

#[test]
fn parse_mac_rejects_too_short() {
    assert!(parse_mac("02:00:00:00:00").is_err());
}

#[test]
fn parse_mac_rejects_too_long() {
    assert!(parse_mac("02:00:00:00:00:01:ff").is_err());
}

#[test]
fn parse_mac_names_what_is_wrong() {
    assert_eq!(parse_mac("zz:00:00:00:00:01"), Err(MacError::BadOctet));
    assert_eq!(parse_mac("100:00:00:00:00:01"), Err(MacError::BadOctet));
    assert_eq!(parse_mac(""), Err(MacError::BadOctet));
    assert_eq!(parse_mac("02:00:00:00:00:"), Err(MacError::BadOctet));
    assert_eq!(parse_mac("02:00:00:00:00"), Err(MacError::TooFewOctets));
    assert_eq!(parse_mac("02:00:00:00:00:01:zz"), Err(MacError::TooManyOctets));
}

#[test]
fn parse_mac_takes_both_cases_signs_and_zeros() {
    assert_eq!(parse_mac("aA:Bb:cC:Dd:eE:fF").unwrap(), [0xaa, 0xbb, 0xcc, 0xdd, 0xee, 0xff]);
    assert_eq!(parse_mac("+1:0002:3:4:5:6").unwrap(), [1, 2, 3, 4, 5, 6]);
    assert_eq!(parse_mac("+:0:0:0:0:0"), Err(MacError::BadOctet));
    assert_eq!(parse_mac("-1:0:0:0:0:0"), Err(MacError::BadOctet));
}

#[test]
fn parse_ipv4_basic() {
    assert_eq!(parse_ipv4("10.0.0.5").unwrap(), [10, 0, 0, 5]);
}

#[test]
fn parse_ipv4_rejects_garbage() {
    assert!(parse_ipv4("not-an-ip").is_none());
}

#[test]
fn parse_ipv4_is_strict() {
    assert_eq!(parse_ipv4("255.255.255.255"), Some([255, 255, 255, 255]));
    assert_eq!(parse_ipv4("0.0.0.0"), Some([0, 0, 0, 0]));
    for bad in ["", "1.2.3", "1.2.3.4.5", "1.2.3.256", "1.2.3.04", "1.2.3.", "+1.2.3.4", "1.2.3.4 "] {
        assert_eq!(parse_ipv4(bad), None, "{bad}");
    }
}

#[test]
fn guest_argument_splits_at_the_first_sign() {
    assert_eq!(split_guest("tap0=10.0.0.5"), Some(("tap0", "10.0.0.5")));
    assert_eq!(split_guest("tap0=a=b"), Some(("tap0", "a=b")));
    assert_eq!(split_guest("tap0"), None);
}

#[test]
fn remote_argument_has_three_parts() {
    assert_eq!(
        split_remote("10.0.0.6=fd00::2=02:00:00:00:00:02"),
        Ok(("10.0.0.6", "fd00::2", "02:00:00:00:00:02"))
    );
    assert_eq!(split_remote("a=b=c=d"), Ok(("a", "b", "c")));
    assert_eq!(split_remote("a"), Err(RemoteError::MissingNexthop));
    assert_eq!(split_remote("a=b"), Err(RemoteError::MissingMac));
}

#[test]
fn table_sizes_are_numbers() {
    assert_eq!(parse_max_entries("1048576"), Some(1048576));
    assert_eq!(parse_max_entries("4294967295"), Some(u32::MAX));
    assert_eq!(parse_max_entries("4294967296"), None);
    assert_eq!(parse_max_entries("99999999999999999999"), None);
    assert_eq!(parse_max_entries("+7"), Some(7));
    assert_eq!(parse_max_entries("1k"), None);
    assert_eq!(parse_max_entries(""), None);
    assert_eq!(table_size(None), Size::Default);
    assert_eq!(table_size(Some("12")), Size::Entries(12));
    assert_eq!(table_size(Some("x")), Size::Invalid);
}

#[test]
fn every_override_has_its_variable() {
    let all: Vec<(&str, &str)> = (0..OVERRIDES).map(map_override).collect();
    assert_eq!(
        all,
        vec![
            ("CONNTRACK", "XDP_DP_CONNTRACK_MAX"),
            ("ROUTES", "XDP_DP_ROUTES_MAX"),
            ("INTERFACES", "XDP_DP_INTERFACES_MAX"),
            ("MAGLEV", "XDP_DP_MAGLEV_MAX"),
            ("NAT", "XDP_DP_NAT_MAX"),
            ("LB", "XDP_DP_LB_MAX"),
            ("PORT_META", "XDP_DP_PORT_META_MAX"),
        ]
    );
}

#[test]
fn static_bring_up_programs_the_tables() {
    let mut t = Tables::new();
    assert!(t.apply(&static_uplink(3, [2, 0, 0, 0, 0, 9], [0xfd; 16])));
    assert_eq!(t.apply_all(&static_guest(7, [2, 0, 0, 0, 0, 5], [10, 0, 0, 5], [10, 0, 0, 1], [0xfd; 16])), 2);
    let remote = static_remote([10, 0, 0, 6], [0xfe; 16], [2, 0, 0, 0, 0, 6]);
    assert!(matches!(remote, MapWrite::Route(k, _) if k.prefix_len == 32 && k.vni == 0));
    assert!(t.apply(&remote));
    assert_eq!(t.local.unwrap().local.uplink_ifindex, 3);
    assert_eq!(t.ports.get(&7).unwrap().meta.gateway_ipv4, [10, 0, 0, 1]);
    let r = t.route4(0, &[10, 0, 0, 6]).unwrap();
    assert_eq!(r.value.nexthop_ipv6, [0xfe; 16]);
    assert_eq!(r.value.nexthop_mac, [2, 0, 0, 0, 0, 6]);
    assert!(t.route4(0, &[10, 0, 0, 7]).is_none());
}

#[test]
fn parse_ipv6_last_byte() {
    let octets = parse_ipv6("fd00::1").unwrap();
    assert_eq!(octets[15], 1);
}

#[test]
fn parse_ipv6_rejects_garbage() {
    assert!(parse_ipv6("not-an-ip").is_none());
}

fn address(words: [u16; 8]) -> Option<[u8; 16]> {
    let mut out = [0; 16];
    for (i, w) in words.iter().enumerate() {
        out[2 * i] = (w >> 8) as u8;
        out[2 * i + 1] = *w as u8;
    }
    Some(out)
}

#[test]
fn ipv6_addresses_in_all_forms() {
    assert_eq!(parse_ipv6("::"), address([0; 8]));
    assert_eq!(parse_ipv6("::1"), address([0, 0, 0, 0, 0, 0, 0, 1]));
    assert_eq!(parse_ipv6("1::"), address([1, 0, 0, 0, 0, 0, 0, 0]));
    assert_eq!(parse_ipv6("fd00:0:12:ABCD::7:8"), address([0xfd00, 0, 0x12, 0xabcd, 0, 0, 7, 8]));
    assert_eq!(parse_ipv6("1:2:3:4:5:6:7:8"), address([1, 2, 3, 4, 5, 6, 7, 8]));
    assert_eq!(parse_ipv6("1:2:3:4:5:6:7::"), address([1, 2, 3, 4, 5, 6, 7, 0]));
    assert_eq!(parse_ipv6("::2:3:4:5:6:7:8"), address([0, 2, 3, 4, 5, 6, 7, 8]));
    assert_eq!(parse_ipv6("::ffff:192.0.2.33"), address([0, 0, 0, 0, 0, 0xffff, 0xc000, 0x0221]));
    assert_eq!(parse_ipv6("1:2:3:4:5:6:1.2.3.4"), address([1, 2, 3, 4, 5, 6, 0x0102, 0x0304]));
}

#[test]
fn texts_that_are_no_ipv6_address() {
    for s in [
        "", ":", ":::", "1", "1:2:3:4:5:6:7", "1:2:3:4:5:6:7:8:9", "1::2::3", "1:::2", ":1::2", "1::2:",
        "1:2:3:4:5:6:7:8::", "12345::", "g::", "+1::", "1.2.3.4", "1.2.3.4::", "::1.2.3.4:5", "::1.2.3",
        "::01.2.3.4", "::256.2.3.4", "1:2:3:4:5:6:7:1.2.3.4", "fe80::1%eth0", " ::1",
    ] {
        assert!(parse_ipv6(s).is_none(), "{s}");
    }
}
