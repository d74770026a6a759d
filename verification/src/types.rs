//! The records shared between the datapath and the control plane: table keys, table values and
//! the constants that give their fields a meaning.

use vstd::prelude::*;

verus! {

/// Key of the interface table: an overlay (VNI, IPv4) pair.
#[derive(Copy, Clone, Eq, PartialEq, Hash, Debug)]
pub struct IfaceKey {
    pub vni: u32,
    pub ipv4: [u8; 4],
}

impl IfaceKey {
    pub fn new(vni: u32, ipv4: [u8; 4]) -> (r: Self)
        ensures
            r == (IfaceKey { vni, ipv4 }),
    {
        Self { vni, ipv4 }
    }
}

/// Value of the interface table: how to deliver to an overlay address.
#[derive(Copy, Clone, Eq, PartialEq, Debug, Default)]
pub struct IfaceValue {
    /// Host-side tap ifindex for local delivery (0 if remote).
    pub tap_ifindex: u32,
    /// 1 = interface is local to this hypervisor, 0 = remote.
    pub is_local: u32,
    /// Underlay IPv6 endpoint of the owning hypervisor.
    pub underlay_ipv6: [u8; 16],
    /// Guest MAC (inner Ethernet destination for local delivery).
    pub guest_mac: [u8; 6],
    pub _pad: [u8; 2],
}

/// Per-port metadata, keyed by the guest tap's host-side ifindex.
#[derive(Copy, Clone, Eq, PartialEq, Debug, Default)]
pub struct PortMeta {
    pub vni: u32,
    pub guest_ipv4: [u8; 4],
    pub gateway_ipv4: [u8; 4],
    pub guest_mac: [u8; 6],
    pub _pad: [u8; 2],
}

/// A guest port: its IPv4-side metadata and its IPv6 addresses.
#[derive(Copy, Clone, Eq, PartialEq, Debug, Default)]
pub struct Port {
    pub meta: PortMeta,
    /// The port's own underlay /128 (outer source on encapsulation).
    pub underlay_ipv6: [u8; 16],
    /// The IPv6 gateway the datapath answers Neighbor Solicitations for.
    pub gateway_ipv6: [u8; 16],
    /// The IPv6 address leased to the guest.
    pub guest_ipv6: [u8; 16],
}

/// Key of the route table: a VNI and an IPv4 prefix.
#[derive(Copy, Clone, Eq, PartialEq, Hash, Debug)]
pub struct RouteKey {
    pub vni: u32,
    pub prefix_len: u32,
    pub ipv4: [u8; 4],
}

/// Key of the IPv6 route table: a VNI and an IPv6 prefix.
#[derive(Copy, Clone, Eq, PartialEq, Hash, Debug)]
pub struct RouteKey6 {
    pub vni: u32,
    pub prefix_len: u32,
    pub ipv6: [u8; 16],
}

/// How to reach an overlay prefix's nexthop on the underlay.
#[derive(Copy, Clone, Eq, PartialEq, Debug, Default)]
pub struct RouteValue {
    pub nexthop_vni: u32,
    pub nexthop_ipv6: [u8; 16],
    /// Underlay MAC of the nexthop hypervisor's uplink.
    pub nexthop_mac: [u8; 6],
    pub _pad: [u8; 2],
}

/// A route: its nexthop, and whether the prefix lies outside the overlay (network NAT applies).
#[derive(Copy, Clone, Eq, PartialEq, Debug, Default)]
pub struct Route {
    pub value: RouteValue,
    pub is_external: bool,
}

/// This hypervisor's uplink.
#[derive(Copy, Clone, Eq, PartialEq, Debug, Default)]
pub struct Local {
    pub uplink_ifindex: u32,
    pub uplink_mac: [u8; 6],
    pub _pad: [u8; 2],
    pub underlay_ipv6: [u8; 16],
}

/// The uplink together with the MAC of the underlay gateway behind it.
#[derive(Copy, Clone, Eq, PartialEq, Debug, Default)]
pub struct Uplink {
    pub local: Local,
    pub gateway_mac: [u8; 6],
}

/// Per-hypervisor parameters of a single-peer overlay (one guest, one peer hypervisor).
#[derive(Copy, Clone, Eq, PartialEq, Debug, Default)]
pub struct Config {
    /// Overlay VNI this hypervisor's guest belongs to.
    pub vni: u32,
    /// ifindex of the underlay-facing uplink.
    pub uplink_ifindex: u32,
    /// ifindex of the guest-facing tap.
    pub guest_ifindex: u32,
    pub _pad: u32,
    /// This hypervisor's underlay IPv6 (outer source on encapsulation).
    pub local_underlay_ipv6: [u8; 16],
    /// The peer hypervisor's underlay IPv6 (outer destination on encapsulation).
    pub peer_underlay_ipv6: [u8; 16],
    /// Uplink source MAC.
    pub local_mac: [u8; 6],
    /// Peer uplink MAC.
    pub peer_mac: [u8; 6],
    /// Guest MAC.
    pub guest_mac: [u8; 6],
    pub _pad2: [u8; 2],
}

/// Who owns an underlay /128 of this hypervisor.
#[derive(Copy, Clone, Eq, PartialEq, Debug, Default)]
pub struct UnderlayValue {
    pub vni: u32,
    /// Tap to deliver to; 0 for a load balancer's anycast address.
    pub tap_ifindex: u32,
    pub guest_mac: [u8; 6],
}

/// Key of the 1:1 VIP table.
#[derive(Copy, Clone, Eq, PartialEq, Hash, Debug)]
pub struct VipKey {
    pub vni: u32,
    pub ipv4: [u8; 4],
}

/// Key of the load balancer table: one (address, port, protocol) service of a VNI.
#[derive(Copy, Clone, Eq, PartialEq, Hash, Debug)]
pub struct LbKey {
    pub vni: u32,
    pub ipv4: [u8; 4],
    pub port: u16,
    pub proto: u8,
}

/// Which Maglev table serves a load-balanced service, and how many slots it has.
#[derive(Copy, Clone, Eq, PartialEq, Debug, Default)]
pub struct LbValue {
    pub table_id: u32,
    pub size: u32,
}

/// Key of the Maglev slot tables.
#[derive(Copy, Clone, Eq, PartialEq, Hash, Debug)]
pub struct MaglevKey {
    pub table_id: u32,
    pub slot: u32,
}

/// Conntrack key: a VNI and a 5-tuple (host-order ports; the ICMP identifier in both ports).
#[derive(Copy, Clone, Eq, PartialEq, Hash, Debug)]
pub struct CtKey {
    pub vni: u32,
    pub src_ip: [u8; 4],
    pub dst_ip: [u8; 4],
    pub src_port: u16,
    pub dst_port: u16,
    pub proto: u8,
}

/// Conntrack entry: when the flow was last seen, its TCP state, and its translation if any.
#[derive(Copy, Clone, Eq, PartialEq, Debug, Default)]
pub struct CtEntry {
    /// Kernel-monotonic time in nanoseconds.
    pub last_seen: u64,
    pub xlate_ip: [u8; 4],
    pub xlate_port: u16,
    pub flags: u8,
    pub tcp_state: u8,
    pub fwall_action: u8,
}

/// Flag of a conntrack entry without a translation.
pub const CT_F_DEFAULT: u8 = 0;

/// The entry rewrites the packet's source.
pub const CT_REWRITE_SRC: u8 = 1;

/// The entry rewrites the packet's destination.
pub const CT_REWRITE_DST: u8 = 2;

pub const TCP_NONE: u8 = 0;

pub const TCP_NEW_SYN: u8 = 1;

pub const TCP_NEW_SYNACK: u8 = 2;

pub const TCP_ESTABLISHED: u8 = 3;

pub const TCP_FINWAIT: u8 = 4;

pub const TCP_RST_FIN: u8 = 5;

/// Key of the NAT configuration table: a guest.
#[derive(Copy, Clone, Eq, PartialEq, Hash, Debug)]
pub struct NatKey {
    pub vni: u32,
    pub ipv4: [u8; 4],
}

/// A guest's NAT configuration: the public address and its port range (`port_max` exclusive).
#[derive(Copy, Clone, Eq, PartialEq, Debug, Default)]
pub struct NatValue {
    pub nat_ipv4: [u8; 4],
    pub port_min: u16,
    pub port_max: u16,
}

/// Key of the NAT flow table: a 5-tuple.
#[derive(Copy, Clone, Eq, PartialEq, Hash, Debug)]
pub struct NatFlow {
    pub src_ip: [u8; 4],
    pub dst_ip: [u8; 4],
    pub src_port: u16,
    pub dst_port: u16,
    pub proto: u8,
}

/// Value of the NAT flow table: the address and port the flow is translated to.
#[derive(Copy, Clone, Eq, PartialEq, Debug, Default)]
pub struct NatCtVal {
    pub ipv4: [u8; 4],
    pub port: u16,
}

/// A peer hypervisor that owns a slice of a shared NAT address's ports.
#[derive(Copy, Clone, Eq, PartialEq, Debug, Default)]
pub struct NeighborNatEntry {
    pub underlay: [u8; 16],
    pub nat_ip: [u8; 4],
    pub vni: u32,
    pub port_min: u16,
    pub port_max: u16,
    pub enabled: u8,
}

/// Capacity of the neighbor NAT table.
pub const NB_MAX_ENTRIES: u32 = 64;

/// Key of the firewall rule table: a slot of an interface.
#[derive(Copy, Clone, Eq, PartialEq, Hash, Debug)]
pub struct FwRuleKey {
    pub ifindex: u32,
    pub idx: u32,
}

/// One firewall rule.
#[derive(Copy, Clone, Eq, PartialEq, Debug, Default)]
pub struct FwRule {
    pub src_ip: [u8; 4],
    pub src_prefix_len: u32,
    pub dst_ip: [u8; 4],
    pub dst_prefix_len: u32,
    /// 0 matches every protocol.
    pub proto: u8,
    pub src_port_min: u16,
    pub src_port_max: u16,
    pub dst_port_min: u16,
    pub dst_port_max: u16,
    /// ICMP type, or `FW_ANY`.
    pub itype: u16,
    /// ICMP code, or `FW_ANY`.
    pub icode: u16,
    pub direction: u8,
    pub action: u8,
}

/// How many rules an interface has in each direction.
#[derive(Copy, Clone, Eq, PartialEq, Debug, Default)]
pub struct FwMeta {
    pub ingress_count: u32,
    pub egress_count: u32,
}

/// Wildcard of the ICMP type and code fields of a rule.
pub const FW_ANY: u16 = 65535;

pub const FW_ACTION_DROP: u8 = 0;

pub const FW_ACTION_ACCEPT: u8 = 1;

pub const FW_DIR_INGRESS: u8 = 0;

pub const FW_DIR_EGRESS: u8 = 1;

/// Rule slots per interface.
pub const FW_MAX_RULES: u32 = 16;

/// Token buckets of a port: one for all traffic, one for traffic that leaves the overlay.
#[derive(Copy, Clone, Eq, PartialEq, Debug, Default)]
pub struct MeterState {
    pub total_bps: u64,
    pub total_burst: u64,
    pub total_tokens: u64,
    pub total_last_ns: u64,
    pub public_bps: u64,
    pub public_burst: u64,
    pub public_tokens: u64,
    pub public_last_ns: u64,
}

/// DNS server slots of the DHCP configuration.
pub const DHCP_MAX_DNS: usize = 8;

/// Datapath-wide DHCP configuration.
#[derive(Copy, Clone, Eq, PartialEq, Debug, Default)]
pub struct DhcpConfig {
    pub mtu: u16,
    pub dns4_len: u8,
    pub dns6_len: u8,
    pub dns4: [[u8; 4]; 8],
    pub dns6: [[u8; 16]; 8],
}

/// Per-port DHCP data: the hostname, and the PXE boot server and file.
#[derive(Copy, Clone, Eq, PartialEq, Debug)]
pub struct DhcpMeta {
    pub hostname_len: u8,
    pub hostname: [u8; 64],
    pub pxe_host_len: u8,
    pub pxe_host: [u8; 46],
    pub boot_filename_len: u8,
    pub boot_filename: [u8; 64],
}

/// The last frame the packet inspector saw.
#[derive(Copy, Clone, Eq, PartialEq, Debug, Default)]
pub struct InspectEntry {
    pub len: u32,
    pub seen: u32,
    pub bytes: [u8; 32],
}

} // verus!
