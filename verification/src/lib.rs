use vstd::prelude::*;

pub mod args;
pub mod arp_nd;
pub mod bytes;
pub mod conntrack;
pub mod conntrack_gc;
pub mod control;
pub mod csum;
pub mod dhcp4;
pub mod dhcp6;
pub mod egress;
pub mod encap;
pub mod firewall;
pub mod frame;
pub mod grpc;
pub mod ingress;
pub mod inspect;
pub mod journeys;
pub mod lb;
pub mod loader;
pub mod maglev;
pub mod meter;
pub mod network_nat;
pub mod parse;
pub mod programming;
pub mod programs;
pub mod table;
pub mod tables;
pub mod tc;
pub mod translate;
pub mod types;
pub mod v6;
pub mod verdict;
pub mod vip;

verus! {

} // verus!
