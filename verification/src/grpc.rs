//! The control-plane service: what its requests ask for, which are refused, and which table changes
//! the others make. Requests come as plain values; an absent message field is `None`.

use vstd::prelude::*;

use crate::bytes;
use crate::control;
use crate::control::{Control, ControlError, ControlView, Iface, LbEntry, LbView, RuleEntry};
use crate::maglev::TABLE_SIZE;
use crate::parse;
use crate::table;
use crate::table::Id;
use crate::tables;
use crate::tables::{MapWrite, Tables};
use crate::types::{
    FwRule, NatKey, NatValue, NeighborNatEntry, Route, RouteKey, VipKey, FW_MAX_RULES,
    NB_MAX_ENTRIES,
};

verus! {

/// A message field that a request must have.
#[derive(Copy, Clone, Eq, PartialEq, Structural, Debug)]
pub enum Field {
    Ipv4Config,
    Route,
    RoutePrefix,
    RoutePrefixIp,
    RouteNexthop,
    VipIp,
    LoadbalancedIp,
    TargetIp,
    Prefix,
    PrefixIp,
    NatIp,
}

/// Why a request was refused.
#[derive(Copy, Clone, Eq, PartialEq, Structural, Debug)]
pub enum ServiceError {
    /// No datapath is loaded (failed precondition).
    NotInitialized,
    /// A required field is absent (invalid argument).
    Missing(Field),
    /// An address has not the length it must have (invalid argument).
    BadLength { expected: usize, got: usize },
    /// A port is beyond 65535 (invalid argument).
    BadPort,
    /// There is no device of that name (invalid argument).
    UnknownDevice,
    /// What the request is about is not there (not found).
    NotFound,
    /// The control plane refused (an interface that is there already: already exists; else
    /// internal).
    Refused(ControlError),
    /// There is no such operation (unimplemented).
    NotImplemented,
}

/// The kind of a refusal, as clients see it.
#[derive(Copy, Clone, Eq, PartialEq, Structural, Debug)]
pub enum Code {
    FailedPrecondition,
    InvalidArgument,
    NotFound,
    AlreadyExists,
    Internal,
    Unimplemented,
}

impl ServiceError {
    pub open spec fn kind(self) -> Code {
        match self {
            ServiceError::NotInitialized => Code::FailedPrecondition,
            ServiceError::Missing(_) => Code::InvalidArgument,
            ServiceError::BadLength { .. } => Code::InvalidArgument,
            ServiceError::BadPort => Code::InvalidArgument,
            ServiceError::UnknownDevice => Code::InvalidArgument,
            ServiceError::NotFound => Code::NotFound,
            ServiceError::Refused(ControlError::InterfaceExists) => Code::AlreadyExists,
            ServiceError::Refused(_) => Code::Internal,
            ServiceError::NotImplemented => Code::Unimplemented,
        }
    }

    /// The kind of the refusal.
    pub fn code(&self) -> (r: Code)
        ensures
            r == self.kind(),
    {
        match self {
            ServiceError::NotInitialized => Code::FailedPrecondition,
            ServiceError::Missing(_) => Code::InvalidArgument,
            ServiceError::BadLength { .. } => Code::InvalidArgument,
            ServiceError::BadPort => Code::InvalidArgument,
            ServiceError::UnknownDevice => Code::InvalidArgument,
            ServiceError::NotFound => Code::NotFound,
            ServiceError::Refused(ControlError::InterfaceExists) => Code::AlreadyExists,
            ServiceError::Refused(_) => Code::Internal,
            ServiceError::NotImplemented => Code::Unimplemented,
        }
    }
}

impl Field {
    pub open spec fn text(self) -> Seq<char> {
        match self {
            Field::Ipv4Config => "ipv4_config is required"@,
            Field::Route => "route is required"@,
            Field::RoutePrefix => "route.prefix is required"@,
            Field::RoutePrefixIp => "route.prefix.ip is required"@,
            Field::RouteNexthop => "route.nexthop_address is required"@,
            Field::VipIp => "vip_ip is required"@,
            Field::LoadbalancedIp => "loadbalanced_ip is required"@,
            Field::TargetIp => "target_ip is required"@,
            Field::Prefix => "prefix is required"@,
            Field::PrefixIp => "prefix.ip is required"@,
            Field::NatIp => "nat_ip is required"@,
        }
    }

    /// The complaint about the absent field.
    pub fn message(&self) -> (r: &'static str)
        ensures
            r@ == self.text(),
    {
        match self {
            Field::Ipv4Config => "ipv4_config is required",
            Field::Route => "route is required",
            Field::RoutePrefix => "route.prefix is required",
            Field::RoutePrefixIp => "route.prefix.ip is required",
            Field::RouteNexthop => "route.nexthop_address is required",
            Field::VipIp => "vip_ip is required",
            Field::LoadbalancedIp => "loadbalanced_ip is required",
            Field::TargetIp => "target_ip is required",
            Field::Prefix => "prefix is required",
            Field::PrefixIp => "prefix.ip is required",
            Field::NatIp => "nat_ip is required",
        }
    }
}

/// An IPv4 address out of a request's bytes: there must be four.
pub open spec fn decoded4(b: Seq<u8>) -> Result<[u8; 4], ServiceError> {
    if b.len() == 4 {
        Ok(bytes::at4(b, 0))
    } else {
        Err(ServiceError::BadLength { expected: 4, got: b.len() as usize })
    }
}

/// An IPv6 address out of a request's bytes: there must be sixteen.
pub open spec fn decoded6(b: Seq<u8>) -> Result<[u8; 16], ServiceError> {
    if b.len() == 16 {
        Ok(bytes::at16(b, 0))
    } else {
        Err(ServiceError::BadLength { expected: 16, got: b.len() as usize })
    }
}

/// Decode an IPv4 address.
pub fn decode_ipv4(b: &[u8]) -> (r: Result<[u8; 4], ServiceError>)
    ensures
        r == decoded4(b@),
{
    if b.len() != 4 {
        return Err(ServiceError::BadLength { expected: 4, got: b.len() });
    }
    Ok([b[0], b[1], b[2], b[3]])
}

/// Decode an IPv6 address.
pub fn decode_ipv6(b: &[u8]) -> (r: Result<[u8; 16], ServiceError>)
    ensures
        r == decoded6(b@),
{
    if b.len() != 16 {
        return Err(ServiceError::BadLength { expected: 16, got: b.len() });
    }
    Ok(
        [
            b[0],
            b[1],
            b[2],
            b[3],
            b[4],
            b[5],
            b[6],
            b[7],
            b[8],
            b[9],
            b[10],
            b[11],
            b[12],
            b[13],
            b[14],
            b[15],
        ],
    )
}

/// An address field of a request: refused where absent, and where it is no IPv4 address.
pub open spec fn required4(field: Field, address: Option<Seq<u8>>) -> Result<
    [u8; 4],
    ServiceError,
> {
    match address {
        Some(b) => decoded4(b),
        None => Err(ServiceError::Missing(field)),
    }
}

/// The bytes of an optional field.
pub open spec fn field_bytes(address: Option<Vec<u8>>) -> Option<Seq<u8>> {
    match address {
        Some(b) => Some(b@),
        None => None,
    }
}

fn require_ipv4(field: Field, address: &Option<Vec<u8>>) -> (r: Result<[u8; 4], ServiceError>)
    ensures
        r == required4(field, field_bytes(*address)),
{
    match address {
        Some(b) => decode_ipv4(b.as_slice()),
        None => Err(ServiceError::Missing(field)),
    }
}

/// A prefix in a request.
#[derive(Debug)]
pub struct PrefixField {
    pub ip: Option<Vec<u8>>,
    pub length: u32,
}

/// A route in a request.
#[derive(Debug)]
pub struct RouteField {
    pub prefix: Option<PrefixField>,
    pub nexthop_address: Option<Vec<u8>>,
}

/// What a route request asks for (prefix, its length, nexthop). The first thing that is wrong with
/// it, in the order of its fields, is what it is refused for.
pub open spec fn route_asked(route: Option<RouteField>) -> Result<
    ([u8; 4], u32, [u8; 16]),
    ServiceError,
> {
    match route {
        None => Err(ServiceError::Missing(Field::Route)),
        Some(r) => match r.prefix {
            None => Err(ServiceError::Missing(Field::RoutePrefix)),
            Some(p) => match required4(Field::RoutePrefixIp, field_bytes(p.ip)) {
                Err(e) => Err(e),
                Ok(ipv4) => match r.nexthop_address {
                    None => Err(ServiceError::Missing(Field::RouteNexthop)),
                    Some(n) => match decoded6(n@) {
                        Err(e) => Err(e),
                        Ok(nexthop) => Ok((ipv4, p.length, nexthop)),
                    },
                },
            },
        },
    }
}

/// What a prefix in a request says (address, length); `missing` and `missing_ip` are the fields to
/// complain about.
pub open spec fn prefix_asked(
    prefix: Option<PrefixField>,
    missing: Field,
    missing_ip: Field,
) -> Result<([u8; 4], u32), ServiceError> {
    match prefix {
        None => Err(ServiceError::Missing(missing)),
        Some(p) => match required4(missing_ip, field_bytes(p.ip)) {
            Err(e) => Err(e),
            Ok(ipv4) => Ok((ipv4, p.length)),
        },
    }
}

fn require_prefix(prefix: &Option<PrefixField>, missing: Field, missing_ip: Field) -> (r: Result<
    ([u8; 4], u32),
    ServiceError,
>)
    ensures
        r == prefix_asked(*prefix, missing, missing_ip),
{
    match prefix {
        None => Err(ServiceError::Missing(missing)),
        Some(p) => match require_ipv4(missing_ip, &p.ip) {
            Err(e) => Err(e),
            Ok(ipv4) => Ok((ipv4, p.length)),
        },
    }
}

/// What a port slice of a NAT address in a request says (address, first port, port after the last).
pub open spec fn slice_asked(nat_ip: Option<Vec<u8>>, min: u32, max: u32) -> Result<
    ([u8; 4], u16, u16),
    ServiceError,
> {
    match required4(Field::NatIp, field_bytes(nat_ip)) {
        Err(e) => Err(e),
        Ok(ip) => if min > 65535 || max > 65535 {
            Err(ServiceError::BadPort)
        } else {
            Ok((ip, min as u16, max as u16))
        },
    }
}

fn require_slice(nat_ip: &Option<Vec<u8>>, min: u32, max: u32) -> (r: Result<
    ([u8; 4], u16, u16),
    ServiceError,
>)
    ensures
        r == slice_asked(*nat_ip, min, max),
{
    match require_ipv4(Field::NatIp, nat_ip) {
        Err(e) => Err(e),
        Ok(ip) => if min > 65535 || max > 65535 {
            Err(ServiceError::BadPort)
        } else {
            Ok((ip, min as u16, max as u16))
        },
    }
}

/// What an interface request asks for (address, tap, MAC), or what it is refused for: first for its
/// address, then for its device, then for an interface that is there already.
pub open spec fn interface_asked(
    c: ControlView,
    id: Seq<u8>,
    primary_address: Option<Vec<u8>>,
    device: Option<(u32, [u8; 6])>,
) -> Result<([u8; 4], u32, [u8; 6]), ServiceError> {
    match required4(Field::Ipv4Config, field_bytes(primary_address)) {
        Err(e) => Err(e),
        Ok(ipv4) => match device {
            None => Err(ServiceError::UnknownDevice),
            Some((tap, mac)) => if control::is_taken(c, id, tap) {
                Err(ServiceError::Refused(ControlError::InterfaceExists))
            } else {
                Ok((ipv4, tap, mac))
            },
        },
    }
}

/// The gateway of a guest: the first address of its /24.
pub open spec fn gateway_of(ipv4: [u8; 4]) -> [u8; 4] {
    [ipv4[0], ipv4[1], ipv4[2], 1]
}

/// The services of a load balancer request: port and protocol, each cut to the width it has in a
/// packet.
pub open spec fn services_of(ports: Seq<(u32, u32)>) -> Seq<(u16, u8)> {
    Seq::new(ports.len(), |i: int| ((ports[i].0 % 65536) as u16, (ports[i].1 % 256) as u8))
}

/// The service: the control plane, absent where no datapath is loaded, and this server's underlay
/// address, which its answers give.
pub struct Service {
    pub control: Option<Control>,
    pub underlay: [u8; 16],
}

/// The control plane's view, if there is one.
pub open spec fn state(s: Service) -> Option<ControlView> {
    match s.control {
        Some(c) => Some(c@),
        None => None,
    }
}

impl Service {
    pub open spec fn wf(&self) -> bool {
        self.control matches Some(c) ==> c.wf()
    }

    /// The control plane, where a datapath is loaded.
    fn control(&self) -> (r: Result<&Control, ServiceError>)
        ensures
            match r {
                Ok(c) => self.control == Some(*c),
                Err(e) => self.control is None && e == ServiceError::NotInitialized,
            },
    {
        match &self.control {
            Some(c) => Ok(c),
            None => Err(ServiceError::NotInitialized),
        }
    }

    /// Create an interface on a device: `device` is the tap and the MAC that the device's name was
    /// resolved to, `None` where there is no such device. The interface gets the first address of
    /// its /24 as gateway, this server's underlay address, and no rate cap.
    pub fn create_interface(
        &mut self,
        interface_id: &[u8],
        vni: u32,
        primary_address: &Option<Vec<u8>>,
        device: Option<(u32, [u8; 6])>,
    ) -> (r: Result<Vec<MapWrite>, ServiceError>)
        requires
            old(self).wf(),
        ensures
            final(self).wf(),
            final(self).underlay == old(self).underlay,
            match state(*old(self)) {
                None => r matches Err(e) && e == ServiceError::NotInitialized && state(
                    *final(self),
                ) is None,
                Some(c) => match interface_asked(c, interface_id@, *primary_address, device) {
                    Err(e) => r matches Err(f) && f == e && state(*final(self)) == Some(c),
                    Ok((ipv4, tap, mac)) => {
                        &&& r matches Ok(w)
                        &&& w@ == control::interface_writes(
                            tap,
                            mac,
                            vni,
                            ipv4,
                            gateway_of(ipv4),
                            old(self).underlay,
                            0,
                            0,
                        )
                        &&& state(*final(self)) == Some(
                            control::with_interface(
                                c,
                                interface_id@,
                                Iface { vni, ipv4, ifindex: tap, underlay: old(self).underlay },
                            ),
                        )
                    },
                },
            },
    {
        if self.control.is_none() {
            return Err(ServiceError::NotInitialized);
        }
        let ipv4 = match require_ipv4(Field::Ipv4Config, primary_address) {
            Ok(ip) => ip,
            Err(e) => {
                return Err(e);
            },
        };
        let gateway: [u8; 4] = [ipv4[0], ipv4[1], ipv4[2], 1];
        let (tap, mac) = match device {
            Some(d) => d,
            None => {
                return Err(ServiceError::UnknownDevice);
            },
        };
        let underlay = self.underlay;
        match self.control.take() {
            Some(mut control) => {
                let r = control.create_interface(
                    interface_id,
                    tap,
                    mac,
                    vni,
                    ipv4,
                    gateway,
                    underlay,
                    0,
                    0,
                );
                self.control = Some(control);
                match r {
                    Ok(w) => Ok(w),
                    Err(e) => Err(ServiceError::Refused(e)),
                }
            },
            None => Err(ServiceError::NotInitialized),
        }
    }

    /// Take back an interface whose device could not be attached, or whose changes could not all be
    /// made. `before` is what the tables were before.
    pub fn undo_interface(&mut self, before: &Tables, interface_id: &[u8]) -> (r: Result<
        Vec<MapWrite>,
        ServiceError,
    >)
        requires
            old(self).wf(),
        ensures
            final(self).wf(),
            final(self).underlay == old(self).underlay,
            match state(*old(self)) {
                None => r matches Err(e) && e == ServiceError::NotInitialized && state(
                    *final(self),
                ) is None,
                Some(c) => match c.ifaces.get(interface_id@) {
                    Some(iface) => {
                        &&& r matches Ok(w)
                        &&& w@ == control::restore_writes(before@, iface)
                        &&& state(*final(self)) == Some(
                            control::without_interface(c, interface_id@),
                        )
                    },
                    None => r matches Err(e) && e == ServiceError::NotFound && state(*final(self))
                        == Some(c),
                },
            },
    {
        match self.control.take() {
            Some(mut control) => {
                let r = control.undo_interface(before, interface_id);
                self.control = Some(control);
                match r {
                    Ok(w) => Ok(w),
                    Err(_) => Err(ServiceError::NotFound),
                }
            },
            None => Err(ServiceError::NotInitialized),
        }
    }

    /// Delete an interface.
    pub fn delete_interface(&mut self, tables: &Tables, interface_id: &[u8]) -> (r: Result<
        Vec<MapWrite>,
        ServiceError,
    >)
        requires
            old(self).wf(),
        ensures
            final(self).wf(),
            final(self).underlay == old(self).underlay,
            match state(*old(self)) {
                None => r matches Err(e) && e == ServiceError::NotInitialized && state(
                    *final(self),
                ) is None,
                Some(c) => match c.ifaces.get(interface_id@) {
                    Some(iface) => {
                        &&& r matches Ok(w)
                        &&& w@ == control::interface_removals(
                            tables@,
                            iface,
                            control::prefixes_of(c.prefixes, interface_id@),
                        )
                        &&& state(*final(self)) == Some(
                            control::without_interface(c, interface_id@),
                        )
                    },
                    None => r matches Err(e) && e == ServiceError::NotFound && state(*final(self))
                        == Some(c),
                },
            },
    {
        match self.control.take() {
            Some(mut control) => {
                let r = control.delete_interface(tables, interface_id);
                self.control = Some(control);
                match r {
                    Ok(w) => Ok(w),
                    Err(_) => Err(ServiceError::NotFound),
                }
            },
            None => Err(ServiceError::NotInitialized),
        }
    }

    /// What is known of an interface.
    pub fn get_interface(&self, interface_id: &[u8]) -> (r: Result<Iface, ServiceError>)
        ensures
            r == (match state(*self) {
                None => Err(ServiceError::NotInitialized),
                Some(c) => match c.ifaces.get(interface_id@) {
                    Some(iface) => Ok(iface),
                    None => Err(ServiceError::NotFound),
                },
            }),
    {
        match &self.control {
            Some(c) => match c.interface(interface_id) {
                Some(iface) => Ok(iface),
                None => Err(ServiceError::NotFound),
            },
            None => Err(ServiceError::NotInitialized),
        }
    }

    /// All interfaces with their identifiers, each once, in no particular order.
    pub fn list_interfaces(&self) -> (r: Result<Vec<(Id, Iface)>, ServiceError>)
        ensures
            match state(*self) {
                None => r matches Err(e) && e == ServiceError::NotInitialized,
                Some(c) => r matches Ok(l) && table::keys_distinct(l@) && table::entries_map(l@)
                    == c.ifaces,
            },
    {
        match &self.control {
            Some(c) => Ok(c.list_interfaces()),
            None => Err(ServiceError::NotInitialized),
        }
    }

    /// Create a route inside the overlay.
    pub fn create_route(&self, vni: u32, route: &Option<RouteField>) -> (r: Result<
        Vec<MapWrite>,
        ServiceError,
    >)
        ensures
            if self.control is None {
                r matches Err(e) && e == ServiceError::NotInitialized
            } else {
                match route_asked(*route) {
                    Ok((ipv4, len, nexthop)) => r matches Ok(w) && w@ == seq![
                        control::route_write(vni, ipv4, len, nexthop, false),
                    ],
                    Err(e) => r matches Err(f) && f == e,
                }
            },
    {
        let control = match &self.control {
            Some(c) => c,
            None => {
                return Err(ServiceError::NotInitialized);
            },
        };
        let route = match route {
            Some(r) => r,
            None => {
                return Err(ServiceError::Missing(Field::Route));
            },
        };
        let prefix = match &route.prefix {
            Some(p) => p,
            None => {
                return Err(ServiceError::Missing(Field::RoutePrefix));
            },
        };
        let ipv4 = match require_ipv4(Field::RoutePrefixIp, &prefix.ip) {
            Ok(ip) => ip,
            Err(e) => {
                return Err(e);
            },
        };
        let nexthop = match &route.nexthop_address {
            Some(n) => match decode_ipv6(n.as_slice()) {
                Ok(ip) => ip,
                Err(e) => {
                    return Err(e);
                },
            },
            None => {
                return Err(ServiceError::Missing(Field::RouteNexthop));
            },
        };
        Ok(control.create_route(vni, ipv4, prefix.length, nexthop, false))
    }

    /// Give an interface a VIP.
    pub fn create_vip(&self, interface_id: &[u8], vip_ip: &Option<Vec<u8>>) -> (r: Result<
        Vec<MapWrite>,
        ServiceError,
    >)
        ensures
            match state(*self) {
                None => r matches Err(e) && e == ServiceError::NotInitialized,
                Some(c) => match required4(Field::VipIp, field_bytes(*vip_ip)) {
                    Err(e) => r matches Err(f) && f == e,
                    Ok(vip) => match c.ifaces.get(interface_id@) {
                        Some(i) => r matches Ok(w) && w@ == control::vip_writes(
                            i.vni,
                            i.ipv4,
                            vip,
                        ),
                        None => r matches Err(e) && e == ServiceError::Refused(
                            ControlError::UnknownInterface,
                        ),
                    },
                },
            },
    {
        let control = match &self.control {
            Some(c) => c,
            None => {
                return Err(ServiceError::NotInitialized);
            },
        };
        let vip = match require_ipv4(Field::VipIp, vip_ip) {
            Ok(ip) => ip,
            Err(e) => {
                return Err(e);
            },
        };
        match control.create_vip(interface_id, vip) {
            Ok(w) => Ok(w),
            Err(e) => Err(ServiceError::Refused(e)),
        }
    }

    /// The VIP of an interface.
    pub fn get_vip(&self, tables: &Tables, interface_id: &[u8]) -> (r: Result<
        Option<[u8; 4]>,
        ServiceError,
    >)
        ensures
            r == (match state(*self) {
                None => Err(ServiceError::NotInitialized),
                Some(c) => Ok(
                    match c.ifaces.get(interface_id@) {
                        Some(i) => tables@.vips.get(VipKey { vni: i.vni, ipv4: i.ipv4 }),
                        None => None,
                    },
                ),
            }),
    {
        match &self.control {
            Some(c) => Ok(c.get_vip(tables, interface_id)),
            None => Err(ServiceError::NotInitialized),
        }
    }

    /// Remove an interface's VIP.
    pub fn delete_vip(&self, tables: &Tables, interface_id: &[u8]) -> (r: Result<
        Vec<MapWrite>,
        ServiceError,
    >)
        ensures
            match state(*self) {
                None => r matches Err(e) && e == ServiceError::NotInitialized,
                Some(c) => match c.ifaces.get(interface_id@) {
                    Some(i) => r matches Ok(w) && w@ == control::vip_removals(
                        tables@,
                        i.vni,
                        i.ipv4,
                    ),
                    None => r matches Err(e) && e == ServiceError::Refused(
                        ControlError::UnknownInterface,
                    ),
                },
            },
    {
        match &self.control {
            Some(c) => match c.delete_vip(tables, interface_id) {
                Ok(w) => Ok(w),
                Err(e) => Err(ServiceError::Refused(e)),
            },
            None => Err(ServiceError::NotInitialized),
        }
    }

    /// Prepare a load balancer at this server's underlay address. It is registered once the changes
    /// are made and `confirm_load_balancer` is called.
    pub fn create_load_balancer(
        &mut self,
        id: &[u8],
        vni: u32,
        loadbalanced_ip: &Option<Vec<u8>>,
        ports: &Vec<(u32, u32)>,
    ) -> (r: Result<Vec<MapWrite>, ServiceError>)
        requires
            old(self).wf(),
            state(*old(self)) matches Some(c) ==> c.next_table_id < u32::MAX,
        ensures
            final(self).wf(),
            final(self).underlay == old(self).underlay,
            match state(*old(self)) {
                None => r matches Err(e) && e == ServiceError::NotInitialized && state(
                    *final(self),
                ) is None,
                Some(c) => match required4(Field::LoadbalancedIp, field_bytes(*loadbalanced_ip)) {
                    Err(e) => r matches Err(f) && f == e && state(*final(self)) == Some(c),
                    Ok(ip) => {
                        let lb = LbView {
                            vni,
                            ip,
                            lb_underlay: old(self).underlay,
                            ports: services_of(ports@),
                            table_id: c.next_table_id,
                            backends: Seq::empty(),
                            overlay_backends: Seq::empty(),
                        };
                        &&& r matches Ok(w)
                        &&& w@ == control::lb_writes(lb)
                        &&& state(*final(self)) == Some(
                            ControlView {
                                pending: Some((id@, lb)),
                                next_table_id: (c.next_table_id + 1) as u32,
                                ..c
                            },
                        )
                    },
                },
            },
    {
        if self.control.is_none() {
            return Err(ServiceError::NotInitialized);
        }
        let ip = match require_ipv4(Field::LoadbalancedIp, loadbalanced_ip) {
            Ok(ip) => ip,
            Err(e) => {
                return Err(e);
            },
        };
        let mut services: Vec<(u16, u8)> = Vec::new();
        let mut i: usize = 0;
        while i < ports.len()
            invariant
                i <= ports.len(),
                services@ == services_of(ports@).take(i as int),
            decreases ports.len() - i,
        {
            let (port, proto) = ports[i];
            services.push(((port % 65536) as u16, (proto % 256) as u8));
            i = i + 1;
            assert(services@ =~= services_of(ports@).take(i as int));
        }
        assert(services_of(ports@).take(i as int) =~= services_of(ports@));
        let underlay = self.underlay;
        match self.control.take() {
            Some(mut control) => {
                let w = control.create_lb(id, vni, ip, underlay, services);
                self.control = Some(control);
                Ok(w)
            },
            None => Err(ServiceError::NotInitialized),
        }
    }

    /// Register the load balancer that was prepared last.
    pub fn confirm_load_balancer(&mut self)
        requires
            old(self).wf(),
        ensures
            final(self).wf(),
            final(self).underlay == old(self).underlay,
            state(*final(self)) == (match state(*old(self)) {
                Some(c) => Some(
                    match c.pending {
                        Some((id, lb)) => ControlView {
                            lbs: c.lbs.insert(id, lb),
                            pending: None,
                            ..c
                        },
                        None => c,
                    },
                ),
                None => None,
            }),
    {
        if let Some(mut control) = self.control.take() {
            control.confirm_lb();
            self.control = Some(control);
        }
    }

    /// Delete a load balancer.
    pub fn delete_load_balancer(&mut self, id: &[u8]) -> (r: Result<Vec<MapWrite>, ServiceError>)
        requires
            old(self).wf(),
        ensures
            final(self).wf(),
            final(self).underlay == old(self).underlay,
            match state(*old(self)) {
                None => r matches Err(e) && e == ServiceError::NotInitialized && state(
                    *final(self),
                ) is None,
                Some(c) => {
                    &&& r matches Ok(w)
                    &&& w@ == (match c.lbs.get(id@) {
                        Some(lb) => control::lb_removals(lb),
                        None => Seq::empty(),
                    })
                    &&& state(*final(self)) == Some(ControlView { lbs: c.lbs.remove(id@), ..c })
                },
            },
    {
        match self.control.take() {
            Some(mut control) => {
                let w = control.delete_lb(id);
                self.control = Some(control);
                Ok(w)
            },
            None => Err(ServiceError::NotInitialized),
        }
    }

    /// Add a backend, an overlay address, to a load balancer.
    pub fn create_load_balancer_target(&mut self, id: &[u8], target_ip: &Option<Vec<u8>>) -> (r:
        Result<Vec<MapWrite>, ServiceError>)
        requires
            old(self).wf(),
        ensures
            final(self).wf(),
            final(self).underlay == old(self).underlay,
            match state(*old(self)) {
                None => r matches Err(e) && e == ServiceError::NotInitialized && state(
                    *final(self),
                ) is None,
                Some(c) => match required4(Field::TargetIp, field_bytes(*target_ip)) {
                    Err(e) => r matches Err(f) && f == e && state(*final(self)) == Some(c),
                    Ok(backend) => match c.lbs.get(id@) {
                        None => r matches Err(e) && e == ServiceError::Refused(
                            ControlError::UnknownLoadBalancer,
                        ) && state(*final(self)) == Some(c),
                        Some(lb) => {
                            let more = LbView {
                                overlay_backends: lb.overlay_backends.push(backend),
                                ..lb
                            };
                            &&& r matches Ok(w)
                            &&& w@ == control::overlay_slot_writes(
                                lb.table_id,
                                more.overlay_backends,
                                TABLE_SIZE as nat,
                            )
                            &&& state(*final(self)) == Some(
                                ControlView { lbs: c.lbs.insert(id@, more), ..c },
                            )
                        },
                    },
                },
            },
    {
        if self.control.is_none() {
            return Err(ServiceError::NotInitialized);
        }
        let backend = match require_ipv4(Field::TargetIp, target_ip) {
            Ok(ip) => ip,
            Err(e) => {
                return Err(e);
            },
        };
        match self.control.take() {
            Some(mut control) => {
                let r = control.add_lb_overlay_target(id, backend);
                self.control = Some(control);
                match r {
                    Ok(w) => Ok(w),
                    Err(e) => Err(ServiceError::Refused(e)),
                }
            },
            None => Err(ServiceError::NotInitialized),
        }
    }

    /// A registered load balancer.
    pub fn get_load_balancer(&self, id: &[u8]) -> (r: Result<LbEntry, ServiceError>)
        ensures
            match state(*self) {
                None => r matches Err(e) && e == ServiceError::NotInitialized,
                Some(c) => match c.lbs.get(id@) {
                    Some(lb) => r matches Ok(e) && e@ == lb,
                    None => r matches Err(e) && e == ServiceError::NotFound,
                },
            },
    {
        match self.control() {
            Ok(c) => match c.get_lb(id) {
                Some(e) => Ok(e),
                None => Err(ServiceError::NotFound),
            },
            Err(e) => Err(e),
        }
    }

    /// The identifiers of all load balancers, each once, in no particular order.
    pub fn list_load_balancers(&self) -> (r: Result<Vec<Id>, ServiceError>)
        ensures
            match state(*self) {
                None => r matches Err(e) && e == ServiceError::NotInitialized,
                Some(c) => r matches Ok(l) && table::lists_keys(l@, c.lbs),
            },
    {
        match self.control() {
            Ok(c) => Ok(c.list_lbs()),
            Err(e) => Err(e),
        }
    }

    /// The overlay backends of a load balancer, in the order in which they were added.
    pub fn list_load_balancer_targets(&self, id: &[u8]) -> (r: Result<Vec<[u8; 4]>, ServiceError>)
        ensures
            match state(*self) {
                None => r matches Err(e) && e == ServiceError::NotInitialized,
                Some(c) => match c.lbs.get(id@) {
                    Some(lb) => r matches Ok(l) && l@ == lb.overlay_backends,
                    None => r matches Err(e) && e == ServiceError::NotFound,
                },
            },
    {
        match self.get_load_balancer(id) {
            Ok(e) => Ok(e.overlay_backends),
            Err(e) => Err(e),
        }
    }

    /// Take a backend away from a load balancer.
    pub fn delete_load_balancer_target(&mut self, id: &[u8], target_ip: &Option<Vec<u8>>) -> (r:
        Result<Vec<MapWrite>, ServiceError>)
        requires
            old(self).wf(),
        ensures
            final(self).wf(),
            final(self).underlay == old(self).underlay,
            match state(*old(self)) {
                None => r matches Err(e) && e == ServiceError::NotInitialized && state(
                    *final(self),
                ) is None,
                Some(c) => match required4(Field::TargetIp, field_bytes(*target_ip)) {
                    Err(e) => r matches Err(f) && f == e && state(*final(self)) == Some(c),
                    Ok(backend) => match c.lbs.get(id@) {
                        None => r matches Err(e) && e == ServiceError::Refused(
                            ControlError::UnknownLoadBalancer,
                        ) && state(*final(self)) == Some(c),
                        Some(lb) => {
                            let fewer = LbView {
                                overlay_backends: control::without_backend(
                                    lb.overlay_backends,
                                    backend,
                                ),
                                ..lb
                            };
                            &&& r matches Ok(w)
                            &&& w@ == control::overlay_writes(
                                lb.table_id,
                                fewer.overlay_backends,
                            )
                            &&& state(*final(self)) == Some(
                                ControlView { lbs: c.lbs.insert(id@, fewer), ..c },
                            )
                        },
                    },
                },
            },
    {
        if self.control.is_none() {
            return Err(ServiceError::NotInitialized);
        }
        let backend = match require_ipv4(Field::TargetIp, target_ip) {
            Ok(ip) => ip,
            Err(e) => {
                return Err(e);
            },
        };
        match self.control.take() {
            Some(mut control) => {
                let r = control.del_lb_overlay_target(id, backend);
                self.control = Some(control);
                match r {
                    Ok(w) => Ok(w),
                    Err(e) => Err(ServiceError::Refused(e)),
                }
            },
            None => Err(ServiceError::NotInitialized),
        }
    }

    /// Announce a load balancer's prefix for an interface. Nothing needs programming: the answer is
    /// this server's underlay address, always. A whole IPv4 prefix of an interface that is there is
    /// remembered.
    pub fn create_load_balancer_prefix(
        &mut self,
        interface_id: &[u8],
        prefix: &Option<PrefixField>,
    ) -> (r: [u8; 16])
        requires
            old(self).wf(),
        ensures
            final(self).wf(),
            final(self).underlay == old(self).underlay,
            r == old(self).underlay,
            state(*final(self)) == (match state(*old(self)) {
                Some(c) => Some(
                    match prefix_asked(*prefix, Field::Prefix, Field::PrefixIp) {
                        Ok((ip, len)) => control::with_lb_prefix(c, interface_id@, ip, len),
                        Err(_) => c,
                    },
                ),
                None => None,
            }),
    {
        if let Ok((ip, len)) = require_prefix(prefix, Field::Prefix, Field::PrefixIp) {
            if let Some(mut control) = self.control.take() {
                control.record_lb_prefix(interface_id, ip, len);
                self.control = Some(control);
            }
        }
        self.underlay
    }

    /// Withdraw a load balancer's prefix of an interface.
    pub fn delete_load_balancer_prefix(
        &mut self,
        interface_id: &[u8],
        prefix: &Option<PrefixField>,
    ) -> (r: Result<(), ServiceError>)
        requires
            old(self).wf(),
        ensures
            final(self).wf(),
            final(self).underlay == old(self).underlay,
            match state(*old(self)) {
                None => r matches Err(e) && e == ServiceError::NotInitialized && state(
                    *final(self),
                ) is None,
                Some(c) => match prefix_asked(*prefix, Field::Prefix, Field::PrefixIp) {
                    Err(e) => r matches Err(f) && f == e && state(*final(self)) == Some(c),
                    Ok((ip, len)) => r is Ok && state(*final(self)) == Some(
                        ControlView {
                            lb_prefixes: control::forgetting_prefix(
                                c.lb_prefixes,
                                interface_id@,
                                ip,
                                len,
                            ),
                            ..c
                        },
                    ),
                },
            },
    {
        if self.control.is_none() {
            return Err(ServiceError::NotInitialized);
        }
        let (ip, len) = match require_prefix(prefix, Field::Prefix, Field::PrefixIp) {
            Ok(p) => p,
            Err(e) => {
                return Err(e);
            },
        };
        match self.control.take() {
            Some(mut control) => {
                control.forget_lb_prefix(interface_id, ip, len);
                self.control = Some(control);
                Ok(())
            },
            None => Err(ServiceError::NotInitialized),
        }
    }

    /// The load-balancer prefixes of an interface, in the order in which they were announced.
    pub fn list_load_balancer_prefixes(&self, interface_id: &[u8]) -> (r: Result<
        Vec<([u8; 4], u32)>,
        ServiceError,
    >)
        ensures
            match state(*self) {
                None => r matches Err(e) && e == ServiceError::NotInitialized,
                Some(c) => r matches Ok(l) && l@ == control::prefixes_of(
                    c.lb_prefixes,
                    interface_id@,
                ),
            },
    {
        match self.control() {
            Ok(c) => Ok(c.list_lb_prefixes(interface_id)),
            Err(e) => Err(e),
        }
    }

    /// Announce an alias prefix of an interface. It is recorded once the change is made and
    /// `record_prefix` is called.
    pub fn create_prefix(&self, interface_id: &[u8], prefix: &Option<PrefixField>) -> (r: Result<
        Vec<MapWrite>,
        ServiceError,
    >)
        ensures
            match state(*self) {
                None => r matches Err(e) && e == ServiceError::NotInitialized,
                Some(c) => match prefix_asked(*prefix, Field::Prefix, Field::PrefixIp) {
                    Err(e) => r matches Err(f) && f == e,
                    Ok((ip, len)) => match c.ifaces.get(interface_id@) {
                        Some(i) => r matches Ok(w) && w@ == seq![
                            control::route_write(i.vni, ip, len, i.underlay, false),
                        ],
                        None => r matches Err(e) && e == ServiceError::Refused(
                            ControlError::UnknownInterface,
                        ),
                    },
                },
            },
    {
        let control = match self.control() {
            Ok(c) => c,
            Err(e) => {
                return Err(e);
            },
        };
        let (ip, len) = match require_prefix(prefix, Field::Prefix, Field::PrefixIp) {
            Ok(p) => p,
            Err(e) => {
                return Err(e);
            },
        };
        match control.add_prefix(interface_id, ip, len) {
            Ok(w) => Ok(w),
            Err(e) => Err(ServiceError::Refused(e)),
        }
    }

    /// Record an alias prefix whose route is made.
    pub fn record_prefix(&mut self, interface_id: &[u8], prefix: &Option<PrefixField>) -> (r: Result<
        (),
        ServiceError,
    >)
        requires
            old(self).wf(),
        ensures
            final(self).wf(),
            final(self).underlay == old(self).underlay,
            match state(*old(self)) {
                None => r matches Err(e) && e == ServiceError::NotInitialized && state(
                    *final(self),
                ) is None,
                Some(c) => match prefix_asked(*prefix, Field::Prefix, Field::PrefixIp) {
                    Err(e) => r matches Err(f) && f == e && state(*final(self)) == Some(c),
                    Ok((ip, len)) => if c.ifaces.contains_key(interface_id@) {
                        r is Ok && state(*final(self)) == Some(
                            ControlView {
                                prefixes: c.prefixes.insert(
                                    interface_id@,
                                    control::prefixes_of(c.prefixes, interface_id@).push((ip, len)),
                                ),
                                ..c
                            },
                        )
                    } else {
                        r matches Err(e) && e == ServiceError::Refused(
                            ControlError::UnknownInterface,
                        ) && state(*final(self)) == Some(c)
                    },
                },
            },
    {
        if self.control.is_none() {
            return Err(ServiceError::NotInitialized);
        }
        let (ip, len) = match require_prefix(prefix, Field::Prefix, Field::PrefixIp) {
            Ok(p) => p,
            Err(e) => {
                return Err(e);
            },
        };
        match self.control.take() {
            Some(mut control) => {
                let r = control.record_prefix(interface_id, ip, len);
                self.control = Some(control);
                match r {
                    Ok(_) => Ok(()),
                    Err(e) => Err(ServiceError::Refused(e)),
                }
            },
            None => Err(ServiceError::NotInitialized),
        }
    }

    /// Withdraw an alias prefix of an interface.
    pub fn delete_prefix(&mut self, interface_id: &[u8], prefix: &Option<PrefixField>) -> (r: Result<
        Vec<MapWrite>,
        ServiceError,
    >)
        requires
            old(self).wf(),
        ensures
            final(self).wf(),
            final(self).underlay == old(self).underlay,
            match state(*old(self)) {
                None => r matches Err(e) && e == ServiceError::NotInitialized && state(
                    *final(self),
                ) is None,
                Some(c) => match prefix_asked(*prefix, Field::Prefix, Field::PrefixIp) {
                    Err(e) => r matches Err(f) && f == e && state(*final(self)) == Some(c),
                    Ok((ip, len)) => match c.ifaces.get(interface_id@) {
                        Some(i) => {
                            &&& r matches Ok(w)
                            &&& w@ == seq![
                                MapWrite::RouteRemove(
                                    RouteKey { vni: i.vni, prefix_len: len, ipv4: ip },
                                ),
                            ]
                            &&& state(*final(self)) == Some(
                                ControlView {
                                    prefixes: control::forgetting_prefix(
                                        c.prefixes,
                                        interface_id@,
                                        ip,
                                        len,
                                    ),
                                    ..c
                                },
                            )
                        },
                        None => r matches Err(e) && e == ServiceError::Refused(
                            ControlError::UnknownInterface,
                        ) && state(*final(self)) == Some(c),
                    },
                },
            },
    {
        if self.control.is_none() {
            return Err(ServiceError::NotInitialized);
        }
        let (ip, len) = match require_prefix(prefix, Field::Prefix, Field::PrefixIp) {
            Ok(p) => p,
            Err(e) => {
                return Err(e);
            },
        };
        match self.control.take() {
            Some(mut control) => {
                let r = control.del_prefix(interface_id, ip, len);
                self.control = Some(control);
                match r {
                    Ok(w) => Ok(w),
                    Err(e) => Err(ServiceError::Refused(e)),
                }
            },
            None => Err(ServiceError::NotInitialized),
        }
    }

    /// The alias prefixes of an interface, in the order in which they were announced.
    pub fn list_prefixes(&self, interface_id: &[u8]) -> (r: Result<
        Vec<([u8; 4], u32)>,
        ServiceError,
    >)
        ensures
            match state(*self) {
                None => r matches Err(e) && e == ServiceError::NotInitialized,
                Some(c) => r matches Ok(l) && l@ == control::prefixes_of(
                    c.prefixes,
                    interface_id@,
                ),
            },
    {
        match self.control() {
            Ok(c) => Ok(c.list_prefixes(interface_id)),
            Err(e) => Err(e),
        }
    }

    /// Delete a route; its nexthop does not matter.
    pub fn delete_route(&self, vni: u32, route: &Option<RouteField>) -> (r: Result<
        Vec<MapWrite>,
        ServiceError,
    >)
        ensures
            if self.control is None {
                r matches Err(e) && e == ServiceError::NotInitialized
            } else {
                match *route {
                    None => r matches Err(e) && e == ServiceError::Missing(Field::Route),
                    Some(route) => match prefix_asked(
                        route.prefix,
                        Field::RoutePrefix,
                        Field::RoutePrefixIp,
                    ) {
                        Err(e) => r matches Err(f) && f == e,
                        Ok((ipv4, prefix_len)) => r matches Ok(w) && w@ == seq![
                            MapWrite::RouteRemove(RouteKey { vni, prefix_len, ipv4 }),
                        ],
                    },
                }
            },
    {
        if self.control.is_none() {
            return Err(ServiceError::NotInitialized);
        }
        match route {
            None => Err(ServiceError::Missing(Field::Route)),
            Some(route) => match require_prefix(
                &route.prefix,
                Field::RoutePrefix,
                Field::RoutePrefixIp,
            ) {
                Ok((ipv4, prefix_len)) => {
                    let mut w: Vec<MapWrite> = Vec::new();
                    w.push(MapWrite::RouteRemove(RouteKey { vni, prefix_len, ipv4 }));
                    Ok(w)
                },
                Err(e) => Err(e),
            },
        }
    }

    /// The routes of a VNI, each once, in no particular order.
    pub fn list_routes(&self, tables: &Tables, vni: u32) -> (r: Result<
        Vec<(RouteKey, Route)>,
        ServiceError,
    >)
        ensures
            if self.control is None {
                r matches Err(e) && e == ServiceError::NotInitialized
            } else {
                r matches Ok(l) && table::keys_distinct(l@) && table::entries_map(l@)
                    == tables::routes_of(tables@.routes, vni)
            },
    {
        match self.control() {
            Ok(_) => Ok(tables.list_routes(vni)),
            Err(e) => Err(e),
        }
    }

    /// Set a guest's NAT configuration.
    pub fn create_nat(
        &self,
        interface_id: &[u8],
        nat_ip: &Option<Vec<u8>>,
        min_port: u32,
        max_port: u32,
    ) -> (r: Result<Vec<MapWrite>, ServiceError>)
        ensures
            match state(*self) {
                None => r matches Err(e) && e == ServiceError::NotInitialized,
                Some(c) => match slice_asked(*nat_ip, min_port, max_port) {
                    Err(e) => r matches Err(f) && f == e,
                    Ok((nat_ipv4, port_min, port_max)) => match c.ifaces.get(interface_id@) {
                        Some(i) => r matches Ok(w) && w@ == seq![
                            MapWrite::Nat(
                                NatKey { vni: i.vni, ipv4: i.ipv4 },
                                NatValue { nat_ipv4, port_min, port_max },
                            ),
                        ],
                        None => r matches Err(e) && e == ServiceError::Refused(
                            ControlError::UnknownInterface,
                        ),
                    },
                },
            },
    {
        let control = match self.control() {
            Ok(c) => c,
            Err(e) => {
                return Err(e);
            },
        };
        let (ip, min, max) = match require_slice(nat_ip, min_port, max_port) {
            Ok(s) => s,
            Err(e) => {
                return Err(e);
            },
        };
        match control.create_nat(interface_id, ip, min, max) {
            Ok(w) => Ok(w),
            Err(e) => Err(ServiceError::Refused(e)),
        }
    }

    /// A guest's NAT configuration (address, first port, port after the last), if set.
    pub fn get_nat(&self, tables: &Tables, interface_id: &[u8]) -> (r: Result<
        Option<([u8; 4], u16, u16)>,
        ServiceError,
    >)
        ensures
            r == (match state(*self) {
                None => Err(ServiceError::NotInitialized),
                Some(c) => Ok(
                    match c.ifaces.get(interface_id@) {
                        Some(i) => match tables@.nat.get(NatKey { vni: i.vni, ipv4: i.ipv4 }) {
                            Some(v) => Some((v.nat_ipv4, v.port_min, v.port_max)),
                            None => None,
                        },
                        None => None,
                    },
                ),
            }),
    {
        match &self.control {
            Some(c) => Ok(c.get_nat(tables, interface_id)),
            None => Err(ServiceError::NotInitialized),
        }
    }

    /// Remove a guest's NAT configuration.
    pub fn delete_nat(&self, interface_id: &[u8]) -> (r: Result<Vec<MapWrite>, ServiceError>)
        ensures
            match state(*self) {
                None => r matches Err(e) && e == ServiceError::NotInitialized,
                Some(c) => match c.ifaces.get(interface_id@) {
                    Some(i) => r matches Ok(w) && w@ == seq![
                        MapWrite::NatRemove(NatKey { vni: i.vni, ipv4: i.ipv4 }),
                    ],
                    None => r matches Err(e) && e == ServiceError::Refused(
                        ControlError::UnknownInterface,
                    ),
                },
            },
    {
        match self.control() {
            Ok(c) => match c.delete_nat(interface_id) {
                Ok(w) => Ok(w),
                Err(e) => Err(ServiceError::Refused(e)),
            },
            Err(e) => Err(e),
        }
    }

    /// The NAT configurations of this host's guests, each once, in no particular order.
    pub fn list_local_nats(&self, tables: &Tables) -> (r: Result<
        Vec<(NatKey, NatValue)>,
        ServiceError,
    >)
        ensures
            if self.control is None {
                r matches Err(e) && e == ServiceError::NotInitialized
            } else {
                r matches Ok(l) && table::keys_distinct(l@) && table::entries_map(l@) == tables@.nat
            },
    {
        match self.control() {
            Ok(_) => Ok(tables.list_nats()),
            Err(e) => Err(e),
        }
    }

    /// Give a port slice of a NAT address to another hypervisor.
    pub fn create_neighbor_nat(
        &mut self,
        vni: u32,
        nat_ip: &Option<Vec<u8>>,
        min_port: u32,
        max_port: u32,
        underlay_route: &[u8],
    ) -> (r: Result<Vec<MapWrite>, ServiceError>)
        requires
            old(self).wf(),
        ensures
            final(self).wf(),
            final(self).underlay == old(self).underlay,
            match state(*old(self)) {
                None => r matches Err(e) && e == ServiceError::NotInitialized && state(
                    *final(self),
                ) is None,
                Some(c) => match slice_asked(*nat_ip, min_port, max_port) {
                    Err(e) => r matches Err(f) && f == e && state(*final(self)) == Some(c),
                    Ok((ip, min, max)) => match decoded6(underlay_route@) {
                        Err(e) => r matches Err(f) && f == e && state(*final(self)) == Some(c),
                        Ok(underlay) => if c.neighbors.len() >= NB_MAX_ENTRIES {
                            r matches Err(e) && e == ServiceError::Refused(
                                ControlError::NeighborNatFull,
                            ) && state(*final(self)) == Some(c)
                        } else {
                            let more = control::with_neighbor(
                                c.neighbors,
                                vni,
                                ip,
                                min,
                                max,
                                underlay,
                            );
                            &&& r matches Ok(w)
                            &&& w@ == control::neighbor_writes(more)
                            &&& state(*final(self)) == Some(ControlView { neighbors: more, ..c })
                        },
                    },
                },
            },
    {
        if self.control.is_none() {
            return Err(ServiceError::NotInitialized);
        }
        let (ip, min, max) = match require_slice(nat_ip, min_port, max_port) {
            Ok(s) => s,
            Err(e) => {
                return Err(e);
            },
        };
        let underlay = match decode_ipv6(underlay_route) {
            Ok(u) => u,
            Err(e) => {
                return Err(e);
            },
        };
        match self.control.take() {
            Some(mut control) => {
                let r = control.add_neighbor_nat(vni, ip, min, max, underlay);
                self.control = Some(control);
                match r {
                    Ok(w) => Ok(w),
                    Err(e) => Err(ServiceError::Refused(e)),
                }
            },
            None => Err(ServiceError::NotInitialized),
        }
    }

    /// Take a port slice away from the hypervisor it was given to.
    pub fn delete_neighbor_nat(
        &mut self,
        vni: u32,
        nat_ip: &Option<Vec<u8>>,
        min_port: u32,
        max_port: u32,
    ) -> (r: Result<Vec<MapWrite>, ServiceError>)
        requires
            old(self).wf(),
        ensures
            final(self).wf(),
            final(self).underlay == old(self).underlay,
            match state(*old(self)) {
                None => r matches Err(e) && e == ServiceError::NotInitialized && state(
                    *final(self),
                ) is None,
                Some(c) => match slice_asked(*nat_ip, min_port, max_port) {
                    Err(e) => r matches Err(f) && f == e && state(*final(self)) == Some(c),
                    Ok((ip, min, max)) => {
                        let fewer = control::without_neighbor(c.neighbors, vni, ip, min, max);
                        &&& r matches Ok(w)
                        &&& w@ == control::neighbor_writes(fewer)
                        &&& state(*final(self)) == Some(ControlView { neighbors: fewer, ..c })
                    },
                },
            },
    {
        if self.control.is_none() {
            return Err(ServiceError::NotInitialized);
        }
        let (ip, min, max) = match require_slice(nat_ip, min_port, max_port) {
            Ok(s) => s,
            Err(e) => {
                return Err(e);
            },
        };
        match self.control.take() {
            Some(mut control) => {
                let w = control.del_neighbor_nat(vni, ip, min, max);
                self.control = Some(control);
                Ok(w)
            },
            None => Err(ServiceError::NotInitialized),
        }
    }

    /// All port slices of other hypervisors, in the order in which they were given away.
    pub fn list_neighbor_nats(&self) -> (r: Result<Vec<NeighborNatEntry>, ServiceError>)
        ensures
            match state(*self) {
                None => r matches Err(e) && e == ServiceError::NotInitialized,
                Some(c) => r matches Ok(l) && l@ == c.neighbors,
            },
    {
        match self.control() {
            Ok(c) => Ok(c.list_neighbor_nats()),
            Err(e) => Err(e),
        }
    }

    /// Add or replace a firewall rule of an interface.
    pub fn create_firewall_rule(&mut self, interface_id: &[u8], rule_id: Vec<u8>, rule: FwRule) -> (r:
        Result<Vec<MapWrite>, ServiceError>)
        requires
            old(self).wf(),
        ensures
            final(self).wf(),
            final(self).underlay == old(self).underlay,
            match state(*old(self)) {
                None => r matches Err(e) && e == ServiceError::NotInitialized && state(
                    *final(self),
                ) is None,
                Some(c) => match c.ifaces.get(interface_id@) {
                    None => r matches Err(e) && e == ServiceError::Refused(
                        ControlError::UnknownInterface,
                    ) && state(*final(self)) == Some(c),
                    Some(i) => {
                        let list = control::rules_of(c, i.ifindex);
                        if list.len() >= FW_MAX_RULES && control::rule_at(
                            list,
                            rule_id@,
                            0,
                        ) is None {
                            r matches Err(e) && e == ServiceError::Refused(
                                ControlError::TooManyRules,
                            ) && state(*final(self)) == Some(c)
                        } else {
                            let more = control::with_rule(list, rule_id@, rule);
                            &&& r matches Ok(w)
                            &&& w@ == control::firewall_writes(i.ifindex, more)
                            &&& state(*final(self)) == Some(
                                ControlView { rules: c.rules.insert(i.ifindex, more), ..c },
                            )
                        }
                    },
                },
            },
    {
        match self.control.take() {
            Some(mut control) => {
                let r = control.add_fw_rule(interface_id, rule_id, rule);
                self.control = Some(control);
                match r {
                    Ok(w) => Ok(w),
                    Err(e) => Err(ServiceError::Refused(e)),
                }
            },
            None => Err(ServiceError::NotInitialized),
        }
    }

    /// Remove a firewall rule of an interface.
    pub fn delete_firewall_rule(&mut self, interface_id: &[u8], rule_id: &[u8]) -> (r: Result<
        Vec<MapWrite>,
        ServiceError,
    >)
        requires
            old(self).wf(),
        ensures
            final(self).wf(),
            final(self).underlay == old(self).underlay,
            match state(*old(self)) {
                None => r matches Err(e) && e == ServiceError::NotInitialized && state(
                    *final(self),
                ) is None,
                Some(c) => match c.ifaces.get(interface_id@) {
                    None => r matches Err(e) && e == ServiceError::Refused(
                        ControlError::UnknownInterface,
                    ) && state(*final(self)) == Some(c),
                    Some(i) => {
                        let fewer = control::without_rule(
                            control::rules_of(c, i.ifindex),
                            rule_id@,
                        );
                        &&& r matches Ok(w)
                        &&& w@ == control::firewall_writes(i.ifindex, fewer)
                        &&& state(*final(self)) == Some(
                            ControlView {
                                rules: if c.rules.contains_key(i.ifindex) {
                                    c.rules.insert(i.ifindex, fewer)
                                } else {
                                    c.rules
                                },
                                ..c
                            },
                        )
                    },
                },
            },
    {
        match self.control.take() {
            Some(mut control) => {
                let r = control.del_fw_rule(interface_id, rule_id);
                self.control = Some(control);
                match r {
                    Ok(w) => Ok(w),
                    Err(e) => Err(ServiceError::Refused(e)),
                }
            },
            None => Err(ServiceError::NotInitialized),
        }
    }

    /// A firewall rule of an interface by its identifier.
    pub fn get_firewall_rule(&self, interface_id: &[u8], rule_id: &[u8]) -> (r: Result<
        FwRule,
        ServiceError,
    >)
        ensures
            r == (match state(*self) {
                None => Err(ServiceError::NotInitialized),
                Some(c) => match c.ifaces.get(interface_id@) {
                    None => Err(ServiceError::NotFound),
                    Some(i) => {
                        let list = control::rules_of(c, i.ifindex);
                        match control::rule_at(list, rule_id@, 0) {
                            Some(at) => Ok(list[at].1),
                            None => Err(ServiceError::NotFound),
                        }
                    },
                },
            }),
    {
        match &self.control {
            Some(c) => match c.get_fw_rule(interface_id, rule_id) {
                Some(rule) => Ok(rule),
                None => Err(ServiceError::NotFound),
            },
            None => Err(ServiceError::NotInitialized),
        }
    }

    /// All firewall rules of an interface, in order.
    pub fn list_firewall_rules(&self, interface_id: &[u8]) -> (r: Result<
        Vec<RuleEntry>,
        ServiceError,
    >)
        ensures
            match state(*self) {
                None => r matches Err(e) && e == ServiceError::NotInitialized,
                Some(c) => r matches Ok(l) && control::rule_list(l@) == (match c.ifaces.get(
                    interface_id@,
                ) {
                    Some(i) => control::rules_of(c, i.ifindex),
                    None => Seq::empty(),
                }),
            },
    {
        match self.control() {
            Ok(c) => Ok(c.list_fw_rules(interface_id)),
            Err(e) => Err(e),
        }
    }

    /// Whether an interface or a load balancer is in a VNI.
    pub fn check_vni_in_use(&self, vni: u32) -> (r: Result<bool, ServiceError>)
        ensures
            r == (match state(*self) {
                None => Err(ServiceError::NotInitialized),
                Some(c) => Ok(control::is_vni_in_use(c, vni)),
            }),
    {
        match &self.control {
            Some(c) => Ok(c.vni_in_use(vni)),
            None => Err(ServiceError::NotInitialized),
        }
    }

    /// Drop all routes of a VNI.
    pub fn reset_vni(&self, tables: &Tables, vni: u32) -> (r: Result<Vec<MapWrite>, ServiceError>)
        ensures
            if self.control is None {
                r matches Err(e) && e == ServiceError::NotInitialized
            } else {
                r matches Ok(w) && tables::drops_routes(w@, tables@.routes, vni)
            },
    {
        match self.control() {
            Ok(_) => Ok(tables.reset_vni(vni)),
            Err(e) => Err(e),
        }
    }

    /// The packet capture operations: the service knows of them but does not have them.
    pub fn not_implemented(&self) -> (r: ServiceError)
        ensures
            r == ServiceError::NotImplemented,
            r.kind() == Code::Unimplemented,
    {
        ServiceError::NotImplemented
    }
}

/// An address is its bytes, and exactly as many as it has: four for IPv4 and sixteen for IPv6, in order;
/// any other number is refused as an invalid argument that says how many there were.
pub proof fn law_addresses_are_their_bytes(b: Seq<u8>)
    requires
        b.len() <= usize::MAX,
    ensures
        b.len() == 4 ==> decoded4(b) is Ok && decoded4(b)->Ok_0@ == b,
        b.len() == 16 ==> decoded6(b) is Ok && decoded6(b)->Ok_0@ == b,
        b.len() != 4 ==> decoded4(b) is Err && decoded4(b)->Err_0 == (ServiceError::BadLength {
            expected: 4,
            got: b.len() as usize,
        }) && decoded4(b)->Err_0.kind() == Code::InvalidArgument,
        b.len() != 16 ==> decoded6(b) is Err && decoded6(b)->Err_0 == (ServiceError::BadLength {
            expected: 16,
            got: b.len() as usize,
        }) && decoded6(b)->Err_0.kind() == Code::InvalidArgument,
{
    if b.len() == 4 {
        assert(decoded4(b)->Ok_0@ =~= b);
    }
    if b.len() == 16 {
        assert(decoded6(b)->Ok_0@ =~= b);
    }
}

/// The gateway is the first address of the guest's /24: it has the guest's first 24 bits, and 1 for its
/// last octet; guests of one /24 have one gateway.
pub proof fn law_gateway_is_the_first_of_the_subnet(a: [u8; 4], b: [u8; 4])
    ensures
        parse::prefix4(gateway_of(a), 24) == parse::prefix4(a, 24),
        gateway_of(a)[3] == 1,
        parse::prefix4(a, 24) == parse::prefix4(b, 24) <==> gateway_of(a) == gateway_of(b),
{
    assert(parse::prefix4(gateway_of(a), 24) =~= parse::prefix4(a, 24));
    let p = parse::prefix4(a, 24);
    let q = parse::prefix4(b, 24);
    assert(p@[0] == a[0] && p@[1] == a[1] && p@[2] == a[2] && p@[3] == 0);
    assert(q@[0] == b[0] && q@[1] == b[1] && q@[2] == b[2] && q@[3] == 0);
    let g = gateway_of(a);
    let h = gateway_of(b);
    assert(g@[0] == a[0] && g@[1] == a[1] && g@[2] == a[2] && g@[3] == 1);
    assert(h@[0] == b[0] && h@[1] == b[1] && h@[2] == b[2] && h@[3] == 1);
    if p == q {
        assert(g =~= h);
    }
    if g == h {
        assert(p =~= q);
    }
}

/// A load balancer's services are those that are asked for, in order: port first, then protocol.
pub proof fn law_services_are_as_asked(ports: Seq<(u32, u32)>, i: int)
    requires
        0 <= i < ports.len(),
        ports[i].0 <= 65535,
        ports[i].1 <= 255,
    ensures
        services_of(ports).len() == ports.len(),
        services_of(ports)[i].0 == ports[i].0,
        services_of(ports)[i].1 == ports[i].1,
{
}

/// A whole route request is taken as it is: its prefix and length, and its nexthop. Where something is
/// missing, the request is refused for the first thing that is, and a request that lacks its nexthop is
/// looked at no further.
pub proof fn law_route_requests_are_taken_as_asked(r: RouteField, p: PrefixField)
    requires
        r.prefix == Some(p),
    ensures
        ({
            let none = route_asked(None);
            let got = route_asked(Some(r));
            &&& none == Err::<([u8; 4], u32, [u8; 16]), ServiceError>(
                ServiceError::Missing(Field::Route),
            )
            &&& p.ip is Some && p.ip->Some_0@.len() == 4 && r.nexthop_address is Some
                && r.nexthop_address->Some_0@.len() == 16 ==> got is Ok && got->Ok_0.0@
                == p.ip->Some_0@ && got->Ok_0.1 == p.length && got->Ok_0.2@
                == r.nexthop_address->Some_0@
            &&& p.ip is None ==> got == Err::<([u8; 4], u32, [u8; 16]), ServiceError>(
                ServiceError::Missing(Field::RoutePrefixIp),
            )
            &&& p.ip is Some && p.ip->Some_0@.len() == 4 && r.nexthop_address is None ==> got
                == Err::<([u8; 4], u32, [u8; 16]), ServiceError>(
                ServiceError::Missing(Field::RouteNexthop),
            )
            &&& got is Ok ==> p.ip is Some && p.ip->Some_0@.len() == 4 && r.nexthop_address is Some
                && r.nexthop_address->Some_0@.len() == 16
        }),
{
    if let Some(ip) = p.ip {
        if ip@.len() == 4 {
            law_addresses_are_their_bytes(ip@);
        }
    }
    if let Some(n) = r.nexthop_address {
        if n@.len() == 16 {
            law_addresses_are_their_bytes(n@);
        }
    }
}

/// A whole prefix request is taken as it is, and so is a whole port slice, its first port before the port
/// after its last; ports beyond 16 bits are refused.
pub proof fn law_prefixes_and_slices_are_taken_as_asked(
    p: PrefixField,
    missing: Field,
    missing_ip: Field,
    nat_ip: Vec<u8>,
    min: u32,
    max: u32,
)
    ensures
        ({
            let got = prefix_asked(Some(p), missing, missing_ip);
            &&& p.ip is Some && p.ip->Some_0@.len() == 4 ==> got is Ok && got->Ok_0.0@
                == p.ip->Some_0@ && got->Ok_0.1 == p.length
            &&& p.ip is None ==> got == Err::<([u8; 4], u32), ServiceError>(
                ServiceError::Missing(missing_ip),
            )
            &&& prefix_asked(None, missing, missing_ip) == Err::<([u8; 4], u32), ServiceError>(
                ServiceError::Missing(missing),
            )
        }),
        ({
            let got = slice_asked(Some(nat_ip), min, max);
            &&& nat_ip@.len() == 4 && min <= 65535 && max <= 65535 ==> got is Ok && got->Ok_0.0@
                == nat_ip@ && got->Ok_0.1 == min && got->Ok_0.2 == max
            &&& nat_ip@.len() == 4 && (min > 65535 || max > 65535) ==> got == Err::<
                ([u8; 4], u16, u16),
                ServiceError,
            >(ServiceError::BadPort)
            &&& slice_asked(None, min, max) == Err::<([u8; 4], u16, u16), ServiceError>(
                ServiceError::Missing(Field::NatIp),
            )
        }),
{
    if let Some(ip) = p.ip {
        if ip@.len() == 4 {
            law_addresses_are_their_bytes(ip@);
        }
    }
    if nat_ip@.len() == 4 {
        law_addresses_are_their_bytes(nat_ip@);
    }
}

/// An interface is created under the address, on the tap and with the MAC that were asked for, where
/// neither its identifier nor its tap is another interface's; an unknown device and a taken name or tap
/// are refused, the first as an invalid argument and the second as already there.
pub proof fn law_interface_requests_are_taken_as_asked(
    c: ControlView,
    id: Seq<u8>,
    address: Vec<u8>,
    tap: u32,
    mac: [u8; 6],
)
    requires
        address@.len() == 4,
    ensures
        ({
            let got = interface_asked(c, id, Some(address), Some((tap, mac)));
            let taken = c.ifaces.contains_key(id) || exists|k: Seq<u8>|
                c.ifaces.contains_key(k) && (#[trigger] c.ifaces[k]).ifindex == tap;
            &&& !taken ==> got is Ok && got->Ok_0.0@ == address@ && got->Ok_0.1 == tap && got->Ok_0.2
                == mac
            &&& taken ==> got is Err && got->Err_0.kind() == Code::AlreadyExists
            &&& interface_asked(c, id, Some(address), None) == Err::<
                ([u8; 4], u32, [u8; 6]),
                ServiceError,
            >(ServiceError::UnknownDevice)
            &&& interface_asked(c, id, None, Some((tap, mac))) == Err::<
                ([u8; 4], u32, [u8; 6]),
                ServiceError,
            >(ServiceError::Missing(Field::Ipv4Config))
        }),
{
    law_addresses_are_their_bytes(address@);
}

} // verus!
