//! Network addresses as plain numbers, and the address classes that decide
//! whom the daemon listens to and whom it redials.
use vstd::prelude::*;

verus! {

/// An IP address by its bits, most significant first.
#[derive(Debug, Clone, Copy, PartialEq, Eq, Structural)]
pub enum IpAddr {
    V4(u32),
    V6(u128),
}

/// An IP address and a port. With an IPv6 address go its flow information and its
/// scope, without which a link-local address cannot be answered.
#[derive(Debug, Clone, Copy, PartialEq, Eq, Structural)]
pub enum SocketAddr {
    V4 { bits: u32, port: u16 },
    V6 { bits: u128, port: u16, flowinfo: u32, scope_id: u32 },
}

impl View for SocketAddr {
    type V = SocketAddr;

    open spec fn view(&self) -> SocketAddr {
        *self
    }
}

/// An address and a port, without flow information or scope.
pub open spec fn socket(ip: IpAddr, port: u16) -> SocketAddr {
    match ip {
        IpAddr::V4(bits) => SocketAddr::V4 { bits, port },
        IpAddr::V6(bits) => SocketAddr::V6 { bits, port, flowinfo: 0, scope_id: 0 },
    }
}

/// The IP address of `addr`.
pub open spec fn ip_of(addr: SocketAddr) -> IpAddr {
    match addr {
        SocketAddr::V4 { bits, .. } => IpAddr::V4(bits),
        SocketAddr::V6 { bits, .. } => IpAddr::V6(bits),
    }
}

impl SocketAddr {
    /// An address and a port, without flow information or scope.
    pub fn new(ip: IpAddr, port: u16) -> (r: Self)
        ensures
            r == socket(ip, port),
    {
        match ip {
            IpAddr::V4(bits) => SocketAddr::V4 { bits, port },
            IpAddr::V6(bits) => SocketAddr::V6 { bits, port, flowinfo: 0, scope_id: 0 },
        }
    }

    /// The IP address.
    pub fn ip(&self) -> (r: IpAddr)
        ensures
            r == ip_of(*self),
    {
        match *self {
            SocketAddr::V4 { bits, .. } => IpAddr::V4(bits),
            SocketAddr::V6 { bits, .. } => IpAddr::V6(bits),
        }
    }
}

/// 127.0.0.0/8.
pub open spec fn v4_loopback(bits: u32) -> bool {
    0x7F00_0000 <= bits <= 0x7FFF_FFFF
}

/// 10.0.0.0/8, 172.16.0.0/12 or 192.168.0.0/16.
pub open spec fn v4_private(bits: u32) -> bool {
    ||| 0x0A00_0000 <= bits <= 0x0AFF_FFFF
    ||| 0xAC10_0000 <= bits <= 0xAC1F_FFFF
    ||| 0xC0A8_0000 <= bits <= 0xC0A8_FFFF
}

/// 169.254.0.0/16.
pub open spec fn v4_link_local(bits: u32) -> bool {
    0xA9FE_0000 <= bits <= 0xA9FE_FFFF
}

/// 224.0.0.0/4.
pub open spec fn v4_multicast(bits: u32) -> bool {
    0xE000_0000 <= bits <= 0xEFFF_FFFF
}

/// ::ffff:0:0/96, an IPv4 address in IPv6 form.
pub open spec fn v6_mapped(bits: u128) -> bool {
    0xFFFF_0000_0000 <= bits <= 0xFFFF_FFFF_FFFF
}

/// fc00::/7.
pub open spec fn v6_unique_local(bits: u128) -> bool {
    0xFC00_0000_0000_0000_0000_0000_0000_0000 <= bits
        <= 0xFDFF_FFFF_FFFF_FFFF_FFFF_FFFF_FFFF_FFFF
}

/// fe80::/10.
pub open spec fn v6_link_local(bits: u128) -> bool {
    0xFE80_0000_0000_0000_0000_0000_0000_0000 <= bits
        <= 0xFEBF_FFFF_FFFF_FFFF_FFFF_FFFF_FFFF_FFFF
}

/// ff00::/8.
pub open spec fn v6_multicast(bits: u128) -> bool {
    0xFF00_0000_0000_0000_0000_0000_0000_0000 <= bits
}

/// An IPv4 address of the local network.
pub open spec fn v4_local(bits: u32) -> bool {
    v4_loopback(bits) || v4_private(bits) || v4_link_local(bits)
}

/// An address of the local network: loopback, private, link-local or unique
/// local. An IPv4 address in IPv6 form counts as the IPv4 address.
pub open spec fn local_ip(ip: IpAddr) -> bool {
    match ip {
        IpAddr::V4(bits) => v4_local(bits),
        IpAddr::V6(bits) => if v6_mapped(bits) {
            v4_local((bits - 0xFFFF_0000_0000) as u32)
        } else {
            bits == 1 || v6_unique_local(bits) || v6_link_local(bits)
        },
    }
}

/// No address at all: 0.0.0.0 or ::.
pub open spec fn unspecified(ip: IpAddr) -> bool {
    match ip {
        IpAddr::V4(bits) => bits == 0,
        IpAddr::V6(bits) => bits == 0,
    }
}

/// The host itself: 127.0.0.0/8 or ::1.
pub open spec fn loopback(ip: IpAddr) -> bool {
    match ip {
        IpAddr::V4(bits) => v4_loopback(bits),
        IpAddr::V6(bits) => bits == 1,
    }
}

/// An address that may be remembered and redialed: not unspecified, not
/// multicast, not link-local. Loopback is fine: nobody off the host can forge it.
pub open spec fn redialable(ip: IpAddr) -> bool {
    match ip {
        IpAddr::V4(bits) => bits != 0 && !v4_multicast(bits) && !v4_link_local(bits),
        IpAddr::V6(bits) => bits != 0 && !v6_multicast(bits) && !v6_link_local(bits),
    }
}

/// 100.64.0.0/10, the range from which tailnet addresses come.
pub open spec fn cgnat(ip: IpAddr) -> bool {
    match ip {
        IpAddr::V4(bits) => 0x6440_0000 <= bits <= 0x647F_FFFF,
        IpAddr::V6(_) => false,
    }
}

fn is_local_v4(bits: u32) -> (r: bool)
    ensures
        r == v4_local(bits),
{
    (0x7F00_0000 <= bits && bits <= 0x7FFF_FFFF) || (0x0A00_0000 <= bits && bits <= 0x0AFF_FFFF) || (
    0xAC10_0000 <= bits && bits <= 0xAC1F_FFFF) || (0xC0A8_0000 <= bits && bits <= 0xC0A8_FFFF) || (
    0xA9FE_0000 <= bits && bits <= 0xA9FE_FFFF)
}

/// Decides [`local_ip`].
pub fn is_local_ip(ip: IpAddr) -> (r: bool)
    ensures
        r == local_ip(ip),
{
    match ip {
        IpAddr::V4(bits) => is_local_v4(bits),
        IpAddr::V6(bits) => {
            if 0xFFFF_0000_0000 <= bits && bits <= 0xFFFF_FFFF_FFFF {
                return is_local_v4((bits - 0xFFFF_0000_0000) as u32);
            }
            bits == 1 || (0xFC00_0000_0000_0000_0000_0000_0000_0000 <= bits && bits
                <= 0xFDFF_FFFF_FFFF_FFFF_FFFF_FFFF_FFFF_FFFF) || (
            0xFE80_0000_0000_0000_0000_0000_0000_0000 <= bits && bits
                <= 0xFEBF_FFFF_FFFF_FFFF_FFFF_FFFF_FFFF_FFFF)
        },
    }
}

/// Decides [`unspecified`].
pub fn is_unspecified(ip: IpAddr) -> (r: bool)
    ensures
        r == unspecified(ip),
{
    match ip {
        IpAddr::V4(bits) => bits == 0,
        IpAddr::V6(bits) => bits == 0,
    }
}

/// Decides [`redialable`].
pub fn is_redialable_addr(ip: IpAddr) -> (r: bool)
    ensures
        r == redialable(ip),
{
    match ip {
        IpAddr::V4(bits) => bits != 0 && !(0xE000_0000 <= bits && bits <= 0xEFFF_FFFF) && !(0xA9FE_0000
            <= bits && bits <= 0xA9FE_FFFF),
        IpAddr::V6(bits) => bits != 0 && bits < 0xFF00_0000_0000_0000_0000_0000_0000_0000 && !(
        0xFE80_0000_0000_0000_0000_0000_0000_0000 <= bits && bits
            <= 0xFEBF_FFFF_FFFF_FFFF_FFFF_FFFF_FFFF_FFFF),
    }
}

/// Decides [`cgnat`].
pub fn is_cgnat(ip: IpAddr) -> (r: bool)
    ensures
        r == cgnat(ip),
{
    match ip {
        IpAddr::V4(bits) => 0x6440_0000 <= bits && bits <= 0x647F_FFFF,
        IpAddr::V6(_) => false,
    }
}

/// Decides whether multicast discovery should be pinned to the interface of
/// `bind`: not where `bind` names no interface, nor the host itself.
pub fn pins_interface(bind: IpAddr) -> (r: bool)
    ensures
        r == (!unspecified(bind) && !loopback(bind)),
{
    match bind {
        IpAddr::V4(bits) => bits != 0 && !(0x7F00_0000 <= bits && bits <= 0x7FFF_FFFF),
        IpAddr::V6(bits) => bits != 0 && bits != 1,
    }
}

/// The address to tell other devices: the one the daemon is bound to, unless
/// that is none in particular; then the one from which the host reaches out. It is
/// 0.0.0.0 where the host has no way out: the user has to be asked.
pub fn advertised_ip(bound: Option<IpAddr>, outgoing: Option<IpAddr>) -> (r: IpAddr)
    ensures
        r == match bound {
            Some(ip) if !unspecified(ip) => ip,
            _ => match outgoing {
                Some(ip) => ip,
                None => IpAddr::V4(0),
            },
        },
{
    if let Some(ip) = bound {
        if !is_unspecified(ip) {
            return ip;
        }
    }
    match outgoing {
        Some(ip) => ip,
        None => IpAddr::V4(0),
    }
}

/// The address to announce by multicast: the one to tell other devices, or that of
/// the host itself where there is none.
pub fn announced_ip(advertised: IpAddr) -> (r: IpAddr)
    ensures
        r == if unspecified(advertised) {
            IpAddr::V4(0x7F00_0001)
        } else {
            advertised
        },
{
    if is_unspecified(advertised) {
        IpAddr::V4(0x7F00_0001)
    } else {
        advertised
    }
}

/// The tailnet address of this host: the one from which it reaches the tailnet's
/// resolver, if that lies in the tailnet's range.
pub fn tailnet_ip(outgoing: Option<IpAddr>) -> (r: Option<IpAddr>)
    ensures
        r == match outgoing {
            Some(ip) if cgnat(ip) => Some(ip),
            _ => None,
        },
{
    match outgoing {
        Some(ip) => if is_cgnat(ip) {
            Some(ip)
        } else {
            None
        },
        None => None,
    }
}

/// Every IPv4 address of the local network may be redialed, but for the
/// link-local ones.
pub proof fn local_addresses_are_redialable(bits: u32)
    requires
        v4_local(bits),
        !v4_link_local(bits),
    ensures
        redialable(IpAddr::V4(bits)),
{
}

/// The IPv4 address with these four numbers.
pub open spec fn dotted(a: u8, b: u8, c: u8, d: u8) -> u32 {
    (a * 0x100_0000 + b * 0x1_0000 + c * 0x100 + d) as u32
}

/// The classes of an IPv4 address by its four numbers.
pub proof fn address_classes(a: u8, b: u8, c: u8, d: u8)
    ensures
        ({
            let ip = IpAddr::V4(dotted(a, b, c, d));
            let link_local = a == 169 && b == 254;
            &&& local_ip(ip) == (a == 127 || a == 10 || (a == 172 && 16 <= b < 32) || (a == 192 && b
                == 168) || link_local)
            &&& loopback(ip) == (a == 127)
            &&& unspecified(ip) == (a == 0 && b == 0 && c == 0 && d == 0)
            &&& cgnat(ip) == (a == 100 && 64 <= b < 128)
            &&& redialable(ip) == !(unspecified(ip) || 224 <= a < 240 || link_local)
        }),
{
}

/// An IPv4 address in IPv6 form is local iff the IPv4 address is.
pub proof fn mapped_address_counts_as_itself(bits: u32)
    ensures
        local_ip(IpAddr::V6((0xFFFF_0000_0000 + bits) as u128)) == local_ip(IpAddr::V4(bits)),
{
}

/// A socket address has the IP address that it was made with; IPv6 addresses that differ
/// in scope are different addresses.
pub proof fn socket_keeps_its_address(ip: IpAddr, port: u16, bits: u128, flow: u32, s: u32, t: u32)
    ensures
        ip_of(socket(ip, port)) == ip,
        ip_of(SocketAddr::V6 { bits, port, flowinfo: flow, scope_id: s }) == IpAddr::V6(bits),
        s != t ==> (SocketAddr::V6 { bits, port, flowinfo: flow, scope_id: s }) != (SocketAddr::V6 {
            bits,
            port,
            flowinfo: flow,
            scope_id: t,
        }),
{
}

} // verus!
