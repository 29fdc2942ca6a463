//! Messaging primitives for discovering devices and services.

pub mod listen;
pub mod notify;
pub mod search;
pub mod ssdp;

pub use crate::message::listen::{plan_listen, ListenPlan};
pub use crate::message::notify::{NotifyListener, NotifyMessage};
pub use crate::message::search::{
    multicast_timeout, opt_unicast_timeout, SearchListener, SearchRequest, SearchResponse,
};
pub use crate::message::ssdp::{
    validate_http_version, validate_response_code, MessageView, SSDPMessage,
};

use vstd::prelude::*;

use crate::net::{spec_mode_admits, mode_admits, IpAddr, IpVersionMode, NetifAddr};

verus! {

/// Standard IPv4 multicast address of the discovery protocol.
pub const UPNP_MULTICAST_IPV4_ADDR: &'static str = "239.255.255.250";

/// Standard link-local IPv6 multicast address of the discovery protocol.
pub const UPNP_MULTICAST_IPV6_LINK_LOCAL_ADDR: &'static str = "FF05::C";

/// Standard port of the discovery protocol.
pub const UPNP_MULTICAST_PORT: u16 = 1900;

/// Default TTL for multicast sends.
pub const UPNP_MULTICAST_TTL: u32 = 2;

/// Enumerates different types of discovery messages.
#[derive(Copy, Clone, Hash, Eq, PartialEq, Structural, Debug)]
pub enum MessageType {
    /// A notify message.
    Notify,
    /// A search message.
    Search,
    /// A response to a search message.
    Response,
}

/// Immutable per-operation configuration: the multicast groups, port, TTL
/// and IP-version mode an operation works with. Built once, never mutated;
/// the builder-style setters return new values.
#[derive(Clone, Debug)]
pub struct Config {
    pub ipv4_addr: String,
    pub ipv6_addr: String,
    pub port: u16,
    pub ttl: u32,
    pub mode: IpVersionMode,
}

impl Config {
    /// A configuration with the protocol's standard values.
    pub fn new() -> (r: Self)
        ensures
            r.ipv4_addr@ == UPNP_MULTICAST_IPV4_ADDR@,
            r.ipv6_addr@ == UPNP_MULTICAST_IPV6_LINK_LOCAL_ADDR@,
            r.port == UPNP_MULTICAST_PORT,
            r.ttl == UPNP_MULTICAST_TTL,
            r.mode == IpVersionMode::Any,
    {
        Config {
            ipv4_addr: UPNP_MULTICAST_IPV4_ADDR.to_owned(),
            ipv6_addr: UPNP_MULTICAST_IPV6_LINK_LOCAL_ADDR.to_owned(),
            port: UPNP_MULTICAST_PORT,
            ttl: UPNP_MULTICAST_TTL,
            mode: IpVersionMode::Any,
        }
    }

    /// This configuration with another IPv4 multicast address.
    pub fn set_ipv4_addr(self, value: String) -> (r: Self)
        ensures
            r.ipv4_addr == value,
            r.ipv6_addr == self.ipv6_addr,
            r.port == self.port,
            r.ttl == self.ttl,
            r.mode == self.mode,
    {
        Config { ipv4_addr: value, ..self }
    }

    /// This configuration with another IPv6 multicast address.
    pub fn set_ipv6_addr(self, value: String) -> (r: Self)
        ensures
            r.ipv6_addr == value,
            r.ipv4_addr == self.ipv4_addr,
            r.port == self.port,
            r.ttl == self.ttl,
            r.mode == self.mode,
    {
        Config { ipv6_addr: value, ..self }
    }

    /// This configuration with another port.
    pub fn set_port(self, value: u16) -> (r: Self)
        ensures
            r.port == value,
            r.ipv4_addr == self.ipv4_addr,
            r.ipv6_addr == self.ipv6_addr,
            r.ttl == self.ttl,
            r.mode == self.mode,
    {
        Config { port: value, ..self }
    }

    /// This configuration with another TTL.
    pub fn set_ttl(self, value: u32) -> (r: Self)
        ensures
            r.ttl == value,
            r.ipv4_addr == self.ipv4_addr,
            r.ipv6_addr == self.ipv6_addr,
            r.port == self.port,
            r.mode == self.mode,
    {
        Config { ttl: value, ..self }
    }

    /// This configuration with another IP-version mode.
    pub fn set_mode(self, value: IpVersionMode) -> (r: Self)
        ensures
            r.mode == value,
            r.ipv4_addr == self.ipv4_addr,
            r.ipv6_addr == self.ipv6_addr,
            r.port == self.port,
            r.ttl == self.ttl,
    {
        Config { mode: value, ..self }
    }
}

impl Default for Config {
    /// The protocol's standard configuration.
    fn default() -> (r: Self)
        ensures
            r.ipv4_addr@ == UPNP_MULTICAST_IPV4_ADDR@,
            r.ipv6_addr@ == UPNP_MULTICAST_IPV6_LINK_LOCAL_ADDR@,
            r.port == UPNP_MULTICAST_PORT,
            r.ttl == UPNP_MULTICAST_TTL,
            r.mode == IpVersionMode::Any,
    {
        Config::new()
    }
}


/// Whether an IPv6 address, given as its eight segments, is judged "not
/// clearly global": unspecified, loopback, unique-local (`fc00::/7`) or
/// 6to4 (`2002::/16`). A conservative, best-effort test: addresses that
/// match none of these are treated as potentially global and dropped, so
/// the kept set is under-approximated by design.
pub open spec fn spec_not_global_v6(s: [u16; 8]) -> bool {
    ||| s@ == seq![0u16, 0u16, 0u16, 0u16, 0u16, 0u16, 0u16, 0u16]
    ||| s@ == seq![0u16, 0u16, 0u16, 0u16, 0u16, 0u16, 0u16, 1u16]
    ||| (0xFC00 <= s[0] && s[0] <= 0xFDFF)
    ||| s[0] == 0x2002
}

/// Decide whether an IPv6 address is not clearly global.
pub fn is_not_global_v6(segments: &[u16; 8]) -> (r: bool)
    ensures
        r == spec_not_global_v6(*segments),
{
    let s0 = segments[0];
    let mut all_zero = true;
    let mut idx: usize = 0;
    while idx < 8
        invariant
            0 <= idx <= 8,
            all_zero == (forall|j: int| 0 <= j < idx ==> segments@[j] == 0),
        decreases 8 - idx,
    {
        if segments[idx] != 0 {
            all_zero = false;
        }
        idx += 1;
    }
    let mut head_zero = true;
    let mut idx2: usize = 0;
    while idx2 < 7
        invariant
            0 <= idx2 <= 7,
            head_zero == (forall|j: int| 0 <= j < idx2 ==> segments@[j] == 0),
        decreases 7 - idx2,
    {
        if segments[idx2] != 0 {
            head_zero = false;
        }
        idx2 += 1;
    }
    let loopback = head_zero && segments[7] == 1;
    proof {
        let zeros = seq![0u16, 0u16, 0u16, 0u16, 0u16, 0u16, 0u16, 0u16];
        let lb = seq![0u16, 0u16, 0u16, 0u16, 0u16, 0u16, 0u16, 1u16];
        if all_zero {
            assert(segments@ =~= zeros);
        } else {
            assert(segments@ != zeros) by {
                if segments@ == zeros {
                    assert(forall|j: int| 0 <= j < 8 ==> segments@[j] == 0);
                }
            }
        }
        if loopback {
            assert(segments@ =~= lb);
        } else {
            assert(segments@ != lb) by {
                if segments@ == lb {
                    assert(forall|j: int| 0 <= j < 7 ==> segments@[j] == 0);
                    assert(segments@[7] == 1);
                }
            }
        }
    }
    all_zero || loopback || (0xFC00 <= s0 && s0 <= 0xFDFF) || s0 == 0x2002
}

/// The filtering policy over local interface addresses: IPv4 loopback is
/// always excluded, and an IPv6 address is kept only when it is not
/// loopback and not clearly global.
pub open spec fn spec_keep_addr(a: IpAddr) -> bool {
    match a {
        IpAddr::V4(o1, o2, o3, o4) => o1 != 127,
        IpAddr::V6(s) => s@ != seq![0u16, 0u16, 0u16, 0u16, 0u16, 0u16, 0u16, 1u16]
            && spec_not_global_v6(s),
    }
}

/// Decide the filtering policy for one local interface address.
pub fn keep_addr(a: &IpAddr) -> (r: bool)
    ensures
        r == spec_keep_addr(*a),
{
    match a {
        IpAddr::V4(o1, _, _, _) => *o1 != 127,
        IpAddr::V6(s) => {
            let lb: [u16; 8] = [0, 0, 0, 0, 0, 0, 0, 1];
            let mut is_lb = true;
            let mut idx: usize = 0;
            while idx < 8
                invariant
                    0 <= idx <= 8,
                    is_lb == (forall|j: int| 0 <= j < idx ==> s@[j] == lb@[j]),
                    lb@ =~= seq![0u16, 0u16, 0u16, 0u16, 0u16, 0u16, 0u16, 1u16],
                decreases 8 - idx,
            {
                if s[idx] != lb[idx] {
                    is_lb = false;
                }
                idx += 1;
            }
            proof {
                if is_lb {
                    assert(s@ =~= lb@);
                } else {
                    assert(s@ != lb@) by {
                        if s@ == lb@ {
                            assert(forall|j: int| 0 <= j < 8 ==> s@[j] == lb@[j]);
                        }
                    }
                }
            }
            !is_lb && is_not_global_v6(s)
        },
    }
}

/// The local interface addresses that pass the filtering policy, in their
/// discovered order.
pub open spec fn spec_local_addrs(addrs: Seq<NetifAddr>) -> Seq<NetifAddr>
    decreases addrs.len(),
{
    if addrs.len() == 0 {
        Seq::empty()
    } else {
        let rest = spec_local_addrs(addrs.drop_last());
        if spec_keep_addr(addrs.last().sock) {
            rest.push(addrs.last())
        } else {
            rest
        }
    }
}

/// Keep every discovered interface address that the filtering policy
/// admits, in order.
#[verifier::loop_isolation(false)]
pub fn filter_local_addrs(addrs: &Vec<NetifAddr>) -> (r: Vec<NetifAddr>)
    ensures
        r@ == spec_local_addrs(addrs@),
{
    let mut out: Vec<NetifAddr> = Vec::new();
    let mut i: usize = 0;
    proof {
        assert(addrs@.take(0) =~= Seq::<NetifAddr>::empty());
        assert(out@ =~= spec_local_addrs(addrs@.take(0)));
    }
    while i < addrs.len()
        invariant
            0 <= i <= addrs@.len(),
            out@ == spec_local_addrs(addrs@.take(i as int)),
        decreases addrs@.len() - i,
    {
        proof {
            assert(addrs@.take(i + 1).drop_last() =~= addrs@.take(i as int));
            assert(addrs@.take(i + 1).last() == addrs@[i as int]);
        }
        let a = addrs[i];
        if keep_addr(&a.sock) {
            out.push(a);
        }
        i += 1;
    }
    proof {
        assert(addrs@.take(addrs@.len() as int) =~= addrs@);
    }
    out
}

/// The interface addresses that get a per-interface send socket: those the
/// filtering policy admits and whose family the version mode admits.
pub open spec fn spec_connector_addrs(addrs: Seq<NetifAddr>, mode: IpVersionMode) -> Seq<NetifAddr>
    decreases addrs.len(),
{
    if addrs.len() == 0 {
        Seq::empty()
    } else {
        let rest = spec_connector_addrs(addrs.drop_last(), mode);
        if spec_keep_addr(addrs.last().sock) && spec_mode_admits(mode, addrs.last().sock) {
            rest.push(addrs.last())
        } else {
            rest
        }
    }
}

/// Pick the interfaces that get a per-interface send socket under the
/// given version mode, in order.
#[verifier::loop_isolation(false)]
pub fn connector_addrs(addrs: &Vec<NetifAddr>, mode: &IpVersionMode) -> (r: Vec<NetifAddr>)
    ensures
        r@ == spec_connector_addrs(addrs@, *mode),
{
    let mut out: Vec<NetifAddr> = Vec::new();
    let mut i: usize = 0;
    proof {
        assert(addrs@.take(0) =~= Seq::<NetifAddr>::empty());
        assert(out@ =~= spec_connector_addrs(addrs@.take(0), *mode));
    }
    while i < addrs.len()
        invariant
            0 <= i <= addrs@.len(),
            out@ == spec_connector_addrs(addrs@.take(i as int), *mode),
        decreases addrs@.len() - i,
    {
        proof {
            assert(addrs@.take(i + 1).drop_last() =~= addrs@.take(i as int));
            assert(addrs@.take(i + 1).last() == addrs@[i as int]);
        }
        let a = addrs[i];
        if keep_addr(&a.sock) && mode_admits(mode, &a.sock) {
            out.push(a);
        }
        i += 1;
    }
    proof {
        assert(addrs@.take(addrs@.len() as int) =~= addrs@);
    }
    out
}

} // verus!
