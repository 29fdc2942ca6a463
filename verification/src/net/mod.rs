//! Plain-value models of the addresses and socket facts that the transport
//! layer decides over. The sockets themselves live outside the library;
//! everything here is the logic those sockets are driven by.

use vstd::prelude::*;

pub mod packet;

verus! {

/// Which IP stack(s) an operation works across.
#[derive(Copy, Clone, PartialEq, Eq, Structural, Hash, Debug)]
pub enum IpVersionMode {
    /// Only IPv4 interfaces qualify.
    V4Only,
    /// Only IPv6 interfaces qualify.
    V6Only,
    /// Interfaces of either family qualify.
    Any,
}

/// An IP address as plain values: four octets, or eight 16-bit segments.
#[derive(Copy, Clone, PartialEq, Eq, Hash, Debug)]
pub enum IpAddr {
    V4(u8, u8, u8, u8),
    V6([u16; 8]),
}

impl IpAddr {
    /// Whether this is an IPv4 address.
    pub fn is_v4(&self) -> (r: bool)
        ensures
            r == (self is V4),
    {
        match self {
            IpAddr::V4(..) => true,
            IpAddr::V6(..) => false,
        }
    }

    /// The version mode that a destination of this address calls for.
    pub fn version_mode(&self) -> (r: IpVersionMode)
        ensures
            r == spec_version_mode(*self),
    {
        match self {
            IpAddr::V4(..) => IpVersionMode::V4Only,
            IpAddr::V6(..) => IpVersionMode::V6Only,
        }
    }
}

/// The version mode a destination address selects: its own family only.
pub open spec fn spec_version_mode(a: IpAddr) -> IpVersionMode {
    match a {
        IpAddr::V4(..) => IpVersionMode::V4Only,
        IpAddr::V6(..) => IpVersionMode::V6Only,
    }
}

/// Whether an address family passes a version-mode filter.
pub open spec fn spec_mode_admits(mode: IpVersionMode, a: IpAddr) -> bool {
    match mode {
        IpVersionMode::V4Only => a is V4,
        IpVersionMode::V6Only => a is V6,
        IpVersionMode::Any => true,
    }
}

/// Decide whether an address family passes a version-mode filter.
pub fn mode_admits(mode: &IpVersionMode, a: &IpAddr) -> (r: bool)
    ensures
        r == spec_mode_admits(*mode, *a),
{
    match (mode, a) {
        (IpVersionMode::V4Only, IpAddr::V4(..)) => true,
        (IpVersionMode::V6Only, IpAddr::V6(..)) => true,
        (IpVersionMode::Any, _) => true,
        _ => false,
    }
}

/// A local interface address paired with its interface index.
#[derive(Copy, Clone, PartialEq, Eq, Hash, Debug)]
pub struct NetifAddr {
    /// The interface's IP address.
    pub sock: IpAddr,
    /// The interface's index, as the host numbers it.
    pub index: u32,
}

/// The unicast send policy's overall outcome: individual failures are
/// tolerated; only when every attempt failed and at least one attempt was
/// made does the whole send count as failed.
pub open spec fn spec_unicast_send_failed(successes: nat, failures: nat) -> bool {
    successes == 0 && failures > 0
}

/// Decide whether a round of per-interface sends failed as a whole.
pub fn unicast_send_failed(successes: usize, failures: usize) -> (r: bool)
    ensures
        r == spec_unicast_send_failed(successes as nat, failures as nat),
{
    successes == 0 && failures > 0
}

} // verus!
