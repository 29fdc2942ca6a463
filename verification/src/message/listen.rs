//! The plan a listening operation follows: which wildcard sockets to bind
//! and which multicast joins to make, one join per kept local interface,
//! scoped by the interface address for IPv4 and by the interface index for
//! IPv6. Binding and joining themselves happen outside the library.

use vstd::prelude::*;

use crate::message::{filter_local_addrs, spec_keep_addr, spec_local_addrs};
use crate::net::{IpAddr, NetifAddr};

verus! {

/// What a listening operation must do before it can receive: bind one
/// shared reusable socket per IP family that has a kept interface, and
/// join the configured group once per kept interface on that family's
/// socket.
pub struct ListenPlan {
    /// Whether an IPv4 wildcard socket is to be bound.
    pub bind_v4: bool,
    /// Whether an IPv6 wildcard socket is to be bound.
    pub bind_v6: bool,
    /// The kept interfaces, in discovered order; each gets one join on its
    /// family's socket.
    pub joins: Vec<NetifAddr>,
}

/// Whether some kept interface is of the IPv4 family.
pub open spec fn spec_any_v4(kept: Seq<NetifAddr>) -> bool {
    exists|i: int| 0 <= i < kept.len() && (#[trigger] kept[i].sock) is V4
}

/// Whether some kept interface is of the IPv6 family.
pub open spec fn spec_any_v6(kept: Seq<NetifAddr>) -> bool {
    exists|i: int| 0 <= i < kept.len() && (#[trigger] kept[i].sock) is V6
}

/// Plan a listening operation over the discovered interface addresses:
/// filter them by the local-address policy, and bind a family's wildcard
/// socket exactly when some kept interface needs it.
#[verifier::loop_isolation(false)]
pub fn plan_listen(addrs: &Vec<NetifAddr>) -> (r: ListenPlan)
    ensures
        r.joins@ == spec_local_addrs(addrs@),
        r.bind_v4 == spec_any_v4(spec_local_addrs(addrs@)),
        r.bind_v6 == spec_any_v6(spec_local_addrs(addrs@)),
{
    let joins = filter_local_addrs(addrs);
    let mut bind_v4 = false;
    let mut bind_v6 = false;
    let mut i: usize = 0;
    while i < joins.len()
        invariant
            0 <= i <= joins@.len(),
            bind_v4 == (exists|j: int| 0 <= j < i && (#[trigger] joins@[j].sock) is V4),
            bind_v6 == (exists|j: int| 0 <= j < i && (#[trigger] joins@[j].sock) is V6),
        decreases joins@.len() - i,
    {
        match joins[i].sock {
            IpAddr::V4(..) => {
                bind_v4 = true;
            },
            IpAddr::V6(..) => {
                bind_v6 = true;
            },
        }
        i += 1;
    }
    ListenPlan { bind_v4, bind_v6, joins }
}

} // verus!
