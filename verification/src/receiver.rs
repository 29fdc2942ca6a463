//! The receiver's pure half: decoding collected datagrams into typed
//! messages, dropping the malformed ones so that an invalid peer cannot
//! break discovery for well-formed ones. The sockets, readers and the
//! deadline-bounded hand-off live outside the library; they feed raw
//! datagrams in and pull decoded messages out through what stands here.

use vstd::prelude::*;

use crate::error::{SSDPErrorView, SSDPResult};

verus! {

/// A message type that can be decoded from one raw datagram.
pub trait FromRawSSDP: Sized + DeepView {
    /// What decoding a raw datagram yields for this message type.
    spec fn decode_spec(bytes: Seq<u8>) -> Result<<Self as DeepView>::V, SSDPErrorView>;

    /// Decode one raw datagram.
    fn from_packet(bytes: &[u8]) -> (r: SSDPResult<Self>)
        ensures
            match r {
                Ok(m) => Self::decode_spec(bytes@) matches Ok(v) && m.deep_view() == v,
                Err(e) => Self::decode_spec(bytes@) matches Err(ev) && e.deep_view() == ev,
            },
    ;
}

/// The raw datagrams of a batch as mathematics: each packet's bytes beside
/// its peer address.
pub open spec fn spec_packet_views<A>(datagrams: Seq<(Vec<u8>, A)>) -> Seq<(Seq<u8>, A)> {
    datagrams.map_values(|d: (Vec<u8>, A)| (d.0@, d.1))
}

/// What draining a batch of raw datagrams yields: each datagram decoded
/// through the message codec, the well-formed ones kept with their peer
/// addresses in arrival order, the malformed ones dropped. A malformed or
/// foreign datagram never aborts the sequence and is never surfaced as an
/// error: it must not break discovery for well-formed peers.
pub open spec fn spec_drain<T: FromRawSSDP, A>(datagrams: Seq<(Seq<u8>, A)>) -> Seq<
    (<T as DeepView>::V, A),
>
    decreases datagrams.len(),
{
    if datagrams.len() == 0 {
        Seq::empty()
    } else {
        let rest = spec_drain::<T, A>(datagrams.drop_last());
        match T::decode_spec(datagrams.last().0) {
            Ok(v) => rest.push((v, datagrams.last().1)),
            Err(_) => rest,
        }
    }
}

/// Decode a batch of raw datagrams, dropping the malformed ones.
#[verifier::loop_isolation(false)]
pub fn decode_datagrams<T: FromRawSSDP, A: Copy>(datagrams: &Vec<(Vec<u8>, A)>) -> (r: Vec<(T, A)>)
    ensures
        ({
            let expected = spec_drain::<T, A>(spec_packet_views(datagrams@));
            &&& r@.len() == expected.len()
            &&& forall|i: int|
                0 <= i < r@.len() ==> (#[trigger] r@[i]).0.deep_view() == expected[i].0 && r@[i].1
                    == expected[i].1
        }),
{
    let mut out: Vec<(T, A)> = Vec::new();
    let mut i: usize = 0;
    while i < datagrams.len()
        invariant
            0 <= i <= datagrams@.len(),
            ({
                let expected = spec_drain::<T, A>(spec_packet_views(datagrams@).take(i as int));
                &&& out@.len() == expected.len()
                &&& forall|k: int|
                    0 <= k < out@.len() ==> (#[trigger] out@[k]).0.deep_view() == expected[k].0
                        && out@[k].1 == expected[k].1
            }),
        decreases datagrams@.len() - i,
    {
        proof {
            let pairs = spec_packet_views(datagrams@);
            assert(pairs.take(i + 1).drop_last() =~= pairs.take(i as int));
            assert(pairs.take(i + 1).last() == pairs[i as int]);
        }
        match T::from_packet(datagrams[i].0.as_slice()) {
            Ok(m) => {
                out.push((m, datagrams[i].1));
            },
            Err(_) => {
            },
        }
        i += 1;
    }
    proof {
        assert(spec_packet_views(datagrams@).take(datagrams@.len() as int)
            =~= spec_packet_views(datagrams@));
    }
    out
}

} // verus!
