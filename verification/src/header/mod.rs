//! Typed headers for discovery messages.
//!
//! Each header kind owns its single decode/encode contract: `decode` reads
//! the raw wire values collected under the header's name, `encode` renders
//! the one value the header writes back. Decoding rejects zero values and
//! more than one value alike, since none of these headers is multi-valued.

use vstd::prelude::*;

mod block;
mod bootid;
mod configid;
mod host;
mod man;
mod mx;
mod nt;
mod nts;
mod searchport;
mod securelocation;
mod st;
mod usn;

pub use self::block::{spec_has_name, spec_remove_name, spec_values_of, HeaderBlock};
pub use self::bootid::BootID;
pub use self::configid::ConfigID;
pub use self::host::Host;
pub use self::man::Man;
pub use self::mx::MX;
pub use self::nt::NT;
pub use self::nts::NTS;
pub use self::searchport::SearchPort;
pub use self::securelocation::SecureLocation;
pub use self::st::ST;
pub use self::usn::USN;

verus! {

/// One typed header kind: its canonical wire name and its codec.
///
/// `decode` and `encode` are pinned down by the spec functions of the same
/// impl, so that laws about a header kind can be stated purely over its
/// mathematical image (the `DeepView` of the type).
pub trait Header: Sized + DeepView {
    /// Canonical lower-case wire name of this header kind.
    spec fn wire_name() -> Seq<u8>;

    /// What decoding a list of raw wire values yields.
    spec fn decode_spec(vals: Seq<Seq<u8>>) -> Option<<Self as DeepView>::V>;

    /// The single raw wire value that encoding yields.
    spec fn encode_spec(v: <Self as DeepView>::V) -> Seq<u8>;

    /// The canonical wire name, as bytes.
    fn name() -> (r: Vec<u8>)
        ensures
            r@ == Self::wire_name(),
    ;

    /// Decode a header of this kind from its raw wire values.
    fn decode(values: &Vec<Vec<u8>>) -> (r: Option<Self>)
        ensures
            r.deep_view() == Self::decode_spec(values.deep_view()),
    ;

    /// Encode this header into its single raw wire value.
    fn encode(&self) -> (r: Vec<u8>)
        ensures
            r@ == Self::encode_spec(self.deep_view()),
    ;
}

/// The one value of a single-valued header, or `None` where none or several
/// values were supplied.
pub open spec fn single_value(vals: Seq<Seq<u8>>) -> Option<Seq<u8>> {
    if vals.len() == 1 {
        Some(vals[0])
    } else {
        None
    }
}

} // verus!
