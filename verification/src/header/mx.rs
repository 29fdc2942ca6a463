//! The MX header: the longest time a searched device may wait before it
//! answers, in seconds.

use vstd::prelude::*;

use crate::ascii::{
    dec_digits, lemma_decimal_roundtrip, parse_num, spec_parse_num, u32_to_decimal,
};
use crate::error::{SSDPError, SSDPResult};
use crate::header::{single_value, Header};

verus! {

/// Minimum wait time specified in the UPnP 1.0 standard.
pub const MX_HEADER_MIN: u8 = 1;

/// Maximum wait time specified in the UPnP 1.0 standard.
pub const MX_HEADER_MAX: u8 = 120;

/// Represents a header used to specify the maximum time that devices should
/// wait before sending a response.
///
/// Should only be increased as the number of devices expected to respond
/// increases, not because of latency or propagation delay.
#[derive(Copy, Clone, PartialEq, Eq, Structural, Hash, Debug)]
pub struct MX(pub u8);

impl MX {
    /// Accept a wait bound inside the standard's range and reject any other.
    pub fn new(wait_bound: u8) -> (r: SSDPResult<MX>)
        ensures
            MX_HEADER_MIN <= wait_bound <= MX_HEADER_MAX ==> r == Ok::<MX, SSDPError>(
                MX(wait_bound),
            ),
            !(MX_HEADER_MIN <= wait_bound <= MX_HEADER_MAX) ==> (r matches Err(
                SSDPError::InvalidHeader(h),
            ) && h@ == MX::wire_name()),
    {
        if wait_bound < MX_HEADER_MIN || wait_bound > MX_HEADER_MAX {
            Err(SSDPError::InvalidHeader(MX::name()))
        } else {
            Ok(MX(wait_bound))
        }
    }
}

impl DeepView for MX {
    type V = MX;

    open spec fn deep_view(&self) -> MX {
        *self
    }
}

impl Header for MX {
    open spec fn wire_name() -> Seq<u8> {
        seq![0x6Du8, 0x78u8]
    }

    open spec fn decode_spec(vals: Seq<Seq<u8>>) -> Option<MX> {
        match single_value(vals) {
            Some(s) => match spec_parse_num(s) {
                Some(m) => if MX_HEADER_MIN <= m && m <= MX_HEADER_MAX {
                    Some(MX(m as u8))
                } else {
                    None
                },
                None => None,
            },
            None => None,
        }
    }

    open spec fn encode_spec(v: MX) -> Seq<u8> {
        dec_digits(v.0 as nat)
    }

    fn name() -> (r: Vec<u8>) {
        let mut v: Vec<u8> = Vec::new();
        v.push(0x6D);
        v.push(0x78);
        proof {
            assert(v@ =~= MX::wire_name());
        }
        v
    }

    fn decode(values: &Vec<Vec<u8>>) -> (r: Option<MX>) {
        if values.len() != 1 {
            return None;
        }
        proof {
            assert(values.deep_view()[0] == values@[0]@);
        }
        match parse_num(values[0].as_slice()) {
            Some(m) => if 1 <= m && m <= 120 {
                Some(MX(m as u8))
            } else {
                None
            },
            None => None,
        }
    }

    fn encode(&self) -> (r: Vec<u8>) {
        u32_to_decimal(self.0 as u32)
    }
}

/// Round-trip law: decoding an encoded MX header yields it back, for every
/// value inside the standard's range.
pub proof fn lemma_mx_roundtrip(v: MX)
    requires
        MX_HEADER_MIN <= v.0 <= MX_HEADER_MAX,
    ensures
        MX::decode_spec(seq![MX::encode_spec(v)]) == Some(v),
{
    lemma_decimal_roundtrip(v.0 as nat);
}

} // verus!
