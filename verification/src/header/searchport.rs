//! The SearchPort header: the unicast port a device answers searches on.

use vstd::prelude::*;

use crate::ascii::{
    dec_digits, lemma_decimal_roundtrip, parse_num, spec_parse_num, u32_to_decimal,
};
use crate::header::{single_value, Header};

verus! {

/// Lowest port a device may announce for unicast search requests; lower
/// ports are reserved.
pub const SEARCHPORT_MIN_VALUE: u16 = 49152;

/// Represents a header used to specify a unicast port to send search
/// requests to.
///
/// If a `SearchPort` header is not included in a message then the device
/// must respond to unicast search requests on the standard port of 1900.
#[derive(Copy, Clone, PartialEq, Eq, Structural, Hash, Debug)]
pub struct SearchPort(pub u16);

impl DeepView for SearchPort {
    type V = SearchPort;

    open spec fn deep_view(&self) -> SearchPort {
        *self
    }
}

impl Header for SearchPort {
    open spec fn wire_name() -> Seq<u8> {
        seq![0x73u8, 0x65u8, 0x61u8, 0x72u8, 0x63u8, 0x68u8, 0x70u8, 0x6Fu8, 0x72u8, 0x74u8, 0x2Eu8, 0x75u8, 0x70u8, 0x6Eu8, 0x70u8, 0x2Eu8, 0x6Fu8, 0x72u8, 0x67u8]
    }

    open spec fn decode_spec(vals: Seq<Seq<u8>>) -> Option<SearchPort> {
        match single_value(vals) {
            Some(s) => match spec_parse_num(s) {
                Some(m) => if SEARCHPORT_MIN_VALUE <= m && m <= u16::MAX {
                    Some(SearchPort(m as u16))
                } else {
                    None
                },
                None => None,
            },
            None => None,
        }
    }

    open spec fn encode_spec(v: SearchPort) -> Seq<u8> {
        dec_digits(v.0 as nat)
    }

    fn name() -> (r: Vec<u8>) {
        let mut v: Vec<u8> = Vec::new();
        v.push(0x73);
        v.push(0x65);
        v.push(0x61);
        v.push(0x72);
        v.push(0x63);
        v.push(0x68);
        v.push(0x70);
        v.push(0x6F);
        v.push(0x72);
        v.push(0x74);
        v.push(0x2E);
        v.push(0x75);
        v.push(0x70);
        v.push(0x6E);
        v.push(0x70);
        v.push(0x2E);
        v.push(0x6F);
        v.push(0x72);
        v.push(0x67);
        proof {
            assert(v@ =~= SearchPort::wire_name());
        }
        v
    }

    fn decode(values: &Vec<Vec<u8>>) -> (r: Option<SearchPort>) {
        if values.len() != 1 {
            return None;
        }
        proof {
            assert(values.deep_view()[0] == values@[0]@);
        }
        match parse_num(values[0].as_slice()) {
            Some(m) => if 49152 <= m && m <= 65535 {
                Some(SearchPort(m as u16))
            } else {
                None
            },
            None => None,
        }
    }

    fn encode(&self) -> (r: Vec<u8>) {
        u32_to_decimal(self.0 as u32)
    }
}

/// Round-trip law: decoding an encoded SearchPort header yields it back,
/// for every port at or above the reserved boundary.
pub proof fn lemma_searchport_roundtrip(v: SearchPort)
    requires
        v.0 >= SEARCHPORT_MIN_VALUE,
    ensures
        SearchPort::decode_spec(seq![SearchPort::encode_spec(v)]) == Some(v),
{
    lemma_decimal_roundtrip(v.0 as nat);
}

} // verus!
