//! The ConfigID header: the configuration instance of a device's description.

use vstd::prelude::*;

use crate::ascii::{
    dec_digits, lemma_decimal_roundtrip, parse_i31, spec_parse_i31, u32_to_decimal,
};
use crate::header::{single_value, Header};

verus! {

/// Represents a header used to denote the configuration of a device's DDD.
///
/// The value is a 31-bit non-negative integer: decoding parses the full
/// text as a signed decimal first, so `-0` is recognized and is zero, and
/// any other negative or out-of-range literal is rejected.
#[derive(Copy, Clone, PartialEq, Eq, Structural, Hash, Debug)]
pub struct ConfigID(pub u32);

impl DeepView for ConfigID {
    type V = ConfigID;

    open spec fn deep_view(&self) -> ConfigID {
        *self
    }
}

impl Header for ConfigID {
    open spec fn wire_name() -> Seq<u8> {
        seq![0x63u8, 0x6Fu8, 0x6Eu8, 0x66u8, 0x69u8, 0x67u8, 0x69u8, 0x64u8, 0x2Eu8, 0x75u8, 0x70u8, 0x6Eu8, 0x70u8, 0x2Eu8, 0x6Fu8, 0x72u8, 0x67u8]
    }

    open spec fn decode_spec(vals: Seq<Seq<u8>>) -> Option<ConfigID> {
        match single_value(vals) {
            Some(s) => match spec_parse_i31(s) {
                Some(m) => Some(ConfigID(m as u32)),
                None => None,
            },
            None => None,
        }
    }

    open spec fn encode_spec(v: ConfigID) -> Seq<u8> {
        dec_digits(v.0 as nat)
    }

    fn name() -> (r: Vec<u8>) {
        let mut v: Vec<u8> = Vec::new();
        v.push(0x63);
        v.push(0x6F);
        v.push(0x6E);
        v.push(0x66);
        v.push(0x69);
        v.push(0x67);
        v.push(0x69);
        v.push(0x64);
        v.push(0x2E);
        v.push(0x75);
        v.push(0x70);
        v.push(0x6E);
        v.push(0x70);
        v.push(0x2E);
        v.push(0x6F);
        v.push(0x72);
        v.push(0x67);
        proof {
            assert(v@ =~= ConfigID::wire_name());
        }
        v
    }

    fn decode(values: &Vec<Vec<u8>>) -> (r: Option<ConfigID>) {
        if values.len() != 1 {
            return None;
        }
        proof {
            assert(values.deep_view()[0] == values@[0]@);
        }
        match parse_i31(values[0].as_slice()) {
            Some(m) => Some(ConfigID(m)),
            None => None,
        }
    }

    fn encode(&self) -> (r: Vec<u8>) {
        u32_to_decimal(self.0)
    }
}

/// Round-trip law: decoding an encoded ConfigID header yields it back, for
/// every 31-bit non-negative value.
pub proof fn lemma_configid_roundtrip(v: ConfigID)
    requires
        v.0 <= 0x7FFFFFFF,
    ensures
        ConfigID::decode_spec(seq![ConfigID::encode_spec(v)]) == Some(v),
{
    lemma_decimal_roundtrip(v.0 as nat);
}

} // verus!
