//! The MAN header: the mandatory HTTP-extension marker of a search request.

use vstd::prelude::*;

use crate::ascii::bytes_eq;
use crate::header::{single_value, Header};

verus! {

/// The one value a MAN header may carry: the quoted `ssdp:discover`
/// literal, compared byte for byte.
pub open spec fn man_value() -> Seq<u8> {
    seq![0x22u8, 0x73u8, 0x73u8, 0x64u8, 0x70u8, 0x3Au8, 0x64u8, 0x69u8, 0x73u8, 0x63u8, 0x6Fu8, 0x76u8, 0x65u8, 0x72u8, 0x22u8]
}

/// Represents a header used to specify the HTTP extension of a search
/// request. Decoding accepts exactly the quoted `ssdp:discover` literal,
/// case-sensitively.
#[derive(Copy, Clone, PartialEq, Eq, Structural, Hash, Debug)]
pub struct Man;

impl DeepView for Man {
    type V = Man;

    open spec fn deep_view(&self) -> Man {
        *self
    }
}

impl Header for Man {
    open spec fn wire_name() -> Seq<u8> {
        seq![0x6Du8, 0x61u8, 0x6Eu8]
    }

    open spec fn decode_spec(vals: Seq<Seq<u8>>) -> Option<Man> {
        match single_value(vals) {
            Some(s) => if s == man_value() {
                Some(Man)
            } else {
                None
            },
            None => None,
        }
    }

    open spec fn encode_spec(v: Man) -> Seq<u8> {
        man_value()
    }

    fn name() -> (r: Vec<u8>) {
        let mut v: Vec<u8> = Vec::new();
        v.push(0x6D);
        v.push(0x61);
        v.push(0x6E);
        proof {
            assert(v@ =~= Man::wire_name());
        }
        v
    }

    fn decode(values: &Vec<Vec<u8>>) -> (r: Option<Man>) {
        if values.len() != 1 {
            return None;
        }
        proof {
            assert(values.deep_view()[0] == values@[0]@);
        }
        let lit = Man.encode();
        if bytes_eq(values[0].as_slice(), lit.as_slice()) {
            Some(Man)
        } else {
            None
        }
    }

    fn encode(&self) -> (r: Vec<u8>) {
        let mut v: Vec<u8> = Vec::new();
        v.push(0x22);
        v.push(0x73);
        v.push(0x73);
        v.push(0x64);
        v.push(0x70);
        v.push(0x3A);
        v.push(0x64);
        v.push(0x69);
        v.push(0x73);
        v.push(0x63);
        v.push(0x6F);
        v.push(0x76);
        v.push(0x65);
        v.push(0x72);
        v.push(0x22);
        proof {
            assert(v@ =~= man_value());
        }
        v
    }
}

/// Round-trip law: decoding an encoded MAN header yields it back.
pub proof fn lemma_man_roundtrip(v: Man)
    ensures
        Man::decode_spec(seq![Man::encode_spec(v)]) == Some(v),
{
}

} // verus!
