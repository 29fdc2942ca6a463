//! The ST header: the target a search request asks about.

use vstd::prelude::*;

use crate::ascii::bytes_eq;
use crate::field::{
    field_valid, lemma_field_roundtrip, spec_encode_field, spec_parse_field, FieldMap, FieldToken,
};
use crate::header::{single_value, Header};

verus! {

/// The `ssdp:all` literal that asks every device to respond.
pub open spec fn ssdp_all_value() -> Seq<u8> {
    seq![0x73u8, 0x73u8, 0x64u8, 0x70u8, 0x3Au8, 0x61u8, 0x6Cu8, 0x6Cu8]
}

/// Represents a header which specifies the search target.
#[derive(Clone, PartialEq, Eq, Hash, Debug)]
pub enum ST {
    /// Search for every device and service.
    All,
    /// Search for one typed target.
    Target(FieldMap),
}

/// The mathematical image of an `ST` header.
pub enum STToken {
    All,
    Target(FieldToken),
}

impl DeepView for ST {
    type V = STToken;

    open spec fn deep_view(&self) -> STToken {
        match self {
            ST::All => STToken::All,
            ST::Target(f) => STToken::Target(f@),
        }
    }
}

impl Header for ST {
    open spec fn wire_name() -> Seq<u8> {
        seq![0x73u8, 0x74u8]
    }

    open spec fn decode_spec(vals: Seq<Seq<u8>>) -> Option<STToken> {
        match single_value(vals) {
            Some(s) => if s == ssdp_all_value() {
                Some(STToken::All)
            } else {
                match spec_parse_field(s) {
                    Some(t) => Some(STToken::Target(t)),
                    None => None,
                }
            },
            None => None,
        }
    }

    open spec fn encode_spec(v: STToken) -> Seq<u8> {
        match v {
            STToken::All => ssdp_all_value(),
            STToken::Target(t) => spec_encode_field(t),
        }
    }

    fn name() -> (r: Vec<u8>) {
        let mut v: Vec<u8> = Vec::new();
        v.push(0x73);
        v.push(0x74);
        proof {
            assert(v@ =~= ST::wire_name());
        }
        v
    }

    fn decode(values: &Vec<Vec<u8>>) -> (r: Option<ST>) {
        if values.len() != 1 {
            return None;
        }
        proof {
            assert(values.deep_view()[0] == values@[0]@);
        }
        let mut all: Vec<u8> = Vec::new();
        all.push(0x73);
        all.push(0x73);
        all.push(0x64);
        all.push(0x70);
        all.push(0x3A);
        all.push(0x61);
        all.push(0x6C);
        all.push(0x6C);
        proof {
            assert(all@ =~= ssdp_all_value());
        }
        let value = values[0].as_slice();
        if bytes_eq(value, all.as_slice()) {
            Some(ST::All)
        } else {
            match FieldMap::parse_bytes(value) {
                Some(f) => Some(ST::Target(f)),
                None => None,
            }
        }
    }

    fn encode(&self) -> (r: Vec<u8>) {
        match self {
            ST::All => {
                let mut v: Vec<u8> = Vec::new();
                v.push(0x73);
        v.push(0x73);
        v.push(0x64);
        v.push(0x70);
        v.push(0x3A);
        v.push(0x61);
        v.push(0x6C);
        v.push(0x6C);
                proof {
                    assert(v@ =~= ssdp_all_value());
                }
                v
            },
            ST::Target(f) => f.encode(),
        }
    }
}

/// The targets that encoding then decoding reproduces: `All`, and every
/// valid field token whose encoding is not itself the `ssdp:all` literal.
pub open spec fn st_valid(v: STToken) -> bool {
    match v {
        STToken::All => true,
        STToken::Target(t) => field_valid(t) && spec_encode_field(t) != ssdp_all_value(),
    }
}

/// Round-trip law: decoding an encoded ST header yields it back, for every
/// valid search target.
pub proof fn lemma_st_roundtrip(v: STToken)
    requires
        st_valid(v),
    ensures
        ST::decode_spec(seq![ST::encode_spec(v)]) == Some(v),
{
    match v {
        STToken::All => {
        },
        STToken::Target(t) => {
            lemma_field_roundtrip(t);
        },
    }
}

} // verus!
