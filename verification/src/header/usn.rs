//! The USN header: the unique service name of a device or service
//! instance, holding one field token and optionally a second one after a
//! `::` separator.

use vstd::prelude::*;

use crate::field::{
    colon, dcolon, field_valid, lemma_field_roundtrip, lemma_partition_double,
    lemma_partition_single, no_dcolon, partition_pairs, spec_encode_field, spec_parse_field,
    spec_partition, FieldMap, FieldToken,
};
use crate::header::{single_value, Header};

verus! {

/// Represents a header which specifies a unique service name.
///
/// The field value can hold up to two field tokens.
#[derive(Clone, PartialEq, Eq, Hash, Debug)]
pub struct USN(pub FieldMap, pub Option<FieldMap>);

impl USN {
    /// Wrap one mandatory and one optional field token as a service name.
    pub fn new(field: FieldMap, opt_field: Option<FieldMap>) -> (r: USN)
        ensures
            r.0 == field,
            r.1 == opt_field,
    {
        USN(field, opt_field)
    }
}

impl DeepView for USN {
    type V = (FieldToken, Option<FieldToken>);

    open spec fn deep_view(&self) -> (FieldToken, Option<FieldToken>) {
        (self.0@, self.1.deep_view())
    }
}

impl Header for USN {
    open spec fn wire_name() -> Seq<u8> {
        seq![0x75u8, 0x73u8, 0x6Eu8]
    }

    open spec fn decode_spec(vals: Seq<Seq<u8>>) -> Option<(FieldToken, Option<FieldToken>)> {
        match single_value(vals) {
            Some(s) => match spec_partition(s) {
                Some(parts) => match spec_parse_field(parts.0) {
                    Some(t1) => match parts.1 {
                        Some(sp) => match spec_parse_field(sp) {
                            Some(t2) => Some((t1, Some(t2))),
                            None => None,
                        },
                        None => Some((t1, None)),
                    },
                    None => None,
                },
                None => None,
            },
            None => None,
        }
    }

    open spec fn encode_spec(v: (FieldToken, Option<FieldToken>)) -> Seq<u8> {
        match v.1 {
            Some(t2) => spec_encode_field(v.0) + dcolon() + spec_encode_field(t2),
            None => spec_encode_field(v.0),
        }
    }

    fn name() -> (r: Vec<u8>) {
        let mut v: Vec<u8> = Vec::new();
        v.push(0x75);
        v.push(0x73);
        v.push(0x6E);
        proof {
            assert(v@ =~= USN::wire_name());
        }
        v
    }

    fn decode(values: &Vec<Vec<u8>>) -> (r: Option<USN>) {
        if values.len() != 1 {
            return None;
        }
        proof {
            assert(values.deep_view()[0] == values@[0]@);
        }
        let parts = match partition_pairs(values[0].as_slice()) {
            Some(parts) => parts,
            None => {
                return None;
            },
        };
        proof {
            assert(parts.0.deep_view() =~= parts.0@);
            if parts.1 is Some {
                assert(parts.1->Some_0.deep_view() =~= parts.1->Some_0@);
            }
        }
        let first = match FieldMap::parse_bytes(parts.0.as_slice()) {
            Some(f) => f,
            None => {
                return None;
            },
        };
        match parts.1 {
            Some(sp) => match FieldMap::parse_bytes(sp.as_slice()) {
                Some(second) => Some(USN(first, Some(second))),
                None => None,
            },
            None => Some(USN(first, None)),
        }
    }

    fn encode(&self) -> (r: Vec<u8>) {
        let mut out = self.0.encode();
        if let Some(second) = &self.1 {
            out.push(0x3A);
            out.push(0x3A);
            let tail = second.encode();
            out.extend_from_slice(tail.as_slice());
            proof {
                assert(out@ =~= USN::encode_spec(self.deep_view()));
            }
        }
        out
    }
}

/// The service names that encoding then decoding reproduces: a valid first
/// token whose encoding neither holds a `::` nor ends with a colon, and an
/// optional valid second token.
pub open spec fn usn_valid(v: (FieldToken, Option<FieldToken>)) -> bool {
    &&& field_valid(v.0)
    &&& no_dcolon(spec_encode_field(v.0))
    &&& spec_encode_field(v.0).last() != colon()
    &&& match v.1 {
        Some(t2) => field_valid(t2),
        None => true,
    }
}

/// Round-trip law: decoding an encoded USN header yields it back, for
/// every valid service name.
pub proof fn lemma_usn_roundtrip(v: (FieldToken, Option<FieldToken>))
    requires
        usn_valid(v),
    ensures
        USN::decode_spec(seq![USN::encode_spec(v)]) == Some(v),
{
    let e1 = spec_encode_field(v.0);
    lemma_field_roundtrip(v.0);
    match v.1 {
        None => {
            lemma_partition_single(e1);
        },
        Some(t2) => {
            let e2 = spec_encode_field(t2);
            lemma_field_roundtrip(t2);
            lemma_partition_double(e1, e2);
        },
    }
}

} // verus!
