//! The NT header: the notification type of an announce message.

use vstd::prelude::*;

use crate::field::{
    field_valid, lemma_field_roundtrip, spec_encode_field, spec_parse_field, FieldMap, FieldToken,
};
use crate::header::{single_value, Header};

verus! {

/// Represents a header used to specify a notification type.
///
/// Any double colons will not be processed as separate field tokens.
#[derive(Clone, PartialEq, Eq, Hash, Debug)]
pub struct NT(pub FieldMap);

impl NT {
    /// Wrap a field token as a notification type.
    pub fn new(field: FieldMap) -> (r: NT)
        ensures
            r.0 == field,
    {
        NT(field)
    }
}

impl DeepView for NT {
    type V = FieldToken;

    open spec fn deep_view(&self) -> FieldToken {
        self.0@
    }
}

impl Header for NT {
    open spec fn wire_name() -> Seq<u8> {
        seq![0x6Eu8, 0x74u8]
    }

    open spec fn decode_spec(vals: Seq<Seq<u8>>) -> Option<FieldToken> {
        match single_value(vals) {
            Some(s) => spec_parse_field(s),
            None => None,
        }
    }

    open spec fn encode_spec(v: FieldToken) -> Seq<u8> {
        spec_encode_field(v)
    }

    fn name() -> (r: Vec<u8>) {
        let mut v: Vec<u8> = Vec::new();
        v.push(0x6E);
        v.push(0x74);
        proof {
            assert(v@ =~= NT::wire_name());
        }
        v
    }

    fn decode(values: &Vec<Vec<u8>>) -> (r: Option<NT>) {
        if values.len() != 1 {
            return None;
        }
        proof {
            assert(values.deep_view()[0] == values@[0]@);
        }
        match FieldMap::parse_bytes(values[0].as_slice()) {
            Some(f) => Some(NT(f)),
            None => None,
        }
    }

    fn encode(&self) -> (r: Vec<u8>) {
        self.0.encode()
    }
}

/// Round-trip law: decoding an encoded NT header yields it back, for every
/// valid field token.
pub proof fn lemma_nt_roundtrip(v: FieldToken)
    requires
        field_valid(v),
    ensures
        NT::decode_spec(seq![NT::encode_spec(v)]) == Some(v),
{
    lemma_field_roundtrip(v);
}

} // verus!
