//! The SecureLocation header: a secure URL for a device's description
//! document, usable in place of the Location header.

use vstd::prelude::*;

use vstd::utf8::valid_utf8;

use crate::ascii::copy_bytes;
use crate::header::{single_value, Header};

verus! {

/// Represents a header used to specify a secure URL for a device's DDD.
///
/// Decoding accepts any single non-empty UTF-8 value and keeps its bytes.
#[derive(Clone, PartialEq, Eq, Hash, Debug)]
pub struct SecureLocation(pub Vec<u8>);

impl DeepView for SecureLocation {
    type V = Seq<u8>;

    open spec fn deep_view(&self) -> Seq<u8> {
        self.0@
    }
}

/// Relies on core::str::from_utf8: it returns `Ok` exactly on UTF-8 valid
/// byte strings.
#[verifier::external_body]
fn utf8_check(bytes: &[u8]) -> (r: bool)
    ensures
        r == valid_utf8(bytes@),
{
    core::str::from_utf8(bytes).is_ok()
}

impl Header for SecureLocation {
    open spec fn wire_name() -> Seq<u8> {
        seq![0x73u8, 0x65u8, 0x63u8, 0x75u8, 0x72u8, 0x65u8, 0x6Cu8, 0x6Fu8, 0x63u8, 0x61u8, 0x74u8, 0x69u8, 0x6Fu8, 0x6Eu8, 0x2Eu8, 0x75u8, 0x70u8, 0x6Eu8, 0x70u8, 0x2Eu8, 0x6Fu8, 0x72u8, 0x67u8]
    }

    open spec fn decode_spec(vals: Seq<Seq<u8>>) -> Option<Seq<u8>> {
        match single_value(vals) {
            Some(s) => if s.len() > 0 && valid_utf8(s) {
                Some(s)
            } else {
                None
            },
            None => None,
        }
    }

    open spec fn encode_spec(v: Seq<u8>) -> Seq<u8> {
        v
    }

    fn name() -> (r: Vec<u8>) {
        let mut v: Vec<u8> = Vec::new();
        v.push(0x73);
        v.push(0x65);
        v.push(0x63);
        v.push(0x75);
        v.push(0x72);
        v.push(0x65);
        v.push(0x6C);
        v.push(0x6F);
        v.push(0x63);
        v.push(0x61);
        v.push(0x74);
        v.push(0x69);
        v.push(0x6F);
        v.push(0x6E);
        v.push(0x2E);
        v.push(0x75);
        v.push(0x70);
        v.push(0x6E);
        v.push(0x70);
        v.push(0x2E);
        v.push(0x6F);
        v.push(0x72);
        v.push(0x67);
        proof {
            assert(v@ =~= SecureLocation::wire_name());
        }
        v
    }

    fn decode(values: &Vec<Vec<u8>>) -> (r: Option<SecureLocation>) {
        if values.len() != 1 {
            return None;
        }
        proof {
            assert(values.deep_view()[0] == values@[0]@);
        }
        if values[0].len() > 0 && utf8_check(values[0].as_slice()) {
            Some(SecureLocation(copy_bytes(values[0].as_slice())))
        } else {
            None
        }
    }

    fn encode(&self) -> (r: Vec<u8>) {
        copy_bytes(self.0.as_slice())
    }
}

/// Round-trip law: decoding an encoded SecureLocation header yields it
/// back, for every UTF-8 valid URL.
pub proof fn lemma_securelocation_roundtrip(v: Seq<u8>)
    requires
        v.len() > 0,
        valid_utf8(v),
    ensures
        SecureLocation::decode_spec(seq![SecureLocation::encode_spec(v)]) == Some(v),
{
}

} // verus!
