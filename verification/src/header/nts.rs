//! The NTS header: the sub-type of a notification.

use vstd::prelude::*;

use crate::ascii::bytes_eq;
use crate::header::{single_value, Header};

verus! {

/// The `ssdp:alive` literal.
pub open spec fn alive_value() -> Seq<u8> {
    seq![0x73u8, 0x73u8, 0x64u8, 0x70u8, 0x3Au8, 0x61u8, 0x6Cu8, 0x69u8, 0x76u8, 0x65u8]
}

/// The `ssdp:update` literal.
pub open spec fn update_value() -> Seq<u8> {
    seq![0x73u8, 0x73u8, 0x64u8, 0x70u8, 0x3Au8, 0x75u8, 0x70u8, 0x64u8, 0x61u8, 0x74u8, 0x65u8]
}

/// The `ssdp:byebye` literal.
pub open spec fn byebye_value() -> Seq<u8> {
    seq![0x73u8, 0x73u8, 0x64u8, 0x70u8, 0x3Au8, 0x62u8, 0x79u8, 0x65u8, 0x62u8, 0x79u8, 0x65u8]
}

/// Represents a header which specifies a notification sub type. Decoding
/// accepts exactly the three literals, byte for byte.
#[derive(Copy, Clone, PartialEq, Eq, Structural, Hash, Debug)]
pub enum NTS {
    /// An entity is announcing itself to the network.
    Alive,
    /// An entity is updating its presence on the network.
    Update,
    /// An entity is removing itself from the network.
    ByeBye,
}

impl DeepView for NTS {
    type V = NTS;

    open spec fn deep_view(&self) -> NTS {
        *self
    }
}

impl Header for NTS {
    open spec fn wire_name() -> Seq<u8> {
        seq![0x6Eu8, 0x74u8, 0x73u8]
    }

    open spec fn decode_spec(vals: Seq<Seq<u8>>) -> Option<NTS> {
        match single_value(vals) {
            Some(s) => if s == alive_value() {
                Some(NTS::Alive)
            } else if s == update_value() {
                Some(NTS::Update)
            } else if s == byebye_value() {
                Some(NTS::ByeBye)
            } else {
                None
            },
            None => None,
        }
    }

    open spec fn encode_spec(v: NTS) -> Seq<u8> {
        match v {
            NTS::Alive => alive_value(),
            NTS::Update => update_value(),
            NTS::ByeBye => byebye_value(),
        }
    }

    fn name() -> (r: Vec<u8>) {
        let mut v: Vec<u8> = Vec::new();
        v.push(0x6E);
        v.push(0x74);
        v.push(0x73);
        proof {
            assert(v@ =~= NTS::wire_name());
        }
        v
    }

    fn decode(values: &Vec<Vec<u8>>) -> (r: Option<NTS>) {
        if values.len() != 1 {
            return None;
        }
        proof {
            assert(values.deep_view()[0] == values@[0]@);
        }
        let alive = NTS::Alive.encode();
        let update = NTS::Update.encode();
        let byebye = NTS::ByeBye.encode();
        let value = values[0].as_slice();
        if bytes_eq(value, alive.as_slice()) {
            Some(NTS::Alive)
        } else if bytes_eq(value, update.as_slice()) {
            Some(NTS::Update)
        } else if bytes_eq(value, byebye.as_slice()) {
            Some(NTS::ByeBye)
        } else {
            None
        }
    }

    fn encode(&self) -> (r: Vec<u8>) {
        let mut v: Vec<u8> = Vec::new();
        match self {
            NTS::Alive => {
                v.push(0x73);
        v.push(0x73);
        v.push(0x64);
        v.push(0x70);
        v.push(0x3A);
        v.push(0x61);
        v.push(0x6C);
        v.push(0x69);
        v.push(0x76);
        v.push(0x65);
                proof {
                    assert(v@ =~= alive_value());
                }
            },
            NTS::Update => {
                v.push(0x73);
        v.push(0x73);
        v.push(0x64);
        v.push(0x70);
        v.push(0x3A);
        v.push(0x75);
        v.push(0x70);
        v.push(0x64);
        v.push(0x61);
        v.push(0x74);
        v.push(0x65);
                proof {
                    assert(v@ =~= update_value());
                }
            },
            NTS::ByeBye => {
                v.push(0x73);
        v.push(0x73);
        v.push(0x64);
        v.push(0x70);
        v.push(0x3A);
        v.push(0x62);
        v.push(0x79);
        v.push(0x65);
        v.push(0x62);
        v.push(0x79);
        v.push(0x65);
                proof {
                    assert(v@ =~= byebye_value());
                }
            },
        }
        v
    }
}

/// Round-trip law: decoding an encoded NTS header yields it back, for each
/// of the three sub-types.
pub proof fn lemma_nts_roundtrip(v: NTS)
    ensures
        NTS::decode_spec(seq![NTS::encode_spec(v)]) == Some(v),
{
    assert(alive_value()[5] != update_value()[5]);
    assert(alive_value()[5] != byebye_value()[5]);
    assert(update_value()[5] != byebye_value()[5]);
}

} // verus!
