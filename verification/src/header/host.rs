//! The Host header of a discovery request: the destination address the
//! request was sent to.

use vstd::prelude::*;

use crate::ascii::{all_digits, copy_bytes, is_digit};
use crate::header::{single_value, Header};

verus! {

/// Represents the Host header that every discovery request must carry.
///
/// The raw value is kept as it appeared on the wire; `hostname` strips a
/// trailing `:port` suffix where one is present.
#[derive(Clone, PartialEq, Eq, Hash, Debug)]
pub struct Host(pub Vec<u8>);

impl DeepView for Host {
    type V = Seq<u8>;

    open spec fn deep_view(&self) -> Seq<u8> {
        self.0@
    }
}

/// Whether position `i` of `s` is the colon of a trailing `:port` suffix:
/// a colon followed by one or more digits and nothing else.
pub open spec fn is_port_colon(s: Seq<u8>, i: int) -> bool {
    0 <= i < s.len() && s[i] == 0x3A && i + 1 < s.len() && all_digits(s.skip(i + 1))
}

/// The host part of a host value: everything before a trailing `:port`
/// suffix, or the whole value where none is present.
pub open spec fn spec_hostname(s: Seq<u8>) -> Seq<u8> {
    if exists|i: int| #[trigger] is_port_colon(s, i) {
        s.take(choose|i: int| #[trigger] is_port_colon(s, i))
    } else {
        s
    }
}

/// At most one position can start a `:port` suffix.
proof fn lemma_port_colon_unique(s: Seq<u8>, i: int, j: int)
    requires
        is_port_colon(s, i),
        is_port_colon(s, j),
    ensures
        i == j,
{
    if i < j {
        assert(s.skip(i + 1)[j - (i + 1)] == s[j]);
        assert(is_digit(s[j]));
    } else if j < i {
        assert(s.skip(j + 1)[i - (j + 1)] == s[i]);
        assert(is_digit(s[i]));
    }
}

impl Host {
    /// The host part of this value, without a trailing `:port` suffix.
    pub fn hostname(&self) -> (r: Vec<u8>)
        ensures
            r@ == spec_hostname(self.0@),
    {
        let s = self.0.as_slice();
        let n = s.len();
        let mut i: usize = n;
        while i > 0
            invariant
                0 <= i <= n,
                n == s@.len(),
                s@ == self.0@,
                forall|j: int| i <= j < n ==> !(#[trigger] is_port_colon(s@, j)),
            decreases i,
        {
            let c = s[i - 1];
            if c == 0x3A && i < n && tail_all_digits(s, i) {
                let head = vstd::slice::slice_subrange(s, 0, i - 1);
                proof {
                    let w = i - 1;
                    assert(is_port_colon(s@, w as int));
                    let k = choose|k: int| #[trigger] is_port_colon(s@, k);
                    lemma_port_colon_unique(s@, k, w as int);
                    assert(k == w as int);
                    assert(head@ =~= s@.take(w as int));
                }
                return copy_bytes(head);
            }
            proof {
                let w = i - 1;
                assert(!is_port_colon(s@, w as int));
            }
            i = i - 1;
        }
        copy_bytes(s)
    }
}

/// Whether every byte from `from` to the end of `s` is a digit.
fn tail_all_digits(s: &[u8], from: usize) -> (r: bool)
    requires
        from <= s@.len(),
    ensures
        r == all_digits(s@.skip(from as int)),
{
    let mut j: usize = from;
    while j < s.len()
        invariant
            from <= j <= s@.len(),
            forall|k: int| from <= k < j ==> is_digit(#[trigger] s@[k]),
        decreases s@.len() - j,
    {
        let b = s[j];
        if b < 0x30 || b > 0x39 {
            assert(!is_digit(s@.skip(from as int)[j - from]));
            return false;
        }
        j += 1;
    }
    assert forall|k: int| 0 <= k < s@.skip(from as int).len() implies is_digit(
        #[trigger] s@.skip(from as int)[k],
    ) by {
        assert(s@.skip(from as int)[k] == s@[k + from]);
    }
    true
}

impl Header for Host {
    open spec fn wire_name() -> Seq<u8> {
        seq![0x68u8, 0x6Fu8, 0x73u8, 0x74u8]
    }

    open spec fn decode_spec(vals: Seq<Seq<u8>>) -> Option<Seq<u8>> {
        single_value(vals)
    }

    open spec fn encode_spec(v: Seq<u8>) -> Seq<u8> {
        v
    }

    fn name() -> (r: Vec<u8>) {
        let mut v: Vec<u8> = Vec::new();
        v.push(0x68);
        v.push(0x6F);
        v.push(0x73);
        v.push(0x74);
        proof {
            assert(v@ =~= Host::wire_name());
        }
        v
    }

    fn decode(values: &Vec<Vec<u8>>) -> (r: Option<Host>) {
        if values.len() != 1 {
            return None;
        }
        proof {
            assert(values.deep_view()[0] == values@[0]@);
        }
        Some(Host(copy_bytes(values[0].as_slice())))
    }

    fn encode(&self) -> (r: Vec<u8>) {
        copy_bytes(self.0.as_slice())
    }
}

/// Round-trip law: decoding an encoded Host header yields it back.
pub proof fn lemma_host_roundtrip(v: Seq<u8>)
    ensures
        Host::decode_spec(seq![Host::encode_spec(v)]) == Some(v),
{
}

} // verus!
