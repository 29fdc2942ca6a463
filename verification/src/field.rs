//! The `key:value` field grammar shared by the NT, ST and USN headers.
//!
//! A field token is split on its first colon. The prefix, compared without
//! regard to ASCII case, selects the `UPnP`, `URN` or `UUID` variant;
//! any other prefix yields `Unknown(key, value)`. Both sides must be
//! non-empty. Later colons stay inside the value verbatim.

use vstd::prelude::*;

use crate::ascii::{
    bytes_eq_ignore_case, eq_ignore_case, find_byte, find_byte_in, find_pat, find_pattern,
    lemma_find_byte, lemma_find_byte_is, lemma_find_pat, lemma_find_pat_is, lemma_find_pat_none,
    lower,
};

verus! {

/// The colon byte that separates a field's key from its value.
pub open spec fn colon() -> u8 {
    0x3A
}

/// The lower-case `upnp` prefix.
pub open spec fn upnp_key() -> Seq<u8> {
    seq![0x75u8, 0x70u8, 0x6Eu8, 0x70u8]
}

/// The lower-case `urn` prefix.
pub open spec fn urn_key() -> Seq<u8> {
    seq![0x75u8, 0x72u8, 0x6Eu8]
}

/// The lower-case `uuid` prefix.
pub open spec fn uuid_key() -> Seq<u8> {
    seq![0x75u8, 0x75u8, 0x69u8, 0x64u8]
}

/// A typed field token: one `key:value` pair with a recognized or unknown key.
#[derive(Clone, PartialEq, Eq, Hash, Debug)]
pub enum FieldMap {
    /// A token whose key was `upnp` in any case.
    UPnP(Vec<u8>),
    /// A token whose key was `urn` in any case.
    URN(Vec<u8>),
    /// A token whose key was `uuid` in any case.
    UUID(Vec<u8>),
    /// Any other token, kept as its raw key and value.
    Unknown(Vec<u8>, Vec<u8>),
}

/// The mathematical image of a `FieldMap`.
pub enum FieldToken {
    UPnP(Seq<u8>),
    URN(Seq<u8>),
    UUID(Seq<u8>),
    Unknown(Seq<u8>, Seq<u8>),
}

impl View for FieldMap {
    type V = FieldToken;

    open spec fn view(&self) -> FieldToken {
        match self {
            FieldMap::UPnP(v) => FieldToken::UPnP(v@),
            FieldMap::URN(v) => FieldToken::URN(v@),
            FieldMap::UUID(v) => FieldToken::UUID(v@),
            FieldMap::Unknown(k, v) => FieldToken::Unknown(k@, v@),
        }
    }
}

impl DeepView for FieldMap {
    type V = FieldToken;

    open spec fn deep_view(&self) -> FieldToken {
        self.view()
    }
}

/// What parsing a raw field token yields: split at the first colon, fail on
/// a missing colon or an empty side, and type the token by its key.
pub open spec fn spec_parse_field(s: Seq<u8>) -> Option<FieldToken> {
    match find_byte(s, colon()) {
        None => None,
        Some(i) => {
            let key = s.take(i);
            let val = s.skip(i + 1);
            if key.len() == 0 || val.len() == 0 {
                None
            } else if eq_ignore_case(key, upnp_key()) {
                Some(FieldToken::UPnP(val))
            } else if eq_ignore_case(key, urn_key()) {
                Some(FieldToken::URN(val))
            } else if eq_ignore_case(key, uuid_key()) {
                Some(FieldToken::UUID(val))
            } else {
                Some(FieldToken::Unknown(key, val))
            }
        },
    }
}

/// What encoding a field token yields: the canonical lower-case key for the
/// known variants, or the stored key, rejoined with a single colon.
pub open spec fn spec_encode_field(t: FieldToken) -> Seq<u8> {
    match t {
        FieldToken::UPnP(v) => upnp_key().push(colon()) + v,
        FieldToken::URN(v) => urn_key().push(colon()) + v,
        FieldToken::UUID(v) => uuid_key().push(colon()) + v,
        FieldToken::Unknown(k, v) => k.push(colon()) + v,
    }
}

/// The tokens that encoding then parsing reproduces: non-empty payloads, and
/// for `Unknown` a key that is non-empty, colon-free and not one of the
/// recognized prefixes.
pub open spec fn field_valid(t: FieldToken) -> bool {
    match t {
        FieldToken::UPnP(v) => v.len() > 0,
        FieldToken::URN(v) => v.len() > 0,
        FieldToken::UUID(v) => v.len() > 0,
        FieldToken::Unknown(k, v) => k.len() > 0 && v.len() > 0 && (forall|j: int|
            0 <= j < k.len() ==> k[j] != colon()) && !eq_ignore_case(k, upnp_key())
            && !eq_ignore_case(k, urn_key()) && !eq_ignore_case(k, uuid_key()),
    }
}

impl FieldMap {
    /// Parse one raw field token.
    pub fn parse_bytes(bytes: &[u8]) -> (r: Option<FieldMap>)
        ensures
            match r {
                Some(f) => spec_parse_field(bytes@) == Some(f@),
                None => spec_parse_field(bytes@) is None,
            },
    {
        let i = match find_byte_in(bytes, 0x3A) {
            Some(i) => i,
            None => {
                return None;
            },
        };
        let n = bytes.len();
        proof {
            lemma_find_byte(bytes@, colon());
            assert(i < n);
        }
        let key = vstd::slice::slice_subrange(bytes, 0, i);
        let val = vstd::slice::slice_subrange(bytes, i + 1, n);
        proof {
            assert(key@ =~= bytes@.take(i as int));
            assert(val@ =~= bytes@.skip(i + 1));
        }
        if key.len() == 0 || val.len() == 0 {
            return None;
        }
        let upnp: Vec<u8> = vec![0x75, 0x70, 0x6E, 0x70];
        let urn: Vec<u8> = vec![0x75, 0x72, 0x6E];
        let uuid: Vec<u8> = vec![0x75, 0x75, 0x69, 0x64];
        proof {
            assert(upnp@ =~= upnp_key());
            assert(urn@ =~= urn_key());
            assert(uuid@ =~= uuid_key());
        }
        if bytes_eq_ignore_case(key, upnp.as_slice()) {
            Some(FieldMap::UPnP(crate::ascii::copy_bytes(val)))
        } else if bytes_eq_ignore_case(key, urn.as_slice()) {
            Some(FieldMap::URN(crate::ascii::copy_bytes(val)))
        } else if bytes_eq_ignore_case(key, uuid.as_slice()) {
            Some(FieldMap::UUID(crate::ascii::copy_bytes(val)))
        } else {
            Some(FieldMap::Unknown(crate::ascii::copy_bytes(key), crate::ascii::copy_bytes(val)))
        }
    }

    /// Encode this token back to its wire bytes.
    pub fn encode(&self) -> (r: Vec<u8>)
        ensures
            r@ == spec_encode_field(self@),
    {
        let mut out: Vec<u8> = Vec::new();
        match self {
            FieldMap::UPnP(v) => {
                out.push(0x75);
                out.push(0x70);
                out.push(0x6E);
                out.push(0x70);
                out.push(0x3A);
                out.extend_from_slice(v.as_slice());
                proof {
                    assert(out@ =~= spec_encode_field(self@));
                }
            },
            FieldMap::URN(v) => {
                out.push(0x75);
                out.push(0x72);
                out.push(0x6E);
                out.push(0x3A);
                out.extend_from_slice(v.as_slice());
                proof {
                    assert(out@ =~= spec_encode_field(self@));
                }
            },
            FieldMap::UUID(v) => {
                out.push(0x75);
                out.push(0x75);
                out.push(0x69);
                out.push(0x64);
                out.push(0x3A);
                out.extend_from_slice(v.as_slice());
                proof {
                    assert(out@ =~= spec_encode_field(self@));
                }
            },
            FieldMap::Unknown(k, v) => {
                out.extend_from_slice(k.as_slice());
                out.push(0x3A);
                out.extend_from_slice(v.as_slice());
                proof {
                    assert(out@ =~= spec_encode_field(self@));
                }
            },
        }
        out
    }
}

/// Parsing inverts encoding on every valid field token.
pub proof fn lemma_field_roundtrip(t: FieldToken)
    requires
        field_valid(t),
    ensures
        spec_parse_field(spec_encode_field(t)) == Some(t),
{
    let enc = spec_encode_field(t);
    match t {
        FieldToken::UPnP(v) => {
            lemma_find_byte_is(enc, colon(), 4);
            assert(enc.take(4) =~= upnp_key());
            assert(enc.skip(5) =~= v);
        },
        FieldToken::URN(v) => {
            lemma_find_byte_is(enc, colon(), 3);
            assert(enc.take(3) =~= urn_key());
            assert(enc.skip(4) =~= v);
            assert(!eq_ignore_case(urn_key(), upnp_key())) by {
                assert(lower(urn_key()).len() == 3 && lower(upnp_key()).len() == 4);
            }
        },
        FieldToken::UUID(v) => {
            lemma_find_byte_is(enc, colon(), 4);
            assert(enc.take(4) =~= uuid_key());
            assert(enc.skip(5) =~= v);
            assert(!eq_ignore_case(uuid_key(), upnp_key())) by {
                assert(lower(uuid_key())[1] == 0x75 && lower(upnp_key())[1] == 0x70);
            }
            assert(!eq_ignore_case(uuid_key(), urn_key())) by {
                assert(lower(uuid_key()).len() == 4 && lower(urn_key()).len() == 3);
            }
        },
        FieldToken::Unknown(k, v) => {
            lemma_find_byte_is(enc, colon(), k.len() as int);
            assert(enc.take(k.len() as int) =~= k);
            assert(enc.skip(k.len() as int + 1) =~= v);
        },
    }
}


/// The `::` separator between the two tokens of a USN value.
pub open spec fn dcolon() -> Seq<u8> {
    seq![0x3Au8, 0x3Au8]
}

/// No two adjacent colons anywhere in `s`.
pub open spec fn no_dcolon(s: Seq<u8>) -> bool {
    forall|j: int| 0 <= j && j + 1 < s.len() ==> !(#[trigger] s[j] == colon() && s[j + 1] == colon())
}

/// Up to two trailing colons removed from the end of `s`.
pub open spec fn strip_trailing_colons2(s: Seq<u8>) -> Seq<u8> {
    let s1 = if s.len() > 0 && s.last() == colon() {
        s.drop_last()
    } else {
        s
    };
    if s1.len() > 0 && s1.last() == colon() {
        s1.drop_last()
    } else {
        s1
    }
}

/// What splitting a USN value into its (up to two) token partitions yields.
///
/// The text before the first `::`, with up to two trailing colons stripped,
/// is the mandatory first partition; the text after it is the optional
/// second, absent where empty. Without a `::` the whole value, with up to
/// two trailing colons stripped, is the first partition.
pub open spec fn spec_partition(s: Seq<u8>) -> Option<(Seq<u8>, Option<Seq<u8>>)> {
    let pieces = match find_pat(s, dcolon()) {
        Some(i) => (s.take(i + 2), s.skip(i + 2)),
        None => (s, Seq::<u8>::empty()),
    };
    let first = strip_trailing_colons2(pieces.0);
    let second = pieces.1;
    if first.len() == 0 {
        None
    } else if second.len() == 0 {
        Some((first, None))
    } else {
        Some((first, Some(second)))
    }
}

/// Split a USN value into its token partitions.
pub fn partition_pairs(bytes: &[u8]) -> (r: Option<(Vec<u8>, Option<Vec<u8>>)>)
    ensures
        r.deep_view() == spec_partition(bytes@),
{
    let dc: Vec<u8> = vec![0x3A, 0x3A];
    proof {
        assert(dc@ =~= dcolon());
    }
    let n = bytes.len();
    let (first_raw, second) = match find_pattern(bytes, dc.as_slice()) {
        Some(i) => {
            proof {
                lemma_find_pat(bytes@, dcolon());
            }
            (
                vstd::slice::slice_subrange(bytes, 0, i + 2),
                vstd::slice::slice_subrange(bytes, i + 2, n),
            )
        },
        None => (bytes, vstd::slice::slice_subrange(bytes, n, n)),
    };
    let mut end = first_raw.len();
    if end > 0 && first_raw[end - 1] == 0x3A {
        end = end - 1;
    }
    if end > 0 && first_raw[end - 1] == 0x3A {
        end = end - 1;
    }
    let first = vstd::slice::slice_subrange(first_raw, 0, end);
    proof {
        let fr = first_raw@;
        if fr.len() > 0 && fr.last() == colon() {
            assert(fr.drop_last() =~= fr.subrange(0, fr.len() - 1));
            let s1 = fr.drop_last();
            if s1.len() > 0 && s1.last() == colon() {
                assert(s1.drop_last() =~= fr.subrange(0, fr.len() - 2));
            }
        }
        assert(first@ == strip_trailing_colons2(fr));
    }
    if first.len() == 0 {
        proof {
            assert(spec_partition(bytes@) is None);
        }
        None
    } else if second.len() == 0 {
        Some((crate::ascii::copy_bytes(first), None))
    } else {
        Some((crate::ascii::copy_bytes(first), Some(crate::ascii::copy_bytes(second))))
    }
}

/// A value without adjacent colons and without a trailing colon is one
/// whole first partition.
pub proof fn lemma_partition_single(e: Seq<u8>)
    requires
        e.len() > 0,
        no_dcolon(e),
        e.last() != colon(),
    ensures
        spec_partition(e) == Some((e, Option::<Seq<u8>>::None)),
{
    assert forall|j: int| 0 <= j && j + 2 <= e.len() implies #[trigger] e.subrange(j, j + 2)
        != dcolon() by {
        if e.subrange(j, j + 2) == dcolon() {
            assert(e.subrange(j, j + 2)[0] == e[j]);
            assert(e.subrange(j, j + 2)[1] == e[j + 1]);
        }
    }
    lemma_find_pat_none(e, dcolon());
}

/// Two separator-free tokens joined by `::` split back into themselves.
pub proof fn lemma_partition_double(e1: Seq<u8>, e2: Seq<u8>)
    requires
        e1.len() > 0,
        no_dcolon(e1),
        e1.last() != colon(),
        e2.len() > 0,
    ensures
        spec_partition(e1 + dcolon() + e2) == Some((e1, Some(e2))),
{
    let s = e1 + dcolon() + e2;
    let i = e1.len() as int;
    assert(s.subrange(i, i + 2) =~= dcolon());
    assert forall|j: int| 0 <= j < i implies #[trigger] s.subrange(j, j + 2) != dcolon() by {
        if s.subrange(j, j + 2) == dcolon() {
            assert(s.subrange(j, j + 2)[0] == s[j]);
            assert(s.subrange(j, j + 2)[1] == s[j + 1]);
            assert(s[j] == e1[j]);
            if j + 1 < i {
                assert(s[j + 1] == e1[j + 1]);
            } else {
                assert(j == i - 1);
                assert(s[j] == e1.last());
            }
        }
    }
    lemma_find_pat_is(s, dcolon(), i);
    assert(s.take(i + 2) =~= e1 + dcolon());
    assert(s.skip(i + 2) =~= e2);
    assert((e1 + dcolon()).drop_last() =~= e1.push(colon()));
    assert(e1.push(colon()).drop_last() =~= e1);
    assert(strip_trailing_colons2(e1 + dcolon()) == e1);
}

} // verus!
