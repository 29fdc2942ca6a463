//! The message codec: validating raw datagram bytes into a discovery
//! message and serializing a message back to wire bytes.
//!
//! A discovery message is one HTTP-shaped packet: a request line
//! `METHOD * HTTP/1.1` or a status line `HTTP/1.1 200 OK`, a block of
//! `Name: value` header lines, an empty line, and no body. Decoding
//! distinguishes a packet cut short before the header terminator
//! (`PartialHttp`) from a malformed one (`InvalidHttp`), and checks the
//! version, the target, the method, the status code and the mandatory
//! `Host` header exactly as the protocol demands.

use vstd::prelude::*;

use crate::ascii::{
    all_digits, bytes_eq, copy_bytes, digits_val, find_byte, find_byte_in, find_pat, find_pattern,
    is_digit, lemma_find_byte,
};
use crate::error::{SSDPError, SSDPErrorView, SSDPResult};
use crate::header::{spec_has_name, spec_remove_name, spec_values_of, Header, HeaderBlock, Host};
use crate::message::MessageType;
use crate::receiver::FromRawSSDP;

verus! {

/// The space byte.
pub open spec fn sp() -> u8 {
    0x20
}

/// The carriage-return/line-feed pair that ends each wire line.
pub open spec fn crlf() -> Seq<u8> {
    seq![0x0Du8, 0x0Au8]
}

/// The empty line that terminates the header block.
pub open spec fn crlfcrlf() -> Seq<u8> {
    seq![0x0Du8, 0x0Au8, 0x0Du8, 0x0Au8]
}

/// The `HTTP/` prefix that classifies a packet as a response.
pub open spec fn http_slash() -> Seq<u8> {
    seq![0x48u8, 0x54u8, 0x54u8, 0x50u8, 0x2Fu8]
}

/// The `NOTIFY` method literal.
pub open spec fn notify_method() -> Seq<u8> {
    seq![0x4Eu8, 0x4Fu8, 0x54u8, 0x49u8, 0x46u8, 0x59u8]
}

/// The `M-SEARCH` method literal.
pub open spec fn search_method() -> Seq<u8> {
    seq![0x4Du8, 0x2Du8, 0x53u8, 0x45u8, 0x41u8, 0x52u8, 0x43u8, 0x48u8]
}

/// The `*` target that every discovery request must carry.
pub open spec fn star_target() -> Seq<u8> {
    seq![0x2Au8]
}

/// A token byte, as header names and methods allow: a letter, a digit, or
/// one of the listed punctuation marks.
pub open spec fn is_tchar(b: u8) -> bool {
    ||| 0x30 <= b <= 0x39
    ||| 0x41 <= b <= 0x5A
    ||| 0x61 <= b <= 0x7A
    ||| b == 0x21 || b == 0x23 || b == 0x24 || b == 0x25 || b == 0x26 || b == 0x27
    ||| b == 0x2A || b == 0x2B || b == 0x2D || b == 0x2E
    ||| b == 0x5E || b == 0x5F || b == 0x60 || b == 0x7C || b == 0x7E
}

/// A non-empty string of token bytes.
pub open spec fn is_token(s: Seq<u8>) -> bool {
    s.len() > 0 && forall|i: int| 0 <= i < s.len() ==> is_tchar(#[trigger] s[i])
}

/// A byte a request target may hold: anything visible, space excluded.
pub open spec fn is_target_byte(b: u8) -> bool {
    b > 0x20 && b != 0x7F
}

/// A byte a header value or a status reason may hold: horizontal tab,
/// space, or anything above space except delete.
pub open spec fn is_field_byte(b: u8) -> bool {
    b == 0x09 || (0x20 <= b && b != 0x7F)
}

/// A horizontal tab or a space, the optional whitespace around a value.
pub open spec fn is_ows(b: u8) -> bool {
    b == 0x20 || b == 0x09
}

/// `s` without its leading optional whitespace.
pub open spec fn trim_front(s: Seq<u8>) -> Seq<u8>
    decreases s.len(),
{
    if s.len() > 0 && is_ows(s[0]) {
        trim_front(s.skip(1))
    } else {
        s
    }
}

/// `s` without its trailing optional whitespace.
pub open spec fn trim_back(s: Seq<u8>) -> Seq<u8>
    decreases s.len(),
{
    if s.len() > 0 && is_ows(s.last()) {
        trim_back(s.drop_last())
    } else {
        s
    }
}

/// `s` without optional whitespace on either end.
pub open spec fn trim_ows(s: Seq<u8>) -> Seq<u8> {
    trim_back(trim_front(s))
}

/// Cut the optional whitespace off both ends of a byte string.
#[verifier::loop_isolation(false)]
pub fn trim_ows_exec(s: &[u8]) -> (r: Vec<u8>)
    ensures
        r@ == trim_ows(s@),
{
    let n = s.len();
    let mut front: usize = 0;
    proof {
        assert(s@.skip(0) =~= s@);
    }
    while front < n && (s[front] == 0x20 || s[front] == 0x09)
        invariant
            0 <= front <= n,
            n == s@.len(),
            trim_front(s@) == trim_front(s@.skip(front as int)),
        decreases n - front,
    {
        proof {
            assert(s@.skip(front as int).skip(1) =~= s@.skip(front as int + 1));
        }
        front += 1;
    }
    let ghost t = s@.skip(front as int);
    proof {
        assert(trim_front(s@) == t);
    }
    let mut back: usize = n;
    proof {
        assert(t.take(n - front) =~= t);
    }
    while back > front && (s[back - 1] == 0x20 || s[back - 1] == 0x09)
        invariant
            front <= back <= n,
            n == s@.len(),
            t == s@.skip(front as int),
            trim_back(t) == trim_back(t.take(back - front)),
        decreases back,
    {
        proof {
            let piece = t.take(back - front);
            assert(piece.last() == s@[back - 1]);
            assert(piece.drop_last() =~= t.take(back - 1 - front));
        }
        back -= 1;
    }
    proof {
        let piece = t.take(back - front);
        if back > front {
            assert(piece.last() == s@[back - 1]);
        }
        assert(trim_back(piece) == piece);
    }
    let out = vstd::slice::slice_subrange(s, front, back);
    proof {
        assert(out@ =~= t.take(back - front));
    }
    copy_bytes(out)
}

/// What parsing one header line yields: the name before the first colon,
/// which must be a token, and the value after it, trimmed of optional
/// whitespace, whose bytes must all be legal field bytes.
pub open spec fn spec_parse_header_line(line: Seq<u8>) -> Option<(Seq<u8>, Seq<u8>)> {
    match find_byte(line, 0x3A) {
        None => None,
        Some(i) => {
            let name = line.take(i);
            let raw = line.skip(i + 1);
            if is_token(name) && (forall|j: int|
                0 <= j < raw.len() ==> is_field_byte(#[trigger] raw[j])) {
                Some((name, trim_ows(raw)))
            } else {
                None
            }
        },
    }
}

/// Parse one header line.
#[verifier::loop_isolation(false)]
pub fn parse_header_line(line: &[u8]) -> (r: Option<(Vec<u8>, Vec<u8>)>)
    ensures
        match r {
            Some(pair) => spec_parse_header_line(line@) == Some((pair.0@, pair.1@)),
            None => spec_parse_header_line(line@) is None,
        },
{
    let n = line.len();
    let i = match find_byte_in(line, 0x3A) {
        Some(i) => i,
        None => {
            return None;
        },
    };
    proof {
        lemma_find_byte(line@, 0x3A);
        assert(i < n);
    }
    let name = vstd::slice::slice_subrange(line, 0, i);
    let raw = vstd::slice::slice_subrange(line, i + 1, n);
    proof {
        assert(name@ =~= line@.take(i as int));
        assert(raw@ =~= line@.skip(i as int + 1));
    }
    if name.len() == 0 {
        return None;
    }
    let mut j: usize = 0;
    while j < name.len()
        invariant
            0 <= j <= name@.len(),
            forall|k: int| 0 <= k < j ==> is_tchar(#[trigger] name@[k]),
        decreases name@.len() - j,
    {
        let b = name[j];
        let ok = (0x30 <= b && b <= 0x39) || (0x41 <= b && b <= 0x5A) || (0x61 <= b && b <= 0x7A)
            || b == 0x21 || b == 0x23 || b == 0x24 || b == 0x25 || b == 0x26 || b == 0x27
            || b == 0x2A || b == 0x2B || b == 0x2D || b == 0x2E || b == 0x5E || b == 0x5F
            || b == 0x60 || b == 0x7C || b == 0x7E;
        if !ok {
            assert(!is_tchar(name@[j as int]));
            return None;
        }
        j += 1;
    }
    assert(is_token(name@));
    let mut k: usize = 0;
    while k < raw.len()
        invariant
            0 <= k <= raw@.len(),
            forall|m: int| 0 <= m < k ==> is_field_byte(#[trigger] raw@[m]),
        decreases raw@.len() - k,
    {
        let b = raw[k];
        if !(b == 0x09 || (0x20 <= b && b != 0x7F)) {
            assert(!is_field_byte(raw@[k as int]));
            return None;
        }
        k += 1;
    }
    let value = trim_ows_exec(raw);
    Some((copy_bytes(name), value))
}

/// What parsing the header block yields: each line up to its `\r\n` parsed
/// in turn, every line well-formed or the whole block rejected.
pub open spec fn spec_parse_header_lines(s: Seq<u8>) -> Option<Seq<(Seq<u8>, Seq<u8>)>>
    decreases s.len(),
{
    if s.len() == 0 {
        Some(Seq::empty())
    } else {
        match find_pat(s, crlf()) {
            None => None,
            Some(i) => if i < 0 {
                None
            } else {
                let next = if i + 2 <= s.len() {
                    i + 2
                } else {
                    s.len() as int
                };
                match spec_parse_header_line(s.take(i)) {
                    None => None,
                    Some(pair) => match spec_parse_header_lines(s.skip(next)) {
                        None => None,
                        Some(rest) => Some(seq![pair] + rest),
                    },
                }
            },
        }
    }
}

/// Parse the whole header block: the bytes between the start line and the
/// empty-line terminator, each line ending in `\r\n`.
#[verifier::loop_isolation(false)]
pub fn parse_header_block(block: &[u8]) -> (r: Option<Vec<(Vec<u8>, Vec<u8>)>>)
    ensures
        match r {
            Some(v) => spec_parse_header_lines(block@) == Some(v.deep_view()),
            None => spec_parse_header_lines(block@) is None,
        },
{
    let n = block.len();
    let mut pos: usize = 0;
    let mut out: Vec<(Vec<u8>, Vec<u8>)> = Vec::new();
    let crlf_pat: Vec<u8> = vec![0x0D, 0x0A];
    proof {
        assert(crlf_pat@ =~= crlf());
        assert(block@.skip(0) =~= block@);
        assert(out.deep_view() =~= Seq::<(Seq<u8>, Seq<u8>)>::empty());
    }
    while pos < n
        invariant
            0 <= pos <= n,
            n == block@.len(),
            crlf_pat@ == crlf(),
            match spec_parse_header_lines(block@.skip(pos as int)) {
                Some(rest) => spec_parse_header_lines(block@) == Some(out.deep_view() + rest),
                None => spec_parse_header_lines(block@) is None,
            },
        decreases n - pos,
    {
        let ghost remaining = block@.skip(pos as int);
        let tail = vstd::slice::slice_subrange(block, pos, n);
        proof {
            assert(tail@ =~= remaining);
        }
        let i = match find_pattern(tail, crlf_pat.as_slice()) {
            Some(i) => i,
            None => {
                return None;
            },
        };
        proof {
            crate::ascii::lemma_find_pat(remaining, crlf());
        }
        let line = vstd::slice::slice_subrange(tail, 0, i);
        proof {
            assert(line@ =~= remaining.take(i as int));
        }
        let pair = match parse_header_line(line) {
            Some(pair) => pair,
            None => {
                return None;
            },
        };
        let ghost before = out.deep_view();
        out.push(pair);
        proof {
            assert(out.deep_view() =~~= before.push((pair.0@, pair.1@)));
            assert(remaining.skip(i as int + 2) =~= block@.skip(pos + i + 2));
            if spec_parse_header_lines(block@.skip(pos + i + 2)) is Some {
                let rest = spec_parse_header_lines(block@.skip(pos + i + 2))->Some_0;
                assert(seq![(pair.0@, pair.1@)] + rest =~= rest.insert(0, (pair.0@, pair.1@)));
                assert(before + (seq![(pair.0@, pair.1@)] + rest) =~= out.deep_view() + rest);
            }
        }
        pos = pos + i + 2;
    }
    proof {
        assert(block@.skip(n as int) =~= Seq::<u8>::empty());
        assert(out.deep_view() + Seq::<(Seq<u8>, Seq<u8>)>::empty() =~= out.deep_view());
    }
    Some(out)
}

/// What parsing an `HTTP/x.y` version token yields: the major and minor
/// digits, where the token is exactly eight bytes of that shape.
pub open spec fn spec_parse_version(v: Seq<u8>) -> Option<(u8, u8)> {
    if v.len() == 8 && v.take(5) == http_slash() && is_digit(v[5]) && v[6] == 0x2E && is_digit(
        v[7],
    ) {
        Some(((v[5] - 0x30) as u8, (v[7] - 0x30) as u8))
    } else {
        None
    }
}

/// Parse an `HTTP/x.y` version token.
pub fn parse_version(v: &[u8]) -> (r: Option<(u8, u8)>)
    ensures
        r == spec_parse_version(v@),
{
    if v.len() != 8 {
        return None;
    }
    if v[0] == 0x48 && v[1] == 0x54 && v[2] == 0x54 && v[3] == 0x50 && v[4] == 0x2F && 0x30 <= v[5]
        && v[5] <= 0x39 && v[6] == 0x2E && 0x30 <= v[7] && v[7] <= 0x39 {
        proof {
            assert(v@.take(5) =~= http_slash());
        }
        Some((v[5] - 0x30, v[7] - 0x30))
    } else {
        proof {
            if v@.take(5) == http_slash() {
                assert(v@[0] == 0x48 && v@[1] == 0x54 && v@[2] == 0x54 && v@[3] == 0x50 && v@[4]
                    == 0x2F) by {
                    assert(v@.take(5)[0] == v@[0]);
                    assert(v@.take(5)[1] == v@[1]);
                    assert(v@.take(5)[2] == v@[2]);
                    assert(v@.take(5)[3] == v@[3]);
                    assert(v@.take(5)[4] == v@[4]);
                }
            }
        }
        None
    }
}

/// What parsing a request line yields: a token method, a non-empty
/// all-visible target and a version token, separated by single spaces.
pub open spec fn spec_parse_request_line(line: Seq<u8>) -> Option<(Seq<u8>, Seq<u8>, (u8, u8))> {
    match find_byte(line, sp()) {
        None => None,
        Some(i) => {
            let method = line.take(i);
            let rest = line.skip(i + 1);
            match find_byte(rest, sp()) {
                None => None,
                Some(j) => {
                    let target = rest.take(j);
                    let vtok = rest.skip(j + 1);
                    if is_token(method) && target.len() > 0 && (forall|k: int|
                        0 <= k < target.len() ==> is_target_byte(#[trigger] target[k])) {
                        match spec_parse_version(vtok) {
                            Some(ver) => Some((method, target, ver)),
                            None => None,
                        }
                    } else {
                        None
                    }
                },
            }
        },
    }
}

/// Parse a request line.
#[verifier::loop_isolation(false)]
pub fn parse_request_line(line: &[u8]) -> (r: Option<(Vec<u8>, Vec<u8>, (u8, u8))>)
    ensures
        match r {
            Some(t) => spec_parse_request_line(line@) == Some((t.0@, t.1@, t.2)),
            None => spec_parse_request_line(line@) is None,
        },
{
    let n = line.len();
    let i = match find_byte_in(line, 0x20) {
        Some(i) => i,
        None => {
            return None;
        },
    };
    proof {
        lemma_find_byte(line@, sp());
        assert(i < n);
    }
    let method = vstd::slice::slice_subrange(line, 0, i);
    let rest = vstd::slice::slice_subrange(line, i + 1, n);
    proof {
        assert(method@ =~= line@.take(i as int));
        assert(rest@ =~= line@.skip(i as int + 1));
    }
    let j = match find_byte_in(rest, 0x20) {
        Some(j) => j,
        None => {
            return None;
        },
    };
    proof {
        lemma_find_byte(rest@, sp());
        assert(j < rest@.len());
    }
    let target = vstd::slice::slice_subrange(rest, 0, j);
    let vtok = vstd::slice::slice_subrange(rest, j + 1, rest.len());
    proof {
        assert(target@ =~= rest@.take(j as int));
        assert(vtok@ =~= rest@.skip(j as int + 1));
    }
    if method.len() == 0 || target.len() == 0 {
        return None;
    }
    let mut k: usize = 0;
    while k < method.len()
        invariant
            0 <= k <= method@.len(),
            forall|m: int| 0 <= m < k ==> is_tchar(#[trigger] method@[m]),
        decreases method@.len() - k,
    {
        let b = method[k];
        let ok = (0x30 <= b && b <= 0x39) || (0x41 <= b && b <= 0x5A) || (0x61 <= b && b <= 0x7A)
            || b == 0x21 || b == 0x23 || b == 0x24 || b == 0x25 || b == 0x26 || b == 0x27
            || b == 0x2A || b == 0x2B || b == 0x2D || b == 0x2E || b == 0x5E || b == 0x5F
            || b == 0x60 || b == 0x7C || b == 0x7E;
        if !ok {
            assert(!is_tchar(method@[k as int]));
            return None;
        }
        k += 1;
    }
    assert(is_token(method@));
    let mut k2: usize = 0;
    while k2 < target.len()
        invariant
            0 <= k2 <= target@.len(),
            forall|m: int| 0 <= m < k2 ==> is_target_byte(#[trigger] target@[m]),
        decreases target@.len() - k2,
    {
        let b = target[k2];
        if !(b > 0x20 && b != 0x7F) {
            assert(!is_target_byte(target@[k2 as int]));
            return None;
        }
        k2 += 1;
    }
    match parse_version(vtok) {
        Some(ver) => Some((copy_bytes(method), copy_bytes(target), ver)),
        None => None,
    }
}

/// What parsing a status line yields: a version token, a space, a
/// three-digit status code, and an optional reason after one more space.
pub open spec fn spec_parse_status_line(line: Seq<u8>) -> Option<((u8, u8), u16)> {
    match find_byte(line, sp()) {
        None => None,
        Some(i) => {
            let vtok = line.take(i);
            let rest = line.skip(i + 1);
            match spec_parse_version(vtok) {
                None => None,
                Some(ver) => {
                    if rest.len() >= 3 && all_digits(rest.take(3)) && (rest.len() == 3 || (
                    rest[3] == sp() && forall|k: int|
                        4 <= k < rest.len() ==> is_field_byte(#[trigger] rest[k]))) {
                        Some((ver, digits_val(rest.take(3)) as u16))
                    } else {
                        None
                    }
                },
            }
        },
    }
}

/// Parse a status line.
#[verifier::loop_isolation(false)]
pub fn parse_status_line(line: &[u8]) -> (r: Option<((u8, u8), u16)>)
    ensures
        r == spec_parse_status_line(line@),
{
    let n = line.len();
    let i = match find_byte_in(line, 0x20) {
        Some(i) => i,
        None => {
            return None;
        },
    };
    proof {
        lemma_find_byte(line@, sp());
        assert(i < n);
    }
    let vtok = vstd::slice::slice_subrange(line, 0, i);
    let rest = vstd::slice::slice_subrange(line, i + 1, n);
    proof {
        assert(vtok@ =~= line@.take(i as int));
        assert(rest@ =~= line@.skip(i as int + 1));
    }
    let ver = match parse_version(vtok) {
        Some(v) => v,
        None => {
            return None;
        },
    };
    if rest.len() < 3 {
        return None;
    }
    let d0 = rest[0];
    let d1 = rest[1];
    let d2 = rest[2];
    if !(0x30 <= d0 && d0 <= 0x39 && 0x30 <= d1 && d1 <= 0x39 && 0x30 <= d2 && d2 <= 0x39) {
        proof {
            let three = rest@.take(3);
            if all_digits(three) {
                assert(is_digit(three[0]) && is_digit(three[1]) && is_digit(three[2]));
            }
        }
        return None;
    }
    if rest.len() > 3 {
        if rest[3] != 0x20 {
            return None;
        }
        let mut k: usize = 4;
        while k < rest.len()
            invariant
                4 <= k <= rest@.len(),
                forall|m: int| 4 <= m < k ==> is_field_byte(#[trigger] rest@[m]),
            decreases rest@.len() - k,
        {
            let b = rest[k];
            if !(b == 0x09 || (0x20 <= b && b != 0x7F)) {
                assert(!is_field_byte(rest@[k as int]));
                return None;
            }
            k += 1;
        }
    }
    let code: u16 = ((d0 - 0x30) as u16) * 100 + ((d1 - 0x30) as u16) * 10 + ((d2 - 0x30) as u16);
    proof {
        let three = rest@.take(3);
        assert(all_digits(three)) by {
            assert(three[0] == d0 && three[1] == d1 && three[2] == d2);
            assert(forall|m: int| 0 <= m < 3 ==> #[trigger] three[m] == rest@[m]);
        }
        assert(three.drop_last() =~= rest@.take(2));
        assert(rest@.take(2).drop_last() =~= rest@.take(1));
        assert(rest@.take(1).drop_last() =~= Seq::<u8>::empty());
        assert(digits_val(Seq::<u8>::empty()) == 0);
        assert(digits_val(rest@.take(1)) == (d0 - 0x30));
        assert(digits_val(rest@.take(2)) == (d0 - 0x30) * 10 + (d1 - 0x30));
        assert(digits_val(three) == ((d0 - 0x30) * 10 + (d1 - 0x30)) * 10 + (d2 - 0x30));
    }
    Some((ver, code))
}



/// `trim_front` is the string itself or something strictly shorter.
proof fn lemma_trim_front_len(s: Seq<u8>)
    ensures
        trim_front(s) == s || trim_front(s).len() < s.len(),
    decreases s.len(),
{
    if s.len() > 0 && is_ows(s[0]) {
        lemma_trim_front_len(s.skip(1));
    }
}

/// `trim_back` is the string itself or something strictly shorter.
proof fn lemma_trim_back_len(s: Seq<u8>)
    ensures
        trim_back(s) == s || trim_back(s).len() < s.len(),
    decreases s.len(),
{
    if s.len() > 0 && is_ows(s.last()) {
        lemma_trim_back_len(s.drop_last());
    }
}

/// A string that trimming does not change is unchanged by each half of
/// the trim alone.
proof fn lemma_trim_fixpoint(s: Seq<u8>)
    requires
        trim_ows(s) == s,
    ensures
        trim_front(s) == s,
        trim_back(s) == s,
{
    lemma_trim_front_len(s);
    lemma_trim_back_len(trim_front(s));
    if trim_front(s) != s {
        assert(trim_ows(s).len() < s.len());
    }
    assert(trim_front(s) == s);
}

/// One rendered header entry: its name, a colon and a space, its value.
pub open spec fn spec_render_entry(e: (Seq<u8>, Seq<u8>)) -> Seq<u8> {
    e.0 + seq![0x3Au8, 0x20u8] + e.1
}

/// A header entry whose rendering parses back to itself: a token name and
/// a value of legal field bytes with no optional whitespace on its ends.
pub open spec fn wf_header_entry(e: (Seq<u8>, Seq<u8>)) -> bool {
    &&& is_token(e.0)
    &&& forall|j: int| 0 <= j < e.1.len() ==> is_field_byte(#[trigger] e.1[j])
    &&& trim_ows(e.1) == e.1
}

/// Every entry of the block is well-formed.
pub open spec fn wf_header_entries(entries: Seq<(Seq<u8>, Seq<u8>)>) -> bool {
    forall|i: int| 0 <= i < entries.len() ==> wf_header_entry(#[trigger] entries[i])
}

/// Parsing one rendered header line yields the entry back.
proof fn lemma_parse_rendered_line(e: (Seq<u8>, Seq<u8>))
    requires
        wf_header_entry(e),
    ensures
        spec_parse_header_line(spec_render_entry(e)) == Some(e),
{
    let line = spec_render_entry(e);
    let n = e.0.len() as int;
    assert(line[n] == 0x3A);
    assert(forall|j: int| 0 <= j < n ==> line[j] == e.0[j] && is_tchar(#[trigger] e.0[j]));
    crate::ascii::lemma_find_byte_is(line, 0x3A, n);
    assert(line.take(n) =~= e.0);
    let raw = line.skip(n + 1);
    assert(raw =~= seq![0x20u8] + e.1);
    assert(forall|j: int| 1 <= j < raw.len() ==> raw[j] == e.1[j - 1]);
    assert(forall|j: int| 0 <= j < raw.len() ==> is_field_byte(#[trigger] raw[j]));
    lemma_trim_fixpoint(e.1);
    assert(raw.skip(1) =~= e.1);
    assert(trim_front(raw) == trim_front(e.1));
    assert(trim_ows(raw) == e.1);
}

/// Parsing the rendered header block yields the entries back: the half of
/// the codec's inverse law that concerns the header block.
pub proof fn lemma_parse_rendered_headers(entries: Seq<(Seq<u8>, Seq<u8>)>)
    requires
        wf_header_entries(entries),
    ensures
        spec_parse_header_lines(spec_render_headers(entries)) == Some(entries),
    decreases entries.len(),
{
    if entries.len() == 0 {
        assert(spec_render_headers(entries) =~= Seq::<u8>::empty());
    } else {
        let e0 = entries[0];
        let rest = entries.drop_first();
        lemma_render_front(entries);
        let s = spec_render_headers(entries);
        let line0 = spec_render_entry(e0);
        let l0 = line0.len() as int;
        assert(s == line0 + crlf() + spec_render_headers(rest));
        assert(s.subrange(l0, l0 + 2) =~= crlf());
        assert forall|j: int| 0 <= j < l0 implies #[trigger] s.subrange(j, j + 2) != crlf() by {
            assert(s[j] == line0[j]);
            assert(line0[j] != 0x0D) by {
                if j < e0.0.len() {
                    assert(line0[j] == e0.0[j] && is_tchar(e0.0[j]));
                } else if j == e0.0.len() {
                    assert(line0[j] == 0x3A);
                } else if j == e0.0.len() + 1 {
                    assert(line0[j] == 0x20);
                } else {
                    assert(line0[j] == e0.1[j - e0.0.len() - 2]);
                    assert(is_field_byte(e0.1[j - e0.0.len() - 2]));
                }
            }
            assert(s.subrange(j, j + 2)[0] == s[j]);
        }
        crate::ascii::lemma_find_pat_is(s, crlf(), l0);
        assert(s.take(l0) =~= line0);
        assert(wf_header_entry(e0));
        lemma_parse_rendered_line(e0);
        assert(s.skip(l0 + 2) =~= spec_render_headers(rest));
        assert(wf_header_entries(rest)) by {
            assert(forall|i: int| 0 <= i < rest.len() ==> #[trigger] rest[i] == entries[i + 1]);
        }
        lemma_parse_rendered_headers(rest);
        assert(seq![e0] + rest =~= entries);
    }
}

/// The rendered header block decomposes at its first line.
proof fn lemma_render_front(entries: Seq<(Seq<u8>, Seq<u8>)>)
    requires
        entries.len() > 0,
    ensures
        spec_render_headers(entries) == spec_render_entry(entries[0]) + crlf()
            + spec_render_headers(entries.drop_first()),
    decreases entries.len(),
{
    if entries.len() == 1 {
        assert(entries.drop_last() =~= Seq::<(Seq<u8>, Seq<u8>)>::empty());
        assert(entries.drop_first() =~= Seq::<(Seq<u8>, Seq<u8>)>::empty());
        assert(spec_render_headers(entries) =~= spec_render_entry(entries[0]) + crlf()
            + spec_render_headers(entries.drop_first()));
    } else {
        let dl = entries.drop_last();
        lemma_render_front(dl);
        assert(dl[0] == entries[0]);
        assert(entries.drop_first().drop_last() =~= dl.drop_first());
        assert(entries.drop_first().last() == entries.last());
        assert(entries.drop_first().len() > 0);
        assert(spec_render_headers(entries) =~= spec_render_entry(entries[0]) + crlf()
            + spec_render_headers(entries.drop_first()));
    }
}

/// A discovery message as mathematics: its kind and its raw header
/// entries, in wire order.
pub struct MessageView {
    pub method: MessageType,
    pub headers: Seq<(Seq<u8>, Seq<u8>)>,
}

/// Represents a discovery method combined with its headers.
#[derive(Clone, Debug)]
pub struct SSDPMessage {
    pub method: MessageType,
    pub headers: HeaderBlock,
}

impl View for SSDPMessage {
    type V = MessageView;

    open spec fn view(&self) -> MessageView {
        MessageView { method: self.method, headers: self.headers@ }
    }
}

impl DeepView for SSDPMessage {
    type V = MessageView;

    open spec fn deep_view(&self) -> MessageView {
        self.view()
    }
}

/// Whether a packet is classified as a response: it opens with `HTTP/`.
/// A request's method can never contain a slash, so no request is
/// misclassified.
pub open spec fn spec_is_response(bytes: Seq<u8>) -> bool {
    bytes.len() >= 5 && bytes.take(5) == http_slash()
}

/// What decoding a request packet yields, in the order the checks run:
/// header-block terminator found, start line and header lines well-formed,
/// no body, version exactly 1.1, the `*` target, a `Host` header present,
/// and a discovery method.
pub open spec fn spec_decode_request(bytes: Seq<u8>) -> Result<MessageView, SSDPErrorView> {
    match find_pat(bytes, crlfcrlf()) {
        None => Err(SSDPErrorView::PartialHttp),
        Some(t) => {
            let head = bytes.take(t + 2);
            let body = bytes.skip(t + 4);
            match find_pat(head, crlf()) {
                None => Err(SSDPErrorView::InvalidHttp(bytes)),
                Some(i) => {
                    let line = head.take(i);
                    let block = head.skip(i + 2);
                    match spec_parse_request_line(line) {
                        None => Err(SSDPErrorView::InvalidHttp(bytes)),
                        Some(parts) => match spec_parse_header_lines(block) {
                            None => Err(SSDPErrorView::InvalidHttp(bytes)),
                            Some(entries) => if body.len() > 0 {
                                Err(SSDPErrorView::InvalidBodyForMethod(parts.0))
                            } else if parts.2 != (1u8, 1u8) {
                                Err(SSDPErrorView::InvalidHttpVersion)
                            } else if parts.1 != star_target() {
                                Err(SSDPErrorView::InvalidUri(parts.1))
                            } else if !spec_has_name(entries, Host::wire_name()) {
                                Err(SSDPErrorView::MissingHeader(Host::wire_name()))
                            } else if parts.0 == notify_method() {
                                Ok(MessageView { method: MessageType::Notify, headers: entries })
                            } else if parts.0 == search_method() {
                                Ok(MessageView { method: MessageType::Search, headers: entries })
                            } else {
                                Err(SSDPErrorView::InvalidMethod(parts.0))
                            },
                        },
                    }
                },
            }
        },
    }
}

/// What decoding a response packet yields, in the order the checks run:
/// terminator found, status line and header lines well-formed, no body,
/// version exactly 1.1, and status code exactly 200.
pub open spec fn spec_decode_response(bytes: Seq<u8>) -> Result<MessageView, SSDPErrorView> {
    match find_pat(bytes, crlfcrlf()) {
        None => Err(SSDPErrorView::PartialHttp),
        Some(t) => {
            let head = bytes.take(t + 2);
            let body = bytes.skip(t + 4);
            match find_pat(head, crlf()) {
                None => Err(SSDPErrorView::InvalidHttp(bytes)),
                Some(i) => {
                    let line = head.take(i);
                    let block = head.skip(i + 2);
                    match spec_parse_status_line(line) {
                        None => Err(SSDPErrorView::InvalidHttp(bytes)),
                        Some(parts) => match spec_parse_header_lines(block) {
                            None => Err(SSDPErrorView::InvalidHttp(bytes)),
                            Some(entries) => if body.len() > 0 {
                                Err(SSDPErrorView::InvalidBodyForMethod(search_method()))
                            } else if parts.0 != (1u8, 1u8) {
                                Err(SSDPErrorView::InvalidHttpVersion)
                            } else if parts.1 != 200 {
                                Err(SSDPErrorView::ResponseCode(parts.1))
                            } else {
                                Ok(MessageView { method: MessageType::Response, headers: entries })
                            },
                        },
                    }
                },
            }
        },
    }
}

/// What decoding any packet yields: responses are told apart from requests
/// by their `HTTP/` prefix.
pub open spec fn spec_from_packet(bytes: Seq<u8>) -> Result<MessageView, SSDPErrorView> {
    if spec_is_response(bytes) {
        spec_decode_response(bytes)
    } else {
        spec_decode_request(bytes)
    }
}

/// Reject any HTTP version other than exactly 1.1, the one version the
/// protocol speaks; `None` stands for a start line whose version could not
/// be read at all.
pub fn validate_http_version(version: Option<(u8, u8)>) -> (r: SSDPResult<()>)
    ensures
        match r {
            Ok(()) => version == Some((1u8, 1u8)),
            Err(e) => version != Some((1u8, 1u8)) && e == SSDPError::InvalidHttpVersion,
        },
{
    match version {
        Some((1u8, 1u8)) => Ok(()),
        _ => Err(SSDPError::InvalidHttpVersion),
    }
}

/// Reject any response status code other than 200, the only valid
/// search-response code.
pub fn validate_response_code(code: u16) -> (r: SSDPResult<()>)
    ensures
        match r {
            Ok(()) => code == 200,
            Err(e) => code != 200 && e == SSDPError::ResponseCode(code),
        },
{
    if code != 200 {
        Err(SSDPError::ResponseCode(code))
    } else {
        Ok(())
    }
}

impl SSDPMessage {
    /// Construct a new message of the given kind with no headers.
    pub fn new(message_type: MessageType) -> (r: SSDPMessage)
        ensures
            r@.method == message_type,
            r@.headers == Seq::<(Seq<u8>, Seq<u8>)>::empty(),
    {
        SSDPMessage { method: message_type, headers: HeaderBlock::new() }
    }

    /// Get the type of this message.
    pub fn message_type(&self) -> (r: MessageType)
        ensures
            r == self@.method,
    {
        self.method
    }

    /// Get the headers contained in this message.
    pub fn headers(&self) -> (r: &HeaderBlock)
        ensures
            r@ == self@.headers,
    {
        &self.headers
    }

    /// Set a typed header: whatever was stored under its name goes away
    /// and its encoded value comes last.
    pub fn set<H: Header>(&mut self, value: H)
        ensures
            final(self)@.method == old(self)@.method,
            final(self)@.headers == spec_remove_name(old(self)@.headers, H::wire_name()).push(
                (H::wire_name(), H::encode_spec(value.deep_view())),
            ),
    {
        let name = H::name();
        let encoded = value.encode();
        self.headers.set_raw(name, encoded);
    }

    /// Read a typed header from the values stored under its name.
    pub fn typed_get<H: Header>(&self) -> (r: Option<H>)
        ensures
            r.deep_view() == H::decode_spec(spec_values_of(self@.headers, H::wire_name())),
    {
        let name = H::name();
        let vals = self.headers.get_all(name.as_slice());
        H::decode(&vals)
    }
}

impl FromRawSSDP for SSDPMessage {
    open spec fn decode_spec(bytes: Seq<u8>) -> Result<MessageView, SSDPErrorView> {
        spec_from_packet(bytes)
    }

    #[verifier::loop_isolation(false)]
    fn from_packet(bytes: &[u8]) -> (r: SSDPResult<SSDPMessage>) {
        let n = bytes.len();
        let http5: Vec<u8> = vec![0x48, 0x54, 0x54, 0x50, 0x2F];
        proof {
            assert(http5@ =~= http_slash());
        }
        let is_response = if n >= 5 {
            let prefix = vstd::slice::slice_subrange(bytes, 0, 5);
            proof {
                assert(prefix@ =~= bytes@.take(5));
            }
            bytes_eq(prefix, http5.as_slice())
        } else {
            false
        };

        let four: Vec<u8> = vec![0x0D, 0x0A, 0x0D, 0x0A];
        proof {
            assert(four@ =~= crlfcrlf());
        }
        let t = match find_pattern(bytes, four.as_slice()) {
            Some(t) => t,
            None => {
                return Err(SSDPError::PartialHttp);
            },
        };
        proof {
            crate::ascii::lemma_find_pat(bytes@, crlfcrlf());
        }
        let head = vstd::slice::slice_subrange(bytes, 0, t + 2);
        let body_len = n - (t + 4);
        proof {
            assert(head@ =~= bytes@.take(t + 2));
            assert(body_len == bytes@.skip(t + 4 as int).len());
        }
        let two: Vec<u8> = vec![0x0D, 0x0A];
        proof {
            assert(two@ =~= crlf());
        }
        let i = match find_pattern(head, two.as_slice()) {
            Some(i) => i,
            None => {
                return Err(SSDPError::InvalidHttp(copy_bytes(bytes)));
            },
        };
        proof {
            crate::ascii::lemma_find_pat(head@, crlf());
        }
        let line = vstd::slice::slice_subrange(head, 0, i);
        let block = vstd::slice::slice_subrange(head, i + 2, head.len());
        proof {
            assert(line@ =~= head@.take(i as int));
            assert(block@ =~= head@.skip(i as int + 2));
        }

        if is_response {
            let parts = match parse_status_line(line) {
                Some(p) => p,
                None => {
                    return Err(SSDPError::InvalidHttp(copy_bytes(bytes)));
                },
            };
            let entries = match parse_header_block(block) {
                Some(v) => v,
                None => {
                    return Err(SSDPError::InvalidHttp(copy_bytes(bytes)));
                },
            };
            if body_len > 0 {
                let mut m: Vec<u8> = Vec::new();
                m.push(0x4D);
        m.push(0x2D);
        m.push(0x53);
        m.push(0x45);
        m.push(0x41);
        m.push(0x52);
        m.push(0x43);
        m.push(0x48);
                proof {
                    assert(m@ =~= search_method());
                }
                return Err(SSDPError::InvalidBodyForMethod(m));
            }
            if let Err(e) = validate_http_version(Some(parts.0)) {
                return Err(e);
            }
            if let Err(e) = validate_response_code(parts.1) {
                return Err(e);
            }
            let headers = HeaderBlock { entries };
            let msg = SSDPMessage { method: MessageType::Response, headers };
            proof {
                assert(msg@.headers =~~= spec_parse_header_lines(block@)->Some_0);
            }
            Ok(msg)
        } else {
            let parts = match parse_request_line(line) {
                Some(p) => p,
                None => {
                    return Err(SSDPError::InvalidHttp(copy_bytes(bytes)));
                },
            };
            let entries = match parse_header_block(block) {
                Some(v) => v,
                None => {
                    return Err(SSDPError::InvalidHttp(copy_bytes(bytes)));
                },
            };
            if body_len > 0 {
                return Err(SSDPError::InvalidBodyForMethod(parts.0));
            }
            if let Err(e) = validate_http_version(Some(parts.2)) {
                return Err(e);
            }
            let headers = HeaderBlock { entries };
            proof {
                assert(headers@ =~~= spec_parse_header_lines(block@)->Some_0);
            }
            let star: Vec<u8> = vec![0x2A];
            proof {
                assert(star@ =~= star_target());
            }
            if !bytes_eq(parts.1.as_slice(), star.as_slice()) {
                return Err(SSDPError::InvalidUri(parts.1));
            }
            let host_name = Host::name();
            if !headers.has_name(host_name.as_slice()) {
                return Err(SSDPError::MissingHeader(host_name));
            }
            let mut notify: Vec<u8> = Vec::new();
            notify.push(0x4E);
        notify.push(0x4F);
        notify.push(0x54);
        notify.push(0x49);
        notify.push(0x46);
        notify.push(0x59);
            proof {
                assert(notify@ =~= notify_method());
            }
            let mut search: Vec<u8> = Vec::new();
            search.push(0x4D);
        search.push(0x2D);
        search.push(0x53);
        search.push(0x45);
        search.push(0x41);
        search.push(0x52);
        search.push(0x43);
        search.push(0x48);
            proof {
                assert(search@ =~= search_method());
            }
            if bytes_eq(parts.0.as_slice(), notify.as_slice()) {
                Ok(SSDPMessage { method: MessageType::Notify, headers })
            } else if bytes_eq(parts.0.as_slice(), search.as_slice()) {
                Ok(SSDPMessage { method: MessageType::Search, headers })
            } else {
                Err(SSDPError::InvalidMethod(parts.0))
            }
        }
    }
}

/// The serialized form of the header entries: each as `Name: value` ended
/// by the line pair, in order.
pub open spec fn spec_render_headers(entries: Seq<(Seq<u8>, Seq<u8>)>) -> Seq<u8>
    decreases entries.len(),
{
    if entries.len() == 0 {
        Seq::empty()
    } else {
        spec_render_headers(entries.drop_last()) + entries.last().0 + seq![0x3Au8, 0x20u8]
            + entries.last().1 + crlf()
    }
}

/// The serialized form of a request: its method line, a `Host` header for
/// the destination, the stored headers, and the empty line.
pub open spec fn spec_serialize_request(
    method: Seq<u8>,
    host: Seq<u8>,
    entries: Seq<(Seq<u8>, Seq<u8>)>,
) -> Seq<u8> {
    method + seq![0x20u8, 0x2Au8, 0x20u8, 0x48u8, 0x54u8, 0x54u8, 0x50u8, 0x2Fu8, 0x31u8, 0x2Eu8, 0x31u8] + crlf() + seq![0x48u8, 0x6Fu8, 0x73u8, 0x74u8, 0x3Au8, 0x20u8] + host + crlf()
        + spec_render_headers(entries) + crlf()
}

/// The serialized form of a response: the OK status line, the stored
/// headers, and the empty line.
pub open spec fn spec_serialize_response(entries: Seq<(Seq<u8>, Seq<u8>)>) -> Seq<u8> {
    seq![0x48u8, 0x54u8, 0x54u8, 0x50u8, 0x2Fu8, 0x31u8, 0x2Eu8, 0x31u8, 0x20u8, 0x32u8, 0x30u8, 0x30u8, 0x20u8, 0x4Fu8, 0x4Bu8] + crlf() + spec_render_headers(entries) + crlf()
}

/// The wire bytes of a message sent toward `host`.
pub open spec fn spec_serialize(m: MessageView, host: Seq<u8>) -> Seq<u8> {
    match m.method {
        MessageType::Notify => spec_serialize_request(notify_method(), host, m.headers),
        MessageType::Search => spec_serialize_request(search_method(), host, m.headers),
        MessageType::Response => spec_serialize_response(m.headers),
    }
}

impl SSDPMessage {
    /// Serialize this message to its wire bytes. Requests carry a `Host`
    /// header naming the destination `host`; responses ignore it.
    #[verifier::loop_isolation(false)]
    #[verifier::rlimit(40)]
    pub fn serialize(&self, host: &[u8]) -> (r: Vec<u8>)
        ensures
            r@ == spec_serialize(self@, host@),
    {
        let mut out: Vec<u8> = Vec::new();
        match self.method {
            MessageType::Notify => {
                out.push(0x4E);
        out.push(0x4F);
        out.push(0x54);
        out.push(0x49);
        out.push(0x46);
        out.push(0x59);
        out.push(0x20);
        out.push(0x2A);
        out.push(0x20);
        out.push(0x48);
        out.push(0x54);
        out.push(0x54);
        out.push(0x50);
        out.push(0x2F);
        out.push(0x31);
        out.push(0x2E);
        out.push(0x31);
        out.push(0x0D);
        out.push(0x0A);
        out.push(0x48);
        out.push(0x6F);
        out.push(0x73);
        out.push(0x74);
        out.push(0x3A);
        out.push(0x20);
                out.extend_from_slice(host);
                out.push(0x0D);
                out.push(0x0A);
                proof {
                    assert(out@ =~= notify_method() + seq![0x20u8, 0x2Au8, 0x20u8, 0x48u8, 0x54u8, 0x54u8, 0x50u8, 0x2Fu8, 0x31u8, 0x2Eu8, 0x31u8] + crlf() + seq![0x48u8, 0x6Fu8, 0x73u8, 0x74u8, 0x3Au8, 0x20u8] + host@ + crlf());
                }
            },
            MessageType::Search => {
                out.push(0x4D);
        out.push(0x2D);
        out.push(0x53);
        out.push(0x45);
        out.push(0x41);
        out.push(0x52);
        out.push(0x43);
        out.push(0x48);
        out.push(0x20);
        out.push(0x2A);
        out.push(0x20);
        out.push(0x48);
        out.push(0x54);
        out.push(0x54);
        out.push(0x50);
        out.push(0x2F);
        out.push(0x31);
        out.push(0x2E);
        out.push(0x31);
        out.push(0x0D);
        out.push(0x0A);
        out.push(0x48);
        out.push(0x6F);
        out.push(0x73);
        out.push(0x74);
        out.push(0x3A);
        out.push(0x20);
                out.extend_from_slice(host);
                out.push(0x0D);
                out.push(0x0A);
                proof {
                    assert(out@ =~= search_method() + seq![0x20u8, 0x2Au8, 0x20u8, 0x48u8, 0x54u8, 0x54u8, 0x50u8, 0x2Fu8, 0x31u8, 0x2Eu8, 0x31u8] + crlf() + seq![0x48u8, 0x6Fu8, 0x73u8, 0x74u8, 0x3Au8, 0x20u8] + host@ + crlf());
                }
            },
            MessageType::Response => {
                out.push(0x48);
        out.push(0x54);
        out.push(0x54);
        out.push(0x50);
        out.push(0x2F);
        out.push(0x31);
        out.push(0x2E);
        out.push(0x31);
        out.push(0x20);
        out.push(0x32);
        out.push(0x30);
        out.push(0x30);
        out.push(0x20);
        out.push(0x4F);
        out.push(0x4B);
        out.push(0x0D);
        out.push(0x0A);
                proof {
                    assert(out@ =~= seq![0x48u8, 0x54u8, 0x54u8, 0x50u8, 0x2Fu8, 0x31u8, 0x2Eu8, 0x31u8, 0x20u8, 0x32u8, 0x30u8, 0x30u8, 0x20u8, 0x4Fu8, 0x4Bu8] + crlf());
                }
            },
        }
        let ghost start = out@;
        let m = self.headers.len();
        let mut i: usize = 0;
        proof {
            assert(self@.headers.take(0) =~= Seq::<(Seq<u8>, Seq<u8>)>::empty());
            assert(out@ =~= start + spec_render_headers(self@.headers.take(0)));
        }
        while i < m
            invariant
                0 <= i <= m,
                m == self@.headers.len(),
                out@ == start + spec_render_headers(self@.headers.take(i as int)),
            decreases m - i,
        {
            let entry = self.headers.entry_at(i);
            out.extend_from_slice(entry.0.as_slice());
            out.push(0x3A);
            out.push(0x20);
            out.extend_from_slice(entry.1.as_slice());
            out.push(0x0D);
            out.push(0x0A);
            proof {
                assert(self@.headers.take(i + 1).drop_last() =~= self@.headers.take(i as int));
                assert(self@.headers.take(i + 1).last() == self@.headers[i as int]);
                assert(out@ =~= start + spec_render_headers(self@.headers.take(i + 1)));
            }
            i += 1;
        }
        proof {
            assert(self@.headers.take(m as int) =~= self@.headers);
        }
        out.push(0x0D);
        out.push(0x0A);
        proof {
            assert(out@ =~= start + spec_render_headers(self@.headers) + crlf());
        }
        out
    }
}


/// The `Host` header name as serialization renders it.
pub open spec fn host_header_name() -> Seq<u8> {
    seq![0x48u8, 0x6Fu8, 0x73u8, 0x74u8]
}

/// A host value that the serialized `Host` line carries intact: legal
/// field bytes with no optional whitespace on its ends.
pub open spec fn wf_host_value(host: Seq<u8>) -> bool {
    &&& forall|j: int| 0 <= j < host.len() ==> is_field_byte(#[trigger] host[j])
    &&& trim_ows(host) == host
}

/// No header-block terminator occurs inside a rendered block before its
/// final line pair.
proof fn lemma_render_no_early_terminator(entries: Seq<(Seq<u8>, Seq<u8>)>)
    requires
        wf_header_entries(entries),
    ensures
        forall|j: int|
            0 <= j < spec_render_headers(entries).len() + crlf().len() - 4 ==> #[trigger] (
            spec_render_headers(entries) + crlf()).subrange(j, j + 4) != crlfcrlf(),
    decreases entries.len(),
{
    let rc = spec_render_headers(entries) + crlf();
    if entries.len() == 0 {
        assert(rc.len() == 2);
    } else {
        let e0 = entries[0];
        let rest = entries.drop_first();
        lemma_render_front(entries);
        assert(wf_header_entries(rest)) by {
            assert(forall|i: int| 0 <= i < rest.len() ==> #[trigger] rest[i] == entries[i + 1]);
        }
        lemma_render_no_early_terminator(rest);
        let line0 = spec_render_entry(e0);
        let l0 = line0.len() as int;
        let rcr = spec_render_headers(rest) + crlf();
        assert(rc =~= line0 + crlf() + rcr);
        assert forall|j: int| 0 <= j < rc.len() - 4 implies #[trigger] rc.subrange(j, j + 4)
            != crlfcrlf() by {
            if j < l0 {
                assert(rc[j] == line0[j]);
                assert(line0[j] != 0x0D) by {
                    if j < e0.0.len() {
                        assert(line0[j] == e0.0[j] && is_tchar(e0.0[j]));
                    } else if j == e0.0.len() {
                        assert(line0[j] == 0x3A);
                    } else if j == e0.0.len() + 1 {
                        assert(line0[j] == 0x20);
                    } else {
                        assert(line0[j] == e0.1[j - e0.0.len() - 2]);
                        assert(is_field_byte(e0.1[j - e0.0.len() - 2]));
                    }
                }
                assert(rc.subrange(j, j + 4)[0] == rc[j]);
            } else if j == l0 {
                assert(rest.len() > 0) by {
                    if rest.len() == 0 {
                        assert(rc.len() == l0 + 4);
                    }
                }
                assert(rcr[0] == spec_render_entry(rest[0])[0]) by {
                    lemma_render_front(rest);
                }
                assert(spec_render_entry(rest[0])[0] == rest[0].0[0]);
                assert(is_tchar(rest[0].0[0])) by {
                    assert(wf_header_entry(rest[0]));
                }
                assert(rc[j + 2] == rcr[0]);
                assert(rc.subrange(j, j + 4)[2] == rc[j + 2]);
            } else if j == l0 + 1 {
                assert(rc[j] == 0x0A);
                assert(rc.subrange(j, j + 4)[0] == rc[j]);
            } else {
                let k = j - (l0 + 2);
                assert(0 <= k < rcr.len() - 4);
                assert(rc.subrange(j, j + 4) =~= rcr.subrange(k, k + 4));
            }
        }
    }
}

/// A start line of the protocol holds no carriage return.
spec fn cr_free(s: Seq<u8>) -> bool {
    forall|j: int| 0 <= j < s.len() ==> #[trigger] s[j] != 0x0D
}

/// Decoding a packet of the shape the serializer emits finds the
/// terminator at the end, the start line first, and the rendered entries
/// between them.
proof fn lemma_decode_shape(sl: Seq<u8>, entries: Seq<(Seq<u8>, Seq<u8>)>)
    requires
        sl.len() > 0,
        cr_free(sl),
        wf_header_entries(entries),
    ensures
        ({
            let enc = sl + crlf() + spec_render_headers(entries) + crlf();
            &&& find_pat(enc, crlfcrlf()) == Some(enc.len() - 4)
            &&& enc.take(enc.len() - 2).take(sl.len() as int) == sl
            &&& find_pat(enc.take(enc.len() - 2), crlf()) == Some(sl.len() as int)
            &&& enc.take(enc.len() - 2).skip(sl.len() as int + 2) == spec_render_headers(entries)
            &&& enc.skip(enc.len() - 0) == Seq::<u8>::empty()
        }),
{
    let render = spec_render_headers(entries);
    let rc = render + crlf();
    let enc = sl + crlf() + render + crlf();
    let t = enc.len() - 4;
    assert(enc =~= sl + crlf() + rc);

    // The terminator stands at the end.
    assert(render.len() >= 0);
    assert(enc.subrange(t as int, t + 4 as int) =~= crlfcrlf()) by {
        if entries.len() > 0 {
            assert(render.len() >= 2) by {
                lemma_render_front(entries);
            }
            assert(render[render.len() - 2] == 0x0D && render[render.len() - 1] == 0x0A);
        }
    }

    // ... and nowhere earlier.
    lemma_render_no_early_terminator(entries);
    assert forall|j: int| 0 <= j < t implies #[trigger] enc.subrange(j, j + 4) != crlfcrlf() by {
        let sn = sl.len() as int;
        if j < sn {
            assert(enc[j] == sl[j]);
            assert(enc.subrange(j, j + 4)[0] == enc[j]);
        } else if j == sn {
            assert(rc[0] != 0x0D) by {
                if entries.len() > 0 {
                    lemma_render_front(entries);
                    assert(rc[0] == spec_render_entry(entries[0])[0]);
                    assert(spec_render_entry(entries[0])[0] == entries[0].0[0]);
                    assert(is_tchar(entries[0].0[0])) by {
                        assert(wf_header_entry(entries[0]));
                    }
                } else {
                    assert(rc[0] == 0x0D);
                }
            }
            if entries.len() == 0 {
                assert(j >= t);
            } else {
                assert(enc[j + 2] == rc[0]);
                assert(enc.subrange(j, j + 4)[2] == enc[j + 2]);
            }
        } else if j == sn + 1 {
            assert(enc[j] == 0x0A);
            assert(enc.subrange(j, j + 4)[0] == enc[j]);
        } else {
            let k = j - (sn + 2);
            assert(0 <= k < rc.len() - 4);
            assert(enc.subrange(j, j + 4) =~= rc.subrange(k, k + 4));
        }
    }
    crate::ascii::lemma_find_pat_is(enc, crlfcrlf(), t as int);

    let head = enc.take(enc.len() - 2);
    assert(head =~= sl + crlf() + render);
    assert(head.take(sl.len() as int) =~= sl);
    assert(head.subrange(sl.len() as int, sl.len() as int + 2) =~= crlf());
    assert forall|j: int| 0 <= j < sl.len() implies #[trigger] head.subrange(j, j + 2)
        != crlf() by {
        assert(head[j] == sl[j]);
        assert(head.subrange(j, j + 2)[0] == head[j]);
    }
    crate::ascii::lemma_find_pat_is(head, crlf(), sl.len() as int);
    assert(head.skip(sl.len() as int + 2) =~= render);
    assert(enc.skip(enc.len() - 0) =~= Seq::<u8>::empty());
}

/// The inverse law of the message codec: decoding a serialized message
/// yields its kind and headers back. A serialized request additionally
/// carries the `Host` line the serializer wrote for its destination, so
/// its decoded header entries open with that pair.
#[verifier::rlimit(100)]
#[verifier::spinoff_prover]
pub proof fn lemma_serialize_decode(m: MessageView, host: Seq<u8>)
    requires
        wf_header_entries(m.headers),
        wf_host_value(host),
    ensures
        m.method is Response ==> spec_from_packet(spec_serialize(m, host)) == Ok::<MessageView, SSDPErrorView>(m),
        !(m.method is Response) ==> spec_from_packet(spec_serialize(m, host)) == Ok::<
            MessageView,
            SSDPErrorView,
        >(
            MessageView {
                method: m.method,
                headers: seq![(host_header_name(), host)] + m.headers,
            },
        ),
{
    let enc = spec_serialize(m, host);
    if m.method is Response {
        let sl = seq![0x48u8, 0x54u8, 0x54u8, 0x50u8, 0x2Fu8, 0x31u8, 0x2Eu8, 0x31u8, 0x20u8, 0x32u8, 0x30u8, 0x30u8, 0x20u8, 0x4Fu8, 0x4Bu8];
        assert(enc =~= sl + crlf() + spec_render_headers(m.headers) + crlf());
        assert(cr_free(sl));
        lemma_decode_shape(sl, m.headers);
        assert(enc.take(5) =~= http_slash());
        assert(spec_is_response(enc));
        let head = enc.take(enc.len() - 2);
        // The status line parses as HTTP/1.1 with code 200.
        assert(spec_parse_status_line(sl) == Some(((1u8, 1u8), 200u16))) by {
            crate::ascii::lemma_find_byte_is(sl, 0x20, 8);
            let vtok = sl.take(8);
            assert(vtok.take(5) =~= http_slash());
            assert(spec_parse_version(vtok) == Some((1u8, 1u8)));
            let rest = sl.skip(9);
            assert(rest =~= seq![0x32u8, 0x30u8, 0x30u8, 0x20u8, 0x4Fu8, 0x4Bu8]);
            let three = rest.take(3);
            assert(three[0] == 0x32 && three[1] == 0x30 && three[2] == 0x30);
            assert(all_digits(three)) by {
                assert(forall|i: int| 0 <= i < 3 ==> is_digit(#[trigger] three[i]));
            }
            assert(three.drop_last() =~= rest.take(2));
            assert(rest.take(2).drop_last() =~= rest.take(1));
            assert(rest.take(1).drop_last() =~= Seq::<u8>::empty());
            assert(digits_val(Seq::<u8>::empty()) == 0);
            assert(digits_val(rest.take(1)) == 2);
            assert(digits_val(rest.take(2)) == 20);
            assert(digits_val(three) == 200);
            assert(rest[3] == 0x20);
            assert(forall|k: int| 4 <= k < rest.len() ==> is_field_byte(#[trigger] rest[k]));
        }
        lemma_parse_rendered_headers(m.headers);
        assert(enc.skip(enc.len() - 4 + 4) =~= Seq::<u8>::empty());
        assert(spec_decode_response(enc) == Ok::<MessageView, SSDPErrorView>(m));
    } else {
        let method = if m.method is Notify {
            notify_method()
        } else {
            search_method()
        };
        let sl = method + seq![0x20u8, 0x2Au8, 0x20u8, 0x48u8, 0x54u8, 0x54u8, 0x50u8, 0x2Fu8, 0x31u8, 0x2Eu8, 0x31u8];
        let host_entry = (host_header_name(), host);
        let es = seq![host_entry] + m.headers;
        assert(wf_header_entry(host_entry)) by {
            assert(is_token(host_header_name())) by {
                assert(forall|i: int|
                    0 <= i < host_header_name().len() ==> is_tchar(
                        #[trigger] host_header_name()[i],
                    ));
            }
        }
        assert(wf_header_entries(es)) by {
            assert(forall|i: int| 1 <= i < es.len() ==> #[trigger] es[i] == m.headers[i - 1]);
            assert(es[0] == host_entry);
        }
        assert(spec_render_headers(es) =~= spec_render_entry(host_entry) + crlf()
            + spec_render_headers(m.headers)) by {
            lemma_render_front(es);
            assert(es[0] == host_entry);
            assert(es.drop_first() =~= m.headers);
        }
        assert(enc =~= sl + crlf() + spec_render_headers(es) + crlf());
        assert(cr_free(sl)) by {
            assert(forall|j: int| 0 <= j < method.len() ==> #[trigger] sl[j] == method[j]);
        }
        lemma_decode_shape(sl, es);
        assert(!spec_is_response(enc)) by {
            assert(enc[0] == method[0]);
            if enc.len() >= 5 && enc.take(5) == http_slash() {
                assert(enc.take(5)[0] == enc[0]);
            }
        }
        let head = enc.take(enc.len() - 2);
        assert(spec_parse_request_line(sl) == Some((method, star_target(), (1u8, 1u8)))) by {
            let mn = method.len() as int;
            assert(sl[mn] == 0x20);
            assert(forall|j: int| 0 <= j < mn ==> #[trigger] sl[j] == method[j]);
            assert(forall|j: int| 0 <= j < mn ==> is_tchar(#[trigger] method[j]));
            assert(forall|j: int| 0 <= j < mn ==> #[trigger] sl[j] != 0x20);
            crate::ascii::lemma_find_byte_is(sl, 0x20, mn);
            assert(sl.take(mn) =~= method);
            let rest = sl.skip(mn + 1);
            assert(rest =~= seq![0x2Au8, 0x20u8, 0x48u8, 0x54u8, 0x54u8, 0x50u8, 0x2Fu8, 0x31u8, 0x2Eu8, 0x31u8]);
            crate::ascii::lemma_find_byte_is(rest, 0x20, 1);
            assert(rest.take(1) =~= star_target());
            let vtok = rest.skip(2);
            assert(vtok.take(5) =~= http_slash());
            assert(spec_parse_version(vtok) == Some((1u8, 1u8)));
            assert(is_token(method));
            assert(is_target_byte(star_target()[0]));
            assert(forall|k: int|
                0 <= k < rest.take(1).len() ==> is_target_byte(#[trigger] rest.take(1)[k]));
        }
        lemma_parse_rendered_headers(es);
        assert(enc.skip(enc.len() - 4 + 4) =~= Seq::<u8>::empty());
        assert(spec_has_name(es, Host::wire_name())) by {
            assert(crate::ascii::eq_ignore_case(es[0].0, Host::wire_name())) by {
                assert(crate::ascii::lower(host_header_name()) =~= Host::wire_name());
                assert(crate::ascii::lower(Host::wire_name()) =~= Host::wire_name());
            }
        }
        if m.method is Notify {
            assert(method != search_method());
            assert(spec_decode_request(enc) == Ok::<MessageView, SSDPErrorView>(
                MessageView { method: MessageType::Notify, headers: es },
            ));
        } else {
            assert(method != notify_method()) by {
                assert(search_method().len() != notify_method().len());
            }
            assert(spec_decode_request(enc) == Ok::<MessageView, SSDPErrorView>(
                MessageView { method: MessageType::Search, headers: es },
            ));
        }
    }
}

} // verus!
