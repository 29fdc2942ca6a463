//! Byte-level helpers for the ASCII text that the protocol exchanges:
//! decimal number parsing and case-insensitive comparison.

use vstd::prelude::*;

verus! {

/// A decimal digit byte.
pub open spec fn is_digit(b: u8) -> bool {
    0x30 <= b && b <= 0x39
}

/// Every byte of `s` is a decimal digit.
pub open spec fn all_digits(s: Seq<u8>) -> bool {
    forall|i: int| 0 <= i < s.len() ==> is_digit(#[trigger] s[i])
}

/// The number a digit byte stands for; non-digits count as zero.
pub open spec fn digit_val(b: u8) -> nat {
    if is_digit(b) {
        (b - 0x30) as nat
    } else {
        0
    }
}

/// The number that a digit string denotes, most significant digit first.
pub open spec fn digits_val(s: Seq<u8>) -> nat
    decreases s.len(),
{
    if s.len() == 0 {
        0
    } else {
        digits_val(s.drop_last()) * 10 + digit_val(s.last())
    }
}

/// Ten to the power `n`.
pub open spec fn pow10(n: nat) -> nat
    decreases n,
{
    if n == 0 {
        1
    } else {
        10 * pow10((n - 1) as nat)
    }
}

/// A digit string denotes a value below ten to the power of its length.
pub proof fn lemma_digits_val_bound(s: Seq<u8>)
    requires
        all_digits(s),
    ensures
        digits_val(s) < pow10(s.len()),
    decreases s.len(),
{
    if s.len() > 0 {
        lemma_digits_val_bound(s.drop_last());
    }
}

/// A digit string without a leading zero denotes at least ten to the power
/// of one less than its length.
pub proof fn lemma_digits_val_lower(s: Seq<u8>)
    requires
        all_digits(s),
        s.len() > 0,
        s[0] != 0x30,
    ensures
        digits_val(s) >= pow10((s.len() - 1) as nat),
    decreases s.len(),
{
    if s.len() > 1 {
        assert(s.drop_last()[0] == s[0]);
        lemma_digits_val_lower(s.drop_last());
    }
}

/// Leading zeros do not change the value a digit string denotes.
pub proof fn lemma_digits_val_skip_zero(s: Seq<u8>)
    requires
        s.len() > 0,
        s[0] == 0x30,
    ensures
        digits_val(s) == digits_val(s.skip(1)),
    decreases s.len(),
{
    if s.len() == 1 {
        assert(s.skip(1) =~= Seq::<u8>::empty());
        assert(s.drop_last() =~= Seq::<u8>::empty());
    } else {
        assert(s.drop_last()[0] == s[0]);
        lemma_digits_val_skip_zero(s.drop_last());
        assert(s.skip(1).drop_last() =~= s.drop_last().skip(1));
        assert(s.skip(1).last() == s.last());
    }
}

/// The value of a digit string, or `None` where the bytes are empty, hold a
/// non-digit, or denote more than `u32::MAX`.
pub open spec fn dec_value(s: Seq<u8>) -> Option<nat> {
    if s.len() > 0 && all_digits(s) && digits_val(s) <= u32::MAX {
        Some(digits_val(s))
    } else {
        None
    }
}

/// Parse an unsigned decimal digit string.
///
/// Accepts exactly the non-empty all-digit strings whose value fits in a
/// `u32`; leading zeros are allowed and ignored.
pub fn parse_decimal(s: &[u8]) -> (r: Option<u32>)
    ensures
        match r {
            Some(v) => dec_value(s@) == Some(v as nat),
            None => dec_value(s@) is None,
        },
{
    if s.len() == 0 {
        return None;
    }
    // Reject any non-digit byte.
    let mut j: usize = 0;
    while j < s.len()
        invariant
            0 <= j <= s@.len(),
            forall|i: int| 0 <= i < j ==> is_digit(#[trigger] s@[i]),
        decreases s@.len() - j,
    {
        let b = s[j];
        if b < 0x30 || b > 0x39 {
            return None;
        }
        j += 1;
    }
    assert(all_digits(s@));

    // Skip leading zeros; what remains determines the value.
    let mut start: usize = 0;
    proof {
        assert(s@.skip(0) =~= s@);
    }
    while start < s.len() && s[start] == 0x30
        invariant
            0 <= start <= s@.len(),
            all_digits(s@),
            digits_val(s@) == digits_val(s@.skip(start as int)),
        decreases s@.len() - start,
    {
        proof {
            lemma_digits_val_skip_zero(s@.skip(start as int));
            assert(s@.skip(start as int).skip(1) =~= s@.skip(start as int + 1));
        }
        start += 1;
    }
    let ghost t = s@.skip(start as int);
    assert(digits_val(s@) == digits_val(t));

    if s.len() - start > 10 {
        // More than ten significant digits always exceeds `u32::MAX`.
        proof {
            lemma_digits_val_lower(t);
            lemma_pow10_increases(10, (t.len() - 1) as nat);
            assert(pow10(10) == 10000000000) by {
                reveal_with_fuel(pow10, 11);
            }
        }
        return None;
    }

    // At most ten significant digits: the value fits comfortably in a u64.
    let mut acc: u64 = 0;
    let mut k: usize = start;
    proof {
        assert(t.take(0) =~= Seq::<u8>::empty());
        lemma_pow10_increases(0, 10);
    }
    while k < s.len()
        invariant
            start <= k <= s@.len(),
            s@.len() - start <= 10,
            all_digits(s@),
            t == s@.skip(start as int),
            acc == digits_val(t.take(k - start)),
            acc < pow10((k - start) as nat),
            pow10((k - start) as nat) <= pow10(10),
        decreases s@.len() - k,
    {
        proof {
            assert(pow10(10) == 10000000000) by {
                reveal_with_fuel(pow10, 11);
            }
            assert(t.take(k - start + 1).drop_last() =~= t.take((k - start) as int));
            assert(t.take(k - start + 1).last() == s@[k as int]);
        }
        let b = s[k];
        acc = acc * 10 + ((b - 0x30) as u64);
        k += 1;
        proof {
            lemma_digits_val_bound(t.take((k - start) as int));
            lemma_pow10_increases((k - start) as nat, 10);
        }
    }
    proof {
        assert(t.take(s@.len() - start) =~= t);
    }
    if acc > 0xFFFF_FFFF {
        return None;
    }
    Some(acc as u32)
}

/// `pow10` grows with the exponent.
pub proof fn lemma_pow10_increases(m: nat, n: nat)
    requires
        m <= n,
    ensures
        pow10(m) <= pow10(n),
    decreases n,
{
    if m < n {
        lemma_pow10_increases(m, (n - 1) as nat);
    }
}

/// Lower-case image of one ASCII byte; other bytes are unchanged.
pub open spec fn lower_byte(b: u8) -> u8 {
    if 0x41 <= b && b <= 0x5A {
        (b + 0x20) as u8
    } else {
        b
    }
}

/// Lower-case image of a byte string.
pub open spec fn lower(s: Seq<u8>) -> Seq<u8> {
    s.map_values(|b: u8| lower_byte(b))
}

/// Two byte strings that agree up to ASCII case.
pub open spec fn eq_ignore_case(a: Seq<u8>, b: Seq<u8>) -> bool {
    lower(a) == lower(b)
}

/// Compare two byte strings ignoring ASCII case.
pub fn bytes_eq_ignore_case(a: &[u8], b: &[u8]) -> (r: bool)
    ensures
        r == eq_ignore_case(a@, b@),
{
    if a.len() != b.len() {
        assert(lower(a@).len() != lower(b@).len());
        return false;
    }
    let mut i: usize = 0;
    while i < a.len()
        invariant
            0 <= i <= a@.len(),
            a@.len() == b@.len(),
            forall|j: int| 0 <= j < i ==> lower(a@)[j] == lower(b@)[j],
        decreases a@.len() - i,
    {
        let x = a[i];
        let y = b[i];
        let lx = if 0x41 <= x && x <= 0x5A { x + 0x20 } else { x };
        let ly = if 0x41 <= y && y <= 0x5A { y + 0x20 } else { y };
        if lx != ly {
            assert(lower(a@)[i as int] != lower(b@)[i as int]);
            return false;
        }
        i += 1;
    }
    assert(lower(a@) =~= lower(b@));
    true
}

/// Compare two byte strings for equality.
pub fn bytes_eq(a: &[u8], b: &[u8]) -> (r: bool)
    ensures
        r == (a@ == b@),
{
    if a.len() != b.len() {
        assert(a@.len() != b@.len());
        return false;
    }
    let mut i: usize = 0;
    while i < a.len()
        invariant
            0 <= i <= a@.len(),
            a@.len() == b@.len(),
            forall|j: int| 0 <= j < i ==> a@[j] == b@[j],
        decreases a@.len() - i,
    {
        if a[i] != b[i] {
            return false;
        }
        i += 1;
    }
    assert(a@ =~= b@);
    true
}


/// Index of the first occurrence of byte `b` in `s`.
pub open spec fn find_byte(s: Seq<u8>, b: u8) -> Option<int>
    decreases s.len(),
{
    if s.len() == 0 {
        None
    } else if s[0] == b {
        Some(0)
    } else {
        match find_byte(s.skip(1), b) {
            Some(i) => Some(i + 1),
            None => None,
        }
    }
}

/// `find_byte` returns the least index holding `b`, or `None` where `b`
/// does not occur.
pub proof fn lemma_find_byte(s: Seq<u8>, b: u8)
    ensures
        match find_byte(s, b) {
            Some(i) => 0 <= i < s.len() && s[i] == b && forall|j: int|
                0 <= j < i ==> s[j] != b,
            None => forall|j: int| 0 <= j < s.len() ==> s[j] != b,
        },
    decreases s.len(),
{
    if s.len() > 0 && s[0] != b {
        lemma_find_byte(s.skip(1), b);
        assert forall|j: int| 1 <= j < s.len() implies s[j] == s.skip(1)[j - 1] by {}
    }
}

/// `find_byte` is pinned down by a witness index with no earlier occurrence.
pub proof fn lemma_find_byte_is(s: Seq<u8>, b: u8, i: int)
    requires
        0 <= i < s.len(),
        s[i] == b,
        forall|j: int| 0 <= j < i ==> s[j] != b,
    ensures
        find_byte(s, b) == Some(i),
{
    lemma_find_byte(s, b);
}

/// `find_byte` finds nothing in a string without `b`.
pub proof fn lemma_find_byte_none(s: Seq<u8>, b: u8)
    requires
        forall|j: int| 0 <= j < s.len() ==> s[j] != b,
    ensures
        find_byte(s, b) is None,
{
    lemma_find_byte(s, b);
}

/// Index of the first occurrence of the pattern `p` as a subrange of `s`.
pub open spec fn find_pat(s: Seq<u8>, p: Seq<u8>) -> Option<int>
    decreases s.len(),
{
    if p.len() == 0 {
        Some(0)
    } else if s.len() < p.len() {
        None
    } else if s.take(p.len() as int) == p {
        Some(0)
    } else {
        match find_pat(s.skip(1), p) {
            Some(i) => Some(i + 1),
            None => None,
        }
    }
}

/// `find_pat` returns the least index where `p` occurs, or `None` where it
/// does not occur at all.
pub proof fn lemma_find_pat(s: Seq<u8>, p: Seq<u8>)
    ensures
        match find_pat(s, p) {
            Some(i) => 0 <= i && i + p.len() <= s.len() && s.subrange(i, i + p.len() as int) == p
                && forall|j: int| 0 <= j < i ==> #[trigger] s.subrange(j, j + p.len() as int) != p,
            None => forall|j: int|
                0 <= j && j + p.len() <= s.len() ==> #[trigger] s.subrange(j, j + p.len() as int) != p,
        },
    decreases s.len(),
{
    if p.len() == 0 {
        assert(s.subrange(0, 0) =~= p);
    } else if s.len() >= p.len() {
        if s.take(p.len() as int) == p {
            assert(s.subrange(0, p.len() as int) =~= s.take(p.len() as int));
        } else {
            lemma_find_pat(s.skip(1), p);
            assert(s.subrange(0, p.len() as int) =~= s.take(p.len() as int));
            assert forall|j: int| 1 <= j && j + p.len() <= s.len() implies #[trigger] s.subrange(
                j,
                j + p.len() as int,
            ) == s.skip(1).subrange(j - 1, j - 1 + p.len() as int) by {
                assert(s.subrange(j, j + p.len() as int) =~= s.skip(1).subrange(
                    j - 1,
                    j - 1 + p.len() as int,
                ));
            }
        }
    }
}

/// `find_pat` is pinned down by a witness index with no earlier occurrence.
pub proof fn lemma_find_pat_is(s: Seq<u8>, p: Seq<u8>, i: int)
    requires
        0 <= i,
        i + p.len() <= s.len(),
        s.subrange(i, i + p.len() as int) == p,
        forall|j: int| 0 <= j < i ==> #[trigger] s.subrange(j, j + p.len() as int) != p,
    ensures
        find_pat(s, p) == Some(i),
{
    lemma_find_pat(s, p);
}

/// `find_pat` finds nothing where the pattern occurs nowhere.
pub proof fn lemma_find_pat_none(s: Seq<u8>, p: Seq<u8>)
    requires
        forall|j: int| 0 <= j && j + p.len() <= s.len() ==> #[trigger] s.subrange(j, j + p.len() as int) != p,
    ensures
        find_pat(s, p) is None,
{
    lemma_find_pat(s, p);
}

/// Find the first occurrence of one byte in a slice.
pub fn find_byte_in(s: &[u8], b: u8) -> (r: Option<usize>)
    ensures
        match r {
            Some(i) => find_byte(s@, b) == Some(i as int),
            None => find_byte(s@, b) is None,
        },
{
    let mut i: usize = 0;
    while i < s.len()
        invariant
            0 <= i <= s@.len(),
            forall|j: int| 0 <= j < i ==> s@[j] != b,
        decreases s@.len() - i,
    {
        if s[i] == b {
            proof {
                lemma_find_byte_is(s@, b, i as int);
            }
            return Some(i);
        }
        i += 1;
    }
    proof {
        lemma_find_byte_none(s@, b);
    }
    None
}

/// Find the first occurrence of a pattern in a slice.
pub fn find_pattern(s: &[u8], p: &[u8]) -> (r: Option<usize>)
    requires
        p@.len() > 0,
    ensures
        match r {
            Some(i) => find_pat(s@, p@) == Some(i as int),
            None => find_pat(s@, p@) is None,
        },
{
    if s.len() < p.len() {
        return None;
    }
    let mut i: usize = 0;
    while i <= s.len() - p.len()
        invariant
            p@.len() > 0,
            p@.len() <= s@.len(),
            0 <= i <= s@.len() - p@.len() + 1,
            forall|j: int| 0 <= j < i ==> #[trigger] s@.subrange(j, j + p@.len() as int) != p@,
        decreases s@.len() - i,
    {
        let window = vstd::slice::slice_subrange(s, i, i + p.len());
        if bytes_eq(window, p) {
            proof {
                lemma_find_pat_is(s@, p@, i as int);
            }
            return Some(i);
        }
        i += 1;
    }
    proof {
        lemma_find_pat_none(s@, p@);
    }
    None
}


/// `s` without one leading `+`, if it has one.
pub open spec fn strip_plus(s: Seq<u8>) -> Seq<u8> {
    if s.len() > 0 && s[0] == 0x2B {
        s.skip(1)
    } else {
        s
    }
}

/// The value of an unsigned decimal literal with an optional leading `+`,
/// as far as it fits in a `u32`.
pub open spec fn spec_parse_num(s: Seq<u8>) -> Option<nat> {
    dec_value(strip_plus(s))
}

/// The value of a signed decimal literal narrowed to a 31-bit non-negative
/// integer: an optional sign, then digits; `-0` is accepted and is zero,
/// any other negative or out-of-range literal is rejected.
pub open spec fn spec_parse_i31(s: Seq<u8>) -> Option<nat> {
    if s.len() > 0 && s[0] == 0x2D {
        match dec_value(s.skip(1)) {
            Some(m) => if m == 0 {
                Some(0)
            } else {
                None
            },
            None => None,
        }
    } else {
        match spec_parse_num(s) {
            Some(m) => if m <= 0x7FFFFFFF {
                Some(m)
            } else {
                None
            },
            None => None,
        }
    }
}

/// Parse an unsigned decimal literal with an optional leading `+`.
pub fn parse_num(s: &[u8]) -> (r: Option<u32>)
    ensures
        match r {
            Some(v) => spec_parse_num(s@) == Some(v as nat),
            None => spec_parse_num(s@) is None,
        },
{
    if s.len() > 0 && s[0] == 0x2B {
        let rest = vstd::slice::slice_subrange(s, 1, s.len());
        proof {
            assert(rest@ =~= s@.skip(1));
        }
        parse_decimal(rest)
    } else {
        parse_decimal(s)
    }
}

/// Parse a signed decimal literal as a 31-bit non-negative integer.
pub fn parse_i31(s: &[u8]) -> (r: Option<u32>)
    ensures
        match r {
            Some(v) => spec_parse_i31(s@) == Some(v as nat),
            None => spec_parse_i31(s@) is None,
        },
{
    if s.len() > 0 && s[0] == 0x2D {
        let rest = vstd::slice::slice_subrange(s, 1, s.len());
        proof {
            assert(rest@ =~= s@.skip(1));
        }
        match parse_decimal(rest) {
            Some(m) => if m == 0 {
                Some(0)
            } else {
                None
            },
            None => None,
        }
    } else {
        match parse_num(s) {
            Some(m) => if m <= 0x7FFFFFFF {
                Some(m)
            } else {
                None
            },
            None => None,
        }
    }
}

/// The decimal rendering of `n`, most significant digit first.
pub open spec fn dec_digits(n: nat) -> Seq<u8>
    decreases n,
{
    if n < 10 {
        seq![(0x30 + n) as u8]
    } else {
        dec_digits(n / 10).push((0x30 + n % 10) as u8)
    }
}

/// A decimal rendering is a non-empty digit string that denotes its number.
pub proof fn lemma_dec_digits(n: nat)
    ensures
        dec_digits(n).len() > 0,
        all_digits(dec_digits(n)),
        digits_val(dec_digits(n)) == n,
        dec_digits(n)[0] != 0x30 || n < 10,
    decreases n,
{
    if n >= 10 {
        lemma_dec_digits(n / 10);
        let d = dec_digits(n / 10);
        let whole = d.push((0x30 + n % 10) as u8);
        assert(whole.drop_last() =~= d);
        assert(forall|i: int| 0 <= i < d.len() ==> whole[i] == d[i]);
        assert(whole.last() == (0x30 + n % 10) as u8);
        assert(digit_val(whole.last()) == n % 10);
        assert(digits_val(whole) == digits_val(d) * 10 + digit_val(whole.last()));
        vstd::arithmetic::div_mod::lemma_fundamental_div_mod(n as int, 10);
        assert(n / 10 * 10 + n % 10 == n);
    } else {
        let d = dec_digits(n);
        assert(d.drop_last() =~= Seq::<u8>::empty());
        assert(digits_val(Seq::<u8>::empty()) == 0);
        assert(digit_val(d.last()) == n);
    }
}

/// Render `n` in decimal.
pub fn u32_to_decimal(n: u32) -> (r: Vec<u8>)
    ensures
        r@ == dec_digits(n as nat),
    decreases n,
{
    if n < 10 {
        let mut out: Vec<u8> = Vec::new();
        out.push(0x30 + (n as u8));
        proof {
            assert(out@ =~= dec_digits(n as nat));
        }
        out
    } else {
        let mut out = u32_to_decimal(n / 10);
        out.push(0x30 + ((n % 10) as u8));
        out
    }
}

/// A rendered decimal parses back to its number: the round trip that every
/// numeric header's codec rests on.
pub proof fn lemma_decimal_roundtrip(n: nat)
    requires
        n <= u32::MAX,
    ensures
        dec_value(dec_digits(n)) == Some(n),
        spec_parse_num(dec_digits(n)) == Some(n),
        n <= 0x7FFFFFFF ==> spec_parse_i31(dec_digits(n)) == Some(n),
{
    lemma_dec_digits(n);
    assert(dec_digits(n)[0] != 0x2B && dec_digits(n)[0] != 0x2D);
}


/// Copy a byte slice into an owned vector.
pub fn copy_bytes(s: &[u8]) -> (r: Vec<u8>)
    ensures
        r@ == s@,
{
    let mut out: Vec<u8> = Vec::new();
    out.extend_from_slice(s);
    out
}

} // verus!
