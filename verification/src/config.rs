//! Load-time parsing of the host's configuration inputs: the hexadecimal
//! USB vendor/product identifiers and the comma-separated breakpoint list
//! of the control curve.  Malformed input is a configuration error
//! reported to the caller, never guessed around.

use vstd::prelude::*;
use vstd::string::StringSliceAdditionalSpecFns;

verus! {

/// ASCII decimal digit.
pub open spec fn is_digit(b: u8) -> bool {
    48 <= b <= 57
}

/// ASCII hexadecimal digit, either case.
pub open spec fn is_hex_digit(b: u8) -> bool {
    is_digit(b) || (97 <= b <= 102) || (65 <= b <= 70)
}

/// Numeric value of a hexadecimal digit.
pub open spec fn hex_digit_val(b: u8) -> int {
    if is_digit(b) {
        b - 48
    } else if 97 <= b <= 102 {
        b - 87
    } else {
        b - 55
    }
}

/// Value of a hexadecimal digit string, most significant digit first.
pub open spec fn hex_val(s: Seq<u8>) -> int
    decreases s.len(),
{
    if s.len() == 0 {
        0
    } else {
        hex_val(s.drop_last()) * 16 + hex_digit_val(s.last())
    }
}

/// Value of a decimal digit string, most significant digit first.
pub open spec fn dec_val(s: Seq<u8>) -> int
    decreases s.len(),
{
    if s.len() == 0 {
        0
    } else {
        dec_val(s.drop_last()) * 10 + (s.last() - 48)
    }
}

/// Every byte is a hexadecimal digit.
pub open spec fn all_hex(s: Seq<u8>) -> bool {
    forall|i: int| 0 <= i < s.len() ==> is_hex_digit(#[trigger] s[i])
}

/// Every byte is a decimal digit.
pub open spec fn all_digits(s: Seq<u8>) -> bool {
    forall|i: int| 0 <= i < s.len() ==> is_digit(#[trigger] s[i])
}

/// Why a hexadecimal identifier failed to parse.
#[derive(Clone, Copy, Debug, PartialEq, Eq, Structural)]
pub enum HexParseError {
    /// The input held no characters at all.
    Empty,
    /// A character was neither a hexadecimal digit nor a leading plus
    /// sign, or the plus sign stood alone.
    InvalidDigit,
    /// The value does not fit sixteen bits.
    Overflow,
}

/// Value of a hexadecimal identifier: an optional leading plus sign, then
/// hexadecimal digits whose value fits sixteen bits.
pub open spec fn parse_hex_spec(s: Seq<u8>) -> Result<u16, HexParseError> {
    if s.len() == 0 {
        Err(HexParseError::Empty)
    } else {
        let t = if s[0] == 43 {
            s.skip(1)
        } else {
            s
        };
        if t.len() == 0 {
            Err(HexParseError::InvalidDigit)
        } else if !all_hex(t) {
            Err(HexParseError::InvalidDigit)
        } else if hex_val(t) > 0xFFFF {
            Err(HexParseError::Overflow)
        } else {
            Ok(hex_val(t) as u16)
        }
    }
}

/// Parses a hexadecimal identifier from raw bytes.
pub fn parse_hex_bytes(s: &[u8]) -> (r: Result<u16, HexParseError>)
    ensures
        r == parse_hex_spec(s@),
{
    if s.len() == 0 {
        return Err(HexParseError::Empty);
    }
    let start: usize = if s[0] == 43 {
        1
    } else {
        0
    };
    let ghost t = s@.skip(start as int);
    proof {
        assert(s@.skip(0) =~= s@);
        assert(forall|i: int| 0 <= i < t.len() ==> #[trigger] t[i] == s@[start + i]);
    }
    if s.len() == start {
        return Err(HexParseError::InvalidDigit);
    }
    let mut v: u32 = 0;
    let mut i: usize = start;
    while i < s.len()
        invariant
            t == s@.skip(start as int),
            1 <= s@.len(),
            t.len() >= 1,
            s@[0] == 43 ==> start == 1,
            s@[0] != 43 ==> start == 0 && t == s@,
            start <= i <= s@.len(),
            start <= 1,
            forall|j: int| 0 <= j < t.len() ==> #[trigger] t[j] == s@[start + j],
            all_hex(t.take(i - start as int)),
            v <= 0x10000,
            hex_val(t.take(i - start as int)) <= 0xFFFF ==> v == hex_val(
                t.take(i - start as int),
            ),
            hex_val(t.take(i - start as int)) > 0xFFFF ==> v == 0x10000,
            hex_val(t.take(i - start as int)) >= 0,
        decreases s@.len() - i,
    {
        let b = s[i];
        let d: u32 = if 48 <= b && b <= 57 {
            (b - 48) as u32
        } else if 97 <= b && b <= 102 {
            (b - 87) as u32
        } else if 65 <= b && b <= 70 {
            (b - 55) as u32
        } else {
            proof {
                assert(t[i - start as int] == b);
                assert(!all_hex(t));
            }
            return Err(HexParseError::InvalidDigit);
        };
        proof {
            let k = i - start as int;
            assert(t.take(k + 1).drop_last() =~= t.take(k));
            assert(t.take(k + 1).last() == t[k]);
            assert(t[k] == b);
            assert(hex_val(t.take(k + 1)) == hex_val(t.take(k)) * 16 + hex_digit_val(b));
        }
        v = v * 16 + d;
        if v > 0x10000 {
            v = 0x10000;
        }
        i += 1;
    }
    proof {
        assert(t.take(s@.len() - start as int) =~= t);
    }
    if v > 0xFFFF {
        Err(HexParseError::Overflow)
    } else {
        Ok(v as u16)
    }
}

/// Parses a hexadecimal identifier, as given on the command line for the
/// USB vendor and product numbers.
pub fn parse_hex(input: &str) -> (r: Result<u16, HexParseError>)
    ensures
        r == parse_hex_spec(input.spec_bytes()),
{
    parse_hex_bytes(input.as_bytes())
}

/// Index of the first occurrence of a byte, or the sequence's length when
/// it does not occur.
pub open spec fn find_first(s: Seq<u8>, b: u8) -> int
    decreases s.len(),
{
    if s.len() == 0 {
        0
    } else if s[0] == b {
        0
    } else {
        1 + find_first(s.skip(1), b)
    }
}

/// The found index is in range, nothing before it matches, and it points
/// at a match unless the byte does not occur.
pub proof fn lemma_find_first_props(s: Seq<u8>, b: u8)
    ensures
        0 <= find_first(s, b) <= s.len(),
        forall|i: int| 0 <= i < find_first(s, b) ==> s[i] != b,
        find_first(s, b) < s.len() ==> s[find_first(s, b)] == b,
    decreases s.len(),
{
    if s.len() > 0 && s[0] != b {
        lemma_find_first_props(s.skip(1), b);
        assert(forall|i: int| 1 <= i < find_first(s, b) ==> s[i] == s.skip(1)[i - 1]);
        if find_first(s, b) < s.len() {
            assert(s[find_first(s, b)] == s.skip(1)[find_first(s.skip(1), b)]);
        }
    }
}

/// An index with those properties is the first occurrence.
pub proof fn lemma_find_first_exact(s: Seq<u8>, b: u8, n: int)
    requires
        0 <= n <= s.len(),
        forall|i: int| 0 <= i < n ==> s[i] != b,
        n < s.len() ==> s[n] == b,
    ensures
        find_first(s, b) == n,
    decreases s.len(),
{
    if s.len() == 0 || s[0] == b {
        assert(n == 0);
    } else {
        assert(forall|i: int| 0 <= i < n - 1 ==> s.skip(1)[i] == s[i + 1]);
        lemma_find_first_exact(s.skip(1), b, n - 1);
    }
}

/// Value of one breakpoint number: decimal digits whose value fits a byte.
pub open spec fn parse_u8_spec(s: Seq<u8>) -> Option<u8> {
    if s.len() == 0 || !all_digits(s) || dec_val(s) > 255 {
        None
    } else {
        Some(dec_val(s) as u8)
    }
}

/// Value of one breakpoint: a temperature and a duty cycle separated by a
/// colon.
pub open spec fn parse_pair_spec(s: Seq<u8>) -> Option<(u8, u8)> {
    let j = find_first(s, 58);
    if j == s.len() {
        None
    } else {
        match (parse_u8_spec(s.take(j)), parse_u8_spec(s.skip(j + 1))) {
            (Option::Some(t), Option::Some(p)) => Some((t, p)),
            _ => None,
        }
    }
}

/// Value of the breakpoint list: breakpoints separated by commas, in the
/// order written.
pub open spec fn parse_points_spec(s: Seq<u8>) -> Option<Seq<(u8, u8)>>
    decreases s.len(),
    via parse_points_spec_decreases
{
    let j = find_first(s, 44);
    if j == s.len() {
        match parse_pair_spec(s) {
            Option::Some(p) => Some(seq![p]),
            Option::None => None,
        }
    } else {
        match (parse_pair_spec(s.take(j)), parse_points_spec(s.skip(j + 1))) {
            (Option::Some(p), Option::Some(rest)) => Some(seq![p] + rest),
            _ => None,
        }
    }
}

#[via_fn]
proof fn parse_points_spec_decreases(s: Seq<u8>) {
    lemma_find_first_props(s, 44);
}

/// Parses one decimal number of the segment `[start, end)`.
fn parse_u8_seg(s: &[u8], start: usize, end: usize) -> (r: Option<u8>)
    requires
        start <= end <= s@.len(),
    ensures
        r == parse_u8_spec(s@.subrange(start as int, end as int)),
{
    let ghost t = s@.subrange(start as int, end as int);
    if start == end {
        return None;
    }
    let mut v: u32 = 0;
    let mut i: usize = start;
    while i < end
        invariant
            t == s@.subrange(start as int, end as int),
            start <= i <= end <= s@.len(),
            all_digits(t.take(i - start as int)),
            v <= 256,
            dec_val(t.take(i - start as int)) <= 255 ==> v == dec_val(t.take(i - start as int)),
            dec_val(t.take(i - start as int)) > 255 ==> v == 256,
            dec_val(t.take(i - start as int)) >= 0,
        decreases end - i,
    {
        let b = s[i];
        if !(48 <= b && b <= 57) {
            proof {
                assert(t[i - start as int] == b);
                assert(!all_digits(t));
            }
            return None;
        }
        proof {
            let k = i - start as int;
            assert(t.take(k + 1).drop_last() =~= t.take(k));
            assert(t.take(k + 1).last() == t[k]);
            assert(t[k] == b);
            assert(dec_val(t.take(k + 1)) == dec_val(t.take(k)) * 10 + (b - 48));
        }
        v = v * 10 + ((b - 48) as u32);
        if v > 256 {
            v = 256;
        }
        i += 1;
    }
    proof {
        assert(t.take(end - start as int) =~= t);
    }
    if v > 255 {
        None
    } else {
        Some(v as u8)
    }
}

/// Index of the first occurrence of a byte at or after `from`, or the
/// input's length.
fn find_byte_from(s: &[u8], from: usize, b: u8) -> (j: usize)
    requires
        from <= s@.len(),
    ensures
        from <= j <= s@.len(),
        j - from == find_first(s@.skip(from as int), b),
        j < s@.len() ==> s@[j as int] == b,
        forall|i: int| from <= i < j ==> s@[i] != b,
{
    let ghost t = s@.skip(from as int);
    proof {
        assert(forall|i: int| 0 <= i < t.len() ==> t[i] == s@[from + i]);
    }
    let mut j: usize = from;
    while j < s.len() && s[j] != b
        invariant
            from <= j <= s@.len(),
            forall|i: int| from <= i < j ==> s@[i] != b,
        decreases s@.len() - j,
    {
        j += 1;
    }
    proof {
        assert(forall|i: int| 0 <= i < t.len() ==> t[i] == s@[from + i]);
        lemma_find_first_exact(t, b, j - from as int);
    }
    j
}

/// Parses one breakpoint from the segment `[start, end)`.
fn parse_pair_seg(s: &[u8], start: usize, end: usize) -> (r: Option<(u8, u8)>)
    requires
        start <= end <= s@.len(),
    ensures
        r == parse_pair_spec(s@.subrange(start as int, end as int)),
{
    let ghost t = s@.subrange(start as int, end as int);
    proof {
        assert(forall|i: int| 0 <= i < t.len() ==> #[trigger] t[i] == s@[start + i]);
    }
    let k = find_byte_from(s, start, 58);
    if k >= end {
        proof {
            lemma_find_first_exact(t, 58, t.len() as int);
        }
        return None;
    }
    proof {
        lemma_find_first_exact(t, 58, k - start as int);
        assert(t.take(k - start as int) =~= s@.subrange(start as int, k as int));
        assert(t.skip(k - start as int + 1) =~= s@.subrange(k as int + 1, end as int));
    }
    let temp = parse_u8_seg(s, start, k);
    let duty = parse_u8_seg(s, k + 1, end);
    match (temp, duty) {
        (Some(tv), Some(pv)) => Some((tv, pv)),
        _ => None,
    }
}

/// Parses the breakpoint segments that begin at `start`, appending them to
/// `out`.
fn parse_points_from(s: &[u8], start: usize, out: &mut Vec<(u8, u8)>) -> (ok: bool)
    requires
        start <= s@.len(),
    ensures
        match parse_points_spec(s@.skip(start as int)) {
            Option::Some(ps) => ok && final(out)@ == old(out)@ + ps,
            Option::None => !ok,
        },
    decreases s@.len() - start,
{
    let ghost t = s@.skip(start as int);
    let e = find_byte_from(s, start, 44);
    proof {
        lemma_find_first_props(t, 44);
        assert(t.take(e - start as int) =~= s@.subrange(start as int, e as int));
    }
    let pair = match parse_pair_seg(s, start, e) {
        Some(p) => p,
        None => {
            proof {
                if e == s.len() {
                    assert(t.take(e - start as int) =~= t);
                }
            }
            return false;
        },
    };
    out.push(pair);
    if e == s.len() {
        proof {
            assert(t.take(e - start as int) =~= t);
            assert(old(out)@ + seq![pair] =~= out@);
        }
        return true;
    }
    let ok = parse_points_from(s, e + 1, out);
    proof {
        assert(t.skip(e - start as int + 1) =~= s@.skip(e as int + 1));
        if parse_points_spec(s@.skip(e as int + 1)) is Some {
            let rest = parse_points_spec(s@.skip(e as int + 1))->Some_0;
            assert(out@ =~= old(out)@ + (seq![pair] + rest));
        }
    }
    ok
}

/// Parses the whole breakpoint list as given on the command line:
/// comma-separated `temperature:duty` pairs, in the order written.
pub fn parse_control_points(s: &[u8]) -> (r: Option<Vec<(u8, u8)>>)
    ensures
        match parse_points_spec(s@) {
            Option::Some(ps) => r matches Some(v) && v@ == ps,
            Option::None => r is None,
        },
{
    let mut out: Vec<(u8, u8)> = Vec::new();
    let ok = parse_points_from(s, 0, &mut out);
    proof {
        assert(s@.skip(0) =~= s@);
        if parse_points_spec(s@) is Some {
            assert(out@ =~= parse_points_spec(s@)->Some_0);
        }
    }
    if ok {
        Some(out)
    } else {
        None
    }
}

} // verus!
