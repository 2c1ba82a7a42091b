use vstd::prelude::*;
use vstd::string::{StrSliceExecFns, StringExecFns};
use crate::text::{decimal_spec, decimal_string, digit_char};

verus! {

/// The largest index that the interactive front end accepts.
pub const MAX_FIBONACCI_N: u32 = 25;

/// The characters with the Unicode `White_Space` property, which trimming removes.
pub open spec fn is_white_space(c: char) -> bool {
    ('\u{9}' <= c && c <= '\u{d}') || c == ' ' || c == '\u{85}' || c == '\u{a0}' || c
        == '\u{1680}' || ('\u{2000}' <= c && c <= '\u{200a}') || c == '\u{2028}' || c
        == '\u{2029}' || c == '\u{202f}' || c == '\u{205f}' || c == '\u{3000}'
}

/// `s` without its leading white space.
pub open spec fn trim_start_spec(s: Seq<char>) -> Seq<char>
    decreases s.len(),
{
    if s.len() > 0 && is_white_space(s[0]) {
        trim_start_spec(s.drop_first())
    } else {
        s
    }
}

/// `s` without its trailing white space.
pub open spec fn trim_end_spec(s: Seq<char>) -> Seq<char>
    decreases s.len(),
{
    if s.len() > 0 && is_white_space(s.last()) {
        trim_end_spec(s.drop_last())
    } else {
        s
    }
}

/// `s` without white space at either end.
pub open spec fn trim_spec(s: Seq<char>) -> Seq<char> {
    trim_end_spec(trim_start_spec(s))
}

pub open spec fn is_digit(c: char) -> bool {
    c == '0' || c == '1' || c == '2' || c == '3' || c == '4' || c == '5' || c == '6' || c == '7'
        || c == '8' || c == '9'
}

/// The value of a decimal digit; the inverse of `digit_char`.
pub open spec fn digit_value(c: char) -> nat {
    if c == '1' {
        1
    } else if c == '2' {
        2
    } else if c == '3' {
        3
    } else if c == '4' {
        4
    } else if c == '5' {
        5
    } else if c == '6' {
        6
    } else if c == '7' {
        7
    } else if c == '8' {
        8
    } else if c == '9' {
        9
    } else {
        0
    }
}

/// The value of a string of decimal digits.
pub open spec fn digits_value(d: Seq<char>) -> nat
    decreases d.len(),
{
    if d.len() == 0 {
        0
    } else {
        10 * digits_value(d.drop_last()) + digit_value(d.last())
    }
}

pub open spec fn all_digits(d: Seq<char>) -> bool {
    forall|k: int| 0 <= k < d.len() ==> is_digit(#[trigger] d[k])
}

/// The digits of `t`, after an optional leading `+`.
pub open spec fn unsigned_digits(t: Seq<char>) -> Seq<char> {
    if t.len() > 0 && t[0] == '+' {
        t.drop_first()
    } else {
        t
    }
}

/// A non-negative integer written in decimal: an optional `+`, then one or
/// more ASCII digits, of any length. Anything else, a sign `-` included, is no
/// number.
pub open spec fn parse_number_spec(t: Seq<char>) -> Option<nat> {
    let d = unsigned_digits(t);
    if d.len() > 0 && all_digits(d) {
        Some(digits_value(d))
    } else {
        None
    }
}

pub open spec fn invalid_number_message() -> Seq<char> {
    "Please enter a valid number"@
}

pub open spec fn too_large_message(n: nat, max: nat) -> Seq<char> {
    "Number "@ + decimal_spec(n) + " is too large! Please enter 0-"@ + decimal_spec(max)
}

/// What validating `input` against the bound `max` gives: the number, once
/// white space is trimmed, if it is at most `max`; else the message that names
/// a number that is too large, however large; else the message for no number.
pub open spec fn validate_spec(input: Seq<char>, max: nat) -> Result<u32, Seq<char>> {
    match parse_number_spec(trim_spec(input)) {
        Some(n) => if n <= max {
            Ok(n as u32)
        } else {
            Err(too_large_message(n, max))
        },
        None => Err(invalid_number_message()),
    }
}

/// Returns the bounds `lo..hi` of `s` once white space is trimmed from both ends.
fn trim_bounds(s: &str) -> (r: (usize, usize))
    ensures
        r.0 <= r.1 <= s@.len(),
        s@.subrange(r.0 as int, r.1 as int) == trim_spec(s@),
{
    let len = s.unicode_len();
    let mut lo: usize = 0;
    assert(s@.subrange(0, len as int) =~= s@);
    while lo < len && is_white_space_char(s.get_char(lo))
        invariant
            lo <= len == s@.len(),
            trim_start_spec(s@) == trim_start_spec(s@.subrange(lo as int, len as int)),
        decreases len - lo,
    {
        assert(s@.subrange(lo as int, len as int).drop_first() =~= s@.subrange(
            lo as int + 1,
            len as int,
        ));
        lo = lo + 1;
    }
    let ghost t = s@.subrange(lo as int, len as int);
    assert(trim_start_spec(t) == t);
    let mut hi: usize = len;
    while hi > lo && is_white_space_char(s.get_char(hi - 1))
        invariant
            lo <= hi <= len == s@.len(),
            t == s@.subrange(lo as int, len as int),
            trim_end_spec(t) == trim_end_spec(s@.subrange(lo as int, hi as int)),
        decreases hi,
    {
        assert(s@.subrange(lo as int, hi as int).drop_last() =~= s@.subrange(
            lo as int,
            hi as int - 1,
        ));
        hi = hi - 1;
    }
    (lo, hi)
}

/// Returns whether `c` is white space, as `is_white_space` says.
fn is_white_space_char(c: char) -> (r: bool)
    ensures
        r == is_white_space(c),
{
    ('\u{9}' <= c && c <= '\u{d}') || c == ' ' || c == '\u{85}' || c == '\u{a0}' || c
        == '\u{1680}' || ('\u{2000}' <= c && c <= '\u{200a}') || c == '\u{2028}' || c
        == '\u{2029}' || c == '\u{202f}' || c == '\u{205f}' || c == '\u{3000}'
}

/// Returns the value of a decimal digit, or `None` for any other character.
fn digit_of(c: char) -> (r: Option<u64>)
    ensures
        is_digit(c) <==> r is Some,
        r is Some ==> r->0 == digit_value(c),
{
    if c == '0' {
        Some(0)
    } else if c == '1' {
        Some(1)
    } else if c == '2' {
        Some(2)
    } else if c == '3' {
        Some(3)
    } else if c == '4' {
        Some(4)
    } else if c == '5' {
        Some(5)
    } else if c == '6' {
        Some(6)
    } else if c == '7' {
        Some(7)
    } else if c == '8' {
        Some(8)
    } else if c == '9' {
        Some(9)
    } else {
        None
    }
}

/// Digits without a leading zero are the decimal writing of their value.
proof fn lemma_decimal_of_digits(r: Seq<char>)
    requires
        r.len() > 0,
        all_digits(r),
        r[0] != '0',
    ensures
        digits_value(r) >= 1,
        decimal_spec(digits_value(r)) == r,
    decreases r.len(),
{
    let c = r.last();
    assert(is_digit(r[r.len() - 1]));
    assert(digit_value(c) < 10);
    assert(digit_char(digit_value(c)) == c);
    if r.len() == 1 {
        assert(digits_value(r.drop_last()) == 0);
        assert(r =~= seq![c]);
    } else {
        let p = r.drop_last();
        assert(all_digits(p)) by {
            assert forall|k: int| 0 <= k < p.len() implies is_digit(#[trigger] p[k]) by {
                assert(p[k] == r[k]);
            }
        }
        assert(p[0] == r[0]);
        lemma_decimal_of_digits(p);
        let v = digits_value(r);
        assert(v == 10 * digits_value(p) + digit_value(c));
        assert(v / 10 == digits_value(p));
        assert(v % 10 == digit_value(c));
        assert(r =~= p + seq![c]);
    }
}

/// A number read from text: where its significant digits start, and its value,
/// or some value above `u32::MAX` for a larger number.
struct ReadNumber {
    first: usize,
    value: u64,
}

/// Reads `s[lo..hi]` as a number (see `parse_number_spec`). Returns where its
/// significant digits start and its value, or a value above `u32::MAX` for any
/// larger number.
fn parse_number_range(s: &str, lo: usize, hi: usize) -> (r: Option<ReadNumber>)
    requires
        lo <= hi <= s@.len(),
    ensures
        match parse_number_spec(s@.subrange(lo as int, hi as int)) {
            Some(n) => {
                &&& r is Some
                &&& lo <= r->0.first <= hi
                &&& n <= u32::MAX ==> r->0.value == n
                &&& n > u32::MAX ==> r->0.value > u32::MAX
                &&& n > 0 ==> s@.subrange(r->0.first as int, hi as int) == decimal_spec(n)
            },
            None => r is None,
        },
{
    let ghost t = s@.subrange(lo as int, hi as int);
    let mut start: usize = lo;
    if lo < hi && s.get_char(lo) == '+' {
        start = lo + 1;
        assert(t.drop_first() =~= s@.subrange(start as int, hi as int));
    }
    let ghost d = s@.subrange(start as int, hi as int);
    assert(d == unsigned_digits(t));
    if start == hi {
        return None;
    }
    let mut z: usize = start;
    while z < hi && s.get_char(z) == '0'
        invariant
            start <= z <= hi <= s@.len(),
            all_digits(s@.subrange(start as int, z as int)),
            digits_value(s@.subrange(start as int, z as int)) == 0,
        decreases hi - z,
    {
        let ghost q = s@.subrange(start as int, z as int + 1);
        assert(q.drop_last() =~= s@.subrange(start as int, z as int));
        assert(all_digits(q)) by {
            assert forall|j: int| 0 <= j < q.len() implies is_digit(#[trigger] q[j]) by {
                if j < q.len() - 1 {
                    assert(q[j] == s@.subrange(start as int, z as int)[j]);
                }
            }
        }
        z = z + 1;
    }
    let mut value: u64 = 0;
    let mut overflow = false;
    let mut k: usize = z;
    while k < hi
        invariant
            start <= z <= k <= hi <= s@.len(),
            d == s@.subrange(start as int, hi as int),
            d == unsigned_digits(t),
            t == s@.subrange(lo as int, hi as int),
            all_digits(s@.subrange(start as int, k as int)),
            z < hi ==> s@[z as int] != '0',
            digits_value(s@.subrange(start as int, k as int)) == digits_value(
                s@.subrange(z as int, k as int),
            ),
            !overflow ==> value == digits_value(s@.subrange(z as int, k as int)) && value
                <= u32::MAX,
            overflow ==> digits_value(s@.subrange(z as int, k as int)) > u32::MAX,
        decreases hi - k,
    {
        let c = s.get_char(k);
        let ghost p = s@.subrange(start as int, k as int);
        let ghost q = s@.subrange(start as int, k as int + 1);
        let ghost pz = s@.subrange(z as int, k as int);
        let ghost qz = s@.subrange(z as int, k as int + 1);
        assert(q.drop_last() =~= p);
        assert(q.last() == c);
        assert(qz.drop_last() =~= pz);
        assert(qz.last() == c);
        if k == z {
            assert(pz.len() == 0);
        }
        match digit_of(c) {
            None => {
                assert(d[k - start] == c);
                assert(!all_digits(d));
                return None;
            },
            Some(digit) => {
                if !overflow {
                    value = value * 10 + digit;
                    if value > 0xffff_ffff {
                        overflow = true;
                    }
                }
            },
        }
        assert(all_digits(q)) by {
            assert forall|j: int| 0 <= j < q.len() implies is_digit(#[trigger] q[j]) by {
                if j < p.len() {
                    assert(q[j] == p[j]);
                }
            }
        }
        k = k + 1;
    }
    assert(s@.subrange(start as int, k as int) =~= d);
    proof {
        let rest = s@.subrange(z as int, hi as int);
        if digits_value(d) > 0 {
            if z == hi {
                assert(rest.len() == 0);
            }
            assert(rest[0] == s@[z as int]);
            assert(all_digits(rest)) by {
                assert forall|j: int| 0 <= j < rest.len() implies is_digit(#[trigger] rest[j]) by {
                    assert(rest[j] == d[j + z - start]);
                }
            }
            lemma_decimal_of_digits(rest);
        }
    }
    if overflow {
        Some(ReadNumber { first: z, value: 0x1_0000_0000 })
    } else {
        Some(ReadNumber { first: z, value })
    }
}

/// Validates `input` against the bound `max`: trims white space, parses an
/// unsigned number, and accepts it if it is at most `max`.
pub fn validate_input_with_max(input: &str, max: u32) -> (r: Result<u32, String>)
    ensures
        match r {
            Ok(n) => validate_spec(input@, max as nat) == Ok::<u32, Seq<char>>(n),
            Err(m) => validate_spec(input@, max as nat) == Err::<u32, Seq<char>>(m@),
        },
{
    let (lo, hi) = trim_bounds(input);
    match parse_number_range(input, lo, hi) {
        Some(read) => {
            let (first, n) = (read.first, read.value);
            if n <= max as u64 {
                Ok(n as u32)
            } else {
                let mut m = String::from_str("Number ");
                m.append(input.substring_char(first, hi));
                m.append(" is too large! Please enter 0-");
                m.append(decimal_string(max as u64).as_str());
                Err(m)
            }
        },
        None => Err(String::from_str("Please enter a valid number")),
    }
}

/// Validates `input` against `MAX_FIBONACCI_N`.
pub fn validate_input(input: &str) -> (r: Result<u32, String>)
    ensures
        match r {
            Ok(n) => validate_spec(input@, MAX_FIBONACCI_N as nat) == Ok::<u32, Seq<char>>(n),
            Err(m) => validate_spec(input@, MAX_FIBONACCI_N as nat) == Err::<u32, Seq<char>>(
                m@,
            ),
        },
{
    validate_input_with_max(input, MAX_FIBONACCI_N)
}

/// Returns whether `input` validates.
pub fn is_valid_input(input: &str) -> (r: bool)
    ensures
        r == validate_spec(input@, MAX_FIBONACCI_N as nat) is Ok,
{
    match validate_input(input) {
        Ok(_) => true,
        Err(_) => false,
    }
}

/// Returns the message for input that does not validate.
pub fn get_error_message(input: &str) -> (r: String)
    requires
        validate_spec(input@, MAX_FIBONACCI_N as nat) is Err,
    ensures
        validate_spec(input@, MAX_FIBONACCI_N as nat) == Err::<u32, Seq<char>>(r@),
{
    match validate_input(input) {
        Ok(_) => String::new(),
        Err(m) => m,
    }
}

} // verus!
