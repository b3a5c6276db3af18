//! Unsigned decimal numbers: reading them as `str::parse` does for the
//! unsigned integer types, and writing them as `Display` does.

use vstd::prelude::*;

verus! {

/// Why a string is not an unsigned decimal number, as `ParseIntError`
/// tells it.
#[derive(Clone, Copy, Debug, PartialEq, Eq, Structural)]
pub enum IntError {
    /// The string is empty.
    Empty,
    /// The string holds a character that is not a decimal digit.
    InvalidDigit,
    /// The number does not fit in the target type.
    PosOverflow,
}

/// Whether `c` is a decimal digit.
pub open spec fn is_digit(c: char) -> bool {
    '0' <= c && c <= '9'
}

/// The value of the decimal digit `c`.
pub open spec fn digit_value(c: char) -> nat {
    (c as int - '0' as int) as nat
}

/// Reads the digits of `s` onto the value `acc` read so far, from left to
/// right, stopping at the first character that is not a digit or at the
/// first digit that takes the value past `max`.
pub open spec fn read_digits(s: Seq<char>, acc: nat, max: nat) -> Result<nat, IntError>
    decreases s.len(),
{
    if s.len() == 0 {
        Ok(acc)
    } else if !is_digit(s[0]) {
        Err(IntError::InvalidDigit)
    } else if acc * 10 + digit_value(s[0]) > max {
        Err(IntError::PosOverflow)
    } else {
        read_digits(s.drop_first(), acc * 10 + digit_value(s[0]), max)
    }
}

/// `str::parse` for an unsigned integer type whose largest value is `max`:
/// an optional `+` followed by one or more decimal digits.
pub open spec fn parse_uint(s: Seq<char>, max: nat) -> Result<nat, IntError> {
    if s.len() == 0 {
        Err(IntError::Empty)
    } else if s.len() == 1 && (s[0] == '+' || s[0] == '-') {
        Err(IntError::InvalidDigit)
    } else if s[0] == '+' {
        read_digits(s.drop_first(), 0, max)
    } else {
        read_digits(s, 0, max)
    }
}

/// `s` read as a `u64`, as `str::parse::<u64>` reads it.
pub open spec fn parse_u64_spec(s: Seq<char>) -> Result<u64, IntError> {
    match parse_uint(s, u64::MAX as nat) {
        Ok(v) => Ok(v as u64),
        Err(e) => Err(e),
    }
}

/// `s` read as a `usize`, as `str::parse::<usize>` reads it.
pub open spec fn parse_usize_spec(s: Seq<char>) -> Result<usize, IntError> {
    match parse_uint(s, usize::MAX as nat) {
        Ok(v) => Ok(v as usize),
        Err(e) => Err(e),
    }
}

fn digit_of(c: char) -> (d: u64)
    requires
        is_digit(c),
    ensures
        d == digit_value(c),
        d <= 9,
{
    (c as u32 - '0' as u32) as u64
}

/// Reads an unsigned decimal number no larger than `max`.
fn parse_uint_exec(s: &[char], max: u64) -> (r: Result<u64, IntError>)
    ensures
        r matches Ok(v) ==> parse_uint(s@, max as nat) == Ok::<nat, IntError>(v as nat),
        r matches Err(e) ==> parse_uint(s@, max as nat) == Err::<nat, IntError>(e),
{
    let n = s.len();
    if n == 0 {
        return Err(IntError::Empty);
    }
    if n == 1 && (s[0] == '+' || s[0] == '-') {
        return Err(IntError::InvalidDigit);
    }
    let start: usize = if s[0] == '+' {
        1
    } else {
        0
    };
    let ghost digits = s@.skip(start as int);
    proof {
        if start == 1 {
            assert(digits =~= s@.drop_first());
        } else {
            assert(digits =~= s@);
        }
    }
    let mut acc: u64 = 0;
    let mut i: usize = start;
    while i < n
        invariant
            n == s@.len(),
            start <= i <= n,
            acc <= max,
            digits == s@.skip(start as int),
            parse_uint(s@, max as nat) == read_digits(digits, 0, max as nat),
            read_digits(digits, 0, max as nat) == read_digits(s@.skip(i as int), acc as nat, max as nat),
        decreases n - i,
    {
        let c = s[i];
        let ghost rest = s@.skip(i as int);
        proof {
            assert(rest[0] == c);
            assert(rest.drop_first() =~= s@.skip(i + 1));
        }
        if !('0' <= c && c <= '9') {
            return Err(IntError::InvalidDigit);
        }
        let d = digit_of(c);
        if (acc as u128) * 10 + (d as u128) > max as u128 {
            return Err(IntError::PosOverflow);
        }
        acc = acc * 10 + d;
        i = i + 1;
    }
    proof {
        assert(s@.skip(n as int) =~= Seq::<char>::empty());
    }
    Ok(acc)
}

/// `s` read as a `u64`, as `str::parse::<u64>` reads it.
pub fn parse_u64(s: &[char]) -> (r: Result<u64, IntError>)
    ensures
        r == parse_u64_spec(s@),
{
    parse_uint_exec(s, u64::MAX)
}

/// `s` read as a `usize`, as `str::parse::<usize>` reads it.
pub fn parse_usize(s: &[char]) -> (r: Result<usize, IntError>)
    ensures
        r == parse_usize_spec(s@),
{
    match parse_uint_exec(s, usize::MAX as u64) {
        Ok(v) => Ok(v as usize),
        Err(e) => Err(e),
    }
}

// ------------------------------------------------------------------
// Writing numbers
// ------------------------------------------------------------------

/// The character of the decimal digit `d`.
pub open spec fn digit_char(d: nat) -> char {
    (d + '0' as nat) as char
}

/// The decimal digits of `n`, most significant first, without leading
/// zeros (`"0"` for zero): the text that `Display` writes for an
/// unsigned integer.
pub open spec fn decimal(n: nat) -> Seq<char>
    decreases n,
{
    if n < 10 {
        seq![digit_char(n)]
    } else {
        decimal(n / 10).push(digit_char(n % 10))
    }
}

fn digit_char_exec(d: u64) -> (c: char)
    requires
        d <= 9,
    ensures
        c == digit_char(d as nat),
{
    let b: u8 = (d as u8) + 48;
    b as char
}

/// Appends the decimal text of `n` to `s`.
pub fn push_decimal(s: &mut String, n: u64)
    ensures
        final(s)@ == old(s)@ + decimal(n as nat),
    decreases n,
{
    if n >= 10 {
        push_decimal(s, n / 10);
    }
    crate::text::push_char(s, digit_char_exec(n % 10));
    proof {
        if n < 10 {
            assert(decimal(n as nat) == seq![digit_char(n as nat)]);
        }
    }
    assert(s@ =~= old(s)@ + decimal(n as nat));
}

/// The decimal text of `n`, as `n.to_string()` gives it.
pub fn decimal_string(n: u64) -> (s: String)
    ensures
        s@ == decimal(n as nat),
{
    let mut s = String::new();
    push_decimal(&mut s, n);
    assert(s@ =~= decimal(n as nat));
    s
}

// ------------------------------------------------------------------
// Reading back what was written
// ------------------------------------------------------------------

proof fn lemma_read_digits_append(s: Seq<char>, t: Seq<char>, acc: nat, max: nat)
    requires
        read_digits(s, acc, max) is Ok,
    ensures
        read_digits(s + t, acc, max) == read_digits(t, read_digits(s, acc, max)->Ok_0, max),
    decreases s.len(),
{
    if s.len() == 0 {
        assert(s + t =~= t);
    } else {
        assert((s + t)[0] == s[0]);
        assert((s + t).drop_first() =~= s.drop_first() + t);
        lemma_read_digits_append(s.drop_first(), t, acc * 10 + digit_value(s[0]), max);
    }
}

proof fn lemma_decimal_reads_back(n: nat, max: nat)
    requires
        n <= max,
    ensures
        read_digits(decimal(n), 0, max) == Ok::<nat, IntError>(n),
        decimal(n).len() > 0,
        is_digit(decimal(n)[0]),
    decreases n,
{
    if n < 10 {
        let s = seq![digit_char(n)];
        assert(decimal(n) == s);
        assert(s.drop_first() =~= Seq::<char>::empty());
        assert(digit_value(digit_char(n)) == n);
        assert(is_digit(s[0]));
        assert(read_digits(s.drop_first(), n, max) == Ok::<nat, IntError>(n));
    } else {
        let q = n / 10;
        let d = n % 10;
        lemma_decimal_reads_back(q, max);
        let t = seq![digit_char(d)];
        lemma_read_digits_append(decimal(q), t, 0, max);
        assert(decimal(q).push(digit_char(d)) =~= decimal(q) + t);
        assert(digit_value(digit_char(d)) == d);
        assert(t.drop_first() =~= Seq::<char>::empty());
        assert(q * 10 + d == n);
        assert(is_digit(t[0]));
        assert(read_digits(t.drop_first(), n, max) == Ok::<nat, IntError>(n));
        assert(read_digits(t, q, max) == Ok::<nat, IntError>(n));
        assert(decimal(n) == decimal(q) + t);
        assert(decimal(n)[0] == decimal(q)[0]);
    }
}

/// The decimal text of a number is one or more digits.
pub proof fn lemma_decimal_digits(n: nat)
    ensures
        decimal(n).len() > 0,
        forall|i: int| 0 <= i < decimal(n).len() ==> is_digit(#[trigger] decimal(n)[i]),
    decreases n,
{
    if n >= 10 {
        lemma_decimal_digits(n / 10);
        let d = decimal(n / 10);
        assert forall|i: int| 0 <= i < decimal(n).len() implies is_digit(#[trigger] decimal(n)[i]) by {
            if i < d.len() {
                assert(decimal(n)[i] == d[i]);
            }
        }
    }
}

/// Reading back the decimal text of a number gives that number: what
/// `decimal_string` writes, `parse_u64` (and `parse_usize`, for a value that
/// fits) reads as the same value.
pub proof fn law_decimal_round_trip(n: nat, max: nat)
    requires
        n <= max,
    ensures
        parse_uint(decimal(n), max) == Ok::<nat, IntError>(n),
{
    lemma_decimal_reads_back(n, max);
}

} // verus!
