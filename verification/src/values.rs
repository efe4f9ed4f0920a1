//! Fixed-width decimal value types: two-digit unsigned addresses and signed
//! three-digit words, together with the saturation rule for word arithmetic
//! and the textual forms the machine's output opcodes produce.

use vstd::prelude::*;

verus! {

/// Holds exactly the integers a two-digit address can carry.
pub open spec fn addr_in_range(v: int) -> bool {
    0 <= v <= 99
}

/// Holds exactly the integers a signed three-digit word can carry.
pub open spec fn word_in_range(v: int) -> bool {
    -999 <= v <= 999
}

/// Saturates an integer to the word range: results above 999 become exactly
/// 999, results below -999 become exactly -999, anything in range is kept.
pub open spec fn clamp_word(v: int) -> int {
    if v > 999 {
        999
    } else if v < -999 {
        -999
    } else {
        v
    }
}

/// A two-digit unsigned decimal value: the program counter and every operand
/// address. Compared and copied by value.
#[derive(Copy, Clone, PartialEq, Eq, Structural, Debug)]
pub struct D2 {
    pub value: u8,
}

impl D2 {
    /// Builds an address value. Producers must mask or truncate to two digits
    /// first: construction from an out-of-range source is a caller defect.
    pub fn new(v: u8) -> (r: D2)
        requires
            addr_in_range(v as int),
        ensures
            r.value == v,
    {
        D2 { value: v }
    }
}

/// A signed three-digit decimal value: the accumulator and every memory cell.
/// Compared and copied by value.
#[derive(Copy, Clone, PartialEq, Eq, Structural, Debug)]
pub struct D3 {
    pub value: i16,
}

impl D3 {
    /// Builds a word value from a source within the three-digit range.
    pub fn new(v: i16) -> (r: D3)
        requires
            word_in_range(v as int),
        ensures
            r.value == v,
    {
        D3 { value: v }
    }
}

/// The character for the decimal digit `d`.
pub open spec fn digit_char(d: int) -> char {
    ((d + 48) as u8) as char
}

/// The decimal digits of a non-negative integer, most significant first,
/// without leading zeros.
pub open spec fn dec_digits(n: int) -> Seq<char>
    decreases n,
{
    if n < 10 {
        seq![digit_char(n)]
    } else {
        dec_digits(n / 10).push(digit_char(n % 10))
    }
}

/// The plain decimal text of a word value: a minus sign for negatives, then
/// the digits with no padding.
pub open spec fn dec_str(v: int) -> Seq<char> {
    if v < 0 {
        seq!['-'] + dec_digits(-v)
    } else {
        dec_digits(v)
    }
}

/// The low eight bits of a word value, read the way a two's-complement
/// truncation to one byte reads them. Meaningful for v >= -1024.
pub open spec fn low_byte(v: int) -> int {
    if v >= 0 {
        v % 256
    } else {
        (v + 1024) % 256
    }
}

/// The character whose code point is the low byte of a word value.
pub open spec fn low_byte_char(v: int) -> char {
    (low_byte(v) as u8) as char
}

/// The character for the decimal digit `d`.
fn digit_char_exec(d: u16) -> (c: char)
    requires
        d <= 9,
    ensures
        c == digit_char(d as int),
{
    ((d as u8) + 48) as char
}

/// Appends the plain decimal text of a word value, as the numeric output
/// opcode writes it.
pub fn push_decimal(out: &mut Vec<char>, v: i16)
    requires
        word_in_range(v as int),
    ensures
        final(out)@ == old(out)@ + dec_str(v as int),
{
    let neg: bool = v < 0;
    if neg {
        out.push('-');
    }
    let n: u16 = if neg {
        (-v) as u16
    } else {
        v as u16
    };
    proof {
        lemma_dec_digits_word(n as int);
    }
    if n >= 100 {
        out.push(digit_char_exec(n / 100));
        out.push(digit_char_exec((n / 10) % 10));
        out.push(digit_char_exec(n % 10));
    } else if n >= 10 {
        out.push(digit_char_exec(n / 10));
        out.push(digit_char_exec(n % 10));
    } else {
        out.push(digit_char_exec(n));
    }
    proof {
        assert(final(out)@ =~= old(out)@ + dec_str(v as int));
    }
}

/// Spells the digit sequence of an integer of at most three digits out.
proof fn lemma_dec_digits_word(n: int)
    requires
        0 <= n <= 999,
    ensures
        n < 10 ==> dec_digits(n) =~= seq![digit_char(n)],
        10 <= n < 100 ==> dec_digits(n) =~= seq![digit_char(n / 10), digit_char(n % 10)],
        100 <= n ==> dec_digits(n) =~= seq![
            digit_char(n / 100),
            digit_char((n / 10) % 10),
            digit_char(n % 10),
        ],
{
    if 10 <= n < 100 {
        assert(dec_digits(n / 10) =~= seq![digit_char(n / 10)]);
        assert(dec_digits(n) =~= dec_digits(n / 10).push(digit_char(n % 10)));
    }
    if 100 <= n {
        assert(n / 10 / 10 == n / 100) by (nonlinear_arith)
            requires 0 <= n;
        assert(10 <= n / 10 < 100);
        assert(dec_digits(n / 100) =~= seq![digit_char(n / 100)]);
        assert(dec_digits(n / 10) =~= dec_digits(n / 10 / 10).push(digit_char((n / 10) % 10)));
        assert(dec_digits(n / 10) =~= seq![digit_char(n / 100), digit_char((n / 10) % 10)]);
        assert(dec_digits(n) =~= dec_digits(n / 10).push(digit_char(n % 10)));
    }
}

} // verus!
