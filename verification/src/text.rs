//! Numbers as text: decimal, and hexadecimal with and without leading zeros.

use vstd::prelude::*;
use vstd::string::*;

verus! {

/// The character of the digit `d`, for bases up to sixteen.
pub open spec fn digit_char(d: nat) -> char {
    if d < 10 {
        ('0' as nat + d) as char
    } else {
        ('a' as nat + d - 10) as char
    }
}

/// The character of the digit `d` in upper case, for bases up to sixteen.
pub open spec fn upper_digit_char(d: nat) -> char {
    if d < 10 {
        ('0' as nat + d) as char
    } else {
        ('A' as nat + d - 10) as char
    }
}

/// The digits of `n` in the given base, without leading zeros; zero is one digit.
pub open spec fn numeral(n: nat, base: nat) -> Seq<char>
    decreases n,
{
    if base < 2 || n < base {
        seq![digit_char(n)]
    } else {
        proof {
            vstd::arithmetic::div_mod::lemma_div_decreases(n as int, base as int);
        }
        numeral(n / base, base).push(digit_char(n % base))
    }
}

/// The last `width` digits of `n` in the given base, zeros included.
pub open spec fn padded_numeral(n: nat, base: nat, width: nat) -> Seq<char>
    decreases width,
{
    if width == 0 {
        Seq::empty()
    } else {
        padded_numeral(n / base, base, (width - 1) as nat).push(digit_char(n % base))
    }
}

/// The last `width` digits of `n` in the given base, zeros included, in upper case.
pub open spec fn upper_padded_numeral(n: nat, base: nat, width: nat) -> Seq<char>
    decreases width,
{
    if width == 0 {
        Seq::empty()
    } else {
        upper_padded_numeral(n / base, base, (width - 1) as nat).push(upper_digit_char(n % base))
    }
}

/// `n` in decimal, behind a minus sign where it is negative.
pub open spec fn signed_numeral(n: int) -> Seq<char> {
    if n < 0 {
        "-"@ + numeral((-n) as nat, 10)
    } else {
        numeral(n as nat, 10)
    }
}

/// The number that the digit `c` stands for.
pub open spec fn digit_value(c: char) -> int {
    if c as int <= '9' as int {
        c as int - '0' as int
    } else {
        c as int - 'a' as int + 10
    }
}

/// The number that `s` stands for when read as digits in the given base.
pub open spec fn numeral_value(s: Seq<char>, base: int) -> int
    decreases s.len(),
{
    if s.len() == 0 {
        0
    } else {
        numeral_value(s.drop_last(), base) * base + digit_value(s.last())
    }
}

/// A numeral reads back as the number that it was written for, so different numbers
/// never look alike.
pub proof fn numeral_reads_back(n: nat, base: nat)
    requires
        2 <= base <= 16,
    ensures
        numeral_value(numeral(n, base), base as int) == n,
    decreases n,
{
    reveal_with_fuel(numeral_value, 2);
    if n < base {
        assert(numeral(n, base).drop_last() =~= Seq::empty());
    } else {
        vstd::arithmetic::div_mod::lemma_div_decreases(n as int, base as int);
        numeral_reads_back(n / base, base);
        let head = numeral(n / base, base);
        assert(numeral(n, base).drop_last() =~= head);
        vstd::arithmetic::div_mod::lemma_fundamental_div_mod(n as int, base as int);
        assert(base * (n / base) == (n / base) * base) by (nonlinear_arith);
    }
}

fn digit_text(d: u8) -> (s: &'static str)
    requires
        d < 16,
    ensures
        s@ == seq![digit_char(d as nat)],
{
    proof {
        reveal_strlit("0");
        reveal_strlit("1");
        reveal_strlit("2");
        reveal_strlit("3");
        reveal_strlit("4");
        reveal_strlit("5");
        reveal_strlit("6");
        reveal_strlit("7");
        reveal_strlit("8");
        reveal_strlit("9");
        reveal_strlit("a");
        reveal_strlit("b");
        reveal_strlit("c");
        reveal_strlit("d");
        reveal_strlit("e");
        reveal_strlit("f");
    }
    match d {
        0 => "0",
        1 => "1",
        2 => "2",
        3 => "3",
        4 => "4",
        5 => "5",
        6 => "6",
        7 => "7",
        8 => "8",
        9 => "9",
        10 => "a",
        11 => "b",
        12 => "c",
        13 => "d",
        14 => "e",
        _ => "f",
    }
}

fn upper_digit_text(d: u8) -> (s: &'static str)
    requires
        d < 16,
    ensures
        s@ == seq![upper_digit_char(d as nat)],
{
    proof {
        reveal_strlit("A");
        reveal_strlit("B");
        reveal_strlit("C");
        reveal_strlit("D");
        reveal_strlit("E");
        reveal_strlit("F");
    }
    match d {
        10 => "A",
        11 => "B",
        12 => "C",
        13 => "D",
        14 => "E",
        15 => "F",
        _ => digit_text(d),
    }
}

/// `n` in decimal.
pub fn decimal(n: u64) -> (s: String)
    ensures
        s@ == numeral(n as nat, 10),
    decreases n,
{
    if n < 10 {
        String::from_str(digit_text(n as u8))
    } else {
        let mut s = decimal(n / 10);
        s.append(digit_text((n % 10) as u8));
        assert(s@ == numeral(n as nat, 10));
        s
    }
}

/// `n` in decimal, behind a minus sign where it is negative.
pub fn signed_decimal(n: i32) -> (s: String)
    ensures
        s@ == signed_numeral(n as int),
{
    let wide: i64 = n as i64;
    if wide < 0 {
        let digits = decimal((0 - wide) as u64);
        let mut s = String::from_str("-");
        s.append(digits.as_str());
        s
    } else {
        decimal(wide as u64)
    }
}

fn hex_digits(n: u32) -> (s: String)
    ensures
        s@ == numeral(n as nat, 16),
    decreases n,
{
    if n < 16 {
        String::from_str(digit_text(n as u8))
    } else {
        let mut s = hex_digits(n / 16);
        s.append(digit_text((n % 16) as u8));
        assert(s@ == numeral(n as nat, 16));
        s
    }
}

/// `n` in hexadecimal behind `0x`, without leading zeros.
pub fn hex(n: u32) -> (s: String)
    ensures
        s@ == "0x"@ + numeral(n as nat, 16),
{
    let digits = hex_digits(n);
    let mut s = String::from_str("0x");
    s.append(digits.as_str());
    s
}

fn padded_digits(n: u32, width: usize) -> (s: String)
    ensures
        s@ == padded_numeral(n as nat, 16, width as nat),
    decreases width,
{
    if width == 0 {
        String::new()
    } else {
        let mut s = padded_digits(n / 16, width - 1);
        s.append(digit_text((n % 16) as u8));
        assert(s@ == padded_numeral(n as nat, 16, width as nat));
        s
    }
}

/// `n` as eight hexadecimal digits behind `0x`.
pub fn hex_padded(n: u32) -> (s: String)
    ensures
        s@ == "0x"@ + padded_numeral(n as nat, 16, 8),
{
    let digits = padded_digits(n, 8);
    let mut s = String::from_str("0x");
    s.append(digits.as_str());
    s
}

fn upper_padded_digits(n: u32, width: usize) -> (s: String)
    ensures
        s@ == upper_padded_numeral(n as nat, 16, width as nat),
    decreases width,
{
    if width == 0 {
        String::new()
    } else {
        let mut s = upper_padded_digits(n / 16, width - 1);
        s.append(upper_digit_text((n % 16) as u8));
        assert(s@ == upper_padded_numeral(n as nat, 16, width as nat));
        s
    }
}

/// `n` as eight upper-case hexadecimal digits behind `0x`.
pub fn hex_upper(n: u32) -> (s: String)
    ensures
        s@ == "0x"@ + upper_padded_numeral(n as nat, 16, 8),
{
    let digits = upper_padded_digits(n, 8);
    let mut s = String::from_str("0x");
    s.append(digits.as_str());
    s
}

} // verus!
