//! Names for status codes, protections and sizes, as reports show them.

use crate::text::{decimal, hex_padded, signed_decimal};
use vstd::prelude::*;
use vstd::string::*;

verus! {

/// The name of a driver status, by the bits of its 32-bit pattern.
pub open spec fn kern_name(code: u32) -> Option<Seq<char>> {
    if code == 0 {
        Some("KERN_SUCCESS"@)
    } else if code == 0xe00002bc {
        Some("kIOReturnBadArgument"@)
    } else if code == 0xe00002c1 {
        Some("kIOReturnNotPrivileged"@)
    } else if code == 0xe00002d8 {
        Some("kIOReturnUnsupported"@)
    } else if code == 0xe00002be {
        Some("kIOReturnExclusiveAccess"@)
    } else if code == 0xe00002c0 {
        Some("kIOReturnNotReady"@)
    } else if code == 0xe00002c2 {
        Some("kIOReturnNotPermitted"@)
    } else if code == 0xe00002ed {
        Some("kIOReturnNotFound"@)
    } else {
        None
    }
}

/// A status as eight hexadecimal digits.
pub open spec fn raw_code(code: u32) -> Seq<char> {
    "0x"@ + crate::text::padded_numeral(code as nat, 16, 8)
}

/// A driver status as text: its name, or its digits if it has none.
pub fn kern_err(status: i32) -> (s: String)
    ensures
        s@ == match kern_name(status as u32) {
            Some(name) => name,
            None => raw_code(status as u32),
        },
{
    let code: u32 = status as u32;
    if code == 0 {
        String::from_str("KERN_SUCCESS")
    } else if code == 0xe00002bc {
        String::from_str("kIOReturnBadArgument")
    } else if code == 0xe00002c1 {
        String::from_str("kIOReturnNotPrivileged")
    } else if code == 0xe00002d8 {
        String::from_str("kIOReturnUnsupported")
    } else if code == 0xe00002be {
        String::from_str("kIOReturnExclusiveAccess")
    } else if code == 0xe00002c0 {
        String::from_str("kIOReturnNotReady")
    } else if code == 0xe00002c2 {
        String::from_str("kIOReturnNotPermitted")
    } else if code == 0xe00002ed {
        String::from_str("kIOReturnNotFound")
    } else {
        hex_padded(code)
    }
}

/// A driver status as text, where only success has a name.
pub open spec fn kern_text(status: i32) -> Seq<char> {
    if status == 0 {
        "KERN_SUCCESS"@
    } else {
        raw_code(status as u32)
    }
}

/// A driver status as text, where only success has a name.
pub fn kern_err_str(status: i32) -> (s: String)
    ensures
        s@ == kern_text(status),
{
    if status == 0 {
        String::from_str("KERN_SUCCESS")
    } else {
        hex_padded(status as u32)
    }
}

/// What is reported of a driver call that failed: its name, and the status both ways.
pub open spec fn call_failure_text(call: Seq<char>, status: i32) -> Seq<char> {
    call + " failed: "@ + kern_text(status) + " ("@ + crate::text::signed_numeral(status as int)
        + ")"@
}

/// What is reported of a driver call that failed.
pub fn call_failure(call: &str, status: i32) -> (s: String)
    ensures
        s@ == call_failure_text(call@, status),
{
    let code = kern_err_str(status);
    let number = signed_decimal(status);
    let mut s = String::from_str(call);
    s.append(" failed: ");
    s.append(code.as_str());
    s.append(" (");
    s.append(number.as_str());
    s.append(")");
    s
}

/// Whether bit `bit` of `value` is set.
pub open spec fn bit_set(value: i32, bit: i32) -> bool {
    value & (1i32 << bit) != 0
}

/// A memory protection as three characters: reading, writing and executing, each allowed or
/// not.
pub open spec fn protection(prot: i32) -> Seq<char> {
    seq![
        if bit_set(prot, 0) {
            'r'
        } else {
            '-'
        },
        if bit_set(prot, 1) {
            'w'
        } else {
            '-'
        },
        if bit_set(prot, 2) {
            'x'
        } else {
            '-'
        },
    ]
}

/// A memory protection as three characters.
pub fn prot_str(prot: i32) -> (s: String)
    ensures
        s@ == protection(prot),
{
    proof {
        assert(1i32 << 0 == 1i32) by (bit_vector);
        assert(1i32 << 1 == 2i32) by (bit_vector);
        assert(1i32 << 2 == 4i32) by (bit_vector);
        reveal_strlit("r");
        reveal_strlit("w");
        reveal_strlit("x");
        reveal_strlit("-");
    }
    let mut s = String::from_str(if prot & 1 != 0 {
        "r"
    } else {
        "-"
    });
    s.append(if prot & 2 != 0 {
        "w"
    } else {
        "-"
    });
    s.append(if prot & 4 != 0 {
        "x"
    } else {
        "-"
    });
    assert(s@ =~= protection(prot));
    s
}

/// `n / d`, rounded to the nearest whole number, and to the even one of two that are equally
/// near.
pub open spec fn round_half_even(n: nat, d: nat) -> nat {
    let q = n / d;
    let r = n % d;
    if 2 * r > d || (2 * r == d && q % 2 == 1) {
        q + 1
    } else {
        q
    }
}

fn divide_half_even(n: u128, d: u128) -> (rounded: u128)
    requires
        0 < d < 0x8000_0000_0000_0000,
        n < 0x1000_0000_0000_0000_0000_0000,
    ensures
        rounded == round_half_even(n as nat, d as nat),
{
    let q: u128 = n / d;
    let r: u128 = n % d;
    proof {
        assert(q <= n) by {
            vstd::arithmetic::div_mod::lemma_div_is_ordered_by_denominator(
                n as int,
                1,
                d as int,
            );
        }
    }
    if 2 * r > d || (2 * r == d && q % 2 == 1) {
        q + 1
    } else {
        q
    }
}

/// How far apart numbers of the size of `b` are when they are kept with fifty-three digits in
/// base two.
pub open spec fn step_at(b: nat) -> nat
    decreases b,
{
    if b < 0x20_0000_0000_0000 {
        1
    } else {
        2 * step_at(b / 2)
    }
}

/// `b`, rounded to fifty-three digits in base two; smaller numbers stay as they are.
pub open spec fn to_double(b: nat) -> nat {
    round_half_even(b, step_at(b)) * step_at(b)
}

proof fn lemma_step_bound(b: nat)
    ensures
        0 < step_at(b),
        b < 0x20_0000_0000_0000 ==> step_at(b) == 1,
        b >= 0x20_0000_0000_0000 ==> step_at(b) * 0x10_0000_0000_0000 <= b,
    decreases b,
{
    if b >= 0x20_0000_0000_0000 {
        lemma_step_bound(b / 2);
    }
}

fn find_step(b: u64) -> (step: u64)
    ensures
        step == step_at(b as nat),
    decreases b,
{
    if b < 0x20_0000_0000_0000 {
        1
    } else {
        proof {
            lemma_step_bound(b as nat / 2);
        }
        2 * find_step(b / 2)
    }
}

/// One unit in which sizes are shown.
pub open spec fn unit_size(b: usize) -> nat {
    if b >= 0x4000_0000 {
        0x4000_0000
    } else if b >= 0x10_0000 {
        0x10_0000
    } else {
        0x400
    }
}

/// The name of the unit in which `b` bytes are shown.
pub open spec fn unit_name(b: usize) -> Seq<char> {
    if b >= 0x4000_0000 {
        " GB"@
    } else if b >= 0x10_0000 {
        " MB"@
    } else {
        " KB"@
    }
}

/// A number of tenths with its point.
pub open spec fn tenths_text(tenths: nat) -> Seq<char> {
    crate::text::numeral(tenths / 10, 10) + "."@ + crate::text::numeral(tenths % 10, 10)
}

/// A size with one decimal, in the largest unit of which there is at least one; bytes are
/// shown as they are.
pub open spec fn bytes_text(b: usize) -> Seq<char> {
    if b >= 0x400 {
        tenths_text(round_half_even(to_double(b as nat) * 10, unit_size(b))) + unit_name(b)
    } else {
        crate::text::numeral(b as nat, 10) + " B"@
    }
}

/// A size as people read it.
pub fn fmt_bytes(b: usize) -> (s: String)
    ensures
        s@ == bytes_text(b),
{
    if b < 0x400 {
        let mut s = decimal(b as u64);
        s.append(" B");
        return s;
    }
    let unit: u128;
    let name: &str;
    if b >= 0x4000_0000 {
        unit = 0x4000_0000;
        name = " GB";
    } else if b >= 0x10_0000 {
        unit = 0x10_0000;
        name = " MB";
    } else {
        unit = 0x400;
        name = " KB";
    }
    let step: u64 = find_step(b as u64);
    proof {
        lemma_step_bound(b as nat);
    }
    let steps: u128 = divide_half_even(b as u128, step as u128);
    proof {
        let q = b as nat / step as nat;
        vstd::arithmetic::div_mod::lemma_fundamental_div_mod(b as int, step as int);
        vstd::arithmetic::div_mod::lemma_mod_bound(b as int, step as int);
        assert((q + 1) * step <= b + step) by (nonlinear_arith)
            requires
                step * q <= b,
        ;
        assert(steps * step <= (q + 1) * step) by (nonlinear_arith)
            requires
                steps <= q + 1,
                0 <= step,
        ;
    }
    let tenths: u128 = divide_half_even(steps * step as u128 * 10, unit);
    proof {
        assert(tenths / 10 <= u64::MAX) by {
            vstd::arithmetic::div_mod::lemma_div_is_ordered_by_denominator(
                steps * step * 10,
                1,
                unit as int,
            );
        }
    }
    let whole = decimal((tenths / 10) as u64);
    let part = decimal((tenths % 10) as u64);
    let mut s = whole;
    s.append(".");
    s.append(part.as_str());
    s.append(name);
    s
}

/// A size in whole megabytes, or in whole kilobytes where it has not one of them.
pub open spec fn label(size: usize) -> Seq<char> {
    if size >= 0x10_0000 {
        crate::text::numeral(size as nat / 0x10_0000, 10) + "MB"@
    } else {
        crate::text::numeral(size as nat / 0x400, 10) + "KB"@
    }
}

/// A size in whole megabytes or kilobytes.
pub fn size_label(size: usize) -> (s: String)
    ensures
        s@ == label(size),
{
    if size >= 0x10_0000 {
        let mut s = decimal((size / 0x10_0000) as u64);
        s.append("MB");
        s
    } else {
        let mut s = decimal((size / 0x400) as u64);
        s.append("KB");
        s
    }
}

} // verus!
