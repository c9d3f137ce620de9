//! What the logic of the probes comes to, in plain terms: digits, names, bytes, counts and
//! addresses.

use vstd::arithmetic::div_mod::*;
use vstd::arithmetic::power::*;
use vstd::arithmetic::power2::*;
use vstd::prelude::*;

verus! {

/// The limits that the probes keep to.
pub proof fn limits()
    ensures
        crate::tape::PAGE == 16384,
        crate::grid::CELL_ALIGN == 64,
        crate::block::KERN_SUCCESS == 0,
        crate::pages::SURVEYED == 32,
        crate::pattern::PATTERN_PAGE == 16384,
        crate::pattern::REPORTED == 5,
        crate::pattern::HALF_ONE == 0x3C00,
        crate::measure::SAMPLE_STRIDE == 64,
        crate::measure::MAX_SAMPLES == 10000,
        crate::measure::SEED == 0xBADC0FFEE0DDF00D,
        crate::dext::SEGMENT_ENTRY == 16,
        crate::dext::SEGMENTS_SHOWN == 16,
        crate::dext::MAX_SEGMENTS == 32,
        crate::hv::HV_MEMORY_READ == 1,
        crate::hv::HV_MEMORY_WRITE == 2,
        crate::hv::HV_MEMORY_EXEC == 4,
{
}

// Text.
/// Digits are written with the usual characters.
pub proof fn digits_are_the_usual_ones(d: nat)
    requires
        d < 16,
    ensures
        crate::text::digit_char(d) == "0123456789abcdef"@[d as int],
        crate::text::upper_digit_char(d) == "0123456789ABCDEF"@[d as int],
{
    reveal_strlit("0123456789abcdef");
    reveal_strlit("0123456789ABCDEF");
}

/// A numeral has no leading zero, and each step to the left divides by the base.
pub proof fn numeral_digit_by_digit(n: nat, base: nat)
    requires
        2 <= base <= 16,
    ensures
        ({
            let s = crate::text::numeral(n, base);
            &&& s.len() > 0
            &&& n > 0 ==> s[0] != '0'
            &&& s.last() == "0123456789abcdef"@[(n % base) as int]
            &&& s.len() == 1 <==> n < base
            &&& n >= base ==> s.drop_last() == crate::text::numeral(n / base, base)
        }),
    decreases n,
{
    let s = crate::text::numeral(n, base);
    lemma_mod_bound(n as int, base as int);
    digits_are_the_usual_ones(n % base);
    if n < base {
        lemma_small_mod(n, base);
    } else {
        lemma_div_decreases(n as int, base as int);
        lemma_div_is_ordered(base as int, n as int, base as int);
        lemma_div_by_self(base as int);
        numeral_digit_by_digit(n / base, base);
        assert(s.drop_last() =~= crate::text::numeral(n / base, base));
        assert(s[0] == crate::text::numeral(n / base, base)[0]);
    }
}

/// A padded numeral has as many digits as asked for, and reads back as its number if that many
/// can hold it.
pub proof fn padded_numeral_reads_back(n: nat, base: nat, width: nat)
    requires
        2 <= base <= 16,
        n < pow(base as int, width),
    ensures
        crate::text::padded_numeral(n, base, width).len() == width,
        crate::text::numeral_value(crate::text::padded_numeral(n, base, width), base as int) == n,
        width > 0 ==> crate::text::padded_numeral(n, base, width).last()
            == "0123456789abcdef"@[(n % base) as int],
    decreases width,
{
    reveal(pow);
    lemma_mod_bound(n as int, base as int);
    digits_are_the_usual_ones(n % base);
    if width > 0 {
        let w = (width - 1) as nat;
        lemma_fundamental_div_mod(n as int, base as int);
        assert(n / base < pow(base as int, w)) by (nonlinear_arith)
            requires
                n == base * (n / base) + n % base,
                0 <= n % base,
                n < base * pow(base as int, w),
                base > 0,
        ;
        padded_numeral_reads_back(n / base, base, w);
        let s = crate::text::padded_numeral(n, base, width);
        assert(s.drop_last() =~= crate::text::padded_numeral(n / base, base, w));
        assert(base * (n / base) == (n / base) * base) by (nonlinear_arith);
    }
}

/// Upper-case numerals are the lower-case ones with other letters.
pub proof fn upper_numeral_matches_lower(n: nat, base: nat, width: nat, i: int)
    requires
        2 <= base <= 16,
        0 <= i < width,
    ensures
        crate::text::upper_padded_numeral(n, base, width).len() == width,
        crate::text::padded_numeral(n, base, width).len() == width,
        ({
            let lower = crate::text::padded_numeral(n, base, width)[i];
            let upper = crate::text::upper_padded_numeral(n, base, width)[i];
            if lower as int <= '9' as int {
                upper == lower
            } else {
                upper as int == lower as int - 32
            }
        }),
    decreases width,
{
    lemma_mod_bound(n as int, base as int);
    if width > 1 && i < width - 1 {
        upper_numeral_matches_lower(n / base, base, (width - 1) as nat, i);
    } else if width > 1 {
        upper_numeral_matches_lower(n / base, base, (width - 1) as nat, 0);
    } else {
        reveal_with_fuel(crate::text::padded_numeral, 2);
        reveal_with_fuel(crate::text::upper_padded_numeral, 2);
    }
}

/// A number is signed exactly if it is negative, and its digits are those of its distance from
/// zero.
pub proof fn signs_are_shown(n: int)
    ensures
        n >= 0 ==> crate::text::numeral_value(crate::text::signed_numeral(n), 10) == n,
        n < 0 ==> ({
            let s = crate::text::signed_numeral(n);
            &&& s.len() > 1
            &&& s[0] == '-'
            &&& crate::text::numeral_value(s.skip(1), 10) == -n
        }),
{
    reveal_strlit("-");
    if n >= 0 {
        crate::text::numeral_reads_back(n as nat, 10);
    } else {
        crate::text::numeral_reads_back((-n) as nat, 10);
        numeral_digit_by_digit((-n) as nat, 10);
        assert(crate::text::signed_numeral(n).skip(1) =~= crate::text::numeral((-n) as nat, 10));
    }
}

/// What an error says; the status of a refused lock can be read back from it.
pub proof fn error_messages(status: i32)
    ensures
        crate::error::MemError::ZeroSize.message() == "zero-size allocation"@,
        crate::error::MemError::BlockCreateFailed.message() == "IOSurfaceCreate failed"@,
        ({
            let s = crate::error::MemError::BlockLockFailed(status).message();
            &&& s.take(24) == "IOSurfaceLock failed: 0x"@
            &&& s.len() > 24
            &&& crate::text::numeral_value(s.skip(24), 16) == status as u32
            &&& status != 0 ==> s[24] != '0'
        }),
{
    reveal_strlit("IOSurfaceLock failed: ");
    reveal_strlit("0x");
    reveal_strlit("IOSurfaceLock failed: 0x");
    let n = (status as u32) as nat;
    crate::text::numeral_reads_back(n, 16);
    numeral_digit_by_digit(n, 16);
    let s = crate::error::MemError::BlockLockFailed(status).message();
    assert(s.skip(24) =~= crate::text::numeral(n, 16));
    assert(s.take(24) =~= "IOSurfaceLock failed: 0x"@);
    assert(status != 0 ==> status as u32 != 0) by (bit_vector);
    if status != 0 {
        assert(s[24] == s.skip(24)[0]);
    }
}

// Names and codes.
/// Eight statuses of a driver have names, and no other does.
pub proof fn named_driver_statuses(code: u32)
    ensures
        crate::codes::kern_name(0) == Some("KERN_SUCCESS"@),
        crate::codes::kern_name(0xe00002bc) == Some("kIOReturnBadArgument"@),
        crate::codes::kern_name(0xe00002c1) == Some("kIOReturnNotPrivileged"@),
        crate::codes::kern_name(0xe00002d8) == Some("kIOReturnUnsupported"@),
        crate::codes::kern_name(0xe00002be) == Some("kIOReturnExclusiveAccess"@),
        crate::codes::kern_name(0xe00002c0) == Some("kIOReturnNotReady"@),
        crate::codes::kern_name(0xe00002c2) == Some("kIOReturnNotPermitted"@),
        crate::codes::kern_name(0xe00002ed) == Some("kIOReturnNotFound"@),
        crate::codes::kern_name(code) is Some <==> set![
            0u32, 0xe00002bc, 0xe00002c1, 0xe00002d8, 0xe00002be, 0xe00002c0, 0xe00002c2,
            0xe00002ed
        ].contains(code),
{
}

/// A status without a name is shown as eight digits from which it can be read back.
pub proof fn raw_codes_read_back(code: u32)
    ensures
        crate::codes::raw_code(code).len() == 10,
        crate::codes::raw_code(code).take(2) == "0x"@,
        crate::text::numeral_value(crate::codes::raw_code(code).skip(2), 16) == code,
{
    reveal_strlit("0x");
    reveal_with_fuel(pow, 9);
    assert(pow(16, 8) == 0x1_0000_0000) by {
        reveal_with_fuel(pow, 9);
    }
    padded_numeral_reads_back(code as nat, 16, 8);
    let s = crate::codes::raw_code(code);
    assert(s.skip(2) =~= crate::text::padded_numeral(code as nat, 16, 8));
    assert(s.take(2) =~= "0x"@);
}

/// A failed call is reported by its name, its status as a code, and its status as a number; only
/// success is not shown as a code.
pub proof fn failed_calls_are_reported(call: Seq<char>, status: i32)
    ensures
        status != 0 ==> crate::codes::call_failure_text(call, status) == call + " failed: "@ + (
        "0x"@ + crate::text::padded_numeral((status as u32) as nat, 16, 8)) + " ("@
            + crate::text::signed_numeral(status as int) + ")"@,
        crate::codes::call_failure_text(call, 0) == call + " failed: "@ + "KERN_SUCCESS"@ + " ("@
            + crate::text::signed_numeral(0) + ")"@,
        status != 0 ==> crate::codes::kern_text(status) == "0x"@ + crate::text::padded_numeral(
            (status as u32) as nat,
            16,
            8,
        ),
        crate::codes::kern_text(0) == "KERN_SUCCESS"@,
{
}

/// Which bits the bits are.
pub proof fn bits_are_powers_of_two(value: i32)
    ensures
        crate::codes::bit_set(value, 0) <==> value & 1 != 0,
        crate::codes::bit_set(value, 1) <==> value & 2 != 0,
        crate::codes::bit_set(value, 2) <==> value & 4 != 0,
        crate::codes::bit_set(value, 3) <==> value & 8 != 0,
        crate::codes::bit_set(value, 4) <==> value & 16 != 0,
        crate::codes::bit_set(value, 5) <==> value & 32 != 0,
        crate::codes::bit_set(value, 6) <==> value & 64 != 0,
        crate::codes::bit_set(value, 9) <==> value & 512 != 0,
        crate::codes::bit_set(value, 11) <==> value & 2048 != 0,
{
    assert(1i32 << 0 == 1i32 && 1i32 << 1 == 2i32 && 1i32 << 2 == 4i32 && 1i32 << 3 == 8i32
        && 1i32 << 4 == 16i32 && 1i32 << 5 == 32i32 && 1i32 << 6 == 64i32 && 1i32 << 9 == 512i32
        && 1i32 << 11 == 2048i32) by (bit_vector);
}

/// A protection is three characters, one for each of the three lowest bits.
pub proof fn protection_bit_by_bit(prot: i32)
    ensures
        crate::codes::protection(prot).len() == 3,
        crate::codes::protection(prot)[0] == if prot & 1 != 0 {
            'r'
        } else {
            '-'
        },
        crate::codes::protection(prot)[1] == if prot & 2 != 0 {
            'w'
        } else {
            '-'
        },
        crate::codes::protection(prot)[2] == if prot & 4 != 0 {
            'x'
        } else {
            '-'
        },
{
    bits_are_powers_of_two(prot);
}

/// A rounded quotient is nearest to the quotient, and even where two are equally near.
pub proof fn rounded_is_nearest(n: nat, d: nat)
    requires
        0 < d,
    ensures
        ({
            let q = crate::codes::round_half_even(n, d);
            &&& 2 * n - d <= 2 * (q * d) <= 2 * n + d
            &&& 2 * (q * d) == 2 * n - d || 2 * (q * d) == 2 * n + d ==> q % 2 == 0
        }),
{
    let q = n / d;
    lemma_fundamental_div_mod(n as int, d as int);
    lemma_mod_bound(n as int, d as int);
    assert(d * q == q * d) by (nonlinear_arith);
    assert((q + 1) * d == q * d + d) by (nonlinear_arith);
}

/// A size that needs more than fifty-three binary digits is rounded to so many: to the nearest
/// multiple of a power of two, of which it holds between two to the fifty-second and two to the
/// fifty-third.
pub proof fn doubles_keep_fifty_three_digits(b: nat)
    ensures
        ({
            let step = crate::codes::step_at(b);
            &&& is_pow2(step as int)
            &&& b < 0x20_0000_0000_0000 ==> crate::codes::to_double(b) == b
            &&& b >= 0x20_0000_0000_0000 ==> step * 0x10_0000_0000_0000 <= b < step
                * 0x20_0000_0000_0000
            &&& crate::codes::to_double(b) % step == 0
            &&& 2 * b - step <= 2 * crate::codes::to_double(b) <= 2 * b + step
        }),
    decreases b,
{
    reveal(is_pow2);
    let step = crate::codes::step_at(b);
    if b >= 0x20_0000_0000_0000 {
        doubles_keep_fifty_three_digits(b / 2);
        if b / 2 < 0x20_0000_0000_0000 {
            assert(crate::codes::step_at(b / 2) == 1);
        }
        assert((2 * crate::codes::step_at(b / 2)) / 2 == crate::codes::step_at(b / 2));
    }
    rounded_is_nearest(b, step);
    let q = crate::codes::round_half_even(b, step);
    lemma_mod_multiples_basic(q as int, step as int);
    if b < 0x20_0000_0000_0000 {
        assert(step == 1);
        assert(q * 1 == q);
    }
}

/// A size is shown in the largest unit of which there is one, rounded to a tenth; below a
/// kilobyte it is shown as it is.
pub proof fn sizes_are_shown_in_tenths(b: usize)
    ensures
        b < 1024 ==> crate::codes::bytes_text(b) == crate::text::numeral(b as nat, 10) + " B"@,
        1024 <= b < 1048576 ==> crate::codes::bytes_text(b) == in_tenths(b, 1024) + " KB"@,
        1048576 <= b < 1073741824 ==> crate::codes::bytes_text(b) == in_tenths(b, 1048576)
            + " MB"@,
        1073741824 <= b ==> crate::codes::bytes_text(b) == in_tenths(b, 1073741824) + " GB"@,
{
}

/// `b` bytes in tenths of a unit, with the point before the last digit.
pub open spec fn in_tenths(b: usize, unit: nat) -> Seq<char> {
    let tenths = crate::codes::round_half_even(crate::codes::to_double(b as nat) * 10, unit);
    crate::text::numeral(tenths / 10, 10) + "."@ + crate::text::numeral(tenths % 10, 10)
}

/// A label counts whole megabytes, or whole kilobytes below one megabyte.
pub proof fn labels_count_whole_units(size: usize)
    ensures
        size >= 1048576 ==> crate::codes::label(size) == crate::text::numeral(
            size as nat / 1048576,
            10,
        ) + "MB"@,
        size < 1048576 ==> crate::codes::label(size) == crate::text::numeral(
            size as nat / 1024,
            10,
        ) + "KB"@,
{
}

/// Nine statuses of the hypervisor have names, and all others have none.
pub proof fn named_hypervisor_statuses(code: u32)
    ensures
        crate::hv::hv_name(0) == "HV_SUCCESS"@,
        crate::hv::hv_name(0xFAE9_4001) == "HV_ERROR"@,
        crate::hv::hv_name(0xFAE9_4002) == "HV_BUSY"@,
        crate::hv::hv_name(0xFAE9_4003) == "HV_BAD_ARGUMENT"@,
        crate::hv::hv_name(0xFAE9_4004) == "HV_ILLEGAL_GUEST_STATE"@,
        crate::hv::hv_name(0xFAE9_4005) == "HV_NO_RESOURCES"@,
        crate::hv::hv_name(0xFAE9_4006) == "HV_NO_DEVICE"@,
        crate::hv::hv_name(0xFAE9_4007) == "HV_DENIED"@,
        crate::hv::hv_name(0xFAE9_400F) == "HV_UNSUPPORTED"@,
        code != 0 && !(0xFAE9_4001 <= code <= 0xFAE9_4007) && code != 0xFAE9_400F ==>
            crate::hv::hv_name(code) == "UNKNOWN"@,
{
}

/// A failed call of the hypervisor is reported by its name, its status as a number and as a
/// code, and the name of the status.
pub proof fn failed_hypervisor_calls_are_reported(call: Seq<char>, status: i32)
    ensures
        crate::hv::hv_failure(call, status) == "  FAIL: "@ + call + " returned "@
            + crate::text::signed_numeral(status as int) + " ("@ + ("0x"@
            + crate::text::upper_padded_numeral((status as u32) as nat, 16, 8)) + " = "@
            + crate::hv::hv_name(status as u32) + ")"@,
{
}

/// Repetitions go on while fewer than wanted are done, and end then.
pub proof fn repetitions_end_when_done(done: u64, rounds: u64)
    ensures
        done < rounds ==> crate::hv::ProtectRun::at(done, rounds)
            == (crate::hv::ProtectRun::Toggling { i: done }),
        done >= rounds ==> crate::hv::ProtectRun::at(done, rounds)
            == (crate::hv::ProtectRun::Over { done }),
        done < rounds ==> crate::hv::PairRun::at(done, rounds)
            == (crate::hv::PairRun::MapRange { done }),
        done >= rounds ==> crate::hv::PairRun::at(done, rounds)
            == (crate::hv::PairRun::Over { done }),
{
}

/// One call more of a row of mappings: a row that is mapped leads to the next, a row that is
/// not ends the mapping, and unmapping goes through the mapped rows from the first on.
pub proof fn rows_step_by_step(i: u64, mapped: u64, status: i32, rounds: u64)
    requires
        i < mapped <= rounds,
    ensures
        crate::hv::RowRun::first(rounds) == (crate::hv::RowRun::Mapping { i: 0 }),
        crate::hv::RowRun::first(0) == (crate::hv::RowRun::Done { mapped: 0 }),
        ({
            let after = (crate::hv::RowRun::Mapping { i }).after_answer(status, rounds);
            &&& status == 0 && i + 1 < rounds ==> after == (crate::hv::RowRun::Mapping {
                i: (i + 1) as u64,
            })
            &&& status == 0 && i + 1 == rounds ==> after == (crate::hv::RowRun::Unmapping {
                i: 0,
                mapped: rounds,
            })
            &&& status != 0 && i > 0 ==> after == (crate::hv::RowRun::Unmapping {
                i: 0,
                mapped: i,
            })
            &&& status != 0 && i == 0 ==> after == (crate::hv::RowRun::Done { mapped: 0 })
        }),
        ({
            let after = (crate::hv::RowRun::Unmapping { i, mapped }).after_answer(status, rounds);
            &&& status == 0 && i + 1 < mapped ==> after == (crate::hv::RowRun::Unmapping {
                i: (i + 1) as u64,
                mapped,
            })
            &&& status == 0 && i + 1 == mapped ==> after == (crate::hv::RowRun::Done { mapped })
            &&& status != 0 ==> after == (crate::hv::RowRun::Done { mapped })
        }),
{
}

// Patterns.
/// The counting pattern starts at zero and counts up by one, round and round; the pattern of
/// sevens counts up by seven.
pub proof fn counting_patterns_count(i: int)
    requires
        0 <= i,
    ensures
        crate::pattern::Pattern::Counting.at(0) == 0,
        crate::pattern::Pattern::Counting.at(i + 1) == (crate::pattern::Pattern::Counting.at(i) + 1)
            % 256,
        crate::pattern::Pattern::Sevens.at(0) == 0,
        crate::pattern::Pattern::Sevens.at(i + 1) == (crate::pattern::Pattern::Sevens.at(i) + 7)
            % 256,
{
    lemma_plain_patterns(0);
    lemma_plain_patterns(i);
    lemma_plain_patterns(i + 1);
    lemma_low_byte_adds(i, 1);
    lemma_low_byte_adds(i * 7, 7);
    assert((i + 1) * 7 == i * 7 + 7);
}

proof fn lemma_plain_patterns(i: int)
    requires
        0 <= i,
    ensures
        crate::pattern::Pattern::Counting.at(i) == i % 256,
        crate::pattern::Pattern::Sevens.at(i) == (i * 7) % 256,
{
    lemma_mod_bound(i, 256);
    lemma_mod_bound(i * 7, 256);
}

/// The low byte of a sum is that of the sum of the low bytes.
proof fn lemma_low_byte_adds(x: int, k: int)
    ensures
        (x + k) % 256 == (x % 256 + k) % 256,
{
    lemma_add_mod_noop_right(k, x, 256);
}

/// The page pattern counts up by one in a page, and starts sixteen higher in the next.
pub proof fn page_pattern_tells_pages_apart(i: int)
    requires
        0 <= i,
    ensures
        crate::pattern::Pattern::Paged.at(0) == 0,
        (i + 1) % 16384 != 0 ==> crate::pattern::Pattern::Paged.at(i + 1) == (
        crate::pattern::Pattern::Paged.at(i) + 1) % 256,
        crate::pattern::Pattern::Paged.at(i + 16384) == (crate::pattern::Pattern::Paged.at(i) + 16)
            % 256,
{
    let p = i / 16384;
    let o = i % 16384;
    lemma_page_pattern(0, 0);
    lemma_page_pattern(p, o);
    lemma_page_pattern(p + 1, o);
    assert(i == p * 16384 + o);
    assert(i + 16384 == (p + 1) * 16384 + o);
    lemma_low_byte_adds(p * 16 + o, 16);
    lemma_low_byte_adds(p * 16 + o, 1);
    assert((p + 1) * 16 + o == p * 16 + o + 16);
    if (i + 1) % 16384 != 0 {
        assert(o + 1 < 16384);
        lemma_page_pattern(p, o + 1);
        assert(i + 1 == p * 16384 + (o + 1));
    }
}

/// The byte at the offset `o` of the page `p`.
proof fn lemma_page_pattern(p: int, o: int)
    requires
        0 <= p,
        0 <= o < 16384,
    ensures
        crate::pattern::Pattern::Paged.at(p * 16384 + o) == (p * 16 + o) % 256,
{
    let i = p * 16384 + o;
    lemma_fundamental_div_mod_converse(i, 16384, p, o);
    assert(i / 16384 == p && i % 16384 == o);
}

/// A byte differs from a pattern exactly if it is not the byte of the pattern, and a pattern
/// fills bytes exactly if none differs. The offsets that a check lists are exactly those of the
/// bytes that differ.
pub proof fn differing_bytes(
    pattern: crate::pattern::Pattern,
    bytes: Seq<u8>,
    n: int,
    i: int,
)
    requires
        0 <= i < n <= bytes.len(),
    ensures
        pattern.differs(bytes, i) <==> bytes[i] != pattern.at(i),
        pattern.fills(bytes) ==> bytes[i] == pattern.at(i),
        crate::pattern::mismatch_offsets(pattern, bytes, n).contains(i) <==> bytes[i]
            != pattern.at(i),
{
    crate::pattern::mismatch_offsets_are_exact(pattern, bytes, n);
    assert(pattern.differs(bytes, i) <==> bytes[i] != pattern.at(i));
}

/// A mismatch tells where a byte differs, what it should be and what it is.
pub proof fn mismatches_tell_the_bytes(
    mismatch: crate::pattern::Mismatch,
    pattern: crate::pattern::Pattern,
    bytes: Seq<u8>,
)
    requires
        mismatch.is_at(pattern, bytes),
    ensures
        mismatch.expected == pattern.at(mismatch.offset as int),
        mismatch.actual == bytes[mismatch.offset as int],
        mismatch.actual != mismatch.expected,
{
}

/// The check of the counting pattern looks at the first page and the last, and at nothing else.
pub proof fn sampled_bytes(i: int, len: int, page: int)
    requires
        0 <= i < len,
        0 < page,
    ensures
        i < page ==> crate::pattern::is_sampled(i, len, page),
        i >= len - page ==> crate::pattern::is_sampled(i, len, page),
        page <= i < len - page ==> !crate::pattern::is_sampled(i, len, page),
        !crate::pattern::is_sampled(len, len, page),
        !crate::pattern::is_sampled(-1, len, page),
{
}

// Measurements.
/// Times add up one by one.
pub proof fn times_add_up(times: Seq<u128>, time: u128)
    ensures
        crate::measure::sum(Seq::<u128>::empty()) == 0,
        crate::measure::sum(times.push(time)) == crate::measure::sum(times) + time,
{
    assert(times.push(time).drop_last() =~= times);
}

/// Ordered times are the same times, none before a shorter one.
pub proof fn ordered_times(times: Seq<u128>, i: int, j: int)
    requires
        0 <= i <= j < times.len(),
    ensures
        crate::measure::ordered(times).to_multiset() == times.to_multiset(),
        crate::measure::ordered(times).len() == times.len(),
        crate::measure::ordered(times)[i] <= crate::measure::ordered(times)[j],
{
    broadcast use vstd::seq_lib::group_to_multiset_ensures;

    let leq = |a: u128, b: u128| a <= b;
    times.lemma_sort_by_ensures(leq);
    let o = crate::measure::ordered(times);
    assert(o.to_multiset().len() == o.len());
    assert(times.to_multiset().len() == times.len());
    if i < j {
        assert(leq(o[i], o[j]));
    }
}

/// Wrong words are counted one by one.
pub proof fn wrong_words_one_by_one(words: Seq<u64>, pattern: u64, n: int)
    requires
        0 <= n,
    ensures
        crate::measure::wrong_words(words, pattern, 0) == 0,
        crate::measure::wrong_words(words, pattern, n + 1) == crate::measure::wrong_words(
            words,
            pattern,
            n,
        ) + if words[n] != pattern {
            1int
        } else {
            0int
        },
{
}

/// Samples are sixty-four bytes apart from the first byte on: as many as fit whole in the bytes,
/// but no more than ten thousand.
pub proof fn samples_are_a_line_apart(size: int, i: int)
    requires
        0 <= size <= usize::MAX,
    ensures
        ({
            let count = crate::measure::sample_count(size);
            let offsets = crate::measure::sample_offsets(size);
            &&& offsets.len() == count
            &&& 0 <= count <= 10000
            &&& count * 64 <= size
            &&& count == 10000 || size < count * 64 + 64
            &&& 0 <= i < count ==> offsets[i] == i * 64
        }),
{
}

/// One step of the shuffle: the generator is stepped by its three shifts, and the last position
/// that is not settled is exchanged with the one that was drawn.
pub proof fn shuffle_step_by_step(s: Seq<usize>, state: u64, i: int)
    requires
        0 < i < s.len(),
    ensures
        crate::measure::shuffled(s, state, 0) == s,
        ({
            let a = state ^ (state << 13);
            let b = a ^ (a >> 7);
            let drawn = b ^ (b << 17);
            let j = (drawn as usize) as int % (i + 1);
            crate::measure::shuffled(s, state, i) == crate::measure::shuffled(
                s.update(i, s[j]).update(j, s[i]),
                drawn,
                i - 1,
            )
        }),
{
}

// Pages and regions.
/// Pages cover a run of bytes without a page to spare, and start a page apart.
pub proof fn pages_cover_exactly(total: int, page: int, i: int)
    requires
        0 <= total <= usize::MAX,
        0 < page,
    ensures
        ({
            let n = crate::pages::page_count(total, page);
            let starts = crate::pages::offsets(total, page);
            &&& 0 <= n
            &&& total <= n * page < total + page
            &&& starts.len() == n
            &&& 0 <= i < n ==> starts[i] == i * page
        }),
{
    let n = crate::pages::page_count(total, page);
    lemma_fundamental_div_mod(total + page - 1, page);
    lemma_mod_bound(total + page - 1, page);
    lemma_div_pos_is_pos(total + page - 1, page);
    assert(page * n == n * page) by (nonlinear_arith);
    if 0 <= i < n {
        crate::pages::offsets_stay_inside(total, page, i);
    }
}

/// Changes are counted from one value to the next.
pub proof fn changes_one_by_one(values: Seq<u64>, value: u64)
    ensures
        crate::pages::changes_in(Seq::<u64>::empty()) == 0,
        crate::pages::changes_in(seq![value]) == 0,
        values.len() > 0 ==> crate::pages::changes_in(values.push(value))
            == crate::pages::changes_in(values) + if values.last() != value {
            1int
        } else {
            0int
        },
{
    assert(values.push(value).drop_last() =~= values);
}

/// A region belongs to a range exactly if they share an address.
pub proof fn overlap_is_a_shared_address(
    region: crate::regions::Region,
    base: int,
    end: int,
    address: int,
)
    ensures
        region.start <= address < region.start + region.size && base <= address < end ==>
            region.overlaps(base, end),
        region.overlaps(base, end) ==> region.start < end && base < region.start + region.size
            && region.size > 0 && base < end,
        region.start < end && base < region.start + region.size && region.size > 0 && base < end
            ==> region.overlaps(base, end),
        region.stop() == region.start + region.size,
{
}

/// One answer more of a walk: a region behind the range ends it, any other is counted if it
/// shares an address with the range, and the walk goes on behind it.
pub proof fn walk_step_by_step(walk: crate::regions::RegionWalk, region: crate::regions::Region)
    requires
        walk.count < u32::MAX,
        region.start + region.size <= u64::MAX,
    ensures
        walk.asks() == if walk.stopped || walk.at >= walk.end {
            None
        } else {
            Some(walk.at)
        },
        ({
            let after = walk.after(region);
            &&& after.base == walk.base
            &&& after.end == walk.end
            &&& if region.start >= walk.end {
                after.stopped && after.count == walk.count && after.at == walk.at
            } else {
                &&& after.stopped == walk.stopped
                &&& after.at == region.start + region.size
                &&& after.count == walk.count + if walk.base < region.start + region.size
                    && region.size > 0 && walk.base < walk.end {
                    1int
                } else {
                    0int
                }
            }
        }),
        ({
            let ended = walk.after_failure();
            &&& ended.stopped
            &&& ended.count == walk.count
            &&& ended.at == walk.at
            &&& ended.base == walk.base
            &&& ended.end == walk.end
        }),
{
}

/// The regions that a range shares an address with are counted one by one.
pub proof fn covering_regions_one_by_one(
    map: Seq<crate::regions::Region>,
    base: int,
    end: int,
    n: int,
)
    requires
        0 <= n < map.len(),
    ensures
        crate::regions::covering(map, base, end, 0) == 0,
        crate::regions::covering(map, base, end, n + 1) == crate::regions::covering(
            map,
            base,
            end,
            n,
        ) + if map[n].start < end && base < map[n].start + map[n].size && map[n].size > 0 && base
            < end {
            1int
        } else {
            0int
        },
{
}

// Drivers.
/// A whole run of connecting, call by call: the driver is matched, found and opened; the
/// connection is the one that was opened; the service is given up after a refusal, and after a
/// success unless it is kept.
pub proof fn connecting_call_by_call(
    states: Seq<crate::dext::Connecting>,
    keep: bool,
    answers: crate::dext::ConnectAnswers,
)
    requires
        crate::dext::is_connect_run(states, keep, answers),
    ensures
        ({
            let n = states.len();
            let service = answers.service;
            &&& states[0].asks() == Some(crate::dext::ConnectRequest::MatchName)
            &&& if !answers.matched {
                &&& n == 2
                &&& states.last() == crate::dext::Connecting::Failed(
                    crate::dext::ConnectError::NoMatching,
                )
            } else if service == 0 {
                &&& n == 3
                &&& states[1].asks() == Some(crate::dext::ConnectRequest::Find)
                &&& states.last() == crate::dext::Connecting::Failed(
                    crate::dext::ConnectError::NoService,
                )
            } else {
                &&& states[1].asks() == Some(crate::dext::ConnectRequest::Find)
                &&& states[2].asks() == Some(crate::dext::ConnectRequest::Open { service })
                &&& answers.status != 0 || !keep ==> n == 5 && states[3].asks() == Some(
                    crate::dext::ConnectRequest::Release { service },
                )
                &&& answers.status == 0 && keep ==> n == 4
                &&& answers.status != 0 ==> states.last() == crate::dext::Connecting::Failed(
                    crate::dext::ConnectError::Refused(answers.status),
                )
                &&& answers.status == 0 ==> {
                    &&& states.last() matches crate::dext::Connecting::Connected(made)
                    &&& made.connection == answers.connection
                    &&& made.service == if keep {
                        Some(service)
                    } else {
                        None
                    }
                }
            }
        }),
{
    crate::dext::connect_outcome(states, keep, answers);
    let asked = answers.asked(keep);
    assert(states[0].asks() == Some(asked[0]));
    if states.len() > 2 {
        assert(states[1].asks() == Some(asked[1]));
    }
    if states.len() > 3 {
        assert(states[2].asks() == Some(asked[2]));
    }
    if states.len() > 4 {
        assert(states[3].asks() == Some(asked[3]));
    }
}

/// What is reported of a connection that was not made.
pub proof fn connect_errors(driver: Seq<char>, status: i32)
    ensures
        crate::dext::ConnectError::NoMatching.message(driver)
            == "IOServiceMatching returned null"@,
        crate::dext::ConnectError::NoService.message(driver)
            == "IOServiceGetMatchingService found no '"@ + driver
            + "' service. Is the DEXT loaded? Check: sudo systemextensionsctl list"@,
        crate::dext::ConnectError::Refused(status).message(driver)
            == crate::codes::call_failure_text("IOServiceOpen"@, status),
{
}

/// The stages of an examination, in order.
pub proof fn examination_stage_by_stage(address: u64, size: u64, status: i32)
    ensures
        crate::dext::Examination::Info.after_done() == crate::dext::Examination::Segments,
        crate::dext::Examination::Segments.after_done() == crate::dext::Examination::MapBuffer,
        (crate::dext::Examination::Examine { address, size }).after_done()
            == (crate::dext::Examination::Unmap { address }),
        (crate::dext::Examination::Unmap { address }).after_done()
            == crate::dext::Examination::Finished,
        crate::dext::Examination::Finished.after_done() == crate::dext::Examination::Finished,
        crate::dext::Examination::after_mapping(0, address, size)
            == (crate::dext::Examination::Examine { address, size }),
        status != 0 ==> crate::dext::Examination::after_mapping(status, address, size)
            == crate::dext::Examination::Finished,
{
}

/// The bytes of segments add up one by one.
pub proof fn segments_add_up(lengths: Seq<u64>, length: u64)
    ensures
        crate::dext::covered(Seq::<u64>::empty()) == 0,
        crate::dext::covered(lengths.push(length)) == crate::dext::covered(lengths) + length,
{
    assert(lengths.push(length).drop_last() =~= lengths);
}

} // verus!
