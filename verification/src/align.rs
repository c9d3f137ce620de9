//! Rounding offsets up to a power of two.

use vstd::arithmetic::div_mod::*;
use vstd::arithmetic::power::*;
use vstd::arithmetic::power2::*;
use vstd::bits::*;
use vstd::prelude::*;

verus! {

/// The least multiple of `align` that is not below `n`.
pub open spec fn round_up(n: int, align: int) -> int {
    (n + align - 1) / align * align
}

/// What makes `round_up` the least such multiple: it is a multiple, it is not below `n`,
/// and no multiple `m` that is not below `n` lies below it.
pub proof fn round_up_is_least_multiple(n: int, align: int, m: int)
    requires
        0 <= n,
        0 < align,
    ensures
        round_up(n, align) % align == 0,
        n <= round_up(n, align) < n + align,
        round_up(n, align) == n <==> n % align == 0,
        n <= m && m % align == 0 ==> round_up(n, align) <= m,
{
    let x = n + align - 1;
    lemma_fundamental_div_mod(x, align);
    lemma_mod_bound(x, align);
    lemma_mod_multiples_basic(x / align, align);
    assert(x / align * align == align * (x / align)) by (nonlinear_arith);
    lemma_fundamental_div_mod(m, align);
    lemma_fundamental_div_mod(n, align);
    lemma_multiple_gap(m / align, x / align, align);
    lemma_multiple_gap(n / align, x / align, align);
}

/// Of two multiples of `align`, the larger is larger by at least `align`.
proof fn lemma_multiple_gap(p: int, q: int, align: int)
    by (nonlinear_arith)
    requires
        0 < align,
    ensures
        align * p < align * q ==> align * p + align <= align * q,
{
}

/// Rounding up keeps the order of offsets.
pub proof fn round_up_is_monotonic(m: int, n: int, align: int)
    requires
        0 <= m <= n,
        0 < align,
    ensures
        round_up(m, align) <= round_up(n, align),
{
    round_up_is_least_multiple(n, align, 0);
    round_up_is_least_multiple(m, align, round_up(n, align));
}

/// A power of two that fits in a `usize` is at most half of the range.
pub proof fn power_of_two_bound(align: usize)
    requires
        is_pow2(align as int),
    ensures
        0 < align <= isize::MAX + 1,
{
    reveal(is_pow2);
    is_pow2_equiv(align as int);
    let e = choose|e: nat| pow(2, e) == align as int;
    lemma_pow2(e);
    lemma2_to64();
    lemma2_to64_rest();
    if e >= usize::BITS {
        if e > usize::BITS {
            lemma_pow2_strictly_increases(usize::BITS as nat, e);
        }
    } else if e < usize::BITS - 1 {
        lemma_pow2_strictly_increases(e, (usize::BITS - 1) as nat);
    }
}

/// A power of two that fits in a `usize` divides the number of values that a `usize` has.
pub proof fn power_of_two_divides_range(align: usize)
    requires
        is_pow2(align as int),
    ensures
        (usize::MAX + 1) % align as int == 0,
{
    power_of_two_bound(align);
    is_pow2_equiv(align as int);
    let e = choose|e: nat| pow(2, e) == align as int;
    lemma_pow2(e);
    lemma2_to64();
    lemma2_to64_rest();
    if e >= usize::BITS && e > usize::BITS {
        lemma_pow2_strictly_increases(usize::BITS as nat, e);
    }
    let rest = (usize::BITS - e) as nat;
    lemma_pow2_adds(e, rest);
    assert(usize::MAX + 1 == pow2(rest) * align) by (nonlinear_arith)
        requires
            usize::MAX + 1 == pow2(e) * pow2(rest),
            pow2(e) == align,
    ;
    lemma_mod_multiples_basic(pow2(rest) as int, align as int);
}

/// A number is a power of two if it shares no bit with the number before it.
proof fn lemma_power_of_two_test(n: usize)
    ensures
        is_pow2(n as int) <==> n != 0 && n & ((n - 1) as usize) == 0,
    decreases n,
{
    reveal(is_pow2);
    if n == 1 {
        assert(n & ((n - 1) as usize) == 0) by (bit_vector)
            requires
                n == 1,
        ;
    } else if n > 1 {
        let half = n / 2;
        lemma_power_of_two_test(half);
        if n % 2 == 0 {
            assert(n & ((n - 1) as usize) == 0 <==> half & ((half - 1) as usize) == 0)
                by (bit_vector)
                requires
                    n > 1,
                    n % 2 == 0,
                    half == n / 2,
            ;
        } else {
            assert(n & ((n - 1) as usize) != 0) by (bit_vector)
                requires
                    n > 1,
                    n % 2 != 0,
            ;
        }
    }
}

/// Whether `n` is a power of two.
pub fn is_power_of_two(n: usize) -> (power: bool)
    ensures
        power == is_pow2(n as int),
{
    proof {
        lemma_power_of_two_test(n);
    }
    n != 0 && n & (n - 1) == 0
}

/// Rounds `n` up to a multiple of `align`, a power of two, by masking.
pub fn align_up(n: usize, align: usize) -> (aligned: usize)
    requires
        is_pow2(align as int),
        n + align - 1 <= usize::MAX,
    ensures
        aligned == round_up(n as int, align as int),
{
    proof {
        reveal(is_pow2);
    }
    let mask: usize = align - 1;
    let x: usize = n + mask;
    let aligned: usize = x & !mask;
    proof {
        is_pow2_equiv(align as int);
        let e = choose|e: nat| pow(2, e) == align as int;
        lemma_pow2(e);
        assert(e < usize::BITS) by {
            if e >= usize::BITS {
                assert(pow2(usize::BITS as nat) > usize::MAX) by {
                    lemma2_to64();
                    lemma2_to64_rest();
                }
                if e > usize::BITS {
                    lemma_pow2_strictly_increases(usize::BITS as nat, e);
                }
            }
        }
        lemma_usize_low_bits_mask_is_mod(x, e);
        assert((x & !mask) + (x & mask) == x) by (bit_vector);
        lemma_fundamental_div_mod(x as int, align as int);
        assert(x as int / align as int * align == align * (x as int / align as int))
            by (nonlinear_arith);
    }
    aligned
}

} // verus!
