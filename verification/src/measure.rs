//! How measurements are planned and summed up: how many rounds, in which order memory is
//! sampled, and what the times of a benchmark come to.

use vstd::arithmetic::div_mod::*;
use vstd::prelude::*;
use vstd::relations::*;

verus! {

/// The sum of all times.
pub open spec fn sum(times: Seq<u128>) -> nat
    decreases times.len(),
{
    if times.len() == 0 {
        0
    } else {
        sum(times.drop_last()) + times.last() as nat
    }
}

/// The times from the shortest to the longest.
pub open spec fn ordered(times: Seq<u128>) -> Seq<u128> {
    times.sort_by(|a: u128, b: u128| a <= b)
}

/// What the times of a benchmark come to.
#[derive(Debug, Clone, Copy, PartialEq, Eq, Structural)]
pub struct Summary {
    pub min: u128,
    pub median: u128,
    pub mean: u128,
}

/// `s` with two elements exchanged.
pub open spec fn swapped<A>(s: Seq<A>, i: int, j: int) -> Seq<A> {
    s.update(i, s[j]).update(j, s[i])
}

/// Exchanging two elements keeps the elements.
proof fn lemma_swap_keeps_elements<A>(s: Seq<A>, i: int, j: int)
    requires
        0 <= i < s.len(),
        0 <= j < s.len(),
    ensures
        swapped(s, i, j).to_multiset() == s.to_multiset(),
{
    broadcast use vstd::multiset::group_multiset_axioms;
    broadcast use vstd::seq_lib::group_to_multiset_ensures;

    vstd::seq_lib::to_multiset_update(s, i, s[j]);
    vstd::seq_lib::to_multiset_update(s.update(i, s[j]), j, s[i]);
    assert(s.to_multiset().count(s[i]) > 0);
    assert(s.update(i, s[j]).to_multiset().count(s.update(i, s[j])[j]) > 0);
    assert(swapped(s, i, j).to_multiset() =~= s.to_multiset());
}

/// Puts times in order, from the shortest to the longest.
fn sort_times(times: &mut Vec<u128>)
    ensures
        final(times)@ == ordered(old(times)@),
{
    let n: usize = times.len();
    let mut i: usize = 0;
    while i < n
        invariant
            n == times@.len(),
            i <= n,
            times@.to_multiset() == old(times)@.to_multiset(),
            forall|a: int, b: int| 0 <= a <= b < i ==> times@[a] <= times@[b],
        decreases n - i,
    {
        let mut j: usize = i;
        while j > 0 && times[j - 1] > times[j]
            invariant
                n == times@.len(),
                j <= i < n,
                times@.to_multiset() == old(times)@.to_multiset(),
                forall|a: int, b: int|
                    0 <= a <= b <= i && a != j && b != j ==> times@[a] <= times@[b],
                forall|b: int| j <= b <= i ==> times@[j as int] <= times@[b],
            decreases j,
        {
            let ghost before = times@;
            let lower: u128 = times[j];
            let upper: u128 = times[j - 1];
            times[j] = upper;
            times[j - 1] = lower;
            proof {
                lemma_swap_keeps_elements(before, j as int, j - 1);
            }
            j -= 1;
        }
        i += 1;
    }
    proof {
        let leq = |a: u128, b: u128| a <= b;
        old(times)@.lemma_sort_by_ensures(leq);
        assert(sorted_by(times@, leq));
        vstd::seq_lib::lemma_sorted_unique(times@, ordered(old(times)@), leq);
    }
}

fn add_times(times: &Vec<u128>) -> (total: u128)
    requires
        sum(times@) <= u128::MAX,
    ensures
        total == sum(times@),
{
    let mut total: u128 = 0;
    let mut i: usize = 0;
    while i < times.len()
        invariant
            i <= times@.len(),
            sum(times@) <= u128::MAX,
            total == sum(times@.take(i as int)),
        decreases times@.len() - i,
    {
        proof {
            lemma_sum_of_prefix(times@, i + 1);
            assert(times@.take(i + 1).drop_last() =~= times@.take(i as int));
        }
        total = total + times[i];
        i += 1;
    }
    proof {
        assert(times@.take(times@.len() as int) =~= times@);
    }
    total
}

proof fn lemma_sum_of_prefix(times: Seq<u128>, n: int)
    requires
        0 <= n <= times.len(),
    ensures
        sum(times.take(n)) <= sum(times),
    decreases times.len() - n,
{
    if n < times.len() {
        lemma_sum_of_prefix(times, n + 1);
        assert(times.take(n + 1).drop_last() =~= times.take(n));
    } else {
        assert(times.take(n) =~= times);
    }
}

/// The order in which times came does not change their sum.
proof fn lemma_sum_of_reordered(x: Seq<u128>, y: Seq<u128>)
    requires
        x.to_multiset() == y.to_multiset(),
    ensures
        sum(x) == sum(y),
    decreases x.len(),
{
    broadcast use vstd::multiset::group_multiset_axioms;
    broadcast use vstd::seq_lib::group_to_multiset_ensures;

    assert(x.len() == y.len()) by {
        assert(x.to_multiset().len() == x.len());
        assert(y.to_multiset().len() == y.len());
    }
    if x.len() > 0 {
        let last = x.last();
        assert(y.to_multiset().count(last) > 0);
        assert(y.contains(last));
        let k = choose|k: int| 0 <= k < y.len() && y[k] == last;
        let rest = y.remove(k);
        assert(x.drop_last().push(last) =~= x);
        assert(x.drop_last().to_multiset() =~= x.to_multiset().remove(last));
        assert(rest.to_multiset() =~= y.to_multiset().remove(last));
        lemma_sum_of_reordered(x.drop_last(), rest);
        lemma_sum_without(y, k);
    }
}

proof fn lemma_sum_without(y: Seq<u128>, k: int)
    requires
        0 <= k < y.len(),
    ensures
        sum(y) == sum(y.remove(k)) + y[k],
    decreases y.len(),
{
    if k == y.len() - 1 {
        assert(y.remove(k) =~= y.drop_last());
    } else {
        lemma_sum_without(y.drop_last(), k);
        assert(y.remove(k).drop_last() =~= y.drop_last().remove(k));
        assert(y.remove(k).last() == y.last());
    }
}

/// Sums up the times of a benchmark: the shortest, the middle one (the later of two), and the
/// mean, rounded down.
pub fn summarize(times: Vec<u128>) -> (summary: Summary)
    requires
        times@.len() > 0,
        sum(times@) <= u128::MAX,
    ensures
        summary.min == ordered(times@)[0],
        summary.median == ordered(times@)[times@.len() as int / 2],
        summary.mean == sum(times@) / times@.len(),
        forall|i: int| 0 <= i < times@.len() ==> summary.min <= #[trigger] times@[i],
        times@.contains(summary.min),
        times@.contains(summary.median),
{
    let mut sorted = times;
    sort_times(&mut sorted);
    proof {
        lemma_ordered(times@);
        lemma_sum_of_reordered(sorted@, times@);
    }
    let n: usize = sorted.len();
    let mean: u128 = add_times(&sorted) / (n as u128);
    Summary { min: sorted[0], median: sorted[n / 2], mean }
}

/// Takes the middle one of some times, the later of two.
pub fn median(times: Vec<u128>) -> (median: u128)
    requires
        times@.len() > 0,
    ensures
        median == ordered(times@)[times@.len() as int / 2],
{
    let mut sorted = times;
    sort_times(&mut sorted);
    proof {
        lemma_ordered(times@);
    }
    let n: usize = sorted.len();
    sorted[n / 2]
}

/// Ordered times are the same times, in order.
proof fn lemma_ordered(times: Seq<u128>)
    ensures
        ordered(times).len() == times.len(),
        ordered(times).to_multiset() == times.to_multiset(),
        forall|i: int| 0 <= i < times.len() ==> times.contains(#[trigger] ordered(times)[i]),
        forall|a: int, b: int|
            0 <= a <= b < times.len() ==> ordered(times)[a] <= ordered(times)[b],
        times.len() > 0 ==> forall|i: int|
            0 <= i < times.len() ==> ordered(times)[0] <= #[trigger] times[i],
{
    broadcast use vstd::multiset::group_multiset_axioms;
    broadcast use vstd::seq_lib::group_to_multiset_ensures;

    let leq = |a: u128, b: u128| a <= b;
    times.lemma_sort_by_ensures(leq);
    let o = ordered(times);
    assert(o.to_multiset().len() == o.len());
    assert(times.to_multiset().len() == times.len());
    assert forall|a: int, b: int| 0 <= a <= b < times.len() implies o[a] <= o[b] by {
        if a < b {
            assert(leq(o[a], o[b]));
        }
    }
    assert forall|i: int| 0 <= i < times.len() implies times.contains(#[trigger] o[i]) by {
        assert(o.contains(o[i]));
    }
    assert forall|i: int| 0 <= i < times.len() implies o[0] <= #[trigger] times[i] by {
        assert(times.to_multiset().count(times[i]) > 0);
        assert(o.to_multiset().count(times[i]) > 0);
        assert(o.contains(times[i]));
        let k = choose|k: int| 0 <= k < o.len() && o[k] == times[i];
        assert(o[0] <= o[k]);
    }
}

/// The median parts the times in two halves: no more than half of them come before it in
/// order, and none of those is longer; none of those behind it is shorter.
pub proof fn median_is_in_the_middle(times: Seq<u128>, i: int)
    requires
        0 <= i < times.len(),
    ensures
        ordered(times).to_multiset() == times.to_multiset(),
        i <= times.len() as int / 2 ==> ordered(times)[i] <= ordered(times)[times.len() as int
            / 2],
        i >= times.len() as int / 2 ==> ordered(times)[i] >= ordered(times)[times.len() as int
            / 2],
{
    lemma_ordered(times);
}

/// How often memory of this size is read or written in a benchmark.
pub fn access_rounds(size: usize) -> (rounds: usize)
    ensures
        rounds == (if size <= 0x10_0000 {
            20usize
        } else {
            5usize
        }),
{
    if size <= 0x10_0000 {
        20
    } else {
        5
    }
}

/// How often a surface of this size is created in a benchmark.
pub fn create_rounds(size: usize) -> (rounds: usize)
    ensures
        rounds == (if size <= 0x10_0000 {
            100usize
        } else {
            20usize
        }),
{
    if size <= 0x10_0000 {
        100
    } else {
        20
    }
}

/// How many of the first `n` words are not `pattern`.
pub open spec fn wrong_words(words: Seq<u64>, pattern: u64, n: int) -> nat
    decreases n,
{
    if n <= 0 {
        0
    } else {
        wrong_words(words, pattern, n - 1) + if words[n - 1] != pattern {
            1nat
        } else {
            0nat
        }
    }
}

/// Counts the words that are not `pattern`.
pub fn count_mismatches(words: &[u64], pattern: u64) -> (mismatches: usize)
    ensures
        mismatches == wrong_words(words@, pattern, words@.len() as int),
        mismatches <= words@.len(),
        mismatches == 0 <==> forall|i: int| 0 <= i < words@.len() ==> words@[i] == pattern,
{
    let n: usize = words.len();
    let mut mismatches: usize = 0;
    let mut i: usize = 0;
    while i < n
        invariant
            n == words@.len(),
            i <= n,
            mismatches <= i,
            mismatches == wrong_words(words@, pattern, i as int),
            mismatches == 0 <==> forall|j: int| 0 <= j < i ==> words@[j] == pattern,
        decreases n - i,
    {
        if words[i] != pattern {
            mismatches += 1;
        }
        i += 1;
    }
    mismatches
}

/// The bytes between two samples.
pub const SAMPLE_STRIDE: usize = 64;

/// The most samples that are taken.
pub const MAX_SAMPLES: usize = 10000;

/// How many samples are taken from `size` bytes.
pub open spec fn sample_count(size: int) -> int {
    if size / SAMPLE_STRIDE as int <= MAX_SAMPLES {
        size / SAMPLE_STRIDE as int
    } else {
        MAX_SAMPLES as int
    }
}

/// The offsets that are sampled, in order of place.
pub open spec fn sample_offsets(size: int) -> Seq<usize> {
    Seq::new(sample_count(size) as nat, |i: int| (i * SAMPLE_STRIDE) as usize)
}

/// The next number of a xorshift generator.
pub open spec fn xorshift(state: u64) -> u64 {
    let a = state ^ (state << 13);
    let b = a ^ (a >> 7);
    b ^ (b << 17)
}

/// `s` shuffled from the position `i` down: each position is exchanged with one at or before
/// it, drawn from the generator.
pub open spec fn shuffled(s: Seq<usize>, state: u64, i: int) -> Seq<usize>
    decreases i,
{
    if i <= 0 {
        s
    } else {
        let drawn = xorshift(state);
        shuffled(swapped(s, i, (drawn as usize) as int % (i + 1)), drawn, i - 1)
    }
}

/// Where the generator of the shuffle starts.
pub const SEED: u64 = 0xBADC0FFEE0DDF00D;

fn next_random(state: u64) -> (next: u64)
    ensures
        next == xorshift(state),
{
    let a: u64 = state ^ (state << 13);
    let b: u64 = a ^ (a >> 7);
    b ^ (b << 17)
}

/// The order in which `size` bytes are sampled: one byte out of every sixty-four, at most ten
/// thousand, shuffled the same way each time.
pub fn sample_order(size: usize) -> (order: Vec<usize>)
    ensures
        order@ == shuffled(sample_offsets(size as int), SEED, sample_count(size as int) - 1),
{
    let count: usize = if size / SAMPLE_STRIDE <= MAX_SAMPLES {
        size / SAMPLE_STRIDE
    } else {
        MAX_SAMPLES
    };
    let mut order: Vec<usize> = Vec::new();
    let mut k: usize = 0;
    while k < count
        invariant
            count == sample_count(size as int),
            k <= count,
            order@ == sample_offsets(size as int).take(k as int),
        decreases count - k,
    {
        proof {
            lemma_small_mod((k * SAMPLE_STRIDE) as nat, size as nat);
        }
        order.push((k * SAMPLE_STRIDE) % size);
        k += 1;
        assert(order@ =~= sample_offsets(size as int).take(k as int));
    }
    assert(order@ =~= sample_offsets(size as int));
    if count == 0 {
        return order;
    }
    let mut state: u64 = SEED;
    let mut i: usize = count - 1;
    while i > 0
        invariant
            i < count,
            count == sample_count(size as int),
            order@.len() == count,
            shuffled(order@, state, i as int) == shuffled(
                sample_offsets(size as int),
                SEED,
                count - 1,
            ),
        decreases i,
    {
        state = next_random(state);
        let j: usize = (state as usize) % (i + 1);
        let a: usize = order[i];
        let b: usize = order[j];
        order[i] = b;
        order[j] = a;
        i -= 1;
    }
    order
}

proof fn lemma_shuffle_keeps_elements(s: Seq<usize>, state: u64, i: int)
    requires
        i < s.len(),
    ensures
        shuffled(s, state, i).to_multiset() == s.to_multiset(),
        shuffled(s, state, i).len() == s.len(),
    decreases i,
{
    if i > 0 {
        let drawn = xorshift(state);
        let j = (drawn as usize) as int % (i + 1);
        lemma_swap_keeps_elements(s, i, j);
        lemma_shuffle_keeps_elements(swapped(s, i, j), drawn, i - 1);
    }
}

/// The shuffle loses no sample and invents none, and every sample is a byte of the memory.
pub proof fn samples_are_a_permutation(size: int, k: int)
    requires
        0 <= size <= usize::MAX,
        0 <= k < sample_count(size),
    ensures
        ({
            let order = shuffled(sample_offsets(size), SEED, sample_count(size) - 1);
            &&& order.to_multiset() == sample_offsets(size).to_multiset()
            &&& order.len() == sample_count(size)
            &&& 0 <= order[k] < size
            &&& order[k] % SAMPLE_STRIDE == 0
        }),
{
    broadcast use vstd::multiset::group_multiset_axioms;
    broadcast use vstd::seq_lib::group_to_multiset_ensures;

    let base = sample_offsets(size);
    let order = shuffled(base, SEED, sample_count(size) - 1);
    lemma_shuffle_keeps_elements(base, SEED, sample_count(size) - 1);
    assert(order.contains(order[k]));
    assert(order.to_multiset().count(order[k]) > 0);
    assert(base.contains(order[k]));
    let m = choose|m: int| 0 <= m < base.len() && base[m] == order[k];
    assert(0 <= m * SAMPLE_STRIDE < size);
}

/// The offset that step `i` of a walk over `size` bytes touches.
pub fn stride_offset(i: u64, size: usize) -> (offset: usize)
    requires
        0 < size,
        i * 64 <= usize::MAX,
    ensures
        offset == (i * 64) % size as int,
        offset < size,
{
    ((i * 64) as usize) % size
}

} // verus!
