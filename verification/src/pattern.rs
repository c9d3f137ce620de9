//! Byte patterns that are written to memory and checked later.

use vstd::arithmetic::div_mod::*;
use vstd::prelude::*;

verus! {

/// The size of a page in the page pattern.
pub const PATTERN_PAGE: usize = 16384;

/// How many mismatches are reported one by one.
pub const REPORTED: usize = 5;

/// A pattern gives every offset its byte.
#[derive(Debug, Clone, Copy, PartialEq, Eq, Structural)]
pub enum Pattern {
    /// The offset in the page, plus sixteen times the page's number: it tells the pages apart.
    Paged,
    /// The offset itself.
    Counting,
    /// The offset times seven.
    Sevens,
}

impl Pattern {
    /// The byte at the offset `i`.
    pub open spec fn at(self, i: int) -> u8 {
        match self {
            Pattern::Paged => ((i / PATTERN_PAGE as int * 16 + i % PATTERN_PAGE as int)
                % 256) as u8,
            Pattern::Counting => (i % 256) as u8,
            Pattern::Sevens => (i * 7 % 256) as u8,
        }
    }

    /// The byte at the offset `i`.
    pub fn byte(self, i: usize) -> (byte: u8)
        ensures
            byte == self.at(i as int),
    {
        match self {
            Pattern::Paged => {
                let page: usize = i / PATTERN_PAGE;
                let offset: usize = i % PATTERN_PAGE;
                let mixed: usize = page * 16 + offset;
                proof {
                    assert((mixed & 0xFF) as u8 == (mixed % 256) as u8) by (bit_vector);
                }
                (mixed & 0xFF) as u8
            },
            Pattern::Counting => {
                proof {
                    assert((i & 0xFF) as u8 == (i % 256) as u8) by (bit_vector);
                }
                (i & 0xFF) as u8
            },
            Pattern::Sevens => {
                let product: usize = i.wrapping_mul(7);
                proof {
                    lemma_low_byte(i as int * 7, product);
                    assert((product & 0xFF) as u8 == (product % 256) as u8) by (bit_vector);
                }
                (product & 0xFF) as u8
            },
        }
    }

    /// Whether `bytes` hold the pattern from the offset zero on.
    pub open spec fn fills(self, bytes: Seq<u8>) -> bool {
        forall|i: int| 0 <= i < bytes.len() ==> #[trigger] bytes[i] == self.at(i)
    }

    /// Writes the pattern over all of `bytes`.
    pub fn fill(self, bytes: &mut [u8])
        ensures
            final(bytes)@.len() == old(bytes)@.len(),
            self.fills(final(bytes)@),
    {
        let n: usize = bytes.len();
        let mut i: usize = 0;
        while i < n
            invariant
                n == bytes@.len(),
                n == old(bytes)@.len(),
                i <= n,
                forall|j: int| 0 <= j < i ==> #[trigger] bytes@[j] == self.at(j),
            decreases n - i,
        {
            bytes[i] = self.byte(i);
            i += 1;
        }
    }

    /// Whether the byte at the offset `i` is not that of the pattern.
    pub open spec fn differs(self, bytes: Seq<u8>, i: int) -> bool {
        bytes[i] != self.at(i)
    }

    /// Looks for the first byte from `from` up to `to` that is not that of the pattern.
    pub fn first_mismatch(self, bytes: &[u8], from: usize, to: usize) -> (mismatch: Option<
        Mismatch,
    >)
        requires
            from <= to <= bytes@.len(),
        ensures
            match mismatch {
                Some(m) => from <= m.offset < to && m.is_at(self, bytes@) && forall|i: int|
                    from <= i < m.offset ==> !#[trigger] self.differs(bytes@, i),
                None => forall|i: int| from <= i < to ==> !#[trigger] self.differs(bytes@, i),
            },
    {
        let mut i: usize = from;
        while i < to
            invariant
                from <= i <= to <= bytes@.len(),
                forall|j: int| from <= j < i ==> !#[trigger] self.differs(bytes@, j),
            decreases to - i,
        {
            let expected: u8 = self.byte(i);
            if bytes[i] != expected {
                return Some(Mismatch { offset: i, expected, actual: bytes[i] });
            }
            i += 1;
        }
        None
    }
}

/// The low byte of a product is not changed by wrapping.
proof fn lemma_low_byte(product: int, wrapped: usize)
    requires
        wrapped as int == product % (usize::MAX + 1),
    ensures
        wrapped as int % 256 == product % 256,
{
    let m = usize::MAX + 1;
    lemma_fundamental_div_mod(product, m);
    let q = product / m;
    assert(m % 256 == 0 && m / 256 > 0);
    let k = m / 256;
    assert(product == 256 * (k * q) + wrapped) by (nonlinear_arith)
        requires
            product == m * q + wrapped,
            m == 256 * k,
    ;
    lemma_mod_multiples_vanish(k * q, wrapped as int, 256);
}

/// A byte that is not what the pattern says.
#[derive(Debug, Clone, Copy, PartialEq, Eq, Structural)]
pub struct Mismatch {
    pub offset: usize,
    pub expected: u8,
    pub actual: u8,
}

impl Mismatch {
    /// Whether this is a mismatch of `bytes` against the pattern.
    pub open spec fn is_at(self, pattern: Pattern, bytes: Seq<u8>) -> bool {
        &&& pattern.differs(bytes, self.offset as int)
        &&& self.expected == pattern.at(self.offset as int)
        &&& self.actual == bytes[self.offset as int]
    }
}

/// What a check of the page pattern found.
#[derive(Debug, PartialEq, Eq)]
pub struct PatternReport {
    /// How many bytes are wrong.
    pub mismatches: usize,
    /// The first of them, at most five.
    pub first: Vec<Mismatch>,
}

/// The offsets below `n` at which `bytes` differ from the pattern, in order.
pub open spec fn mismatch_offsets(pattern: Pattern, bytes: Seq<u8>, n: int) -> Seq<int>
    decreases n,
{
    if n <= 0 {
        Seq::empty()
    } else if pattern.differs(bytes, n - 1) {
        mismatch_offsets(pattern, bytes, n - 1).push(n - 1)
    } else {
        mismatch_offsets(pattern, bytes, n - 1)
    }
}

proof fn lemma_mismatch_count(pattern: Pattern, bytes: Seq<u8>, n: int)
    requires
        0 <= n,
    ensures
        mismatch_offsets(pattern, bytes, n).len() <= n,
        forall|k: int|
            0 <= k < mismatch_offsets(pattern, bytes, n).len() ==> 0 <= (
            #[trigger] mismatch_offsets(pattern, bytes, n)[k]) < n,
    decreases n,
{
    if n > 0 {
        lemma_mismatch_count(pattern, bytes, n - 1);
    }
}

/// Writes the page pattern.
pub fn write_test_pattern(bytes: &mut [u8])
    ensures
        final(bytes)@.len() == old(bytes)@.len(),
        Pattern::Paged.fills(final(bytes)@),
{
    Pattern::Paged.fill(bytes)
}

/// Checks the page pattern byte by byte: counts the wrong bytes, and reports the first of
/// them.
pub fn verify_test_pattern(bytes: &[u8]) -> (report: PatternReport)
    ensures
        ({
            let wrong = mismatch_offsets(Pattern::Paged, bytes@, bytes@.len() as int);
            &&& report.mismatches == wrong.len()
            &&& report.first@.len() == (if wrong.len() <= REPORTED {
                wrong.len() as int
            } else {
                REPORTED as int
            })
            &&& forall|k: int|
                0 <= k < report.first@.len() ==> (#[trigger] report.first@[k]).offset == wrong[k]
                    && report.first@[k].is_at(Pattern::Paged, bytes@)
        }),
{
    let n: usize = bytes.len();
    let mut mismatches: usize = 0;
    let mut first: Vec<Mismatch> = Vec::new();
    let mut i: usize = 0;
    while i < n
        invariant
            n == bytes@.len(),
            i <= n,
            mismatches == mismatch_offsets(Pattern::Paged, bytes@, i as int).len(),
            first@.len() == (if mismatches <= REPORTED {
                mismatches
            } else {
                REPORTED
            }),
            forall|k: int|
                0 <= k < first@.len() ==> (#[trigger] first@[k]).offset == mismatch_offsets(
                    Pattern::Paged,
                    bytes@,
                    i as int,
                )[k] && first@[k].is_at(Pattern::Paged, bytes@),
        decreases n - i,
    {
        proof {
            lemma_mismatch_count(Pattern::Paged, bytes@, i as int);
            lemma_mismatch_count(Pattern::Paged, bytes@, i + 1);
        }
        let expected: u8 = Pattern::Paged.byte(i);
        let actual: u8 = bytes[i];
        if actual != expected {
            if mismatches < REPORTED {
                first.push(Mismatch { offset: i, expected, actual });
            }
            mismatches += 1;
        }
        i += 1;
    }
    PatternReport { mismatches, first }
}

impl PatternReport {
    /// Whether no byte is wrong.
    pub fn ok(&self) -> (ok: bool)
        ensures
            ok == (self.mismatches == 0),
    {
        self.mismatches == 0
    }

    /// How many wrong bytes are not reported one by one.
    pub fn more(&self) -> (more: Option<usize>)
        ensures
            more == (if self.mismatches > REPORTED {
                Some((self.mismatches - REPORTED) as usize)
            } else {
                None
            }),
    {
        if self.mismatches > REPORTED {
            Some(self.mismatches - REPORTED)
        } else {
            None
        }
    }
}

/// Writes the counting pattern.
pub fn write_pattern(bytes: &mut [u8])
    ensures
        final(bytes)@.len() == old(bytes)@.len(),
        Pattern::Counting.fills(final(bytes)@),
{
    Pattern::Counting.fill(bytes)
}

/// The number one as a half float.
pub const HALF_ONE: u16 = 0x3C00;

/// Writes the half float one over all of `halves`.
pub fn fill_halves(halves: &mut [u16])
    ensures
        final(halves)@.len() == old(halves)@.len(),
        forall|i: int| 0 <= i < final(halves)@.len() ==> #[trigger] final(halves)@[i] == 0x3C00,
{
    let n: usize = halves.len();
    let mut i: usize = 0;
    while i < n
        invariant
            n == halves@.len(),
            n == old(halves)@.len(),
            i <= n,
            forall|j: int| 0 <= j < i ==> #[trigger] halves@[j] == 0x3C00,
        decreases n - i,
    {
        halves[i] = HALF_ONE;
        i += 1;
    }
}

/// Whether a check of the first and the last page looks at the offset `i`.
pub open spec fn is_sampled(i: int, len: int, page: int) -> bool {
    0 <= i < len && (i < page || len - page <= i)
}

/// Checks the counting pattern in the first page and in the last: nothing if it is intact
/// there, else the first byte that is wrong.
pub fn verify_pattern(bytes: &[u8], page: usize) -> (mismatch: Option<Mismatch>)
    ensures
        match mismatch {
            Some(m) => {
                &&& is_sampled(m.offset as int, bytes@.len() as int, page as int)
                &&& m.is_at(Pattern::Counting, bytes@)
                &&& forall|i: int|
                    0 <= i < m.offset && is_sampled(i, bytes@.len() as int, page as int)
                        ==> !#[trigger] Pattern::Counting.differs(bytes@, i)
            },
            None => forall|i: int|
                is_sampled(i, bytes@.len() as int, page as int)
                    ==> !#[trigger] Pattern::Counting.differs(bytes@, i),
        },
{
    let size: usize = bytes.len();
    let check: usize = if page < size {
        page
    } else {
        size
    };
    match Pattern::Counting.first_mismatch(bytes, 0, check) {
        Some(mismatch) => return Some(mismatch),
        None => {},
    }
    if size > page {
        return Pattern::Counting.first_mismatch(bytes, size - check, size);
    }
    None
}

/// A pattern that was just written is found intact, and one wrong byte is always found by
/// the check of the whole pattern.
pub proof fn written_pattern_verifies(pattern: Pattern, bytes: Seq<u8>, n: int)
    requires
        0 <= n <= bytes.len(),
    ensures
        (forall|i: int| 0 <= i < n ==> !#[trigger] pattern.differs(bytes, i)) <==>
            mismatch_offsets(pattern, bytes, n).len() == 0,
        pattern.fills(bytes) ==> mismatch_offsets(pattern, bytes, n).len() == 0,
    decreases n,
{
    if n > 0 {
        written_pattern_verifies(pattern, bytes, n - 1);
        if mismatch_offsets(pattern, bytes, n).len() == 0 {
            assert(!pattern.differs(bytes, n - 1));
        }
    }
    assert(pattern.fills(bytes) ==> forall|i: int|
        0 <= i < n ==> !#[trigger] pattern.differs(bytes, i));
}

/// The offsets that a check lists are exactly the wrong ones, each once and in order.
pub proof fn mismatch_offsets_are_exact(pattern: Pattern, bytes: Seq<u8>, n: int)
    requires
        0 <= n <= bytes.len(),
    ensures
        forall|i: int|
            0 <= i < n ==> (mismatch_offsets(pattern, bytes, n).contains(i) <==>
                #[trigger] pattern.differs(bytes, i)),
        forall|a: int, b: int|
            0 <= a < b < mismatch_offsets(pattern, bytes, n).len() ==> mismatch_offsets(
                pattern,
                bytes,
                n,
            )[a] < mismatch_offsets(pattern, bytes, n)[b],
    decreases n,
{
    if n > 0 {
        mismatch_offsets_are_exact(pattern, bytes, n - 1);
        lemma_mismatch_count(pattern, bytes, n - 1);
        let before = mismatch_offsets(pattern, bytes, n - 1);
        let after = mismatch_offsets(pattern, bytes, n);
        assert forall|i: int| 0 <= i < n implies (after.contains(i) <==>
            #[trigger] pattern.differs(bytes, i)) by {
            if pattern.differs(bytes, n - 1) {
                assert(after[before.len() as int] == n - 1);
                if before.contains(i) {
                    let k = choose|k: int| 0 <= k < before.len() && before[k] == i;
                    assert(after[k] == i);
                }
                if after.contains(i) {
                    let k = choose|k: int| 0 <= k < after.len() && after[k] == i;
                    if k < before.len() {
                        assert(before[k] == i);
                    }
                }
            }
            if i == n - 1 && before.contains(i) {
                let k = choose|k: int| 0 <= k < before.len() && before[k] == i;
                assert(before[k] < n - 1);
            }
        }
    }
}

} // verus!
