//! Pages of a run of memory: how many there are, where they start, and which of them a
//! survey shows.

use vstd::arithmetic::div_mod::*;
use vstd::prelude::*;

verus! {

/// How many pages `total` bytes touch, the last one included where it is not whole.
pub open spec fn page_count(total: int, page: int) -> int {
    (total + page - 1) / page
}

/// Where the pages of `total` bytes start: at every multiple of `page` below `total`.
pub open spec fn offsets(total: int, page: int) -> Seq<usize> {
    Seq::new(page_count(total, page) as nat, |i: int| (i * page) as usize)
}

/// The start of each page lies inside the run, and the pages end just behind it.
pub proof fn offsets_stay_inside(total: int, page: int, i: int)
    requires
        0 <= total,
        0 < page,
        0 <= i < page_count(total, page),
    ensures
        0 <= i * page < total,
        total <= page_count(total, page) * page < total + page,
{
    let n = page_count(total, page);
    lemma_fundamental_div_mod(total + page - 1, page);
    lemma_mod_bound(total + page - 1, page);
    assert(page * n == n * page) by (nonlinear_arith);
    assert(0 <= i * page <= (n - 1) * page) by (nonlinear_arith)
        requires
            0 <= i <= n - 1,
            0 < page,
    ;
    assert((n - 1) * page == n * page - page) by (nonlinear_arith);
}

/// Every byte of a run lies on one of its pages: touching the start of each page reaches all
/// of them.
pub proof fn every_byte_is_on_a_page(total: int, page: int, byte: int)
    requires
        0 < page,
        0 <= byte < total,
    ensures
        0 <= byte / page < page_count(total, page),
        byte / page * page <= byte < byte / page * page + page,
{
    let i = byte / page;
    lemma_fundamental_div_mod(byte, page);
    lemma_mod_bound(byte, page);
    lemma_div_pos_is_pos(byte, page);
    assert(page * i == i * page) by (nonlinear_arith);
    lemma_fundamental_div_mod(total + page - 1, page);
    lemma_mod_bound(total + page - 1, page);
    let n = page_count(total, page);
    assert(i < n) by (nonlinear_arith)
        requires
            page * i < total,
            total <= page * n,
            0 < page,
    ;
}

/// The starts of the pages of `total` bytes, in order.
pub fn page_offsets(total: usize, page: usize) -> (starts: Vec<usize>)
    requires
        0 < page,
    ensures
        starts@ == offsets(total as int, page as int),
{
    let whole: usize = total / page;
    let rest: usize = total % page;
    proof {
        lemma_page_count(total as int, page as int);
    }
    let mut starts: Vec<usize> = Vec::new();
    let mut i: usize = 0;
    while i < whole
        invariant
            0 < page,
            i <= whole,
            whole <= page_count(total as int, page as int),
            starts@ == offsets(total as int, page as int).take(i as int),
        decreases whole - i,
    {
        proof {
            offsets_stay_inside(total as int, page as int, i as int);
        }
        starts.push(i * page);
        i += 1;
        assert(starts@ =~= offsets(total as int, page as int).take(i as int));
    }
    if rest != 0 {
        proof {
            offsets_stay_inside(total as int, page as int, whole as int);
        }
        starts.push(whole * page);
    }
    assert(starts@ =~= offsets(total as int, page as int));
    starts
}

/// How many pages `total` bytes touch.
pub fn pages_covering(total: usize, page: usize) -> (pages: usize)
    requires
        0 < page,
    ensures
        pages == page_count(total as int, page as int),
{
    proof {
        lemma_page_count(total as int, page as int);
    }
    if total % page == 0 {
        total / page
    } else {
        total / page + 1
    }
}

/// The number of pages is that of the whole pages, and one more for a rest.
proof fn lemma_page_count(total: int, page: int)
    requires
        0 <= total,
        0 < page,
    ensures
        page_count(total, page) == total / page + if total % page == 0 {
            0int
        } else {
            1int
        },
        total / page <= total,
        total % page != 0 ==> total / page < total,
{
    let w = total / page;
    let rest = total % page;
    lemma_fundamental_div_mod(total, page);
    lemma_mod_bound(total, page);
    lemma_div_pos_is_pos(total, page);
    if rest == 0 {
        assert(total + page - 1 == w * page + (page - 1)) by (nonlinear_arith)
            requires
                total == page * w,
        ;
        lemma_fundamental_div_mod_converse(total + page - 1, page, w, page - 1);
    } else {
        assert(total + page - 1 == (w + 1) * page + (rest - 1)) by (nonlinear_arith)
            requires
                total == page * w + rest,
        ;
        lemma_fundamental_div_mod_converse(total + page - 1, page, w + 1, rest - 1);
    }
    assert(w <= page * w) by (nonlinear_arith)
        requires
            0 <= w,
            0 < page,
    ;
}

/// The most pages that a survey looks at.
pub const SURVEYED: usize = 32;

/// How many of `pages` pages a survey looks at: the first ones.
pub fn surveyed(pages: usize) -> (sample: usize)
    ensures
        sample == (if pages <= SURVEYED {
            pages
        } else {
            SURVEYED
        }),
{
    if pages <= SURVEYED {
        pages
    } else {
        SURVEYED
    }
}

/// How a page that was surveyed is shown.
#[derive(Debug, Clone, Copy, PartialEq, Eq, Structural)]
pub enum PageLine {
    /// With all that is known of it.
    Detail,
    /// As the first of those that are left out.
    Ellipsis,
    /// Not at all.
    Silent,
}

/// How the page `p` of a survey of `sample` pages is shown: the first eight and the last one
/// in detail, and the gap between them marked once.
pub fn page_line(p: usize, sample: usize) -> (line: PageLine)
    requires
        p < sample,
    ensures
        line == (if p < 8 || p == sample - 1 {
            PageLine::Detail
        } else if p == 8 {
            PageLine::Ellipsis
        } else {
            PageLine::Silent
        }),
{
    if p < 8 || p == sample - 1 {
        PageLine::Detail
    } else if p == 8 {
        PageLine::Ellipsis
    } else {
        PageLine::Silent
    }
}

/// Whether a page of a survey that nothing is known of is shown: one of the first four.
pub fn failure_is_shown(p: usize) -> (shown: bool)
    ensures
        shown == (p < 4),
{
    p < 4
}

/// How many neighbours in a row of values differ.
pub open spec fn changes_in(values: Seq<u64>) -> nat
    decreases values.len(),
{
    if values.len() < 2 {
        0
    } else {
        changes_in(values.drop_last()) + if values[values.len() - 2] != values.last() {
            1nat
        } else {
            0nat
        }
    }
}

/// Counts how often a value changes from one page to the next.
#[derive(Debug, Clone, Copy, PartialEq, Eq, Structural)]
pub struct ChangeCounter {
    pub last: Option<u64>,
    pub changes: u32,
}

impl ChangeCounter {
    /// Whether the counter has seen these values, and nothing else.
    pub open spec fn has_seen(self, values: Seq<u64>) -> bool {
        &&& self.changes == changes_in(values)
        &&& self.last == if values.len() == 0 {
            None::<u64>
        } else {
            Some(values.last())
        }
    }

    /// A counter that has seen nothing.
    pub fn new() -> (counter: ChangeCounter)
        ensures
            counter.has_seen(Seq::empty()),
            counter == (ChangeCounter { last: None, changes: 0 }),
    {
        ChangeCounter { last: None, changes: 0 }
    }

    /// Takes the value of the next page.
    pub fn see(&mut self, value: u64)
        requires
            old(self).changes < u32::MAX,
        ensures
            final(self).last == Some(value),
            final(self).changes == old(self).changes + if old(self).last matches Some(last) && last
                != value {
                1int
            } else {
                0int
            },
            forall|values: Seq<u64>| #[trigger]
                old(self).has_seen(values) ==> final(self).has_seen(values.push(value)),
    {
        match self.last {
            Some(last) => {
                if last != value {
                    self.changes += 1;
                }
            },
            None => {},
        }
        self.last = Some(value);
        proof {
            assert forall|values: Seq<u64>| #[trigger] old(self).has_seen(values) implies
                self.has_seen(values.push(value)) by {
                assert(values.push(value).drop_last() =~= values);
            }
        }
    }

    /// Whether all pages had the same value.
    pub fn is_uniform(&self) -> (uniform: bool)
        ensures
            uniform == (self.changes == 0),
    {
        self.changes == 0
    }
}

/// No change between neighbours means that all values are the same.
pub proof fn uniform_means_all_equal(values: Seq<u64>)
    ensures
        changes_in(values) == 0 <==> forall|i: int, j: int|
            0 <= i < values.len() && 0 <= j < values.len() ==> values[i] == values[j],
    decreases values.len(),
{
    if values.len() >= 2 {
        let before = values.drop_last();
        uniform_means_all_equal(before);
        let n = values.len() as int;
        if changes_in(values) == 0 {
            assert forall|i: int, j: int|
                0 <= i < values.len() && 0 <= j < values.len() implies values[i]
                == values[j] by {
                assert(before[n - 2] == values[n - 2]);
                if i < n - 1 {
                    assert(before[i] == before[n - 2]);
                }
                if j < n - 1 {
                    assert(before[j] == before[n - 2]);
                }
            }
        } else if values[n - 2] == values.last() {
            assert(changes_in(before) != 0);
            let (i, j) = choose|i: int, j: int|
                0 <= i < before.len() && 0 <= j < before.len() && before[i] != before[j];
            assert(values[i] != values[j]);
        } else {
            assert(values[n - 2] != values[n - 1]);
        }
    }
}

/// What the system says of a page.
#[derive(Debug, Clone, Copy, PartialEq, Eq, Structural)]
pub struct Disposition {
    pub present: bool,
    pub fictitious: bool,
    pub referenced: bool,
    pub dirty: bool,
    pub paged_out: bool,
    pub encrypted: bool,
    pub compressed: bool,
    pub validated: bool,
    pub not_executable: bool,
}

/// Reads the bits of a page's disposition.
pub fn disposition(bits: i32) -> (d: Disposition)
    ensures
        d.present == crate::codes::bit_set(bits, 0),
        d.fictitious == crate::codes::bit_set(bits, 1),
        d.referenced == crate::codes::bit_set(bits, 2),
        d.dirty == crate::codes::bit_set(bits, 3),
        d.paged_out == crate::codes::bit_set(bits, 4),
        d.encrypted == crate::codes::bit_set(bits, 5),
        d.compressed == crate::codes::bit_set(bits, 6),
        d.validated == crate::codes::bit_set(bits, 9),
        d.not_executable == crate::codes::bit_set(bits, 11),
{
    Disposition {
        present: (bits & (1i32 << 0i32)) != 0,
        fictitious: (bits & (1i32 << 1i32)) != 0,
        referenced: (bits & (1i32 << 2i32)) != 0,
        dirty: (bits & (1i32 << 3i32)) != 0,
        paged_out: (bits & (1i32 << 4i32)) != 0,
        encrypted: (bits & (1i32 << 5i32)) != 0,
        compressed: (bits & (1i32 << 6i32)) != 0,
        validated: (bits & (1i32 << 9i32)) != 0,
        not_executable: (bits & (1i32 << 11i32)) != 0,
    }
}

} // verus!
