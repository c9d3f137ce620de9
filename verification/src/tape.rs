//! A tape over a block: a head that moves forward as bytes are taken, and back to the
//! start when the tape is cleared.

use crate::align::{align_up, is_power_of_two};
use crate::block::Block;
use crate::error::MemError;
use crate::head::{head_now, move_head, Exchange, Sighting};
use crate::pages::page_offsets;
use std::sync::atomic::AtomicUsize;
use vstd::arithmetic::power2::*;
use vstd::prelude::*;

verus! {

/// The bytes that are touched to back a page: one in every so many.
pub const PAGE: usize = 16384;

/// Where a take goes: it occupies the bytes from `offset` up to `next`, and the head moves
/// to `next`.
#[derive(Debug, Clone, Copy, PartialEq, Eq, Structural)]
pub struct Place {
    pub offset: usize,
    pub next: usize,
}

/// Where `size` bytes go on a tape of `total` bytes whose head is at `head`: at the next
/// multiple of `align`. Nothing is taken if nothing is asked for, if `align` is not a power of
/// two, or if the bytes do not fit.
pub open spec fn placement(head: int, size: int, align: int, total: int) -> Option<(int, int)> {
    let offset = crate::align::round_up(head, align);
    if size == 0 || !is_pow2(align) || offset + size > total {
        None
    } else {
        Some((offset, offset + size))
    }
}

/// A power of two is positive.
proof fn lemma_power_is_positive(align: int)
    ensures
        is_pow2(align) ==> 0 < align,
{
    reveal(is_pow2);
}

/// Where rounding up leaves the range of `usize`, the next multiple lies behind every tape.
proof fn lemma_rounded_out_of_range(head: usize, align: usize)
    requires
        is_pow2(align as int),
        head + align - 1 > usize::MAX,
    ensures
        crate::align::round_up(head as int, align as int) > usize::MAX,
{
    crate::align::power_of_two_bound(align);
    crate::align::power_of_two_divides_range(align);
    let a = align as int;
    let range = usize::MAX + 1;
    let x = head + align - 1;
    vstd::arithmetic::div_mod::lemma_fundamental_div_mod(range, a);
    vstd::arithmetic::div_mod::lemma_div_is_ordered(range, x, a);
    assert(x / a * a >= range) by (nonlinear_arith)
        requires
            a * (range / a) == range,
            range / a <= x / a,
            0 < a,
    ;
}

/// Finds where `size` bytes go, without taking them.
pub fn place(head: usize, size: usize, align: usize, total: usize) -> (place: Option<Place>)
    ensures
        match place {
            Some(p) => placement(head as int, size as int, align as int, total as int) == Some(
                (p.offset as int, p.next as int),
            ),
            None => placement(head as int, size as int, align as int, total as int) is None,
        },
        place matches Some(p) ==> head <= p.offset && p.next == p.offset + size && p.next <= total,
{
    proof {
        lemma_power_is_positive(align as int);
        if is_pow2(align as int) {
            crate::align::round_up_is_least_multiple(head as int, align as int, 0);
        }
    }
    if size == 0 || !is_power_of_two(align) {
        return None;
    }
    proof {
        crate::align::power_of_two_bound(align);
    }
    if head > usize::MAX - (align - 1) {
        proof {
            lemma_rounded_out_of_range(head, align);
        }
        return None;
    }
    let offset: usize = align_up(head, align);
    let next: usize = match offset.checked_add(size) {
        Some(next) => next,
        None => return None,
    };
    if next > total {
        return None;
    }
    Some(Place { offset, next })
}

/// One byte that has to be written to memory.
#[derive(Debug, Clone, Copy, PartialEq, Eq, Structural)]
pub struct ByteWrite {
    pub address: usize,
    pub byte: u8,
}

/// Memory, by address, after the writes were made in order.
pub open spec fn written(memory: Map<int, u8>, writes: Seq<ByteWrite>) -> Map<int, u8>
    decreases writes.len(),
{
    if writes.len() == 0 {
        memory
    } else {
        written(memory, writes.drop_last()).insert(
            writes.last().address as int,
            writes.last().byte,
        )
    }
}

/// What a tape is: the block that it runs over, and how far its head is.
pub struct TapeView {
    pub block: crate::block::BlockView,
    pub used: int,
}

impl TapeView {
    /// The head is on the block.
    pub open spec fn wf(self) -> bool {
        &&& self.block.wf()
        &&& 0 <= self.used <= self.block.size
    }

    pub open spec fn total(self) -> int {
        self.block.size as int
    }

    pub open spec fn free(self) -> int {
        self.total() - self.used
    }

    /// Whether `address` is that of a byte of the tape.
    pub open spec fn owns(self, address: int) -> bool {
        self.block.address <= address < self.block.address + self.total()
    }

    /// The tape before anything is taken from it.
    pub open spec fn fresh(block: crate::block::BlockView) -> TapeView {
        TapeView { block, used: 0 }
    }

    /// What a take of `size` bytes returns.
    pub open spec fn taken(self, size: int, align: int) -> Option<int> {
        match placement(self.used, size, align, self.total()) {
            Some((offset, _)) => Some(self.block.address + offset),
            None => None,
        }
    }

    /// The tape after a take of `size` bytes.
    pub open spec fn after_take(self, size: int, align: int) -> TapeView {
        match placement(self.used, size, align, self.total()) {
            Some((_, next)) => TapeView { block: self.block, used: next },
            None => self,
        }
    }

    /// The tape after it was cleared.
    pub open spec fn cleared(self) -> TapeView {
        TapeView { block: self.block, used: 0 }
    }

    /// The writes that back every page of the tape: a zero at the start of each.
    pub open spec fn page_writes(self) -> Seq<ByteWrite> {
        Seq::new(
            crate::pages::page_count(self.total(), PAGE as int) as nat,
            |i: int| ByteWrite { address: (self.block.address + i * PAGE) as usize, byte: 0 },
        )
    }

    /// Whether a page of the tape starts at `address`.
    pub open spec fn starts_page(self, address: int) -> bool {
        self.owns(address) && (address - self.block.address) % PAGE as int == 0
    }
}

/// A tape over a pinned block.
#[derive(Debug, PartialEq, Eq)]
pub struct Tape {
    block: Block,
    head: usize,
    total: usize,
}

impl View for Tape {
    type V = TapeView;

    closed spec fn view(&self) -> TapeView {
        TapeView { block: self.block@, used: self.head as int }
    }
}

impl Tape {
    /// The length that the tape keeps is that of its block.
    pub closed spec fn spans_block(&self) -> bool {
        self.total == self@.total()
    }

    pub open spec fn wf(&self) -> bool {
        &&& self@.wf()
        &&& self.spans_block()
    }

    /// Starts a tape over the block that was opened for it. If no block could be opened,
    /// there is no tape, for the same reason.
    pub fn start(opened: Result<Block, MemError>) -> (tape: Result<Tape, MemError>)
        requires
            opened matches Ok(block) ==> block.wf(),
        ensures
            match opened {
                Ok(block) => tape matches Ok(t) && t.wf() && t@ == TapeView::fresh(block@),
                Err(error) => tape == Err::<Tape, MemError>(error),
            },
    {
        match opened {
            Ok(block) => {
                let total: usize = block.size();
                Ok(Tape { block, head: 0, total })
            },
            Err(error) => Err(error),
        }
    }

    /// Starts a tape, and tells what to write so that all of its pages are backed before
    /// anything is taken.
    pub fn start_warm(opened: Result<Block, MemError>) -> (warm: Result<
        (Tape, Vec<ByteWrite>),
        MemError,
    >)
        requires
            opened matches Ok(block) ==> block.wf(),
        ensures
            match opened {
                Ok(block) => warm matches Ok((t, writes)) && t.wf() && t@ == TapeView::fresh(
                    block@,
                ) && writes@ == t@.page_writes(),
                Err(error) => warm == Err::<(Tape, Vec<ByteWrite>), MemError>(error),
            },
    {
        match Tape::start(opened) {
            Ok(tape) => {
                let writes = tape.warm();
                Ok((tape, writes))
            },
            Err(error) => Err(error),
        }
    }

    /// The writes that force every page to be backed, in order: a zero to the first byte of
    /// each page, the last page included where it is not whole.
    pub fn warm(&self) -> (writes: Vec<ByteWrite>)
        requires
            self.wf(),
        ensures
            writes@ == self@.page_writes(),
    {
        let base: usize = self.block.address();
        let offsets = page_offsets(self.total, PAGE);
        let mut writes: Vec<ByteWrite> = Vec::new();
        let mut i: usize = 0;
        while i < offsets.len()
            invariant
                self.wf(),
                base == self@.block.address,
                offsets@ == crate::pages::offsets(self@.total(), PAGE as int),
                i <= offsets.len(),
                writes@ == self@.page_writes().take(i as int),
            decreases offsets.len() - i,
        {
            proof {
                crate::pages::offsets_stay_inside(self@.total(), PAGE as int, i as int);
            }
            writes.push(ByteWrite { address: base + offsets[i], byte: 0 });
            i += 1;
            assert(writes@ =~= self@.page_writes().take(i as int));
        }
        assert(writes@ =~= self@.page_writes());
        writes
    }

    /// Takes `size` bytes at the next multiple of `align`, and returns their address. Where
    /// they do not fit, or `align` is not a power of two, nothing is taken and the head stays
    /// where it is.
    pub fn take(&mut self, size: usize, align: usize) -> (address: Option<usize>)
        requires
            old(self).wf(),
        ensures
            final(self).wf(),
            final(self)@ == old(self)@.after_take(size as int, align as int),
            !is_pow2(align as int) ==> address is None && final(self)@ == old(self)@,
            match address {
                Some(a) => old(self)@.taken(size as int, align as int) == Some(a as int),
                None => old(self)@.taken(size as int, align as int) is None,
            },
    {
        proof {
            lemma_power_is_positive(align as int);
            if is_pow2(align as int) {
                crate::align::round_up_is_least_multiple(self.head as int, align as int, 0);
            }
        }
        match place(self.head, size, align, self.total) {
            Some(place) => {
                self.head = place.next;
                Some(self.block.address() + place.offset)
            },
            None => None,
        }
    }

    /// Takes the bytes of one value of type `V`.
    pub fn take_one<V>(&mut self) -> (address: Option<usize>)
        requires
            old(self).wf(),
        ensures
            final(self).wf(),
            final(self)@ == old(self)@.after_take(
                vstd::layout::size_of::<V>() as int,
                vstd::layout::align_of::<V>() as int,
            ),
            match address {
                Some(a) => old(self)@.taken(
                    vstd::layout::size_of::<V>() as int,
                    vstd::layout::align_of::<V>() as int,
                ) == Some(a as int),
                None => old(self)@.taken(
                    vstd::layout::size_of::<V>() as int,
                    vstd::layout::align_of::<V>() as int,
                ) is None,
            },
    {
        vstd::layout::layout_for_type_is_valid::<V>();
        self.take(std::mem::size_of::<V>(), std::mem::align_of::<V>())
    }

    /// Moves the head back to the start. What was taken may be taken again; the bytes
    /// themselves are left as they are.
    pub fn clear(&mut self)
        requires
            old(self).wf(),
        ensures
            final(self).wf(),
            final(self)@ == old(self)@.cleared(),
    {
        self.head = 0;
    }

    /// The bytes before the head.
    pub fn used(&self) -> (used: usize)
        ensures
            used == self@.used,
    {
        self.head
    }

    /// The bytes behind the head.
    pub fn free(&self) -> (free: usize)
        requires
            self.wf(),
        ensures
            free == self@.free(),
    {
        self.total.saturating_sub(self.used())
    }

    /// All bytes of the tape.
    pub fn total(&self) -> (total: usize)
        requires
            self.wf(),
        ensures
            total == self@.total(),
    {
        self.total
    }

    /// Whether `address` is that of a byte of the tape.
    pub fn owns(&self, address: usize) -> (owned: bool)
        requires
            self.wf(),
        ensures
            owned == self@.owns(address as int),
            owned == (self@.block.address <= address < self@.block.address + self@.block.size),
    {
        let base: usize = self.block.address();
        address >= base && address < base + self.total
    }

    /// The block that the tape runs over.
    pub fn block(&self) -> (block: &Block)
        ensures
            block@ == self@.block,
    {
        &self.block
    }

    /// Ends the tape and hands its block out, to be closed.
    pub fn into_block(self) -> (block: Block)
        ensures
            block@ == self@.block,
    {
        self.block
    }
}

/// What became of one attempt to take bytes from a tape whose head is shared.
#[derive(Debug, Clone, Copy, PartialEq, Eq, Structural)]
pub enum Claim {
    /// The bytes are taken.
    Taken(Place),
    /// There is no place for them.
    Full,
    /// The head did not move, as another thread moved it first: try again.
    Lost,
}

/// What an attempt to take the bytes at `place` comes to, given whether the head moved.
pub fn settle(place: Place, moved: bool) -> (claim: Claim)
    ensures
        claim == (if moved {
            Claim::Taken(place)
        } else {
            Claim::Lost
        }),
{
    if moved {
        Claim::Taken(place)
    } else {
        Claim::Lost
    }
}

/// What comes of an attempt that saw the head at `seen`, given whether it moved the head: where
/// there is no place for the bytes behind that position the tape is full, and where there is
/// they are taken there, unless the head did not move.
pub open spec fn outcome(
    seen: usize,
    moved: bool,
    size: usize,
    align: usize,
    total: usize,
) -> Claim {
    match placement(seen as int, size as int, align as int, total as int) {
        None => Claim::Full,
        Some((offset, next)) => if moved {
            Claim::Taken(Place { offset: offset as usize, next: next as usize })
        } else {
            Claim::Lost
        },
    }
}

/// Whether `claim` may come of an attempt that saw the head at `seen`.
pub open spec fn comes_of(
    claim: Claim,
    seen: usize,
    size: usize,
    align: usize,
    total: usize,
) -> bool {
    exists|moved: bool| claim == #[trigger] outcome(seen, moved, size, align, total)
}

/// What comes of an attempt that saw the head at `seen`, given whether it moved the head.
pub fn attempt(seen: usize, moved: bool, size: usize, align: usize, total: usize) -> (claim: Claim)
    ensures
        claim == outcome(seen, moved, size, align, total),
{
    match place(seen, size, align, total) {
        Some(place) => settle(place, moved),
        None => Claim::Full,
    }
}

/// Whether a claim is tried again when `left` retries are left.
pub fn tries_again(claim: Claim, left: usize) -> (again: bool)
    ensures
        again == (claim == Claim::Lost && left > 0),
{
    claim == Claim::Lost && left > 0
}

/// An attempt to take bytes from a shared head: what was asked of the head, and what came of
/// it.
#[derive(Debug, Clone, Copy)]
pub struct Attempt<'a> {
    pub exchange: Option<Exchange<'a>>,
    pub claim: Claim,
}

impl<'a> Attempt<'a> {
    /// Whether this is an attempt on `head`, seen at `seen`. Where there is a place for the
    /// bytes, the head was asked once to move from that position to the place's end, and the
    /// claim is what its answer calls for; where there is none, the head was not asked.
    pub open spec fn is_made(
        self,
        head: AtomicUsize,
        seen: usize,
        size: usize,
        align: usize,
        total: usize,
    ) -> bool {
        match placement(seen as int, size as int, align as int, total as int) {
            None => self.exchange is None && self.claim == Claim::Full,
            Some((_, next)) => {
                &&& self.exchange matches Some(exchange)
                &&& exchange.is_real()
                &&& exchange.head() == head
                &&& exchange.from() == seen
                &&& exchange.to() == next
                &&& self.claim == outcome(seen, exchange.succeeded(), size, align, total)
            },
        }
    }
}

/// Attempts to take `size` bytes from a tape of `total` bytes whose head was seen at `seen`,
/// and may have been moved by other threads since. The head moves only from that position.
pub fn claim_from(
    head: &AtomicUsize,
    seen: usize,
    size: usize,
    align: usize,
    total: usize,
) -> (made: Attempt<'_>)
    ensures
        made.is_made(*head, seen, size, align, total),
        comes_of(made.claim, seen, size, align, total),
{
    match place(seen, size, align, total) {
        Some(place) => {
            let exchange = move_head(head, seen, place.next);
            let claim = attempt(seen, exchange.moved(), size, align, total);
            Attempt { exchange: Some(exchange), claim }
        },
        None => {
            assert(Claim::Full == outcome(seen, false, size, align, total));
            Attempt { exchange: None, claim: Claim::Full }
        },
    }
}

/// What taking bytes from a shared head came to: where the head was seen last, the attempt from
/// there, and how many attempts were lost before it.
#[derive(Clone, Copy)]
pub struct Taking<'a> {
    pub seen: Sighting<'a>,
    pub last: Attempt<'a>,
    pub retried: usize,
    /// The attempts before the last one, each with the sighting that it was made from.
    pub lost: Ghost<Seq<(Sighting<'a>, Attempt<'a>)>>,
}

/// Takes `size` bytes from a tape of `total` bytes whose head other threads move too. Where the
/// head did not move, it looks and tries again, at most `retries` times: every attempt before
/// the last was lost, and the last is lost only when no retry is left. So at most one attempt,
/// the last, takes bytes.
pub fn claim(
    head: &AtomicUsize,
    size: usize,
    align: usize,
    total: usize,
    retries: usize,
) -> (taking: Taking<'_>)
    ensures
        taking.seen.head() == *head,
        taking.seen.is_real(),
        taking.last.is_made(*head, taking.seen.at(), size, align, total),
        comes_of(taking.last.claim, taking.seen.at(), size, align, total),
        taking.lost@.len() == taking.retried,
        forall|i: int|
            0 <= i < taking.lost@.len() ==> (#[trigger] taking.lost@[i]).1.claim == Claim::Lost
                && taking.lost@[i].0.head() == *head && taking.lost@[i].0.is_real()
                && taking.lost@[i].1.is_made(
                *head,
                taking.lost@[i].0.at(),
                size,
                align,
                total,
            ),
        taking.retried <= retries,
        taking.last.claim == Claim::Lost ==> taking.retried == retries,
        size == 0 || size > total || !is_pow2(align as int) ==> taking.last.claim == Claim::Full
            && taking.retried == 0,
{
    let mut seen = head_now(head);
    let mut last = claim_from(head, seen.position(), size, align, total);
    let mut left: usize = retries;
    let ghost mut lost: Seq<(Sighting<'_>, Attempt<'_>)> = Seq::empty();
    let ghost hopeless = size == 0 || size > total || !is_pow2(align as int);
    proof {
        lemma_hopeless(seen.at(), size, align, total);
    }
    while tries_again(last.claim, left)
        invariant
            seen.head() == *head,
            seen.is_real(),
            last.is_made(*head, seen.at(), size, align, total),
            comes_of(last.claim, seen.at(), size, align, total),
            left <= retries,
            lost.len() == retries - left,
            forall|i: int|
                0 <= i < lost.len() ==> (#[trigger] lost[i]).1.claim == Claim::Lost
                    && lost[i].0.head() == *head && lost[i].0.is_real() && lost[i].1.is_made(
                    *head,
                    lost[i].0.at(),
                    size,
                    align,
                    total,
                ),
            hopeless == (size == 0 || size > total || !is_pow2(align as int)),
            hopeless ==> last.claim == Claim::Full && left == retries,
        decreases left,
    {
        proof {
            lost = lost.push((seen, last));
        }
        left -= 1;
        seen = head_now(head);
        last = claim_from(head, seen.position(), size, align, total);
        proof {
            lemma_hopeless(seen.at(), size, align, total);
        }
    }
    Taking { seen, last, retried: retries - left, lost: Ghost(lost) }
}

/// What no tape of this length can hold has no place on it, wherever the head is.
proof fn lemma_hopeless(seen: usize, size: usize, align: usize, total: usize)
    ensures
        size == 0 || size > total || !is_pow2(align as int) ==> placement(
            seen as int,
            size as int,
            align as int,
            total as int,
        ) is None,
{
    lemma_power_is_positive(align as int);
    if is_pow2(align as int) {
        crate::align::round_up_is_least_multiple(seen as int, align as int, 0);
    }
}

/// What follows from a place that was found.
proof fn lemma_placement(head: int, size: int, align: int, total: int)
    requires
        0 <= head,
        0 <= size,
        placement(head, size, align, total) is Some,
    ensures
        0 < align,
        ({
            let (offset, next) = placement(head, size, align, total)->0;
            &&& head <= offset < head + align
            &&& offset % align == 0
            &&& next == offset + size
            &&& offset < next <= total
        }),
{
    lemma_power_is_positive(align);
    crate::align::round_up_is_least_multiple(head, align, 0);
}

/// A tape is never overdrawn: what is used and what is free make up the whole tape, before
/// and after every operation.
pub proof fn used_and_free_make_total(tape: TapeView, size: int, align: int)
    requires
        tape.wf(),
        0 <= size,
    ensures
        tape.used + tape.free() == tape.total(),
        tape.after_take(size, align).wf(),
        tape.after_take(size, align).total() == tape.total(),
        tape.cleared().wf(),
        tape.cleared().total() == tape.total(),
{
    if tape.taken(size, align) is Some {
        lemma_placement(tape.used, size, align, tape.total());
    }
}

/// A take that succeeds uses at least the bytes that it takes, at most the padding before
/// them more, and hands out bytes of the tape only.
pub proof fn taken_bytes_are_owned(tape: TapeView, size: int, align: int, i: int)
    requires
        tape.wf(),
        0 <= i < size,
        tape.taken(size, align) is Some,
    ensures
        tape.owns(tape.taken(size, align)->0 + i),
        tape.used + size <= tape.after_take(size, align).used < tape.used + size + align,
        tape.after_take(size, align).free() <= tape.free() - size,
{
    lemma_placement(tape.used, size, align, tape.total());
}

/// What is taken is aligned as asked, on a block whose own address is so aligned.
pub proof fn taken_address_is_aligned(tape: TapeView, size: int, align: int)
    requires
        tape.wf(),
        0 <= size,
        tape.block.address as int % align == 0,
        tape.taken(size, align) is Some,
    ensures
        tape.taken(size, align)->0 % align == 0,
{
    lemma_placement(tape.used, size, align, tape.total());
    vstd::arithmetic::div_mod::lemma_mod_adds(
        tape.block.address as int,
        crate::align::round_up(tape.used, align),
        align,
    );
}

/// An alignment that is not a power of two is refused: nothing is taken, and the tape stays
/// as it is.
pub proof fn bad_alignment_is_refused(tape: TapeView, size: int, align: int)
    requires
        !is_pow2(align),
    ensures
        tape.taken(size, align) is None,
        tape.after_take(size, align) == tape,
{
}

/// A take from a cleared tape succeeds whenever the tape can hold it at all, and it starts at
/// the first byte.
pub proof fn cleared_tape_starts_over(tape: TapeView, size: int, align: int)
    requires
        tape.wf(),
        0 < size <= tape.total(),
        is_pow2(align),
    ensures
        tape.cleared().free() == tape.total(),
        tape.cleared().taken(size, align) == Some(tape.block.address as int),
{
    lemma_power_is_positive(align);
    crate::align::round_up_is_least_multiple(0, align, 0);
    vstd::arithmetic::div_mod::lemma_small_mod(0, align as nat);
}

/// The rest of a tape can be taken to the last byte, and then nothing is left to take.
pub proof fn tape_can_be_filled(tape: TapeView, size: int, align: int)
    requires
        tape.wf(),
        0 < tape.free(),
        0 < size,
    ensures
        tape.taken(tape.free(), 1) == Some(tape.block.address + tape.used),
        tape.after_take(tape.free(), 1).free() == 0,
        tape.after_take(tape.free(), 1).taken(size, align) is None,
{
    assert(is_pow2(1)) by {
        reveal(is_pow2);
    }
    crate::align::round_up_is_least_multiple(tape.used, 1, 0);
    if is_pow2(align) {
        lemma_power_is_positive(align);
        crate::align::round_up_is_least_multiple(tape.total(), align, 0);
    }
}

/// A take that does not fit fails again however far the head has moved on: only clearing
/// the tape makes room.
pub proof fn full_stays_full(head: int, later: int, size: int, align: int, total: int)
    requires
        0 <= head <= later,
        0 <= size,
        placement(head, size, align, total) is None,
    ensures
        placement(later, size, align, total) is None,
{
    if is_pow2(align) {
        lemma_power_is_positive(align);
        crate::align::round_up_is_monotonic(head, later, align);
    }
}

/// What the first `n` writes of a warming do to the byte at `address`.
proof fn lemma_warmed(tape: TapeView, memory: Map<int, u8>, n: int, address: int)
    requires
        tape.wf(),
        0 <= n <= tape.page_writes().len(),
    ensures
        ({
            let after = written(memory, tape.page_writes().take(n));
            if tape.starts_page(address) && (address - tape.block.address) / (PAGE as int) < n {
                after.contains_key(address) && after[address] == 0
            } else {
                &&& after.contains_key(address) == memory.contains_key(address)
                &&& after[address] == memory[address]
            }
        }),
    decreases n,
{
    let writes = tape.page_writes();
    let base = tape.block.address as int;
    let offset = address - base;
    if n > 0 {
        lemma_warmed(tape, memory, n - 1, address);
        assert(writes.take(n).drop_last() =~= writes.take(n - 1));
        crate::pages::offsets_stay_inside(tape.total(), PAGE as int, n - 1);
        assert(writes.take(n).last() == writes[n - 1]);
        assert(writes[n - 1].address == base + (n - 1) * PAGE);
    }
}

/// Warming a tape writes a zero to the start of each of its pages, a last part of one
/// included, and changes no other byte, on the tape or off it.
pub proof fn warming_zeroes_page_starts(tape: TapeView, memory: Map<int, u8>, address: int)
    requires
        tape.wf(),
    ensures
        ({
            let after = written(memory, tape.page_writes());
            if tape.starts_page(address) {
                after.contains_key(address) && after[address] == 0
            } else {
                &&& after.contains_key(address) == memory.contains_key(address)
                &&& after[address] == memory[address]
            }
        }),
{
    let writes = tape.page_writes();
    lemma_warmed(tape, memory, writes.len() as int, address);
    assert(writes.take(writes.len() as int) =~= writes);
    if tape.starts_page(address) {
        crate::pages::every_byte_is_on_a_page(
            tape.total(),
            PAGE as int,
            address - tape.block.address,
        );
    }
}

/// One request of a history: so many bytes, with this alignment.
pub struct Asked {
    pub size: int,
    pub align: int,
}

/// Whether a head that starts at `heads[0]` moves through `heads` as the requests are served
/// one after the other, each from the position that the one before left.
pub open spec fn is_history(heads: Seq<int>, asked: Seq<Asked>, total: int) -> bool {
    &&& heads.len() == asked.len() + 1
    &&& 0 <= heads[0] <= total
    &&& forall|i: int| 0 <= i < asked.len() ==> (#[trigger] asked[i]).size >= 0
    &&& forall|i: int|
        0 <= i < asked.len() ==> heads[i + 1] == match placement(
            heads[i],
            (#[trigger] asked[i]).size,
            asked[i].align,
            total,
        ) {
            Some((_, next)) => next,
            None => heads[i],
        }
}

/// The place of the request `i` of a history.
pub open spec fn place_in(heads: Seq<int>, asked: Seq<Asked>, total: int, i: int) -> Option<
    (int, int),
> {
    placement(heads[i], asked[i].size, asked[i].align, total)
}

/// The head only moves forward, and never off the tape.
proof fn lemma_heads_are_ordered(heads: Seq<int>, asked: Seq<Asked>, total: int, i: int, j: int)
    requires
        is_history(heads, asked, total),
        0 <= i <= j < heads.len(),
    ensures
        0 <= heads[i] <= heads[j] <= total,
    decreases j,
{
    if j > 0 {
        if i < j {
            lemma_heads_are_ordered(heads, asked, total, i, j - 1);
        } else {
            lemma_heads_are_ordered(heads, asked, total, j - 1, j - 1);
        }
        assert(asked[j - 1].size >= 0);
        assert(heads[j] == heads[j - 1 + 1]);
        if place_in(heads, asked, total, j - 1) is Some {
            lemma_placement(heads[j - 1], asked[j - 1].size, asked[j - 1].align, total);
        }
    }
}

/// Between two clears no byte is handed out twice: what is taken later lies behind what was
/// taken before, and all of it lies on the tape, at the offsets asked for.
pub proof fn takes_never_overlap(
    heads: Seq<int>,
    asked: Seq<Asked>,
    total: int,
    i: int,
    j: int,
)
    requires
        is_history(heads, asked, total),
        0 <= i < j < asked.len(),
        place_in(heads, asked, total, i) is Some,
        place_in(heads, asked, total, j) is Some,
    ensures
        ({
            let (first, first_end) = place_in(heads, asked, total, i)->0;
            let (second, second_end) = place_in(heads, asked, total, j)->0;
            &&& 0 <= first
            &&& first_end == first + asked[i].size
            &&& first_end <= second
            &&& second_end == second + asked[j].size
            &&& second_end <= total
            &&& first % asked[i].align == 0
            &&& second % asked[j].align == 0
        }),
{
    lemma_heads_are_ordered(heads, asked, total, 0, i);
    lemma_heads_are_ordered(heads, asked, total, i + 1, j);
    assert(asked[i].size >= 0 && asked[j].size >= 0);
    lemma_placement(heads[i], asked[i].size, asked[i].align, total);
    lemma_placement(heads[j], asked[j].size, asked[j].align, total);
}

/// One take from a shared head: where it saw the head, what it asked for, and what it claimed.
pub struct SharedTake {
    pub seen: usize,
    pub size: usize,
    pub align: usize,
    pub claim: Claim,
}

impl SharedTake {
    /// Where the take leaves the head: at the end of the bytes that it took, or where it was.
    pub open spec fn leaves(self) -> usize {
        match self.claim {
            Claim::Taken(place) => place.next,
            _ => self.seen,
        }
    }
}

/// Whether takes from a shared head that is at `start` follow each other: each claim came of
/// the position that the take saw and was not lost, the first take saw the head at `start`, and
/// each other one saw the position that the one before left.
pub open spec fn follow_each_other(takes: Seq<SharedTake>, start: usize, total: usize) -> bool {
    &&& start <= total
    &&& forall|i: int|
        0 <= i < takes.len() ==> comes_of(
            (#[trigger] takes[i]).claim,
            takes[i].seen,
            takes[i].size,
            takes[i].align,
            total,
        ) && takes[i].claim != Claim::Lost
    &&& forall|i: int|
        0 <= i < takes.len() ==> (#[trigger] takes[i]).seen == heads_of(takes, start)[i]
}

/// The positions of the head: at the start, and behind each of the takes.
pub open spec fn heads_of(takes: Seq<SharedTake>, start: usize) -> Seq<int> {
    Seq::new(
        takes.len() + 1,
        |i: int|
            if i == 0 {
                start as int
            } else {
                takes[i - 1].leaves() as int
            },
    )
}

/// What the takes asked for.
pub open spec fn asked_of(takes: Seq<SharedTake>) -> Seq<Asked> {
    Seq::new(
        takes.len(),
        |i: int| Asked { size: takes[i].size as int, align: takes[i].align as int },
    )
}

/// Takes from a shared head that follow each other are a history, in which each that took
/// bytes has the place that it claimed.
pub proof fn shared_takes_are_a_history(takes: Seq<SharedTake>, start: usize, total: usize)
    requires
        follow_each_other(takes, start, total),
    ensures
        is_history(heads_of(takes, start), asked_of(takes), total as int),
        forall|i: int|
            0 <= i < takes.len() ==> match (#[trigger] takes[i]).claim {
                Claim::Taken(place) => place_in(
                    heads_of(takes, start),
                    asked_of(takes),
                    total as int,
                    i,
                ) == Some((place.offset as int, place.next as int)),
                _ => place_in(heads_of(takes, start), asked_of(takes), total as int, i) is None,
            },
{
    let heads = heads_of(takes, start);
    let asked = asked_of(takes);
    assert forall|i: int| 0 <= i < takes.len() implies match (#[trigger] takes[i]).claim {
        Claim::Taken(place) => place_in(heads, asked, total as int, i) == Some(
            (place.offset as int, place.next as int),
        ),
        _ => place_in(heads, asked, total as int, i) is None,
    } by {
        if place_in(heads, asked, total as int, i) is Some {
            lemma_placement(
                takes[i].seen as int,
                takes[i].size as int,
                takes[i].align as int,
                total as int,
            );
        }
    }
    assert forall|i: int| 0 <= i < asked.len() implies heads[i + 1] == match placement(
        heads[i],
        (#[trigger] asked[i]).size,
        asked[i].align,
        total as int,
    ) {
        Some((_, next)) => next,
        None => heads[i],
    } by {
        assert(takes[i].leaves() == heads[i + 1]);
    }
}

/// Of takes from a shared head that follow each other, no two claim the same byte: what is
/// claimed later lies behind what was claimed before, all of it on the tape.
pub proof fn shared_takes_never_overlap(
    takes: Seq<SharedTake>,
    start: usize,
    total: usize,
    i: int,
    j: int,
    first: Place,
    second: Place,
)
    requires
        follow_each_other(takes, start, total),
        0 <= i < j < takes.len(),
        takes[i].claim == Claim::Taken(first),
        takes[j].claim == Claim::Taken(second),
    ensures
        first.next == first.offset + takes[i].size,
        first.next <= second.offset,
        second.next == second.offset + takes[j].size,
        second.next <= total,
        first.offset as int % takes[i].align as int == 0,
        second.offset as int % takes[j].align as int == 0,
{
    shared_takes_are_a_history(takes, start, total);
    takes_never_overlap(heads_of(takes, start), asked_of(takes), total as int, i, j);
}

/// One thing that a take, by some thread, asks of a shared head.
pub enum HeadStep {
    /// It looks for a place for `size` bytes, and sees the head at `seen`.
    Look { seen: usize, size: usize, align: usize },
    /// It has the head move from `from` to the end of the place behind that position, and the
    /// head does, or does not.
    Move { from: usize, size: usize, align: usize, moved: bool },
}

impl HeadStep {
    /// What an attempt that was made from `seen` asked of the head last, and was answered: to
    /// move, or, where there is no place, nothing more than where it is.
    pub open spec fn of(made: Attempt, seen: usize, size: usize, align: usize) -> HeadStep {
        match made.exchange {
            Some(exchange) => HeadStep::Move {
                from: seen,
                size,
                align,
                moved: exchange.succeeded(),
            },
            None => HeadStep::Look { seen, size, align },
        }
    }

    /// The alignment that is asked for.
    pub open spec fn align(self) -> int {
        match self {
            HeadStep::Look { align, .. } => align as int,
            HeadStep::Move { align, .. } => align as int,
        }
    }

    /// The place for the bytes behind the position that the step speaks of.
    pub open spec fn place(self, total: usize) -> Option<(int, int)> {
        match self {
            HeadStep::Look { seen, size, align } => placement(
                seen as int,
                size as int,
                align as int,
                total as int,
            ),
            HeadStep::Move { from, size, align, .. } => placement(
                from as int,
                size as int,
                align as int,
                total as int,
            ),
        }
    }

    /// Whether the bytes are taken in this step.
    pub open spec fn takes(self) -> bool {
        self matches HeadStep::Move { moved, .. } && moved
    }

    /// The take that ends with this step: one that finds the tape full ends as it looks, and
    /// one that takes bytes ends as the head moves. A look that finds a place and a move that
    /// is lost end none.
    pub open spec fn ends(self, total: usize) -> Option<SharedTake> {
        match self {
            HeadStep::Look { seen, size, align } => if self.place(total) is None {
                Some(SharedTake { seen, size, align, claim: Claim::Full })
            } else {
                None
            },
            HeadStep::Move { from, size, align, moved } => if moved {
                Some(
                    SharedTake {
                        seen: from,
                        size,
                        align,
                        claim: outcome(from, true, size, align, total),
                    },
                )
            } else {
                None
            },
        }
    }
}

/// An attempt is a step of the kind that an execution is made of: it has the head move only
/// where there is a place, and to the end of that place, and the take that ends with the step,
/// if one does, has the claim that the attempt came to.
pub proof fn attempt_is_a_step(
    made: Attempt,
    head: AtomicUsize,
    seen: usize,
    size: usize,
    align: usize,
    total: usize,
)
    requires
        made.is_made(head, seen, size, align, total),
    ensures
        ({
            let step = HeadStep::of(made, seen, size, align);
            &&& match made.exchange {
                Some(exchange) => step.place(total) is Some && exchange.from() == seen
                    && exchange.to() == (step.place(total)->0).1,
                None => step.place(total) is None,
            }
            &&& step.ends(total) == if made.claim == Claim::Lost {
                None
            } else {
                Some(SharedTake { seen, size, align, claim: made.claim })
            }
        }),
{
}

/// Whether steps of any threads, in the order in which they reach the head, lead it through
/// `heads`. This is what an atomic is: a look sees where the head is, a move that succeeds was
/// asked of the position where the head is, and nothing else changes the head. And it is what
/// an attempt asks: a move only where there is a place, to the end of that place.
pub open spec fn is_execution(heads: Seq<usize>, steps: Seq<HeadStep>, total: usize) -> bool {
    &&& heads.len() == steps.len() + 1
    &&& heads[0] <= total
    &&& forall|t: int|
        0 <= t < steps.len() ==> match #[trigger] steps[t] {
            HeadStep::Look { seen, .. } => seen == heads[t] && heads[t + 1] == heads[t],
            HeadStep::Move { from, moved, .. } => {
                &&& steps[t].place(total) is Some
                &&& if moved {
                    heads[t] == from && heads[t + 1] == (steps[t].place(total)->0).1
                } else {
                    heads[t + 1] == heads[t]
                }
            },
        }
}

/// The takes that end among the first `n` steps, in the order in which they end.
pub open spec fn ended(steps: Seq<HeadStep>, total: usize, n: int) -> Seq<SharedTake>
    decreases n,
{
    if n <= 0 {
        Seq::empty()
    } else {
        match steps[n - 1].ends(total) {
            Some(take) => ended(steps, total, n - 1).push(take),
            None => ended(steps, total, n - 1),
        }
    }
}

/// One take more follows the others, if it saw the head where they left it.
proof fn lemma_one_more_follows(
    takes: Seq<SharedTake>,
    start: usize,
    total: usize,
    take: SharedTake,
)
    requires
        follow_each_other(takes, start, total),
        comes_of(take.claim, take.seen, take.size, take.align, total),
        take.claim != Claim::Lost,
        take.seen == heads_of(takes, start).last(),
    ensures
        follow_each_other(takes.push(take), start, total),
        heads_of(takes.push(take), start).last() == take.leaves(),
{
    let more = takes.push(take);
    assert forall|i: int| 0 <= i < more.len() implies (#[trigger] more[i]).seen == heads_of(
        more,
        start,
    )[i] by {
        if i < takes.len() {
            assert(more[i] == takes[i]);
            assert(takes[i].seen == heads_of(takes, start)[i]);
        }
        if 0 < i {
            assert(more[i - 1] == takes[i - 1]);
        }
    }
    assert forall|i: int| 0 <= i < more.len() implies comes_of(
        (#[trigger] more[i]).claim,
        more[i].seen,
        more[i].size,
        more[i].align,
        total,
    ) && more[i].claim != Claim::Lost by {
        if i < takes.len() {
            assert(more[i] == takes[i]);
        }
    }
}

proof fn lemma_ended_follow(heads: Seq<usize>, steps: Seq<HeadStep>, total: usize, n: int)
    requires
        is_execution(heads, steps, total),
        0 <= n <= steps.len(),
    ensures
        follow_each_other(ended(steps, total, n), heads[0], total),
        heads_of(ended(steps, total, n), heads[0]).last() == heads[n],
    decreases n,
{
    if n > 0 {
        lemma_ended_follow(heads, steps, total, n - 1);
        let before = ended(steps, total, n - 1);
        let step = steps[n - 1];
        match step.ends(total) {
            Some(take) => {
                match step {
                    HeadStep::Look { seen, size, align } => {
                        assert(take.claim == outcome(seen, false, size, align, total));
                    },
                    HeadStep::Move { from, size, align, .. } => {
                        lemma_placement(from as int, size as int, align as int, total as int);
                        assert(take.claim == outcome(from, true, size, align, total));
                    },
                }
                lemma_one_more_follows(before, heads[0], total, take);
            },
            None => {},
        }
    }
}

/// However the steps of any number of threads reach the head, their takes come to what they
/// would come to one after the other, in the order in which they end: those that end follow
/// each other, and leave the head where the threads leave it. Takes that find the tape full,
/// and attempts that are lost, move nothing.
pub proof fn threads_take_as_if_in_turn(heads: Seq<usize>, steps: Seq<HeadStep>, total: usize)
    requires
        is_execution(heads, steps, total),
    ensures
        ({
            let takes = ended(steps, total, steps.len() as int);
            &&& follow_each_other(takes, heads[0], total)
            &&& is_history(heads_of(takes, heads[0]), asked_of(takes), total as int)
            &&& heads_of(takes, heads[0]).last() == heads.last()
        }),
        forall|t: int|
            0 <= t < steps.len() && !(#[trigger] steps[t]).takes() ==> heads[t + 1] == heads[t],
{
    lemma_ended_follow(heads, steps, total, steps.len() as int);
    shared_takes_are_a_history(ended(steps, total, steps.len() as int), heads[0], total);
}

/// The head moves forward only, whichever threads move it, and stays on the tape.
proof fn lemma_threads_move_forward(
    heads: Seq<usize>,
    steps: Seq<HeadStep>,
    total: usize,
    i: int,
    j: int,
)
    requires
        is_execution(heads, steps, total),
        0 <= i <= j < heads.len(),
    ensures
        heads[i] <= heads[j] <= total,
    decreases j,
{
    if j > 0 {
        if i < j {
            lemma_threads_move_forward(heads, steps, total, i, j - 1);
        } else {
            lemma_threads_move_forward(heads, steps, total, j - 1, j - 1);
        }
        match steps[j - 1] {
            HeadStep::Look { .. } => {},
            HeadStep::Move { from, size, align, .. } => {
                lemma_placement(from as int, size as int, align as int, total as int);
            },
        }
    }
}

/// Whatever threads take bytes, no byte goes to two of them: of two moves that succeed, the
/// later takes bytes behind those of the earlier, all of them on the tape and aligned as asked.
pub proof fn threads_never_share_a_byte(
    heads: Seq<usize>,
    steps: Seq<HeadStep>,
    total: usize,
    i: int,
    j: int,
)
    requires
        is_execution(heads, steps, total),
        0 <= i < j < steps.len(),
        steps[i].takes(),
        steps[j].takes(),
    ensures
        ({
            let (first, first_end) = steps[i].place(total)->0;
            let (second, second_end) = steps[j].place(total)->0;
            &&& 0 <= first < first_end <= second < second_end <= total
            &&& first % steps[i].align() == 0
            &&& second % steps[j].align() == 0
        }),
{
    lemma_threads_move_forward(heads, steps, total, i + 1, j);
    match (steps[i], steps[j]) {
        (
            HeadStep::Move { from: f, size: s, align: a, .. },
            HeadStep::Move { from, size, align, .. },
        ) => {
            lemma_placement(f as int, s as int, a as int, total as int);
            lemma_placement(from as int, size as int, align as int, total as int);
        },
        _ => {},
    }
}

/// What the head comes to: the end of the highest bytes that were taken, or where it was at
/// the start if none were.
pub proof fn threads_leave_the_head_behind_the_last(
    heads: Seq<usize>,
    steps: Seq<HeadStep>,
    total: usize,
)
    requires
        is_execution(heads, steps, total),
    ensures
        forall|t: int|
            0 <= t < steps.len() && (#[trigger] steps[t]).takes() ==> (steps[t].place(total)->0).1
                <= heads.last(),
        heads.last() == heads[0] || exists|t: int|
            0 <= t < steps.len() && (#[trigger] steps[t]).takes() && (steps[t].place(total)->0).1
                == heads.last(),
        (forall|t: int| 0 <= t < steps.len() ==> !(#[trigger] steps[t]).takes()) ==> heads.last()
            == heads[0],
{
    assert forall|t: int| 0 <= t < steps.len() && (#[trigger] steps[t]).takes() implies (
    steps[t].place(total)->0).1 <= heads.last() by {
        lemma_threads_move_forward(heads, steps, total, t + 1, heads.len() - 1);
    }
    lemma_last_move(heads, steps, total, steps.len() as int);
}

/// The head is where the last of the first `n` steps that moved it left it.
proof fn lemma_last_move(heads: Seq<usize>, steps: Seq<HeadStep>, total: usize, n: int)
    requires
        is_execution(heads, steps, total),
        0 <= n <= steps.len(),
    ensures
        heads[n] == heads[0] && (forall|t: int| 0 <= t < n ==> !(#[trigger] steps[t]).takes())
            || exists|t: int|
            0 <= t < n && (#[trigger] steps[t]).takes() && (steps[t].place(total)->0).1
                == heads[n],
    decreases n,
{
    if n > 0 {
        lemma_last_move(heads, steps, total, n - 1);
        if steps[n - 1].takes() {
            assert((steps[n - 1].place(total)->0).1 == heads[n]);
        } else {
            assert(heads[n] == heads[n - 1]);
        }
    }
}

} // verus!
