//! What the operations come to, in plain terms: addresses, sizes, bytes, digits and counts.

use std::sync::atomic::{AtomicUsize, Ordering};
use vstd::arithmetic::div_mod::*;
use vstd::arithmetic::power2::*;
use vstd::prelude::*;

verus! {

// Blocks.
/// The surface that is asked for holds the bytes that were asked for, and no property says
/// otherwise: wherever a width, a row, or an allocation is given it is `size`, and there is one
/// row of one-byte elements.
pub proof fn surface_holds_what_was_asked(size: usize)
    requires
        size <= i64::MAX,
    ensures
        ({
            let list = crate::block::property_list(size);
            &&& list.contains(("IOSurfaceWidth"@, size as i64))
            &&& list.contains(("IOSurfaceHeight"@, 1i64))
            &&& list.contains(("IOSurfaceBytesPerElement"@, 1i64))
            &&& list.contains(("IOSurfaceBytesPerRow"@, size as i64))
            &&& list.contains(("IOSurfaceAllocSize"@, size as i64))
            &&& size as i64 == size
            &&& forall|i: int|
                0 <= i < list.len() ==> {
                    &&& (#[trigger] list[i]).0 == "IOSurfaceAllocSize"@ ==> list[i].1 == size
                    &&& list[i].0 == "IOSurfaceWidth"@ ==> list[i].1 == size
                    &&& list[i].0 == "IOSurfaceBytesPerRow"@ ==> list[i].1 == size
                    &&& list[i].0 == "IOSurfaceHeight"@ ==> list[i].1 == 1
                    &&& list[i].0 == "IOSurfaceBytesPerElement"@ ==> list[i].1 == 1
                    &&& list[i].0 == "IOSurfacePixelFormat"@ ==> list[i].1 == 0
                }
        }),
{
    let list = crate::block::property_list(size);
    reveal_strlit("IOSurfaceWidth");
    reveal_strlit("IOSurfaceHeight");
    reveal_strlit("IOSurfaceBytesPerElement");
    reveal_strlit("IOSurfaceBytesPerRow");
    reveal_strlit("IOSurfaceAllocSize");
    reveal_strlit("IOSurfacePixelFormat");
    assert("IOSurfaceWidth"@.len() == 14);
    assert("IOSurfaceHeight"@.len() == 15);
    assert("IOSurfaceBytesPerElement"@.len() == 24);
    assert("IOSurfaceBytesPerRow"@.len() == 20);
    assert("IOSurfaceAllocSize"@.len() == 18);
    assert("IOSurfacePixelFormat"@.len() == 20);
    assert("IOSurfaceBytesPerRow"@[9] != "IOSurfacePixelFormat"@[9]);
    assert(list[0] == ("IOSurfaceWidth"@, size as i64));
    assert(list[1] == ("IOSurfaceHeight"@, 1i64));
    assert(list[2] == ("IOSurfaceBytesPerElement"@, 1i64));
    assert(list[3] == ("IOSurfaceBytesPerRow"@, size as i64));
    assert(list[4] == ("IOSurfaceAllocSize"@, size as i64));
    assert(list[5] == ("IOSurfacePixelFormat"@, 0i64));
}

/// A whole run of an opening, call by call: the surface is created with the size that was asked
/// for, then locked, located, measured and named; the block is what the system answered; and
/// each failure is undone and told apart.
pub proof fn opening_call_by_call(
    states: Seq<crate::block::Opening>,
    size: usize,
    answers: crate::block::Answers,
)
    requires
        size > 0,
        crate::block::is_run(states, crate::block::Opening::Creating { size }, answers),
    ensures
        ({
            let n = states.len();
            let handle = answers.handle;
            &&& states[0].asks() == Some(crate::block::Request::Create { size })
            &&& if handle == 0 {
                &&& n == 2
                &&& states.last() == crate::block::Opening::Failed(
                    crate::error::MemError::BlockCreateFailed,
                )
            } else if answers.status != 0 {
                &&& n == 4
                &&& states[1].asks() == Some(crate::block::Request::Lock { handle })
                &&& states[2].asks() == Some(crate::block::Request::Release { handle })
                &&& states.last() == crate::block::Opening::Failed(
                    crate::error::MemError::BlockLockFailed(answers.status),
                )
            } else if answers.address == 0 {
                &&& n == 6
                &&& states[1].asks() == Some(crate::block::Request::Lock { handle })
                &&& states[2].asks() == Some(crate::block::Request::BaseAddress { handle })
                &&& states[3].asks() == Some(crate::block::Request::Unlock { handle })
                &&& states[4].asks() == Some(crate::block::Request::Release { handle })
                &&& states.last() == crate::block::Opening::Failed(
                    crate::error::MemError::BlockCreateFailed,
                )
            } else {
                &&& n == 6
                &&& states[1].asks() == Some(crate::block::Request::Lock { handle })
                &&& states[2].asks() == Some(crate::block::Request::BaseAddress { handle })
                &&& states[3].asks() == Some(crate::block::Request::AllocSize { handle })
                &&& states[4].asks() == Some(crate::block::Request::Id { handle })
                &&& states.last() matches crate::block::Opening::Opened(block)
                &&& block@.handle == handle
                &&& block@.address == answers.address
                &&& block@.size == answers.size
                &&& block@.id == answers.id
            }
        }),
{
    crate::block::opening_outcome(states, size, answers);
    let asked = answers.asked(size);
    assert(states[0].asks() == Some(asked[0]));
    if states.len() > 2 {
        assert(states[1].asks() == Some(asked[1]));
        assert(states[2].asks() == Some(asked[2]));
    }
    if states.len() > 4 {
        assert(states[3].asks() == Some(asked[3]));
        assert(states[4].asks() == Some(asked[4]));
    }
}

/// A block is closed by two calls on its own surface: the lock comes off, then the surface is
/// given up.
pub proof fn closing_unlocks_then_releases(handle: usize)
    ensures
        crate::block::closing(handle).len() == 2,
        crate::block::closing(handle)[0] == (crate::block::Request::Unlock { handle }),
        crate::block::closing(handle)[1] == (crate::block::Request::Release { handle }),
{
}

// Tapes.
/// A take succeeds whenever the bytes fit: if they fit at some multiple `m` of the alignment
/// that is not before the head, they are taken, and at the first such multiple. A take never
/// reaches off the tape, never moves the head back, and fails without a trace.
pub proof fn take_is_at_the_first_fit(
    tape: crate::tape::TapeView,
    size: int,
    align: int,
    m: int,
)
    requires
        tape.wf(),
        0 <= size,
    ensures
        match tape.taken(size, align) {
            Some(address) => {
                let offset = address - tape.block.address;
                &&& size > 0
                &&& is_pow2(align)
                &&& tape.used <= offset
                &&& offset % align == 0
                &&& offset + size <= tape.block.size
                &&& tape.used <= m && m % align == 0 ==> offset <= m
                &&& tape.after_take(size, align).block == tape.block
                &&& tape.after_take(size, align).used == offset + size
            },
            None => {
                &&& tape.after_take(size, align) == tape
                &&& !(size > 0 && is_pow2(align) && tape.used <= m && m % align == 0 && m + size
                    <= tape.block.size)
            },
        },
{
    reveal(is_pow2);
    if is_pow2(align) {
        crate::align::round_up_is_least_multiple(tape.used, align, m);
    }
}

/// Where bytes are placed, on any head: at the first multiple of the alignment behind it, if
/// they fit there, and nowhere if they fit nowhere.
pub proof fn place_is_the_first_fit(head: int, size: int, align: int, total: int, m: int)
    requires
        0 <= head,
        0 <= size,
    ensures
        match crate::tape::placement(head, size, align, total) {
            Some((offset, next)) => {
                &&& size > 0
                &&& is_pow2(align)
                &&& head <= offset
                &&& offset % align == 0
                &&& next == offset + size
                &&& next <= total
                &&& head <= m && m % align == 0 ==> offset <= m
            },
            None => !(size > 0 && is_pow2(align) && head <= m && m % align == 0 && m + size
                <= total),
        },
{
    reveal(is_pow2);
    if is_pow2(align) {
        crate::align::round_up_is_least_multiple(head, align, m);
    }
}

/// An attempt on a shared head that finds a fit takes it if the head moved and loses if it did
/// not, and one that finds none is full, whether the head moved or not.
pub proof fn attempt_goes_by_the_fit(
    seen: usize,
    moved: bool,
    size: usize,
    align: usize,
    total: usize,
    m: int,
)
    ensures
        match crate::tape::outcome(seen, moved, size, align, total) {
            crate::tape::Claim::Taken(place) => {
                &&& moved
                &&& size > 0
                &&& is_pow2(align as int)
                &&& seen <= place.offset
                &&& place.offset as int % align as int == 0
                &&& place.next == place.offset + size
                &&& place.next <= total
                &&& seen <= m && m % align as int == 0 ==> place.offset <= m
            },
            crate::tape::Claim::Lost => !moved && size > 0 && is_pow2(align as int) && exists|
                fit: int,
            | #[trigger] fits(seen as int, size as int, align as int, total as int, fit),
            crate::tape::Claim::Full => !fits(
                seen as int,
                size as int,
                align as int,
                total as int,
                m,
            ),
        },
{
    place_is_the_first_fit(seen as int, size as int, align as int, total as int, m);
    match crate::tape::placement(seen as int, size as int, align as int, total as int) {
        Some((offset, _)) => {
            assert(fits(seen as int, size as int, align as int, total as int, offset));
        },
        None => {},
    }
}

/// Whether `size` bytes fit at `m`: a multiple of the alignment, a power of two, that is not
/// before the head.
pub open spec fn fits(head: int, size: int, align: int, total: int, m: int) -> bool {
    size > 0 && is_pow2(align) && head <= m && m % align == 0 && m + size <= total
}

/// Bytes are taken from a shared head only if the head itself answered that it moved, from
/// where it was seen to the end of the bytes.
pub proof fn taken_means_that_the_head_moved(
    made: crate::tape::Attempt,
    head: AtomicUsize,
    seen: usize,
    size: usize,
    align: usize,
    total: usize,
    place: crate::tape::Place,
)
    requires
        made.is_made(head, seen, size, align, total),
        made.claim == crate::tape::Claim::Taken(place),
    ensures
        exists|held: usize| #[trigger]
            call_ensures(
                AtomicUsize::compare_exchange_weak,
                (&head, seen, place.next, Ordering::Relaxed, Ordering::Relaxed),
                Ok::<usize, usize>(held),
            ),
        place.next == place.offset + size,
        seen <= place.offset,
        place.next <= total,
{
    attempt_goes_by_the_fit(seen, true, size, align, total, 0);
    match made.exchange {
        Some(exchange) => {
            crate::head::success_is_what_the_head_answered(exchange);
        },
        None => {},
    }
}

/// With no other thread between them, the look that follows a take sees the end of what was
/// taken, so that the next take starts behind it.
pub proof fn next_look_sees_the_end(
    heads: Seq<usize>,
    steps: Seq<crate::tape::HeadStep>,
    total: usize,
    t: int,
    from: usize,
    size: usize,
    align: usize,
    seen: usize,
    next_size: usize,
    next_align: usize,
)
    requires
        crate::tape::is_execution(heads, steps, total),
        0 <= t < steps.len() - 1,
        steps[t] == (crate::tape::HeadStep::Move { from, size, align, moved: true }),
        steps[t + 1] == (crate::tape::HeadStep::Look {
            seen,
            size: next_size,
            align: next_align,
        }),
    ensures
        heads[t] == from,
        seen >= from + size,
        match crate::tape::outcome(from, true, size, align, total) {
            crate::tape::Claim::Taken(first) => {
                &&& seen == first.next
                &&& match crate::tape::outcome(seen, true, next_size, next_align, total) {
                    crate::tape::Claim::Taken(second) => first.next <= second.offset,
                    _ => true,
                }
            },
            _ => false,
        },
{
    place_is_the_first_fit(from as int, size as int, align as int, total as int, 0);
    attempt_goes_by_the_fit(from, true, size, align, total, 0);
    attempt_goes_by_the_fit(seen, true, next_size, next_align, total, 0);
}

/// What a tape is made of: it starts empty, it is as long as its block, what is not used is
/// free, and clearing it sets the head back and nothing else.
pub proof fn tape_in_numbers(tape: crate::tape::TapeView, block: crate::block::BlockView)
    ensures
        crate::tape::TapeView::fresh(block).block == block,
        crate::tape::TapeView::fresh(block).used == 0,
        tape.total() == tape.block.size,
        tape.free() == tape.block.size - tape.used,
        tape.cleared().block == tape.block,
        tape.cleared().used == 0,
{
}

/// A tape owns its bytes and nothing else: the addresses from its first byte up to, and without,
/// the one `size` bytes on.
pub proof fn owned_addresses_are_those_of_the_bytes(tape: crate::tape::TapeView, i: int)
    ensures
        tape.owns(tape.block.address + i) <==> 0 <= i < tape.block.size,
{
}

/// Tapes whose blocks share no byte own no address in common.
pub proof fn separate_tapes_own_separate_addresses(
    a: crate::tape::TapeView,
    b: crate::tape::TapeView,
    address: int,
)
    requires
        a.block.address + a.block.size <= b.block.address || b.block.address + b.block.size
            <= a.block.address,
    ensures
        !(a.owns(address) && b.owns(address)),
{
}

/// Warming writes a zero to the first of every 16384 bytes of the tape, and leaves every other
/// byte of memory as it was.
pub proof fn warming_byte_by_byte(
    tape: crate::tape::TapeView,
    memory: Map<int, u8>,
    i: int,
)
    requires
        tape.wf(),
    ensures
        ({
            let after = crate::tape::written(memory, tape.page_writes());
            let address = tape.block.address + i;
            if 0 <= i < tape.block.size && i % 16384 == 0 {
                after.contains_key(address) && after[address] == 0
            } else {
                &&& after.contains_key(address) == memory.contains_key(address)
                &&& after[address] == memory[address]
            }
        }),
{
    crate::tape::warming_zeroes_page_starts(tape, memory, tape.block.address + i);
}

// Grids.
/// Cells lie side by side in the order of their numbers, from the first byte of the block on.
pub proof fn cells_lie_side_by_side(grid: crate::grid::GridView, cell_size: int, id: int)
    ensures
        grid.cell_address(cell_size, 0) == grid.tape.block.address,
        grid.cell_address(cell_size, id + 1) == grid.cell_address(cell_size, id) + cell_size,
{
    assert((id + 1) * cell_size == id * cell_size + cell_size) by (nonlinear_arith);
    assert(0 * cell_size == 0) by (nonlinear_arith);
}

/// Free cells are taken in the order in which they became free: a take removes the one at the
/// front, a give adds one at the back, and neither touches the others or the tape.
pub proof fn free_cells_queue_up(grid: crate::grid::GridView, id: usize, k: int)
    ensures
        ({
            let given = grid.after_give(id);
            &&& given.tape == grid.tape
            &&& given.free.len() == grid.free.len() + 1
            &&& given.free[grid.free.len() as int] == id
            &&& 0 <= k < grid.free.len() ==> given.free[k] == grid.free[k]
        }),
        ({
            let taken = grid.after_take();
            &&& taken.tape == grid.tape
            &&& grid.free.len() == 0 ==> taken.free.len() == 0
            &&& grid.free.len() > 0 ==> taken.free.len() == grid.free.len() - 1
            &&& 0 <= k < grid.free.len() - 1 ==> taken.free[k] == grid.free[k + 1]
        }),
{
}

/// A cell is in use exactly if it is a cell of the grid and none of the free ones.
pub proof fn lent_means_not_free(grid: crate::grid::GridView, cells: int, id: usize)
    ensures
        grid.lent(cells, id as int) <==> id < cells && forall|k: int|
            0 <= k < grid.free.len() ==> #[trigger] grid.free[k] != id,
        id as int >= cells ==> !grid.lent(cells, id as int),
{
    if id < cells && !grid.lent(cells, id as int) {
        let k = choose|k: int| 0 <= k < grid.free.len() && grid.free[k] == id;
        assert(grid.free[k] == id);
    }
    if grid.lent(cells, id as int) {
        assert forall|k: int| 0 <= k < grid.free.len() implies #[trigger] grid.free[k] != id by {
            assert(grid.free.contains(grid.free[k]));
        }
    }
}

/// A fresh grid uses the bytes of all its cells, or, on a block that is too short for them, of
/// as many whole cells as the block holds.
pub proof fn filled_with_whole_cells(total: int, cell_size: int, cells: int)
    requires
        0 <= total,
        0 < cell_size,
        0 <= cells,
    ensures
        ({
            let used = crate::grid::filled(total, cell_size, cells);
            &&& used % cell_size == 0
            &&& 0 <= used <= total
            &&& used <= cell_size * cells
            &&& used == cell_size * cells || total - used < cell_size
        }),
{
    let fitting = total / cell_size;
    let k = if cells <= fitting {
        cells
    } else {
        fitting
    };
    lemma_fundamental_div_mod(total, cell_size);
    lemma_mod_bound(total, cell_size);
    lemma_div_pos_is_pos(total, cell_size);
    lemma_mod_multiples_basic(k, cell_size);
    assert(cell_size * k == k * cell_size) by (nonlinear_arith);
    assert(0 <= cell_size * k <= cell_size * fitting) by (nonlinear_arith)
        requires
            0 < cell_size,
            0 <= k <= fitting,
    ;
    assert(cell_size * k <= cell_size * cells) by (nonlinear_arith)
        requires
            0 < cell_size,
            k <= cells,
    ;
}

/// A block has room for a grid exactly if it holds the bytes of all cells.
pub proof fn room_for_all_cells(grid: crate::grid::GridView, cell_size: int, cells: int)
    ensures
        grid.fits(cell_size, cells) <==> cell_size * cells <= grid.tape.block.size,
{
}

// Layouts.
/// A whole run of a setup, tape by tape: weights, scratch and history are opened in this order
/// with the sizes given for them, and the layout that is built has each tape over the block that
/// was opened for it, empty, and so at least as long as asked if the block is. A block that
/// cannot be opened ends the setup with its error, and those opened before it are closed.
pub proof fn each_tape_has_its_own_block(
    states: Seq<crate::layout::LayoutSetup>,
    weights_size: usize,
    scratch_size: usize,
    history_size: usize,
    openings: crate::layout::Openings,
)
    requires
        openings.wf(),
        crate::layout::is_setup_run(
            states,
            crate::layout::LayoutSetup::OpenWeights { weights_size, scratch_size, history_size },
            openings,
        ),
    ensures
        states[0].step() == Some(crate::layout::SetupStep::Open(weights_size)),
        match openings.weights {
            Err(error) => states.len() == 2 && states.last()
                == crate::layout::LayoutSetup::Failed(error),
            Ok(weights) => {
                &&& states[1].step() matches Some(crate::layout::SetupStep::Warm(_))
                &&& states[2].step() == Some(crate::layout::SetupStep::Open(scratch_size))
                &&& match openings.scratch {
                    Err(error) => {
                        &&& states.len() == 5
                        &&& states[3].step() == Some(crate::layout::SetupStep::Close(weights@))
                        &&& states.last() == crate::layout::LayoutSetup::Failed(error)
                    },
                    Ok(scratch) => {
                        &&& states[3].step() == Some(crate::layout::SetupStep::Open(history_size))
                        &&& match openings.history {
                            Err(error) => {
                                &&& states.len() == 7
                                &&& states[4].step() == Some(
                                    crate::layout::SetupStep::Close(scratch@),
                                )
                                &&& states[5].step() == Some(
                                    crate::layout::SetupStep::Close(weights@),
                                )
                                &&& states.last() == crate::layout::LayoutSetup::Failed(error)
                            },
                            Ok(history) => {
                                &&& states.len() == 5
                                &&& states.last() matches crate::layout::LayoutSetup::Built(layout)
                                &&& layout@.weights.block == weights@
                                &&& layout@.scratch.block == scratch@
                                &&& layout@.history.block == history@
                                &&& layout@.weights.used == 0
                                &&& layout@.scratch.used == 0
                                &&& layout@.history.used == 0
                                &&& weights@.size >= weights_size ==> layout@.weights.total()
                                    >= weights_size
                                &&& scratch@.size >= scratch_size ==> layout@.scratch.total()
                                    >= scratch_size
                                &&& history@.size >= history_size ==> layout@.history.total()
                                    >= history_size
                            },
                        }
                    },
                }
            },
        },
{
    crate::layout::setup_outcome(states, weights_size, scratch_size, history_size, openings);
    let steps = openings.steps(weights_size, scratch_size, history_size);
    assert(states[0].step() == Some(steps[0]));
    if states.len() > 2 {
        assert(states[1].step() == Some(steps[1]));
        assert(states[2].step() == Some(steps[2]));
        assert(states[3].step() == Some(steps[3]));
    }
    if states.len() > 5 {
        assert(states[4].step() == Some(steps[4]));
        assert(states[5].step() == Some(steps[5]));
    }
}

/// The weights are warmed as every tape is: by the writes that back its pages.
pub proof fn weights_are_warmed(
    states: Seq<crate::layout::LayoutSetup>,
    weights_size: usize,
    scratch_size: usize,
    history_size: usize,
    openings: crate::layout::Openings,
    weights: crate::block::Block,
    i: int,
)
    requires
        openings.wf(),
        openings.weights == Ok::<crate::block::Block, crate::error::MemError>(weights),
        crate::layout::is_setup_run(
            states,
            crate::layout::LayoutSetup::OpenWeights { weights_size, scratch_size, history_size },
            openings,
        ),
        0 <= i,
        i * 16384 < weights@.size,
    ensures
        match states[1].step() {
            Some(crate::layout::SetupStep::Warm(writes)) => {
                &&& i < writes.len()
                &&& writes[i].address == weights@.address + i * 16384
                &&& writes[i].byte == 0
            },
            _ => false,
        },
{
    crate::layout::setup_outcome(states, weights_size, scratch_size, history_size, openings);
    let steps = openings.steps(weights_size, scratch_size, history_size);
    assert(states[1].step() == Some(steps[1]));
    crate::pages::every_byte_is_on_a_page(weights@.size as int, 16384, i * 16384);
    lemma_mod_multiples_basic(i, 16384);
    assert((i * 16384) / 16384 == i);
}

/// The end of a token empties scratch alone; the end of a conversation empties scratch and
/// history alone. No tape ever changes its block.
pub proof fn clearing_tape_by_tape(layout: crate::layout::LayoutView)
    ensures
        layout.after_pass().weights == layout.weights,
        layout.after_pass().history == layout.history,
        layout.after_pass().scratch.block == layout.scratch.block,
        layout.after_pass().scratch.used == 0,
        layout.after_talk().weights == layout.weights,
        layout.after_talk().scratch.block == layout.scratch.block,
        layout.after_talk().scratch.used == 0,
        layout.after_talk().history.block == layout.history.block,
        layout.after_talk().history.used == 0,
{
}

/// The statistics are the heads and the lengths of the tapes, and the total is their sum.
pub proof fn statistics_tape_by_tape(layout: crate::layout::LayoutView)
    requires
        layout.wf(),
    ensures
        layout.stat().weights_used == layout.weights.used,
        layout.stat().weights_total == layout.weights.block.size,
        layout.stat().scratch_used == layout.scratch.used,
        layout.stat().scratch_total == layout.scratch.block.size,
        layout.stat().history_used == layout.history.used,
        layout.stat().history_total == layout.history.block.size,
        layout.total() == layout.weights.block.size + layout.scratch.block.size
            + layout.history.block.size,
{
}

/// Megabytes are counted whole: the numeral stands for the largest number of them that is not
/// more than the bytes.
pub proof fn megabytes_are_whole(bytes: usize)
    ensures
        ({
            let shown = crate::text::numeral_value(crate::layout::megabytes(bytes), 10);
            shown * 1048576 <= bytes < (shown + 1) * 1048576
        }),
{
    crate::text::numeral_reads_back(bytes as nat / 0x100000, 10);
}

/// The line of the statistics, piece by piece.
pub proof fn statistics_line(stat: crate::layout::Stat)
    ensures
        stat.text() == "weights: "@ + (crate::text::numeral(
            stat.weights_used as nat / 1048576,
            10,
        ) + "/"@ + crate::text::numeral(stat.weights_total as nat / 1048576, 10) + " MB"@)
            + " | scratch: "@ + (crate::text::numeral(stat.scratch_used as nat / 1048576, 10)
            + "/"@ + crate::text::numeral(stat.scratch_total as nat / 1048576, 10) + " MB"@)
            + " | history: "@ + (crate::text::numeral(stat.history_used as nat / 1048576, 10)
            + "/"@ + crate::text::numeral(stat.history_total as nat / 1048576, 10) + " MB"@),
{
}

} // verus!
