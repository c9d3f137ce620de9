//! A grid of cells of one size over a tape. A cell is taken, used and given back.

use crate::block::{Block, Span};
use crate::error::MemError;
use crate::queue::{queue_len, queue_new, queue_pop, queue_push};
use crate::tape::Tape;
use crossbeam_queue::SegQueue;
use vstd::arithmetic::power2::*;
use vstd::prelude::*;

verus! {

/// The alignment of every cell.
pub const CELL_ALIGN: usize = 64;

/// What a grid is: the tape that its cells lie on, and the numbers of the free cells in the
/// order in which they will be taken.
pub struct GridView {
    pub tape: crate::tape::TapeView,
    pub free: Seq<usize>,
}

impl GridView {
    /// Every free cell is a cell of the grid, and no cell is free twice.
    pub open spec fn wf(self, cells: int) -> bool {
        &&& self.tape.wf()
        &&& 0 <= cells <= usize::MAX
        &&& forall|i: int| 0 <= i < self.free.len() ==> (#[trigger] self.free[i]) < cells
        &&& self.free.no_duplicates()
    }

    /// Whether the tape is long enough for all cells.
    pub open spec fn fits(self, cell_size: int, cells: int) -> bool {
        cell_size * cells <= self.tape.total()
    }

    /// Whether the cell `id` is in use.
    pub open spec fn lent(self, cells: int, id: int) -> bool {
        0 <= id < cells && !self.free.contains(id as usize)
    }

    /// The cells in use.
    pub open spec fn lent_cells(self, cells: int) -> Set<int> {
        Set::new(|id: int| self.lent(cells, id))
    }

    /// Where the cell `id` starts.
    pub open spec fn cell_address(self, cell_size: int, id: int) -> int {
        self.tape.block.address + id * cell_size
    }

    /// The grid after the cell at the head of the queue was taken.
    pub open spec fn after_take(self) -> GridView {
        if self.free.len() == 0 {
            self
        } else {
            GridView { tape: self.tape, free: self.free.drop_first() }
        }
    }

    /// The grid after the cell `id` was given back.
    pub open spec fn after_give(self, id: usize) -> GridView {
        GridView { tape: self.tape, free: self.free.push(id) }
    }
}

/// How far the head of a tape of `total` bytes is once `cells` cells of `cell_size` bytes were
/// asked for in turn: the cells that fit are taken.
pub open spec fn filled(total: int, cell_size: int, cells: int) -> int {
    let fitting = total / cell_size;
    cell_size * (if cells <= fitting {
        cells
    } else {
        fitting
    })
}

/// A grid of `CELLS` cells of `CELL_SIZE` bytes.
pub struct Grid<const CELL_SIZE: usize, const CELLS: usize> {
    tape: Tape,
    free: SegQueue<usize>,
}

/// One cell of a grid.
#[derive(Debug, PartialEq, Eq)]
pub struct Cell {
    address: usize,
    index: usize,
}

/// What a cell is: where it starts, and its number.
pub struct CellView {
    pub address: usize,
    pub id: usize,
}

impl View for Cell {
    type V = CellView;

    closed spec fn view(&self) -> CellView {
        CellView { address: self.address, id: self.index }
    }
}

impl<const CELL_SIZE: usize, const CELLS: usize> View for Grid<CELL_SIZE, CELLS> {
    type V = GridView;

    closed spec fn view(&self) -> GridView {
        GridView { tape: self.tape@, free: crate::queue::queued(self.free) }
    }
}

impl<const CELL_SIZE: usize, const CELLS: usize> Grid<CELL_SIZE, CELLS> {
    pub closed spec fn tape_wf(&self) -> bool {
        self.tape.wf()
    }

    pub open spec fn wf(&self) -> bool {
        &&& self@.wf(CELLS as int)
        &&& self.tape_wf()
    }

    /// The sizes that a grid can have: cells of a multiple of 64 bytes, at least one of them,
    /// and together no more bytes than can be counted.
    pub open spec fn sizes_valid() -> bool {
        &&& CELL_SIZE > 0
        &&& CELL_SIZE as int % CELL_ALIGN as int == 0
        &&& CELLS > 0
        &&& CELL_SIZE * CELLS <= usize::MAX
    }

    /// The size of the block that the grid needs.
    pub fn bytes() -> (bytes: usize)
        requires
            Self::sizes_valid(),
        ensures
            bytes == CELL_SIZE * CELLS,
    {
        CELL_SIZE * CELLS
    }

    /// Lays the grid over the block that was opened for it. Every cell is free, and they
    /// will be taken from the first to the last. If no block could be opened, there is no
    /// grid, for the same reason.
    pub fn new(opened: Result<Block, MemError>) -> (grid: Result<Self, MemError>)
        requires
            Self::sizes_valid(),
            opened matches Ok(block) ==> block.wf(),
        ensures
            match opened {
                Ok(block) => {
                    &&& grid matches Ok(g)
                    &&& g.wf()
                    &&& g@.tape.block == block@
                    &&& g@.tape.used == filled(block@.size as int, CELL_SIZE as int, CELLS as int)
                    &&& g@.free == Seq::new(CELLS as nat, |i: int| i as usize)
                },
                Err(error) => grid matches Err(e) && e == error,
            },
    {
        let mut tape = match Tape::start(opened) {
            Ok(tape) => tape,
            Err(error) => return Err(error),
        };
        let ghost block = tape@.block;
        let ghost total = tape@.total();
        let mut free = queue_new();
        let mut i: usize = 0;
        proof {
            assert(CELL_SIZE * 0 == 0) by (nonlinear_arith);
            assert(total / (CELL_SIZE as int) >= 0) by {
                vstd::arithmetic::div_mod::lemma_div_pos_is_pos(total, CELL_SIZE as int);
            }
        }
        while i < CELLS
            invariant
                Self::sizes_valid(),
                i <= CELLS,
                tape.wf(),
                tape@.block == block,
                tape@.total() == total,
                total / (CELL_SIZE as int) >= 0,
                tape@.used == filled(total, CELL_SIZE as int, i as int),
                crate::queue::queued(free) == Seq::new(i as nat, |j: int| j as usize),
            decreases CELLS - i,
        {
            proof {
                lemma_fill_step(tape@, CELL_SIZE as int, i as int);
            }
            let _ = tape.take(CELL_SIZE, CELL_ALIGN);
            queue_push(&mut free, i);
            i += 1;
            assert(crate::queue::queued(free) =~= Seq::new(i as nat, |j: int| j as usize));
        }
        Ok(Grid { tape, free })
    }

    /// Takes the cell that has been free for longest. `None` if all cells are in use.
    pub fn take(&mut self) -> (cell: Option<Cell>)
        requires
            old(self).wf(),
            old(self)@.fits(CELL_SIZE as int, CELLS as int),
        ensures
            final(self).wf(),
            final(self)@ == old(self)@.after_take(),
            match cell {
                Some(c) => {
                    &&& old(self)@.free.len() > 0
                    &&& c@.id == old(self)@.free[0]
                    &&& c@.address == old(self)@.cell_address(CELL_SIZE as int, c@.id as int)
                },
                None => old(self)@.free.len() == 0,
            },
    {
        proof {
            lemma_take_keeps_wf(self@, CELLS as int);
        }
        match queue_pop(&mut self.free) {
            Some(index) => {
                proof {
                    lemma_cell_inside(CELL_SIZE as int, CELLS as int, index as int);
                    assert(CELL_SIZE * CELLS >= index * CELL_SIZE);
                }
                Some(Self::cell_at(self.tape.block().address(), index))
            },
            None => None,
        }
    }

    /// The cell `index` of a grid whose block starts at `base`.
    pub fn cell_at(base: usize, index: usize) -> (cell: Cell)
        requires
            base + index * CELL_SIZE <= usize::MAX,
        ensures
            cell@ == (CellView { address: (base + index * CELL_SIZE) as usize, id: index }),
    {
        proof {
            assert(0 <= index * CELL_SIZE) by (nonlinear_arith);
        }
        Cell { address: base + index * CELL_SIZE, index }
    }

    /// Gives a cell back: it will be taken after all cells that are free now. The grid stays
    /// well-formed if the cell was in use.
    pub fn give(&mut self, cell: Cell)
        ensures
            final(self)@ == old(self)@.after_give(cell@.id),
            old(self).wf() && old(self)@.lent(CELLS as int, cell@.id as int) ==> final(self).wf(),
    {
        proof {
            if self@.wf(CELLS as int) && self@.lent(CELLS as int, cell@.id as int) {
                lemma_give_keeps_wf(self@, CELLS as int, cell@.id);
            }
        }
        queue_push(&mut self.free, cell.index);
    }

    /// How many cells are free.
    pub fn free(&self) -> (free: usize)
        ensures
            free == self@.free.len(),
    {
        queue_len(&self.free)
    }

    /// How many cells there are.
    pub fn total(&self) -> (total: usize)
        ensures
            total == CELLS,
    {
        CELLS
    }

    /// The tape under the cells.
    pub fn tape(&self) -> (tape: &Tape)
        ensures
            tape@ == self@.tape,
            self.wf() ==> tape.wf(),
    {
        &self.tape
    }

    /// The tape under the cells, to take from or to clear. The cells stay where they are.
    pub fn tape_mut(&mut self) -> (tape: &mut Tape)
        ensures
            tape@ == old(self)@.tape,
            old(self).wf() ==> tape.wf(),
            final(self)@ == (GridView { tape: final(tape)@, free: old(self)@.free }),
            old(self).wf() && final(tape).wf() ==> final(self).wf(),
    {
        &mut self.tape
    }

    /// Takes the grid apart: the tape, and the queue of free cells, which threads can share.
    pub fn into_parts(self) -> (parts: (Tape, SegQueue<usize>))
        ensures
            parts.0@ == self@.tape,
            self.wf() ==> parts.0.wf(),
            crate::queue::queued(parts.1) == self@.free,
    {
        (self.tape, self.free)
    }
}

impl Cell {
    /// The address of the cell's first byte.
    pub fn address(&self) -> (address: usize)
        ensures
            address == self@.address,
    {
        self.address
    }

    /// The first `len` bytes of the cell, to be read and written. `len` must be no more than
    /// the cell's size.
    pub fn bytes(&mut self, len: usize) -> (span: Span)
        ensures
            span == (Span { start: old(self)@.address, len }),
            *final(self) == *old(self),
    {
        Span { start: self.address, len }
    }

    /// The cell's number.
    pub fn id(&self) -> (id: usize)
        ensures
            id == self@.id,
    {
        self.index
    }
}

/// One more cell is asked for while the grid is laid out.
proof fn lemma_fill_step(tape: crate::tape::TapeView, cell_size: int, i: int)
    requires
        tape.wf(),
        0 < cell_size,
        cell_size % 64 == 0,
        0 <= i,
        tape.total() / cell_size >= 0,
        tape.used == filled(tape.total(), cell_size, i),
    ensures
        tape.after_take(cell_size, 64).used == filled(tape.total(), cell_size, i + 1),
{
    let total = tape.total();
    let fitting = total / cell_size;
    let k = if i <= fitting {
        i
    } else {
        fitting
    };
    vstd::arithmetic::div_mod::lemma_fundamental_div_mod(total, cell_size);
    vstd::arithmetic::div_mod::lemma_mod_bound(total, cell_size);
    assert((cell_size * k) % 64 == 0) by {
        vstd::arithmetic::div_mod::lemma_mul_mod_noop_left(cell_size, k, 64);
    }
    assert(is_pow2(64)) by {
        reveal_with_fuel(is_pow2, 7);
    }
    crate::align::round_up_is_least_multiple(tape.used, 64, 0);
    assert(crate::align::round_up(tape.used, 64) == cell_size * k);
    assert(cell_size * (k + 1) == cell_size * k + cell_size) by (nonlinear_arith);
    if i < fitting {
        assert(cell_size * (i + 1) <= cell_size * fitting) by (nonlinear_arith)
            requires
                i + 1 <= fitting,
                0 < cell_size,
        ;
    }
}

/// A cell of the grid lies on the bytes of the grid.
proof fn lemma_cell_inside(cell_size: int, cells: int, id: int)
    by (nonlinear_arith)
    requires
        0 <= cell_size,
        0 <= id < cells,
    ensures
        0 <= id * cell_size,
        id * cell_size + cell_size <= cell_size * cells,
{
}

proof fn lemma_take_keeps_wf(grid: GridView, cells: int)
    requires
        grid.wf(cells),
    ensures
        grid.after_take().wf(cells),
{
    if grid.free.len() > 0 {
        let rest = grid.free.drop_first();
        assert forall|i: int| 0 <= i < rest.len() implies (#[trigger] rest[i]) < cells by {
            assert(rest[i] == grid.free[i + 1]);
        }
    }
}

proof fn lemma_give_keeps_wf(grid: GridView, cells: int, id: usize)
    requires
        grid.wf(cells),
        grid.lent(cells, id as int),
    ensures
        grid.after_give(id).wf(cells),
{
    let free = grid.after_give(id).free;
    assert forall|i: int, j: int|
        0 <= i < free.len() && 0 <= j < free.len() && i != j implies free[i] != free[j] by {
        if i < grid.free.len() {
            assert(grid.free.contains(grid.free[i]));
        }
        if j < grid.free.len() {
            assert(grid.free.contains(grid.free[j]));
        }
    }
}

/// A take lends out a cell that was not in use, and changes nothing for any other cell: no
/// two cells in use are ever the same.
pub proof fn take_lends_a_free_cell(grid: GridView, cells: int, other: int)
    requires
        grid.wf(cells),
        grid.free.len() > 0,
    ensures
        grid.after_take().wf(cells),
        !grid.lent(cells, grid.free[0] as int),
        grid.after_take().lent(cells, grid.free[0] as int),
        0 <= other < cells && other != grid.free[0] ==> grid.after_take().lent(cells, other)
            == grid.lent(cells, other),
{
    lemma_take_keeps_wf(grid, cells);
    let free = grid.free;
    let rest = free.drop_first();
    assert(free.contains(free[0]));
    assert(!rest.contains(free[0])) by {
        if rest.contains(free[0]) {
            let i = choose|i: int| 0 <= i < rest.len() && rest[i] == free[0];
            assert(free[i + 1] == free[0]);
        }
    }
    if 0 <= other < cells && other != free[0] {
        let id = other as usize;
        assert(rest.contains(id) == free.contains(id)) by {
            if free.contains(id) {
                let i = choose|i: int| 0 <= i < free.len() && free[i] == id;
                assert(rest[i - 1] == id);
            }
            if rest.contains(id) {
                let i = choose|i: int| 0 <= i < rest.len() && rest[i] == id;
                assert(free[i + 1] == id);
            }
        }
    }
}

/// Giving a cell back that is in use frees it, and changes nothing for any other cell.
pub proof fn give_frees_the_cell(grid: GridView, cells: int, id: usize, other: int)
    requires
        grid.wf(cells),
        grid.lent(cells, id as int),
    ensures
        grid.after_give(id).wf(cells),
        !grid.after_give(id).lent(cells, id as int),
        0 <= other < cells && other != id ==> grid.after_give(id).lent(cells, other)
            == grid.lent(cells, other),
{
    lemma_give_keeps_wf(grid, cells, id);
    let free = grid.free;
    let more = free.push(id);
    assert(more[free.len() as int] == id);
    if 0 <= other < cells && other != id {
        let o = other as usize;
        assert(more.contains(o) == free.contains(o)) by {
            if free.contains(o) {
                let i = choose|i: int| 0 <= i < free.len() && free[i] == o;
                assert(more[i] == o);
            }
            if more.contains(o) {
                let i = choose|i: int| 0 <= i < more.len() && more[i] == o;
                assert(free[i] == o);
            }
        }
    }
}

/// Every cell is either free or in use: the two counts make up the whole grid.
pub proof fn free_and_lent_make_total(grid: GridView, cells: int)
    requires
        grid.wf(cells),
    ensures
        grid.lent_cells(cells).finite(),
        grid.lent_cells(cells).len() + grid.free.len() == cells,
    decreases grid.free.len(),
{
    let free = grid.free;
    if free.len() == 0 {
        assert(grid.lent_cells(cells) =~= vstd::set_lib::set_int_range(0, cells));
        vstd::set_lib::lemma_int_range(0, cells);
    } else {
        let id = free.last();
        let fewer = GridView { tape: grid.tape, free: free.drop_last() };
        assert forall|i: int| 0 <= i < fewer.free.len() implies (#[trigger] fewer.free[i])
            < cells by {
            assert(fewer.free[i] == free[i]);
        }
        assert(fewer.free.no_duplicates());
        assert(!fewer.free.contains(id));
        assert(fewer.lent(cells, id as int));
        give_frees_the_cell(fewer, cells, id, 0);
        assert(fewer.after_give(id).free =~= free);
        free_and_lent_make_total(fewer, cells);
        assert(grid.lent_cells(cells) =~= fewer.lent_cells(cells).remove(id as int)) by {
            assert forall|o: int| #[trigger]
                grid.lent_cells(cells).contains(o) == fewer.lent_cells(cells).remove(
                    id as int,
                ).contains(o) by {
                give_frees_the_cell(fewer, cells, id, o);
            }
        }
    }
}

/// Every byte of every cell lies on the tape, and a cell is aligned where the block is.
pub proof fn cell_is_on_tape(grid: GridView, cell_size: int, cells: int, id: int, byte: int)
    requires
        grid.tape.wf(),
        grid.fits(cell_size, cells),
        0 <= id < cells,
        0 <= byte < cell_size,
    ensures
        grid.tape.owns(grid.cell_address(cell_size, id) + byte),
        cell_size % 64 == 0 && grid.tape.block.address as int % 64 == 0 ==> grid.cell_address(
            cell_size,
            id,
        ) % 64 == 0,
{
    lemma_cell_inside(cell_size, cells, id);
    vstd::arithmetic::div_mod::lemma_mul_mod_noop_right(id, cell_size, 64);
}

/// Different cells share no byte, every cell lies on the tape, and cells are aligned where
/// the block is.
pub proof fn cells_never_overlap(grid: GridView, cell_size: int, cells: int, i: int, j: int)
    requires
        grid.tape.wf(),
        grid.fits(cell_size, cells),
        0 < cell_size,
        cell_size % 64 == 0,
        0 <= i < j < cells,
    ensures
        grid.cell_address(cell_size, i) + cell_size <= grid.cell_address(cell_size, j),
        grid.tape.owns(grid.cell_address(cell_size, i)),
        grid.tape.owns(grid.cell_address(cell_size, j) + cell_size - 1),
        grid.tape.block.address as int % 64 == 0 ==> grid.cell_address(cell_size, i) % 64 == 0
            && grid.cell_address(cell_size, j) % 64 == 0,
{
    lemma_cell_inside(cell_size, cells, j);
    assert(0 <= i * cell_size && i * cell_size + cell_size <= j * cell_size) by (nonlinear_arith)
        requires
            0 <= i,
            i + 1 <= j,
            0 < cell_size,
    ;
    vstd::arithmetic::div_mod::lemma_mul_mod_noop_right(i, cell_size, 64);
    vstd::arithmetic::div_mod::lemma_mul_mod_noop_right(j, cell_size, 64);
}

/// A cell that is given back can be taken again: once the cells that were free before it
/// are taken, it is the next one.
pub proof fn given_cell_comes_back(grid: GridView, id: usize)
    ensures
        grid.after_give(id).free.len() == grid.free.len() + 1,
        grid.after_give(id).free.skip(grid.free.len() as int) == seq![id],
        grid.free.len() == 0 ==> grid.after_give(id).free[0] == id && grid.after_give(
            id,
        ).after_take() == grid,
{
    let more = grid.after_give(id);
    assert(more.free.skip(grid.free.len() as int) =~= seq![id]);
    if grid.free.len() == 0 {
        assert(more.after_take().free =~= grid.free);
    }
}

/// One call on a grid, by some thread.
pub enum GridStep {
    /// A cell is taken, if one is free.
    Take,
    /// The cell `id` is given back.
    Give { id: usize },
}

/// Whether the cell that step `s` took is still held when step `t` comes: none of the steps
/// between gave it back.
pub open spec fn is_held(grids: Seq<GridView>, steps: Seq<GridStep>, s: int, t: int) -> bool {
    &&& 0 <= s < t
    &&& steps[s] is Take
    &&& grids[s].free.len() > 0
    &&& forall|u: int|
        s < u < t ==> (#[trigger] steps[u]) != (GridStep::Give { id: grids[s].free[0] })
}

/// Whether calls of any threads, in the order in which they reach the queue of free cells, lead
/// a grid through `grids`. A cell is given back only by one who holds it.
pub open spec fn is_grid_run(grids: Seq<GridView>, steps: Seq<GridStep>, cells: int) -> bool {
    &&& grids.len() == steps.len() + 1
    &&& grids[0].wf(cells)
    &&& forall|t: int|
        0 <= t < steps.len() ==> match #[trigger] steps[t] {
            GridStep::Take => grids[t + 1] == grids[t].after_take(),
            GridStep::Give { id } => grids[t + 1] == grids[t].after_give(id) && exists|s: int|
                #[trigger] is_held(grids, steps, s, t) && grids[s].free[0] == id,
        }
}

/// All along a run the grid is well-formed, and a cell that is held is in use.
proof fn lemma_held_is_lent(grids: Seq<GridView>, steps: Seq<GridStep>, cells: int, t: int)
    requires
        is_grid_run(grids, steps, cells),
        0 <= t <= steps.len(),
    ensures
        grids[t].wf(cells),
        forall|s: int| #[trigger]
            is_held(grids, steps, s, t) ==> grids[t].lent(cells, grids[s].free[0] as int),
    decreases t,
{
    if t > 0 {
        lemma_held_is_lent(grids, steps, cells, t - 1);
        let before = grids[t - 1];
        match steps[t - 1] {
            GridStep::Take => {
                lemma_take_keeps_wf(before, cells);
                assert forall|s: int| #[trigger] is_held(grids, steps, s, t) implies grids[t].lent(
                    cells,
                    grids[s].free[0] as int,
                ) by {
                    if s < t - 1 {
                        assert(is_held(grids, steps, s, t - 1));
                    }
                    if before.free.len() > 0 {
                        take_lends_a_free_cell(before, cells, grids[s].free[0] as int);
                    }
                }
            },
            GridStep::Give { id } => {
                let holder = choose|s: int| #[trigger]
                    is_held(grids, steps, s, t - 1) && grids[s].free[0] == id;
                assert(before.lent(cells, id as int));
                lemma_give_keeps_wf(before, cells, id);
                assert forall|s: int| #[trigger] is_held(grids, steps, s, t) implies grids[t].lent(
                    cells,
                    grids[s].free[0] as int,
                ) by {
                    assert(s != t - 1);
                    assert(is_held(grids, steps, s, t - 1));
                    give_frees_the_cell(before, cells, id, grids[s].free[0] as int);
                }
            },
        }
    }
}

/// Two cells that are held at once are different cells, whichever threads took them: a cell
/// that is taken while another is held has another number and shares no byte with it, and both
/// lie on the bytes of the grid.
pub proof fn held_cells_are_distinct(
    grids: Seq<GridView>,
    steps: Seq<GridStep>,
    cell_size: int,
    cells: int,
    i: int,
    j: int,
)
    requires
        is_grid_run(grids, steps, cells),
        0 < cell_size,
        0 <= i < j < steps.len(),
        is_held(grids, steps, i, j),
        steps[j] is Take,
        grids[j].free.len() > 0,
    ensures
        ({
            let first = grids[i].free[0] as int;
            let second = grids[j].free[0] as int;
            let base = grids[0].tape.block.address;
            let a = grids[i].cell_address(cell_size, first);
            let b = grids[j].cell_address(cell_size, second);
            &&& first != second
            &&& a + cell_size <= b || b + cell_size <= a
            &&& base <= a && a + cell_size <= base + cell_size * cells
            &&& base <= b && b + cell_size <= base + cell_size * cells
        }),
{
    lemma_held_is_lent(grids, steps, cells, i);
    lemma_held_is_lent(grids, steps, cells, j);
    lemma_tape_stays(grids, steps, cells, i);
    lemma_tape_stays(grids, steps, cells, j);
    let first = grids[i].free[0] as int;
    let second = grids[j].free[0] as int;
    assert(grids[j].free.contains(grids[j].free[0]));
    lemma_cell_inside(cell_size, cells, first);
    lemma_cell_inside(cell_size, cells, second);
    assert(first < second ==> first * cell_size + cell_size <= second * cell_size)
        by (nonlinear_arith)
        requires
            0 < cell_size,
    ;
    assert(second < first ==> second * cell_size + cell_size <= first * cell_size)
        by (nonlinear_arith)
        requires
            0 < cell_size,
    ;
}

/// Taking and giving cells leaves the tape as it is.
proof fn lemma_tape_stays(grids: Seq<GridView>, steps: Seq<GridStep>, cells: int, t: int)
    requires
        is_grid_run(grids, steps, cells),
        0 <= t <= steps.len(),
    ensures
        grids[t].tape == grids[0].tape,
    decreases t,
{
    if t > 0 {
        lemma_tape_stays(grids, steps, cells, t - 1);
        match steps[t - 1] {
            GridStep::Take => {},
            GridStep::Give { .. } => {},
        }
    }
}

} // verus!
