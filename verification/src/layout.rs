//! The memory of an inference: three tapes with three lifecycles.
//!
//! Weights are loaded once and never cleared, scratch is cleared after every token, and
//! history is cleared with every conversation.

use crate::block::{Block, Request};
use crate::error::MemError;
use crate::tape::{ByteWrite, Tape};
use crate::text::decimal;
use vstd::prelude::*;
use vstd::string::*;

verus! {

/// What a layout is: the state of its three tapes.
pub struct LayoutView {
    pub weights: crate::tape::TapeView,
    pub scratch: crate::tape::TapeView,
    pub history: crate::tape::TapeView,
}

impl LayoutView {
    pub open spec fn wf(self) -> bool {
        &&& self.weights.wf()
        &&& self.scratch.wf()
        &&& self.history.wf()
    }

    /// The bytes of all tapes together.
    pub open spec fn total(self) -> int {
        self.weights.total() + self.scratch.total() + self.history.total()
    }

    /// The layout after a token: scratch is cleared.
    pub open spec fn after_pass(self) -> LayoutView {
        LayoutView { scratch: self.scratch.cleared(), ..self }
    }

    /// The layout after a conversation: history and scratch are cleared.
    pub open spec fn after_talk(self) -> LayoutView {
        LayoutView { scratch: self.scratch.cleared(), history: self.history.cleared(), ..self }
    }

    /// How much of each tape is used.
    pub open spec fn stat(self) -> Stat {
        Stat {
            weights_used: self.weights.used as usize,
            weights_total: self.weights.total() as usize,
            scratch_used: self.scratch.used as usize,
            scratch_total: self.scratch.total() as usize,
            history_used: self.history.used as usize,
            history_total: self.history.total() as usize,
        }
    }
}

/// Three tapes: weights, scratch and history.
#[derive(Debug, PartialEq, Eq)]
pub struct Layout {
    weights: Tape,
    scratch: Tape,
    history: Tape,
}

/// How much of each tape of a layout is used, in bytes.
#[derive(Debug, Clone, Copy, PartialEq, Eq, Structural)]
pub struct Stat {
    pub weights_used: usize,
    pub weights_total: usize,
    pub scratch_used: usize,
    pub scratch_total: usize,
    pub history_used: usize,
    pub history_total: usize,
}

impl View for Layout {
    type V = LayoutView;

    closed spec fn view(&self) -> LayoutView {
        LayoutView { weights: self.weights@, scratch: self.scratch@, history: self.history@ }
    }
}

impl Layout {
    pub closed spec fn tapes_wf(&self) -> bool {
        &&& self.weights.wf()
        &&& self.scratch.wf()
        &&& self.history.wf()
    }

    pub open spec fn wf(&self) -> bool {
        &&& self@.wf()
        &&& self.tapes_wf()
    }

    /// Starts to set up a layout of three tapes of these sizes.
    pub fn new(weights_size: usize, scratch_size: usize, history_size: usize) -> (setup:
        LayoutSetup)
        ensures
            setup == (LayoutSetup::OpenWeights { weights_size, scratch_size, history_size }),
            setup.wf(),
    {
        LayoutSetup::OpenWeights { weights_size, scratch_size, history_size }
    }

    /// The weights tape.
    pub fn weights(&self) -> (tape: &Tape)
        ensures
            tape@ == self@.weights,
            self.wf() ==> tape.wf(),
    {
        &self.weights
    }

    /// The scratch tape.
    pub fn scratch(&self) -> (tape: &Tape)
        ensures
            tape@ == self@.scratch,
            self.wf() ==> tape.wf(),
    {
        &self.scratch
    }

    /// The history tape.
    pub fn history(&self) -> (tape: &Tape)
        ensures
            tape@ == self@.history,
            self.wf() ==> tape.wf(),
    {
        &self.history
    }

    /// The weights tape, to take from.
    pub fn weights_mut(&mut self) -> (tape: &mut Tape)
        ensures
            tape@ == old(self)@.weights,
            old(self).wf() ==> tape.wf(),
            final(self)@ == (LayoutView { weights: final(tape)@, ..old(self)@ }),
            old(self).wf() && final(tape).wf() ==> final(self).wf(),
    {
        &mut self.weights
    }

    /// The scratch tape, to take from.
    pub fn scratch_mut(&mut self) -> (tape: &mut Tape)
        ensures
            tape@ == old(self)@.scratch,
            old(self).wf() ==> tape.wf(),
            final(self)@ == (LayoutView { scratch: final(tape)@, ..old(self)@ }),
            old(self).wf() && final(tape).wf() ==> final(self).wf(),
    {
        &mut self.scratch
    }

    /// The history tape, to take from.
    pub fn history_mut(&mut self) -> (tape: &mut Tape)
        ensures
            tape@ == old(self)@.history,
            old(self).wf() ==> tape.wf(),
            final(self)@ == (LayoutView { history: final(tape)@, ..old(self)@ }),
            old(self).wf() && final(tape).wf() ==> final(self).wf(),
    {
        &mut self.history
    }

    /// Clears scratch, and nothing else: what to do after each token.
    pub fn clear_pass(&mut self)
        requires
            old(self).wf(),
        ensures
            final(self).wf(),
            final(self)@ == old(self)@.after_pass(),
    {
        self.scratch.clear();
    }

    /// Clears history and scratch, and leaves the weights alone: what to do when a new
    /// conversation starts.
    pub fn clear_talk(&mut self)
        requires
            old(self).wf(),
        ensures
            final(self).wf(),
            final(self)@ == old(self)@.after_talk(),
    {
        self.history.clear();
        self.scratch.clear();
    }

    /// The bytes of all tapes together.
    pub fn total(&self) -> (total: usize)
        requires
            self.wf(),
            self@.total() <= usize::MAX,
        ensures
            total == self@.total(),
    {
        self.weights.total() + self.scratch.total() + self.history.total()
    }

    /// How much of each tape is used.
    pub fn stat(&self) -> (stat: Stat)
        requires
            self.wf(),
        ensures
            stat == self@.stat(),
            stat.weights_used == self@.weights.used,
            stat.weights_total == self@.weights.total(),
            stat.scratch_used == self@.scratch.used,
            stat.scratch_total == self@.scratch.total(),
            stat.history_used == self@.history.used,
            stat.history_total == self@.history.total(),
    {
        Stat {
            weights_used: self.weights.used(),
            weights_total: self.weights.total(),
            scratch_used: self.scratch.used(),
            scratch_total: self.scratch.total(),
            history_used: self.history.used(),
            history_total: self.history.total(),
        }
    }

    /// Ends the layout and hands its blocks out in the order in which they are closed.
    pub fn into_blocks(self) -> (blocks: [Block; 3])
        ensures
            blocks@[0]@ == self@.weights.block,
            blocks@[1]@ == self@.scratch.block,
            blocks@[2]@ == self@.history.block,
    {
        [self.weights.into_block(), self.scratch.into_block(), self.history.into_block()]
    }
}

/// Whole megabytes, as text.
pub open spec fn megabytes(bytes: usize) -> Seq<char> {
    crate::text::numeral(bytes as nat / 0x100000, 10)
}

fn megabytes_text(bytes: usize) -> (s: String)
    ensures
        s@ == megabytes(bytes),
{
    let whole: u64 = bytes as u64 >> 20;
    proof {
        let b = bytes as u64;
        assert(b >> 20 == b / 0x100000) by (bit_vector);
    }
    decimal(whole)
}

/// A part of the text of a [`Stat`]: used and total of one tape.
pub open spec fn usage(used: usize, total: usize) -> Seq<char> {
    megabytes(used) + "/"@ + megabytes(total) + " MB"@
}

fn append_usage(s: &mut String, used: usize, total: usize)
    ensures
        final(s)@ == old(s)@ + usage(used, total),
{
    let used_text = megabytes_text(used);
    let total_text = megabytes_text(total);
    s.append(used_text.as_str());
    s.append("/");
    s.append(total_text.as_str());
    s.append(" MB");
    assert(s@ =~= old(s)@ + usage(used, total));
}

impl Stat {
    /// The statistics as one line, in whole megabytes.
    pub open spec fn text(self) -> Seq<char> {
        "weights: "@ + usage(self.weights_used, self.weights_total) + " | scratch: "@ + usage(
            self.scratch_used,
            self.scratch_total,
        ) + " | history: "@ + usage(self.history_used, self.history_total)
    }

    /// The statistics as one line, in whole megabytes.
    pub fn to_string(&self) -> (s: String)
        ensures
            s@ == self.text(),
    {
        let mut s = String::from_str("weights: ");
        append_usage(&mut s, self.weights_used, self.weights_total);
        s.append(" | scratch: ");
        append_usage(&mut s, self.scratch_used, self.scratch_total);
        s.append(" | history: ");
        append_usage(&mut s, self.history_used, self.history_total);
        s
    }
}

/// A layout that is being set up: what exists so far, and so what is done next.
#[derive(Debug, PartialEq, Eq)]
pub enum LayoutSetup {
    /// Open a block of `weights_size` bytes.
    OpenWeights { weights_size: usize, scratch_size: usize, history_size: usize },
    /// Make `writes`, so that all weights pages are backed.
    WarmWeights { weights: Tape, writes: Vec<ByteWrite>, scratch_size: usize, history_size: usize },
    /// Open a block of `scratch_size` bytes.
    OpenScratch { weights: Tape, scratch_size: usize, history_size: usize },
    /// Open a block of `history_size` bytes.
    OpenHistory { weights: Tape, scratch: Tape, history_size: usize },
    /// The setup failed with `error`: close `newer`, the newer of two blocks.
    CloseScratch { newer: Block, older: Block, error: MemError },
    /// The setup failed with `error`: close `older`, the only block that is left.
    CloseWeights { older: Block, error: MemError },
    /// The layout is there.
    Built(Layout),
    /// There is no layout, and no block is left open.
    Failed(MemError),
}

/// What is done in one state of a setup.
pub enum SetupStep {
    Open(usize),
    Warm(Seq<crate::tape::ByteWrite>),
    Close(crate::block::BlockView),
}

/// What the three openings of a setup come to.
pub struct Openings {
    pub weights: Result<Block, MemError>,
    pub scratch: Result<Block, MemError>,
    pub history: Result<Block, MemError>,
}

/// Whether a result of an opening may be handed to a setup.
pub open spec fn opened_wf(opened: Result<Block, MemError>) -> bool {
    opened matches Ok(block) ==> block.wf()
}

impl LayoutSetup {
    pub open spec fn wf(self) -> bool {
        match self {
            LayoutSetup::WarmWeights { weights, .. } => weights.wf(),
            LayoutSetup::OpenScratch { weights, .. } => weights.wf(),
            LayoutSetup::OpenHistory { weights, scratch, .. } => weights.wf() && scratch.wf(),
            LayoutSetup::CloseScratch { newer, older, .. } => newer.wf() && older.wf(),
            LayoutSetup::CloseWeights { older, .. } => older.wf(),
            LayoutSetup::Built(layout) => layout.wf(),
            _ => true,
        }
    }

    /// What is done in this state.
    pub open spec fn step(self) -> Option<SetupStep> {
        match self {
            LayoutSetup::OpenWeights { weights_size, .. } => Some(SetupStep::Open(weights_size)),
            LayoutSetup::WarmWeights { writes, .. } => Some(SetupStep::Warm(writes@)),
            LayoutSetup::OpenScratch { scratch_size, .. } => Some(SetupStep::Open(scratch_size)),
            LayoutSetup::OpenHistory { history_size, .. } => Some(SetupStep::Open(history_size)),
            LayoutSetup::CloseScratch { newer, .. } => Some(SetupStep::Close(newer@)),
            LayoutSetup::CloseWeights { older, .. } => Some(SetupStep::Close(older@)),
            LayoutSetup::Built(_) => None,
            LayoutSetup::Failed(_) => None,
        }
    }

    /// Whether `after` is the state that an opening with this result leads to.
    pub open spec fn opened_leads_to(
        self,
        opened: Result<Block, MemError>,
        after: LayoutSetup,
    ) -> bool {
        match (self, opened) {
            (LayoutSetup::OpenWeights { scratch_size, history_size, .. }, Ok(block)) => {
                &&& after matches LayoutSetup::WarmWeights {
                    weights,
                    writes,
                    scratch_size: s,
                    history_size: h,
                }
                &&& weights@ == crate::tape::TapeView::fresh(block@)
                &&& writes@ == weights@.page_writes()
                &&& s == scratch_size
                &&& h == history_size
            },
            (LayoutSetup::OpenScratch { weights, history_size, .. }, Ok(block)) => {
                &&& after matches LayoutSetup::OpenHistory {
                    weights: w,
                    scratch,
                    history_size: h,
                }
                &&& w == weights
                &&& scratch@ == crate::tape::TapeView::fresh(block@)
                &&& h == history_size
            },
            (LayoutSetup::OpenHistory { weights, scratch, .. }, Ok(block)) => {
                &&& after matches LayoutSetup::Built(layout)
                &&& layout@ == (LayoutView {
                    weights: weights@,
                    scratch: scratch@,
                    history: crate::tape::TapeView::fresh(block@),
                })
            },
            (LayoutSetup::OpenWeights { .. }, Err(error)) => after == LayoutSetup::Failed(error),
            (LayoutSetup::OpenScratch { weights, .. }, Err(error)) => {
                &&& after matches LayoutSetup::CloseWeights { older: w, error: e }
                &&& w@ == weights@.block
                &&& e == error
            },
            (LayoutSetup::OpenHistory { weights, scratch, .. }, Err(error)) => {
                &&& after matches LayoutSetup::CloseScratch { newer: s, older: w, error: e }
                &&& s@ == scratch@.block
                &&& w@ == weights@.block
                &&& e == error
            },
            _ => false,
        }
    }

    /// Whether `after` is the state that comes when what this state does is done; for states
    /// that do anything but open a block.
    pub open spec fn done_leads_to(self, after: LayoutSetup) -> bool {
        match self {
            LayoutSetup::WarmWeights { weights, scratch_size, history_size, .. } => after
                == (LayoutSetup::OpenScratch { weights, scratch_size, history_size }),
            LayoutSetup::CloseScratch { older, error, .. } => after == (LayoutSetup::CloseWeights {
                older,
                error,
            }),
            LayoutSetup::CloseWeights { error, .. } => after == LayoutSetup::Failed(error),
            _ => false,
        }
    }

    /// How many more steps the setup can take.
    pub open spec fn rank(self) -> nat {
        match self {
            LayoutSetup::OpenWeights { .. } => 6,
            LayoutSetup::WarmWeights { .. } => 5,
            LayoutSetup::OpenScratch { .. } => 4,
            LayoutSetup::OpenHistory { .. } => 3,
            LayoutSetup::CloseScratch { .. } => 2,
            LayoutSetup::CloseWeights { .. } => 1,
            LayoutSetup::Built(_) => 0,
            LayoutSetup::Failed(_) => 0,
        }
    }

    /// Whether the setup waits for a block.
    pub open spec fn waits_for_block(self) -> bool {
        self.step() matches Some(SetupStep::Open(_))
    }

    /// The size of the block that the setup waits for.
    pub fn opens(&self) -> (size: Option<usize>)
        ensures
            size == match self.step() {
                Some(SetupStep::Open(size)) => Some(size),
                _ => None,
            },
    {
        match self {
            LayoutSetup::OpenWeights { weights_size, .. } => Some(*weights_size),
            LayoutSetup::OpenScratch { scratch_size, .. } => Some(*scratch_size),
            LayoutSetup::OpenHistory { history_size, .. } => Some(*history_size),
            _ => None,
        }
    }

    /// What closes the block that the setup has to close.
    pub fn closes(&self) -> (requests: Option<[Request; 2]>)
        ensures
            match self.step() {
                Some(SetupStep::Close(block)) => requests matches Some(r) && r@
                    == crate::block::closing(block.handle),
                _ => requests is None,
            },
    {
        match self {
            LayoutSetup::CloseScratch { newer, .. } => Some(newer.closing_requests()),
            LayoutSetup::CloseWeights { older, .. } => Some(older.closing_requests()),
            _ => None,
        }
    }

    /// Takes the result of opening the block that the setup waits for.
    pub fn opened(self, opened: Result<Block, MemError>) -> (after: LayoutSetup)
        requires
            self.wf(),
            self.waits_for_block(),
            opened_wf(opened),
        ensures
            self.opened_leads_to(opened, after),
            after.wf(),
            after.rank() < self.rank(),
    {
        match self {
            LayoutSetup::OpenWeights { scratch_size, history_size, .. } => {
                match Tape::start_warm(opened) {
                    Ok((weights, writes)) => LayoutSetup::WarmWeights {
                        weights,
                        writes,
                        scratch_size,
                        history_size,
                    },
                    Err(error) => LayoutSetup::Failed(error),
                }
            },
            LayoutSetup::OpenScratch { weights, history_size, .. } => {
                match Tape::start(opened) {
                    Ok(scratch) => LayoutSetup::OpenHistory { weights, scratch, history_size },
                    Err(error) => LayoutSetup::CloseWeights {
                        older: weights.into_block(),
                        error,
                    },
                }
            },
            LayoutSetup::OpenHistory { weights, scratch, .. } => {
                match Tape::start(opened) {
                    Ok(history) => LayoutSetup::Built(Layout { weights, scratch, history }),
                    Err(error) => LayoutSetup::CloseScratch {
                        newer: scratch.into_block(),
                        older: weights.into_block(),
                        error,
                    },
                }
            },
            other => other,
        }
    }

    /// Goes on once the pages were written to, or the block was closed.
    pub fn done(self) -> (after: LayoutSetup)
        requires
            self.wf(),
            self.step() is Some,
            !self.waits_for_block(),
        ensures
            self.done_leads_to(after),
            after.wf(),
            after.rank() < self.rank(),
    {
        match self {
            LayoutSetup::WarmWeights { weights, scratch_size, history_size, .. } => {
                LayoutSetup::OpenScratch { weights, scratch_size, history_size }
            },
            LayoutSetup::CloseScratch { older, error, .. } => LayoutSetup::CloseWeights {
                older,
                error,
            },
            LayoutSetup::CloseWeights { error, .. } => LayoutSetup::Failed(error),
            other => other,
        }
    }
}

impl Openings {
    pub open spec fn wf(self) -> bool {
        &&& opened_wf(self.weights)
        &&& opened_wf(self.scratch)
        &&& opened_wf(self.history)
    }

    /// What the setup comes to: a layout of fresh tapes, or the first error.
    pub open spec fn outcome(self) -> Result<LayoutView, MemError> {
        match (self.weights, self.scratch, self.history) {
            (Err(error), _, _) => Err(error),
            (Ok(_), Err(error), _) => Err(error),
            (Ok(_), Ok(_), Err(error)) => Err(error),
            (Ok(w), Ok(s), Ok(h)) => Ok(
                LayoutView {
                    weights: crate::tape::TapeView::fresh(w@),
                    scratch: crate::tape::TapeView::fresh(s@),
                    history: crate::tape::TapeView::fresh(h@),
                },
            ),
        }
    }

    /// What the setup of a layout of these sizes does, in order. No block is opened once one
    /// could not be, and the blocks that were opened till then are closed, the newest first.
    pub open spec fn steps(self, weights: usize, scratch: usize, history: usize) -> Seq<
        SetupStep,
    > {
        match (self.weights, self.scratch, self.history) {
            (Err(_), _, _) => seq![SetupStep::Open(weights)],
            (Ok(w), Err(_), _) => seq![
                SetupStep::Open(weights),
                SetupStep::Warm(crate::tape::TapeView::fresh(w@).page_writes()),
                SetupStep::Open(scratch),
                SetupStep::Close(w@),
            ],
            (Ok(w), Ok(s), Err(_)) => seq![
                SetupStep::Open(weights),
                SetupStep::Warm(crate::tape::TapeView::fresh(w@).page_writes()),
                SetupStep::Open(scratch),
                SetupStep::Open(history),
                SetupStep::Close(s@),
                SetupStep::Close(w@),
            ],
            (Ok(w), Ok(s), Ok(_)) => seq![
                SetupStep::Open(weights),
                SetupStep::Warm(crate::tape::TapeView::fresh(w@).page_writes()),
                SetupStep::Open(scratch),
                SetupStep::Open(history),
            ],
        }
    }
}

/// Whether `after` follows `before` in a setup whose openings come to these results.
pub open spec fn follows(before: LayoutSetup, openings: Openings, after: LayoutSetup) -> bool {
    match before {
        LayoutSetup::OpenWeights { .. } => before.opened_leads_to(openings.weights, after),
        LayoutSetup::OpenScratch { .. } => before.opened_leads_to(openings.scratch, after),
        LayoutSetup::OpenHistory { .. } => before.opened_leads_to(openings.history, after),
        _ => before.done_leads_to(after),
    }
}

/// Whether `states` is a whole run of a setup.
pub open spec fn is_setup_run(
    states: Seq<LayoutSetup>,
    first: LayoutSetup,
    openings: Openings,
) -> bool {
    &&& states.len() > 0
    &&& states[0] == first
    &&& states.last().step() is None
    &&& forall|i: int|
        0 <= i < states.len() - 1 ==> follows(#[trigger] states[i], openings, states[i + 1])
}

/// A whole run of a setup ends with the layout, or with the first error of its openings, and
/// does exactly the steps that they call for: where it fails, every block that it opened is
/// closed again.
pub proof fn setup_outcome(
    states: Seq<LayoutSetup>,
    weights_size: usize,
    scratch_size: usize,
    history_size: usize,
    openings: Openings,
)
    requires
        openings.wf(),
        is_setup_run(
            states,
            LayoutSetup::OpenWeights { weights_size, scratch_size, history_size },
            openings,
        ),
    ensures
        match openings.outcome() {
            Ok(view) => states.last() matches LayoutSetup::Built(layout) && layout@ == view,
            Err(error) => states.last() == LayoutSetup::Failed(error),
        },
        states.len() == openings.steps(weights_size, scratch_size, history_size).len() + 1,
        forall|i: int|
            0 <= i < states.len() - 1 ==> (#[trigger] states[i]).step() == Some(
                openings.steps(weights_size, scratch_size, history_size)[i],
            ),
{
    let n = states.len();
    assert(states[0].step() is Some);
    assert(n > 1);
    assert(states[1].step() is Some ==> n > 2);
    if n > 2 {
        assert(states[2].step() is Some ==> n > 3);
    }
    if n > 3 {
        assert(states[3].step() is Some ==> n > 4);
    }
    if n > 4 {
        assert(states[4].step() is Some ==> n > 5);
    }
    if n > 5 {
        assert(states[5].step() is Some ==> n > 6);
    }
    if n > 6 {
        assert(states[6].step() is None);
        assert(n == 7);
    }
}

/// Neither a token's end nor a conversation's end touches the weights, and a token's end does
/// not touch the history; what is cleared is all free again.
pub proof fn clearing_keeps_the_rest(layout: LayoutView)
    requires
        layout.wf(),
    ensures
        layout.after_pass().wf(),
        layout.after_pass().weights == layout.weights,
        layout.after_pass().history == layout.history,
        layout.after_pass().scratch.free() == layout.scratch.total(),
        layout.after_talk().wf(),
        layout.after_talk().weights == layout.weights,
        layout.after_talk().scratch == layout.after_pass().scratch,
        layout.after_talk().history.free() == layout.history.total(),
        layout.after_pass().after_talk() == layout.after_talk(),
        layout.after_pass().total() == layout.total(),
        layout.after_talk().total() == layout.total(),
{
}

/// The statistics add up to the layout: the totals make up its bytes, and no tape uses more
/// than it has.
pub proof fn stat_adds_up(layout: LayoutView)
    requires
        layout.wf(),
    ensures
        layout.stat().weights_total + layout.stat().scratch_total + layout.stat().history_total
            == layout.total(),
        layout.stat().weights_used <= layout.stat().weights_total,
        layout.stat().scratch_used <= layout.stat().scratch_total,
        layout.stat().history_used <= layout.stat().history_total,
{
}

} // verus!
