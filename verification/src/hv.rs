//! What the probe of the hypervisor's memory mapping decides: names of its statuses, the
//! ranges that it maps, and the permissions that it sets.

use crate::text::{hex_upper, signed_decimal};
use vstd::prelude::*;
use vstd::string::*;

verus! {

/// A guest may read the memory.
pub const HV_MEMORY_READ: u64 = 1;

/// A guest may write the memory.
pub const HV_MEMORY_WRITE: u64 = 2;

/// A guest may execute the memory.
pub const HV_MEMORY_EXEC: u64 = 4;

/// The name of a hypervisor status, by the bits of its 32-bit pattern.
pub open spec fn hv_name(code: u32) -> Seq<char> {
    if code == 0 {
        "HV_SUCCESS"@
    } else if code == 0xFAE9_4001 {
        "HV_ERROR"@
    } else if code == 0xFAE9_4002 {
        "HV_BUSY"@
    } else if code == 0xFAE9_4003 {
        "HV_BAD_ARGUMENT"@
    } else if code == 0xFAE9_4004 {
        "HV_ILLEGAL_GUEST_STATE"@
    } else if code == 0xFAE9_4005 {
        "HV_NO_RESOURCES"@
    } else if code == 0xFAE9_4006 {
        "HV_NO_DEVICE"@
    } else if code == 0xFAE9_4007 {
        "HV_DENIED"@
    } else if code == 0xFAE9_400F {
        "HV_UNSUPPORTED"@
    } else {
        "UNKNOWN"@
    }
}

/// The name of a hypervisor status.
pub fn hv_error_name(status: i32) -> (name: &'static str)
    ensures
        name@ == hv_name(status as u32),
{
    let code: u32 = status as u32;
    if code == 0 {
        "HV_SUCCESS"
    } else if code == 0xFAE9_4001 {
        "HV_ERROR"
    } else if code == 0xFAE9_4002 {
        "HV_BUSY"
    } else if code == 0xFAE9_4003 {
        "HV_BAD_ARGUMENT"
    } else if code == 0xFAE9_4004 {
        "HV_ILLEGAL_GUEST_STATE"
    } else if code == 0xFAE9_4005 {
        "HV_NO_RESOURCES"
    } else if code == 0xFAE9_4006 {
        "HV_NO_DEVICE"
    } else if code == 0xFAE9_4007 {
        "HV_DENIED"
    } else if code == 0xFAE9_400F {
        "HV_UNSUPPORTED"
    } else {
        "UNKNOWN"
    }
}

/// What is reported of a hypervisor call that failed.
pub open spec fn hv_failure(call: Seq<char>, status: i32) -> Seq<char> {
    "  FAIL: "@ + call + " returned "@ + crate::text::signed_numeral(status as int) + " ("@ + (
    "0x"@ + crate::text::upper_padded_numeral((status as u32) as nat, 16, 8)) + " = "@ + hv_name(
        status as u32,
    ) + ")"@
}

/// Checks the status of a hypervisor call: nothing if it succeeded, else what to report.
pub fn check_hv(call: &str, status: i32) -> (failure: Option<String>)
    ensures
        match failure {
            Some(s) => status != 0 && s@ == hv_failure(call@, status),
            None => status == 0,
        },
{
    if status == 0 {
        return None;
    }
    let number = signed_decimal(status);
    let code = hex_upper(status as u32);
    let mut s = String::from_str("  FAIL: ");
    s.append(call);
    s.append(" returned ");
    s.append(number.as_str());
    s.append(" (");
    s.append(code.as_str());
    s.append(" = ");
    s.append(hv_error_name(status));
    s.append(")");
    Some(s)
}

/// One range that the probe maps: so many host bytes, at this guest address.
#[derive(Debug, Clone, Copy, PartialEq, Eq, Structural)]
pub struct Trial {
    pub size: usize,
    pub guest: u64,
}

/// The ranges that the probe maps one after the other.
pub fn trials() -> (trials: [Trial; 4])
    ensures
        trials@ == seq![
            Trial { size: 0x4000, guest: 0x4000_0000 },
            Trial { size: 0x10_0000, guest: 0x8000_0000 },
            Trial { size: 0x100_0000, guest: 0xC000_0000 },
            Trial { size: 0x1000_0000, guest: 0x1_0000_0000 },
        ],
{
    let trials = [
        Trial { size: 0x4000, guest: 0x4000_0000 },
        Trial { size: 0x10_0000, guest: 0x8000_0000 },
        Trial { size: 0x100_0000, guest: 0xC000_0000 },
        Trial { size: 0x1000_0000, guest: 0x1_0000_0000 },
    ];
    assert(trials@ =~= seq![
        Trial { size: 0x4000, guest: 0x4000_0000 },
        Trial { size: 0x10_0000, guest: 0x8000_0000 },
        Trial { size: 0x100_0000, guest: 0xC000_0000 },
        Trial { size: 0x1000_0000, guest: 0x1_0000_0000 },
    ]);
    trials
}

/// Where a trial is.
#[derive(Debug, Clone, Copy, PartialEq, Eq)]
pub enum TrialRun {
    /// Allocate host memory and lock it.
    Allocate,
    /// Map the memory for the guest.
    MapMemory { address: usize },
    /// Look at the memory while it is mapped.
    Examine { address: usize },
    /// Take the mapping off.
    Unmap { address: usize },
    /// Unlock the memory and give it back.
    Free { address: usize },
    /// Nothing is left to do.
    Over,
}

impl TrialRun {
    /// What comes after the memory was allocated at `address`, zero if it was not.
    pub open spec fn after_allocating(address: usize) -> TrialRun {
        if address == 0 {
            TrialRun::Over
        } else {
            TrialRun::MapMemory { address }
        }
    }

    /// What comes after the attempt to map the memory at `address`.
    pub open spec fn after_mapping(address: usize, status: i32) -> TrialRun {
        if status == 0 {
            TrialRun::Examine { address }
        } else {
            TrialRun::Free { address }
        }
    }

    /// What comes after any other step, whether it succeeded or not.
    pub open spec fn after_done(self) -> TrialRun {
        match self {
            TrialRun::Examine { address } => TrialRun::Unmap { address },
            TrialRun::Unmap { address } => TrialRun::Free { address },
            TrialRun::Free { .. } => TrialRun::Over,
            other => other,
        }
    }

    /// Goes on after the allocation.
    pub fn allocated(self, address: usize) -> (after: TrialRun)
        requires
            self is Allocate,
        ensures
            after == TrialRun::after_allocating(address),
    {
        if address == 0 {
            TrialRun::Over
        } else {
            TrialRun::MapMemory { address }
        }
    }

    /// Goes on after the attempt to map the memory.
    pub fn mapped(self, status: i32) -> (after: TrialRun)
        requires
            self is MapMemory,
        ensures
            after == TrialRun::after_mapping(self->MapMemory_address, status),
    {
        match self {
            TrialRun::MapMemory { address } => {
                if status == 0 {
                    TrialRun::Examine { address }
                } else {
                    TrialRun::Free { address }
                }
            },
            other => other,
        }
    }

    /// Goes on after any other step.
    pub fn done(self) -> (after: TrialRun)
        requires
            !(self is Allocate),
            !(self is MapMemory),
        ensures
            after == self.after_done(),
    {
        match self {
            TrialRun::Examine { address } => TrialRun::Unmap { address },
            TrialRun::Unmap { address } => TrialRun::Free { address },
            TrialRun::Free { .. } => TrialRun::Over,
            other => other,
        }
    }
}

/// A trial leaves nothing behind: memory that was mapped is unmapped and then given back,
/// memory that could not be mapped is given back at once, and memory that was never there is
/// not.
pub proof fn trial_is_undone(address: usize, status: i32)
    ensures
        address == 0 ==> TrialRun::after_allocating(address) == TrialRun::Over,
        address != 0 ==> TrialRun::after_allocating(address) == (TrialRun::MapMemory { address }),
        ({
            let next = TrialRun::after_mapping(address, status);
            if status == 0 {
                &&& next == (TrialRun::Examine { address })
                &&& next.after_done() == (TrialRun::Unmap { address })
                &&& next.after_done().after_done() == (TrialRun::Free { address })
                &&& next.after_done().after_done().after_done() == TrialRun::Over
            } else {
                &&& next == (TrialRun::Free { address })
                &&& next.after_done() == TrialRun::Over
            }
        }),
{
}

/// The guest address of mapping `i` of a row of mappings, `stride` bytes apart.
pub fn row_guest(base: u64, i: u64, stride: u64) -> (guest: u64)
    requires
        base + i * stride <= u64::MAX,
    ensures
        guest == base + i * stride,
{
    proof {
        assert(0 <= i * stride) by (nonlinear_arith);
    }
    base + i * stride
}

/// Mappings of a row whose stride is at least the size mapped do not overlap.
pub proof fn rows_never_overlap(base: int, size: int, stride: int, i: int, j: int)
    requires
        0 <= size <= stride,
        0 <= i < j,
    ensures
        base + i * stride + size <= base + j * stride,
{
    assert(i * stride + stride <= j * stride) by (nonlinear_arith)
        requires
            i + 1 <= j,
            0 <= stride,
    ;
}

/// The permissions that round `i` sets: reading alone in even rounds, writing too in odd
/// ones.
pub fn toggled_flags(i: u64) -> (flags: u64)
    ensures
        flags == (if i % 2 == 0 {
            1u64
        } else {
            3u64
        }),
{
    proof {
        assert(1u64 | 2u64 == 3u64) by (bit_vector);
    }
    if i % 2 == 0 {
        HV_MEMORY_READ
    } else {
        HV_MEMORY_READ | HV_MEMORY_WRITE
    }
}

/// Where a row of mappings is: rows are mapped one after the other till one fails or all are,
/// and then those that were mapped are unmapped, till one fails.
#[derive(Debug, Clone, Copy, PartialEq, Eq)]
pub enum RowRun {
    /// Map row `i`.
    Mapping { i: u64 },
    /// Unmap row `i`, of `mapped` that were mapped.
    Unmapping { i: u64, mapped: u64 },
    /// Nothing is left to do; so many rows were mapped.
    Done { mapped: u64 },
}

impl RowRun {
    pub open spec fn wf(self, rounds: u64) -> bool {
        match self {
            RowRun::Mapping { i } => i < rounds,
            RowRun::Unmapping { i, mapped } => i < mapped <= rounds,
            RowRun::Done { mapped } => mapped <= rounds,
        }
    }

    /// How a run over `rounds` rows starts.
    pub open spec fn first(rounds: u64) -> RowRun {
        if rounds == 0 {
            RowRun::Done { mapped: 0 }
        } else {
            RowRun::Mapping { i: 0 }
        }
    }

    /// What comes once `mapped` rows are mapped and no more will be.
    pub open spec fn turned(mapped: u64) -> RowRun {
        if mapped == 0 {
            RowRun::Done { mapped: 0 }
        } else {
            RowRun::Unmapping { i: 0, mapped }
        }
    }

    /// What comes after the call of this state returned `status`.
    pub open spec fn after_answer(self, status: i32, rounds: u64) -> RowRun {
        match self {
            RowRun::Mapping { i } => if status != 0 {
                RowRun::turned(i)
            } else if i + 1 < rounds {
                RowRun::Mapping { i: (i + 1) as u64 }
            } else {
                RowRun::turned((i + 1) as u64)
            },
            RowRun::Unmapping { i, mapped } => if status == 0 && i + 1 < mapped {
                RowRun::Unmapping { i: (i + 1) as u64, mapped }
            } else {
                RowRun::Done { mapped }
            },
            RowRun::Done { .. } => self,
        }
    }

    /// Starts a run over `rounds` rows.
    pub fn start(rounds: u64) -> (run: RowRun)
        ensures
            run == RowRun::first(rounds),
            run.wf(rounds),
    {
        if rounds == 0 {
            RowRun::Done { mapped: 0 }
        } else {
            RowRun::Mapping { i: 0 }
        }
    }

    /// Takes the status of the call that this state asks for.
    pub fn answered(self, status: i32, rounds: u64) -> (after: RowRun)
        requires
            self.wf(rounds),
        ensures
            after == self.after_answer(status, rounds),
            after.wf(rounds),
    {
        match self {
            RowRun::Mapping { i } => {
                if status == 0 && i + 1 < rounds {
                    return RowRun::Mapping { i: i + 1 };
                }
                let mapped: u64 = if status == 0 {
                    i + 1
                } else {
                    i
                };
                if mapped == 0 {
                    RowRun::Done { mapped: 0 }
                } else {
                    RowRun::Unmapping { i: 0, mapped }
                }
            },
            RowRun::Unmapping { i, mapped } => {
                if status == 0 && i + 1 < mapped {
                    RowRun::Unmapping { i: i + 1, mapped }
                } else {
                    RowRun::Done { mapped }
                }
            },
            other => other,
        }
    }
}

/// Whether `states` is a whole run over `rounds` rows whose calls return `statuses`.
pub open spec fn is_row_run(states: Seq<RowRun>, statuses: Seq<i32>, rounds: u64) -> bool {
    &&& states.len() == statuses.len() + 1
    &&& states[0] == RowRun::first(rounds)
    &&& states.last() is Done
    &&& forall|t: int|
        0 <= t < statuses.len() ==> !((#[trigger] states[t]) is Done) && states[t + 1]
            == states[t].after_answer(statuses[t], rounds)
}

/// Where the unmapping starts in a run in which `mapped` rows were mapped: behind the mappings,
/// and behind the one that failed, if one did.
pub open spec fn unmapping_from(mapped: u64, rounds: u64) -> int {
    if mapped < rounds {
        mapped + 1
    } else {
        mapped as int
    }
}

/// Whether a run maps exactly the rows below `mapped`, each once and in order, and then fails
/// to map one unless all are mapped.
pub open spec fn maps_below(
    states: Seq<RowRun>,
    statuses: Seq<i32>,
    mapped: u64,
    rounds: u64,
) -> bool {
    &&& unmapping_from(mapped, rounds) <= statuses.len()
    &&& forall|k: int|
        0 <= k < mapped ==> (#[trigger] states[k]) == (RowRun::Mapping { i: k as u64 })
            && statuses[k] == 0
    &&& mapped < rounds ==> states[mapped as int] == (RowRun::Mapping { i: mapped })
        && statuses[mapped as int] != 0
}

/// What holds of a run up to the state `t`.
spec fn row_run_till(states: Seq<RowRun>, statuses: Seq<i32>, rounds: u64, t: int) -> bool {
    match states[t] {
        RowRun::Mapping { i } => {
            &&& i == t
            &&& forall|k: int|
                0 <= k < t ==> (#[trigger] states[k]) == (RowRun::Mapping { i: k as u64 })
                    && statuses[k] == 0
        },
        RowRun::Unmapping { i, mapped } => {
            let from = unmapping_from(mapped, rounds);
            &&& t == from + i
            &&& maps_below(states, statuses, mapped, rounds)
            &&& forall|k: int|
                from <= k <= t ==> (#[trigger] states[k]) == (RowRun::Unmapping {
                    i: (k - from) as u64,
                    mapped,
                })
            &&& forall|k: int| from <= k < t ==> #[trigger] statuses[k] == 0
        },
        RowRun::Done { mapped } => {
            let from = unmapping_from(mapped, rounds);
            &&& from <= t <= from + mapped
            &&& mapped > 0 ==> from < t
            &&& maps_below(states, statuses, mapped, rounds)
            &&& forall|k: int|
                from <= k < t ==> (#[trigger] states[k]) == (RowRun::Unmapping {
                    i: (k - from) as u64,
                    mapped,
                })
            &&& forall|k: int| from <= k < t - 1 ==> #[trigger] statuses[k] == 0
            &&& from < t && statuses[t - 1] == 0 ==> t == from + mapped
        },
    }
}

/// One call more.
proof fn lemma_row_step(states: Seq<RowRun>, statuses: Seq<i32>, rounds: u64, t: int)
    requires
        0 < t <= statuses.len(),
        states.len() == statuses.len() + 1,
        states[t - 1].wf(rounds),
        !(states[t - 1] is Done),
        states[t] == states[t - 1].after_answer(statuses[t - 1], rounds),
        row_run_till(states, statuses, rounds, t - 1),
    ensures
        states[t].wf(rounds),
        row_run_till(states, statuses, rounds, t),
{
    match states[t - 1] {
        RowRun::Mapping { i } => {
            if !(states[t] is Mapping) {
                let mapped = if statuses[t - 1] == 0 {
                    t as u64
                } else {
                    i
                };
                assert(unmapping_from(mapped, rounds) == t);
                assert(maps_below(states, statuses, mapped, rounds));
            }
        },
        RowRun::Unmapping { i, mapped } => {
            let from = unmapping_from(mapped, rounds);
            assert(t - 1 == from + i);
        },
        RowRun::Done { .. } => {},
    }
}

proof fn lemma_row_run(states: Seq<RowRun>, statuses: Seq<i32>, rounds: u64, t: int)
    requires
        is_row_run(states, statuses, rounds),
        0 <= t <= statuses.len(),
    ensures
        states[t].wf(rounds),
        row_run_till(states, statuses, rounds, t),
    decreases t,
{
    if t > 0 {
        lemma_row_run(states, statuses, rounds, t - 1);
        assert(!(states[t - 1] is Done));
        lemma_row_step(states, statuses, rounds, t);
    }
}

/// A row of mappings leaves nothing behind: exactly the rows below `mapped` are mapped, and
/// they alone are unmapped, each once and in order; all of them are, if no unmapping fails,
/// and an unmapping that fails is the last.
pub proof fn mapped_rows_are_unmapped(
    states: Seq<RowRun>,
    statuses: Seq<i32>,
    rounds: u64,
    mapped: u64,
)
    requires
        is_row_run(states, statuses, rounds),
        states.last() == (RowRun::Done { mapped }),
    ensures
        mapped <= rounds,
        maps_below(states, statuses, mapped, rounds),
        ({
            let from = unmapping_from(mapped, rounds);
            let calls = statuses.len() as int;
            &&& forall|k: int|
                from <= k < calls ==> (#[trigger] states[k]) == (RowRun::Unmapping {
                    i: (k - from) as u64,
                    mapped,
                })
            &&& calls <= from + mapped
            &&& (forall|k: int| from <= k < calls ==> #[trigger] statuses[k] == 0) ==> calls
                == from + mapped
            &&& forall|k: int| from <= k < calls - 1 ==> #[trigger] statuses[k] == 0
        }),
{
    lemma_row_run(states, statuses, rounds, statuses.len() as int);
}

/// Where a run of permission changes on one mapping is.
#[derive(Debug, Clone, Copy, PartialEq, Eq)]
pub enum ProtectRun {
    /// Set the permissions of round `i`, those of [`toggled_flags`].
    Toggling { i: u64 },
    /// Nothing is left to do; so many changes succeeded.
    Over { done: u64 },
}

impl ProtectRun {
    pub open spec fn wf(self, rounds: u64) -> bool {
        match self {
            ProtectRun::Toggling { i } => i < rounds,
            ProtectRun::Over { done } => done <= rounds,
        }
    }

    /// The run once `done` changes have succeeded, none has failed, and `rounds` are wanted.
    pub open spec fn at(done: u64, rounds: u64) -> ProtectRun {
        if done < rounds {
            ProtectRun::Toggling { i: done }
        } else {
            ProtectRun::Over { done }
        }
    }

    /// Starts a run of `rounds` changes.
    pub fn start(rounds: u64) -> (run: ProtectRun)
        ensures
            run == ProtectRun::at(0, rounds),
            run.wf(rounds),
    {
        if rounds > 0 {
            ProtectRun::Toggling { i: 0 }
        } else {
            ProtectRun::Over { done: 0 }
        }
    }

    /// Takes the status of the change: the first that fails ends the run.
    pub fn answered(self, status: i32, rounds: u64) -> (after: ProtectRun)
        requires
            self.wf(rounds),
        ensures
            after == match self {
                ProtectRun::Toggling { i } => if status == 0 {
                    ProtectRun::at((i + 1) as u64, rounds)
                } else {
                    ProtectRun::Over { done: i }
                },
                ProtectRun::Over { .. } => self,
            },
            after.wf(rounds),
    {
        match self {
            ProtectRun::Toggling { i } => {
                if status != 0 {
                    ProtectRun::Over { done: i }
                } else if i + 1 < rounds {
                    ProtectRun::Toggling { i: i + 1 }
                } else {
                    ProtectRun::Over { done: i + 1 }
                }
            },
            other => other,
        }
    }
}

/// Where a run of mappings and unmappings of one range is.
#[derive(Debug, Clone, Copy, PartialEq, Eq)]
pub enum PairRun {
    /// Map the range; so many pairs are done.
    MapRange { done: u64 },
    /// Unmap the range; so many pairs are done.
    UnmapRange { done: u64 },
    /// Nothing is left to do.
    Over { done: u64 },
}

impl PairRun {
    pub open spec fn wf(self, rounds: u64) -> bool {
        match self {
            PairRun::MapRange { done } => done < rounds,
            PairRun::UnmapRange { done } => done < rounds,
            PairRun::Over { done } => done <= rounds,
        }
    }

    /// The run once `done` pairs have succeeded, nothing has failed, and `rounds` are wanted.
    pub open spec fn at(done: u64, rounds: u64) -> PairRun {
        if done < rounds {
            PairRun::MapRange { done }
        } else {
            PairRun::Over { done }
        }
    }

    /// Starts a run of `rounds` pairs.
    pub fn start(rounds: u64) -> (run: PairRun)
        ensures
            run == PairRun::at(0, rounds),
            run.wf(rounds),
    {
        if rounds > 0 {
            PairRun::MapRange { done: 0 }
        } else {
            PairRun::Over { done: 0 }
        }
    }

    /// Takes the status of the call: the first that fails ends the run, and a pair counts only
    /// once both of its calls succeeded.
    pub fn answered(self, status: i32, rounds: u64) -> (after: PairRun)
        requires
            self.wf(rounds),
        ensures
            after == match self {
                PairRun::MapRange { done } => if status == 0 {
                    PairRun::UnmapRange { done }
                } else {
                    PairRun::Over { done }
                },
                PairRun::UnmapRange { done } => if status == 0 {
                    PairRun::at((done + 1) as u64, rounds)
                } else {
                    PairRun::Over { done }
                },
                PairRun::Over { .. } => self,
            },
            after.wf(rounds),
    {
        match self {
            PairRun::MapRange { done } => {
                if status == 0 {
                    PairRun::UnmapRange { done }
                } else {
                    PairRun::Over { done }
                }
            },
            PairRun::UnmapRange { done } => {
                if status != 0 {
                    PairRun::Over { done }
                } else if done + 1 < rounds {
                    PairRun::MapRange { done: done + 1 }
                } else {
                    PairRun::Over { done: done + 1 }
                }
            },
            other => other,
        }
    }
}

} // verus!
