//! A walk over the memory regions that cover a range of addresses.
//!
//! The system is asked for the region at or behind an address; [`RegionWalk`] decides which
//! address to ask for next, which regions belong to the range, and when the walk is over.

use vstd::prelude::*;

verus! {

/// A memory region: its first address and its size.
#[derive(Debug, Clone, Copy, PartialEq, Eq, Structural)]
pub struct Region {
    pub start: u64,
    pub size: u64,
}

impl Region {
    /// The address behind the region.
    pub open spec fn stop(self) -> int {
        self.start + self.size
    }

    /// Whether the region shares an address with the range from `base` up to `end`.
    pub open spec fn overlaps(self, base: int, end: int) -> bool {
        let from = if self.start >= base {
            self.start as int
        } else {
            base
        };
        let to = if self.stop() <= end {
            self.stop()
        } else {
            end
        };
        from < to
    }
}

/// A walk over the range from `base` up to `end`.
#[derive(Debug, Clone, Copy, PartialEq, Eq, Structural)]
pub struct RegionWalk {
    /// The first address of the range.
    pub base: u64,
    /// The address behind the range.
    pub end: u64,
    /// How far the walk is.
    pub at: u64,
    /// How many regions of the range were met.
    pub count: u32,
    /// Whether the walk ended before it reached the end of the range.
    pub stopped: bool,
}

impl RegionWalk {
    /// The address to ask for next.
    pub open spec fn asks(self) -> Option<u64> {
        if !self.stopped && self.at < self.end {
            Some(self.at)
        } else {
            None
        }
    }

    /// The walk after the system told this region. A region behind the range ends it.
    pub open spec fn after(self, region: Region) -> RegionWalk {
        if region.start >= self.end {
            RegionWalk { stopped: true, ..self }
        } else {
            RegionWalk {
                at: region.stop() as u64,
                count: (self.count + if region.overlaps(self.base as int, self.end as int) {
                    1int
                } else {
                    0int
                }) as u32,
                ..self
            }
        }
    }

    /// The walk after the system told no region.
    pub open spec fn after_failure(self) -> RegionWalk {
        RegionWalk { stopped: true, ..self }
    }

    /// Starts a walk over `size` bytes from `base` on.
    pub fn new(base: u64, size: usize) -> (walk: RegionWalk)
        requires
            base + size <= u64::MAX,
        ensures
            walk == (RegionWalk {
                base,
                end: (base + size) as u64,
                at: base,
                count: 0,
                stopped: false,
            }),
    {
        RegionWalk { base, end: base + size as u64, at: base, count: 0, stopped: false }
    }

    /// The address to ask for next; nothing once the walk is over.
    pub fn query(&self) -> (address: Option<u64>)
        ensures
            address == self.asks(),
    {
        if !self.stopped && self.at < self.end {
            Some(self.at)
        } else {
            None
        }
    }

    /// Takes the region that the system told, and says whether it belongs to the range.
    pub fn found(&mut self, region: Region) -> (belongs: bool)
        requires
            old(self).asks() is Some,
            old(self).count < u32::MAX,
            region.stop() <= u64::MAX,
        ensures
            *final(self) == old(self).after(region),
            belongs == (region.start < old(self).end && region.overlaps(
                old(self).base as int,
                old(self).end as int,
            )),
    {
        if region.start >= self.end {
            self.stopped = true;
            return false;
        }
        let stop: u64 = region.start + region.size;
        let from: u64 = if region.start >= self.base {
            region.start
        } else {
            self.base
        };
        let to: u64 = if stop <= self.end {
            stop
        } else {
            self.end
        };
        let belongs: bool = from < to;
        if belongs {
            self.count += 1;
        }
        self.at = stop;
        belongs
    }

    /// Ends the walk: the system told no region.
    pub fn failed(&mut self)
        ensures
            *final(self) == old(self).after_failure(),
    {
        self.stopped = true;
    }

    /// Whether the range is one region.
    pub fn is_contiguous(&self) -> (contiguous: bool)
        ensures
            contiguous == (self.count == 1),
    {
        self.count == 1
    }

    /// Whether the range is not known to be in pieces.
    pub fn is_unbroken(&self) -> (unbroken: bool)
        ensures
            unbroken == (self.count <= 1),
    {
        self.count <= 1
    }
}

/// A map of memory: regions that are not empty, in order, none over another.
pub open spec fn is_map(map: Seq<Region>) -> bool {
    &&& forall|i: int|
        0 <= i < map.len() ==> (#[trigger] map[i]).size > 0 && map[i].stop() <= u64::MAX
    &&& forall|i: int, j: int|
        0 <= i < j < map.len() ==> (#[trigger] map[i]).stop() <= (#[trigger] map[j]).start
}

/// Whether `k` is the first region of the map that reaches behind `at`; the length of the
/// map if none does.
pub open spec fn answers(map: Seq<Region>, at: int, k: int) -> bool {
    &&& 0 <= k <= map.len()
    &&& forall|i: int| 0 <= i < k ==> (#[trigger] map[i]).stop() <= at
    &&& k < map.len() ==> map[k].stop() > at
}

/// How many of the first `n` regions of the map share an address with the range.
pub open spec fn covering(map: Seq<Region>, base: int, end: int, n: int) -> nat
    decreases n,
{
    if n <= 0 {
        0
    } else {
        covering(map, base, end, n - 1) + if map[n - 1].overlaps(base, end) {
            1nat
        } else {
            0nat
        }
    }
}

/// Whether a walk goes from `before` to `after` by one answer from the map.
pub open spec fn is_step(map: Seq<Region>, before: RegionWalk, after: RegionWalk) -> bool {
    before.asks() is Some && exists|k: int| #[trigger]
        answers(map, before.at as int, k) && after == if k < map.len() {
            before.after(map[k])
        } else {
            before.after_failure()
        }
}

/// Whether `states` is a whole walk over a map of memory.
pub open spec fn is_walk(map: Seq<Region>, states: Seq<RegionWalk>, base: u64, end: u64) -> bool {
    &&& states.len() > 0
    &&& states[0] == (RegionWalk { base, end, at: base, count: 0, stopped: false })
    &&& states.last().asks() is None
    &&& forall|i: int|
        0 <= i < states.len() - 1 ==> is_step(map, #[trigger] states[i], states[i + 1])
}

proof fn lemma_covering_without(map: Seq<Region>, base: int, end: int, k: int, n: int)
    requires
        0 <= k <= n,
        forall|i: int| k <= i < n ==> !(#[trigger] map[i]).overlaps(base, end),
    ensures
        covering(map, base, end, n) == covering(map, base, end, k),
    decreases n - k,
{
    if k < n {
        lemma_covering_without(map, base, end, k, n - 1);
    }
}

proof fn lemma_covering_bound(map: Seq<Region>, base: int, end: int, n: int)
    requires
        0 <= n,
    ensures
        covering(map, base, end, n) <= n,
    decreases n,
{
    if n > 0 {
        lemma_covering_bound(map, base, end, n - 1);
    }
}

/// What holds while a walk is under way: the regions that end before it were met.
spec fn walked(map: Seq<Region>, state: RegionWalk, base: u64, end: u64, k: int) -> bool {
    &&& state.base == base
    &&& state.end == end
    &&& !state.stopped
    &&& answers(map, state.at as int, k)
    &&& state.count == covering(map, base as int, end as int, k)
    &&& forall|i: int|
        k <= i < map.len() ==> (#[trigger] map[i]).start >= state.at || state.at == base
}

/// What holds once a walk is over.
spec fn settled(map: Seq<Region>, state: RegionWalk, base: u64, end: u64) -> bool {
    &&& state.asks() is None
    &&& state.count == covering(map, base as int, end as int, map.len() as int)
}

proof fn lemma_first_answer(map: Seq<Region>, at: int, n: int) -> (k: int)
    requires
        0 <= n <= map.len(),
        forall|i: int| 0 <= i < map.len() - n ==> (#[trigger] map[i]).stop() <= at,
    ensures
        answers(map, at, k),
    decreases n,
{
    let i = map.len() - n;
    if n == 0 || map[i].stop() > at {
        i
    } else {
        lemma_first_answer(map, at, n - 1)
    }
}

/// One answer leads from a walk under way to one under way, or ends it with the right count.
proof fn lemma_step(
    map: Seq<Region>,
    before: RegionWalk,
    after: RegionWalk,
    base: u64,
    end: u64,
    k: int,
)
    requires
        is_map(map),
        map.len() < u32::MAX,
        base <= end,
        walked(map, before, base, end, k),
        is_step(map, before, after),
    ensures
        settled(map, after, base, end) || (k < map.len() && walked(map, after, base, end, k + 1)),
{
    let other = choose|other: int| #[trigger]
        answers(map, before.at as int, other) && after == if other < map.len() {
            before.after(map[other])
        } else {
            before.after_failure()
        };
    assert(other == k) by {
        if other < k {
            assert(map[other].stop() <= before.at);
        }
        if k < other {
            assert(map[k].stop() <= before.at);
        }
    }
    lemma_covering_bound(map, base as int, end as int, k);
    if k < map.len() {
        if map[k].start >= end {
            assert forall|i: int| k <= i < map.len() implies !(#[trigger] map[i]).overlaps(
                base as int,
                end as int,
            ) by {
                if i > k {
                    assert(map[k].stop() <= map[i].start);
                }
            }
            lemma_covering_without(map, base as int, end as int, k, map.len() as int);
        } else {
            assert forall|i: int| k + 1 <= i < map.len() implies (#[trigger] map[i]).start
                >= map[k].stop() by {}
            assert(answers(map, map[k].stop(), k + 1)) by {
                assert forall|i: int| 0 <= i < k + 1 implies (#[trigger] map[i]).stop()
                    <= map[k].stop() by {
                    if i < k {
                        assert(map[i].stop() <= map[k].start);
                    }
                }
            }
        }
    }
}

/// A walk under way that asks nothing more has met every region.
proof fn lemma_end(map: Seq<Region>, state: RegionWalk, base: u64, end: u64, k: int)
    requires
        is_map(map),
        base <= end,
        walked(map, state, base, end, k),
        state.asks() is None,
    ensures
        settled(map, state, base, end),
{
    assert forall|i: int| k <= i < map.len() implies !(#[trigger] map[i]).overlaps(
        base as int,
        end as int,
    ) by {}
    lemma_covering_without(map, base as int, end as int, k, map.len() as int);
}

proof fn lemma_walk(
    map: Seq<Region>,
    states: Seq<RegionWalk>,
    base: u64,
    end: u64,
    i: int,
    k: int,
)
    requires
        is_map(map),
        map.len() < u32::MAX,
        base <= end,
        is_walk(map, states, base, end),
        0 <= i < states.len(),
        walked(map, states[i], base, end, k),
    ensures
        states.last().count == covering(map, base as int, end as int, map.len() as int),
    decreases states.len() - i,
{
    if i == states.len() - 1 {
        lemma_end(map, states[i], base, end, k);
    } else {
        assert(is_step(map, states[i], states[i + 1]));
        lemma_step(map, states[i], states[i + 1], base, end, k);
        if settled(map, states[i + 1], base, end) {
            if i + 1 < states.len() - 1 {
                assert(is_step(map, states[i + 1], states[i + 2]));
            }
        } else {
            lemma_walk(map, states, base, end, i + 1, k + 1);
        }
    }
}

/// A walk counts exactly the regions that the range shares an address with: whatever the map
/// of memory is, and wherever its gaps are, none is missed and none is counted twice.
pub proof fn walk_counts_every_region(
    map: Seq<Region>,
    states: Seq<RegionWalk>,
    base: u64,
    end: u64,
)
    requires
        is_map(map),
        map.len() < u32::MAX,
        base <= end,
        is_walk(map, states, base, end),
    ensures
        states.last().count == covering(map, base as int, end as int, map.len() as int),
{
    let k = lemma_first_answer(map, base as int, map.len() as int);
    assert forall|i: int| 0 <= i < k implies !(#[trigger] map[i]).overlaps(
        base as int,
        end as int,
    ) by {}
    lemma_covering_without(map, base as int, end as int, 0, k);
    lemma_walk(map, states, base, end, 0, k);
}

} // verus!
