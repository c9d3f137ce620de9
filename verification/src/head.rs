//! A head that threads share. What is asked of it and what it answers is kept on record, and
//! only asking makes a record.

use std::sync::atomic::{AtomicUsize, Ordering};
use vstd::prelude::*;

verus! {

/// A position at which a shared head was seen.
#[derive(Debug, Clone, Copy)]
pub struct Sighting<'a> {
    head: &'a AtomicUsize,
    position: usize,
}

impl<'a> Sighting<'a> {
    /// The head that was looked at.
    pub closed spec fn head(self) -> AtomicUsize {
        *self.head
    }

    /// Where it was.
    pub closed spec fn at(self) -> usize {
        self.position
    }

    /// Whether this is what the head answered when it was asked for its value.
    pub open spec fn is_real(self) -> bool {
        call_ensures(AtomicUsize::load, (&self.head(), Ordering::Relaxed), self.at())
    }

    /// Where the head was.
    pub fn position(&self) -> (position: usize)
        ensures
            position == self.at(),
    {
        self.position
    }
}

/// An attempt to move a shared head.
#[derive(Debug, Clone, Copy)]
pub struct Exchange<'a> {
    head: &'a AtomicUsize,
    from: usize,
    to: usize,
    moved: bool,
}

impl<'a> Exchange<'a> {
    /// The head that was to move.
    pub closed spec fn head(self) -> AtomicUsize {
        *self.head
    }

    /// The only position from which it was to move.
    pub closed spec fn from(self) -> usize {
        self.from
    }

    /// The position to which it was to move.
    pub closed spec fn to(self) -> usize {
        self.to
    }

    /// Whether it moved.
    pub closed spec fn succeeded(self) -> bool {
        self.moved
    }

    /// Whether this is what the head answered when it was asked to move.
    pub open spec fn is_real(self) -> bool {
        exists|answer: Result<usize, usize>| #[trigger]
            call_ensures(
                AtomicUsize::compare_exchange_weak,
                (&self.head(), self.from(), self.to(), Ordering::Relaxed, Ordering::Relaxed),
                answer,
            ) && self.succeeded() == (answer is Ok)
    }

    /// Whether the head moved.
    pub fn moved(&self) -> (moved: bool)
        ensures
            moved == self.succeeded(),
    {
        self.moved
    }
}

/// Looks where a shared head is at this moment. Other threads move it, so nothing is said of
/// the position but that it is what the head answered: callers have to be right for every one.
pub fn head_now(head: &AtomicUsize) -> (sighting: Sighting<'_>)
    ensures
        sighting.head() == *head,
        sighting.is_real(),
{
    Sighting { head, position: head.load(Ordering::Relaxed) }
}

/// Moves a shared head from `from` to `to`, if it is still there. That rests on other threads,
/// and the exchange may fail without them, so nothing is said of whether it succeeds but that
/// it is what the head answered.
pub fn move_head(head: &AtomicUsize, from: usize, to: usize) -> (exchange: Exchange<'_>)
    ensures
        exchange.head() == *head,
        exchange.from() == from,
        exchange.to() == to,
        exchange.is_real(),
{
    let moved = head.compare_exchange_weak(from, to, Ordering::Relaxed, Ordering::Relaxed).is_ok();
    Exchange { head, from, to, moved }
}

/// A sighting is a value that a load of the head returned.
pub proof fn sighting_is_what_the_head_holds(sighting: Sighting)
    requires
        sighting.is_real(),
    ensures
        call_ensures(AtomicUsize::load, (&sighting.head(), Ordering::Relaxed), sighting.at()),
{
}

/// An exchange counts as a success exactly if the head answered so when it was asked to move
/// from the one position to the other. A success is never made up.
pub proof fn success_is_what_the_head_answered(exchange: Exchange)
    requires
        exchange.is_real(),
    ensures
        exchange.succeeded() ==> exists|held: usize| #[trigger]
            call_ensures(
                AtomicUsize::compare_exchange_weak,
                (
                    &exchange.head(),
                    exchange.from(),
                    exchange.to(),
                    Ordering::Relaxed,
                    Ordering::Relaxed,
                ),
                Ok::<usize, usize>(held),
            ),
        !exchange.succeeded() ==> exists|held: usize| #[trigger]
            call_ensures(
                AtomicUsize::compare_exchange_weak,
                (
                    &exchange.head(),
                    exchange.from(),
                    exchange.to(),
                    Ordering::Relaxed,
                    Ordering::Relaxed,
                ),
                Err::<usize, usize>(held),
            ),
{
    let answer = choose|answer: Result<usize, usize>| #[trigger]
        call_ensures(
            AtomicUsize::compare_exchange_weak,
            (
                &exchange.head(),
                exchange.from(),
                exchange.to(),
                Ordering::Relaxed,
                Ordering::Relaxed,
            ),
            answer,
        ) && exchange.succeeded() == (answer is Ok);
    match answer {
        Ok(held) => {
            assert(answer == Ok::<usize, usize>(held));
        },
        Err(held) => {
            assert(answer == Err::<usize, usize>(held));
        },
    }
}

} // verus!
