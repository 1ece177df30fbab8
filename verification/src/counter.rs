//! Numbers that several parts of a connection count on together.

use std::sync::atomic::AtomicUsize;
use std::sync::Arc;

use vstd::prelude::*;

use crate::outside::{
    counts_at_some_moment, lower, lowered_at_some_moment, raise, raise_below,
    raised_at_some_moment, NumberHandle,
};

verus! {

/// The number after `was`, unless that is past the limit.
pub fn one_more(was: usize, limit: usize) -> (r: Option<usize>)
    ensures
        match r {
            Some(next) => was < limit && next == was + 1,
            None => was >= limit,
        },
{
    if was < limit {
        Some(was + 1)
    } else {
        None
    }
}

/// At some moment the number is below the limit, and one is added to it.
pub open spec fn raised_below(number: AtomicUsize, limit: usize) -> bool {
    exists|was: usize| was < limit && #[trigger] raised_at_some_moment(number, was)
}

/// At some moment the number has reached the limit, and one is added to it.
pub open spec fn raised_past(number: AtomicUsize, limit: usize) -> bool {
    exists|was: usize| was >= limit && #[trigger] raised_at_some_moment(number, was)
}

/// At some moment the number has reached the limit.
pub open spec fn reached(number: AtomicUsize, limit: usize) -> bool {
    exists|was: usize| was >= limit && #[trigger] counts_at_some_moment(number, was)
}

/// `amount` is taken off the number at some moment.
pub open spec fn lowered(number: AtomicUsize, amount: usize) -> bool {
    exists|was: usize| #[trigger] lowered_at_some_moment(number, amount, was)
}

/// One owner's handle on a number that is counted up and down by several
/// owners at once.
///
/// What the number is at some moment depends on all of them. What a handle
/// has done to it does not: `balance` is what this handle has added so far,
/// less what it has taken off.
pub struct SharedCounter {
    handle: NumberHandle,
}

impl SharedCounter {
    /// The number that the handle is on. Handles on the same number agree in
    /// it.
    pub closed spec fn number(&self) -> Arc<AtomicUsize> {
        self.handle.number()
    }

    /// What this handle has added, less what it has taken off.
    pub closed spec fn balance(&self) -> int {
        self.handle.added()
    }

    /// A handle on a new number, which is zero.
    pub fn new() -> (r: Self)
        ensures
            r.balance() == 0,
            counts_at_some_moment(*r.number(), 0),
    {
        SharedCounter { handle: NumberHandle::new(0) }
    }

    /// Another handle on the same number.
    pub fn share(&self) -> (r: Self)
        ensures
            r.number() == self.number(),
            r.balance() == 0,
    {
        SharedCounter { handle: self.handle.share() }
    }

    /// Adds one and hands back what the number was before.
    pub fn add_one(&mut self) -> (r: usize)
        ensures
            final(self).number() == old(self).number(),
            final(self).balance() == old(self).balance() + 1,
            raised_at_some_moment(*old(self).number(), r),
    {
        raise(&mut self.handle)
    }

    /// Takes `amount` off.
    pub fn take_off(&mut self, amount: usize)
        ensures
            final(self).number() == old(self).number(),
            final(self).balance() == old(self).balance() - amount,
            lowered(*old(self).number(), amount),
    {
        let was = lower(&mut self.handle, amount);
        assert(lowered_at_some_moment(*old(self).number(), amount, was));
    }

    /// Adds one if the number is below the limit. Returns what the number was,
    /// as `Ok` if it was raised.
    pub fn add_one_below(&mut self, limit: usize) -> (r: Result<usize, usize>)
        ensures
            final(self).number() == old(self).number(),
            match r {
                Ok(was) => {
                    &&& was < limit
                    &&& raised_at_some_moment(*old(self).number(), was)
                    &&& final(self).balance() == old(self).balance() + 1
                },
                Err(was) => {
                    &&& was >= limit
                    &&& counts_at_some_moment(*old(self).number(), was)
                    &&& final(self).balance() == old(self).balance()
                },
            },
    {
        raise_below(&mut self.handle, limit)
    }
}

} // verus!
