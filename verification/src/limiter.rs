//! The concurrency limiter: a fixed pool of fetch slots.

use vstd::prelude::*;

verus! {

/// Proof that its holder took a slot from a [`Limiter`].  A token cannot be
/// made or copied outside this module; it is spent by giving the slot back.
#[derive(Debug)]
pub struct Token {
    _slot: (),
}

/// A pool of fetch slots.
#[derive(Debug)]
pub struct Limiter {
    capacity: usize,
    in_flight: usize,
}

/// The mathematical value of a [`Limiter`].
pub struct LimiterView {
    /// The number of slots in the pool.
    pub capacity: nat,
    /// The number of slots that are taken.
    pub in_flight: nat,
}

impl View for Limiter {
    type V = LimiterView;

    closed spec fn view(&self) -> LimiterView {
        LimiterView { capacity: self.capacity as nat, in_flight: self.in_flight as nat }
    }
}

impl Limiter {
    /// A limiter has a slot, and never has more slots taken than it has.
    pub open spec fn wf(&self) -> bool {
        0 < self@.capacity && self@.in_flight <= self@.capacity
    }

    /// A pool of `capacity` free slots.
    pub fn new(capacity: usize) -> (limiter: Limiter)
        requires
            capacity > 0,
        ensures
            limiter.wf(),
            limiter@ == (LimiterView { capacity: capacity as nat, in_flight: 0 }),
    {
        Limiter { capacity, in_flight: 0 }
    }

    /// Takes a slot if one is free.  A caller that gets `None` has to wait
    /// until a slot is given back and ask again.
    pub fn try_acquire(&mut self) -> (token: Option<Token>)
        requires
            old(self).wf(),
        ensures
            final(self).wf(),
            token is Some <==> old(self)@.in_flight < old(self)@.capacity,
            token is Some ==> final(self)@ == (LimiterView {
                in_flight: old(self)@.in_flight + 1,
                ..old(self)@
            }),
            token is None ==> final(self)@ == old(self)@,
    {
        if self.in_flight < self.capacity {
            self.in_flight = self.in_flight + 1;
            Some(Token { _slot: () })
        } else {
            None
        }
    }

    /// Gives a slot back.
    pub fn release(&mut self, token: Token)
        requires
            old(self).wf(),
            old(self)@.in_flight > 0,
        ensures
            final(self).wf(),
            final(self)@ == (LimiterView {
                in_flight: (old(self)@.in_flight - 1) as nat,
                ..old(self)@
            }),
    {
        let Token { _slot } = token;
        self.in_flight = self.in_flight - 1;
    }

    /// The number of slots in the pool.
    pub fn capacity(&self) -> (n: usize)
        ensures
            n == self@.capacity,
    {
        self.capacity
    }

    /// The number of slots that are taken.
    pub fn in_flight(&self) -> (n: usize)
        ensures
            n == self@.in_flight,
    {
        self.in_flight
    }

    /// The number of slots that are free.
    pub fn available(&self) -> (n: usize)
        requires
            self.wf(),
        ensures
            n == self@.capacity - self@.in_flight,
    {
        self.capacity - self.in_flight
    }
}

} // verus!
