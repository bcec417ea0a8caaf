//! Per-pixel random stream.
//!
//! The stream state is a small integer vector (two 32-bit lanes).  Every draw
//! is an exact function of the state, so a render seeded identically replays
//! the identical stream.  Draws are fixed-point values in `[0, 1)`, i.e. raw
//! values in `[0, FX_ONE)`.

use vstd::prelude::*;
use crate::FX_ONE;

verus! {

/// Per-pixel random stream state: two 32-bit lanes.
#[derive(Clone, Copy, PartialEq, Eq, Structural, Debug)]
pub struct Sampler {
    pub a: u32,
    pub b: u32,
}

/// One xorshift round on a single 32-bit lane.
pub open spec fn lane_step(x: u32) -> u32 {
    let p = x ^ (x << 13u32);
    let q = p ^ (p >> 17u32);
    q ^ (q << 5u32)
}

/// The state after one draw: both lanes advance independently.
pub open spec fn state_step(s: Sampler) -> Sampler {
    Sampler { a: lane_step(s.a), b: lane_step(s.b) }
}

/// The fixed-point value in `[0, FX_ONE)` produced by one draw from state `s`.
pub open spec fn draw_fx(s: Sampler) -> i64 {
    (((lane_step(s.a) ^ lane_step(s.b)) >> 16u32)) as i64
}

/// The state after `n` draws.
pub open spec fn state_after(s: Sampler, n: nat) -> Sampler
    decreases n,
{
    if n == 0 {
        s
    } else {
        state_step(state_after(s, (n - 1) as nat))
    }
}

/// The first `n` draws of the stream starting at `s`.
pub open spec fn stream(s: Sampler, n: nat) -> Seq<i64>
    decreases n,
{
    if n == 0 {
        Seq::empty()
    } else {
        stream(s, (n - 1) as nat).push(draw_fx(state_after(s, (n - 1) as nat)))
    }
}

fn lane_step_exec(x: u32) -> (r: u32)
    ensures
        r == lane_step(x),
{
    let p = x ^ (x << 13u32);
    let q = p ^ (p >> 17u32);
    q ^ (q << 5u32)
}

impl Sampler {
    /// Seed the stream; the same seed always yields the same stream.
    pub fn new(a: u32, b: u32) -> (s: Self)
        ensures
            s == (Sampler { a, b }),
    {
        Sampler { a, b }
    }

    /// Draw one fixed-point value in `[0, FX_ONE)` and advance the state.
    pub fn gen_r1(&mut self) -> (r: i64)
        ensures
            *final(self) == state_step(*old(self)),
            r == draw_fx(*old(self)),
            0 <= r < FX_ONE,
    {
        let na = lane_step_exec(self.a);
        let nb = lane_step_exec(self.b);
        assert((na ^ nb) >> 16u32 < 65536u32) by (bit_vector);
        let out = (na ^ nb) >> 16u32;
        self.a = na;
        self.b = nb;
        out as i64
    }

    /// Draw two values; the stream is consumed in order.
    pub fn gen_r2(&mut self) -> (r: (i64, i64))
        ensures
            *final(self) == state_after(*old(self), 2),
            r.0 == draw_fx(*old(self)),
            r.1 == draw_fx(state_step(*old(self))),
            0 <= r.0 < FX_ONE,
            0 <= r.1 < FX_ONE,
    {
        let r0 = self.gen_r1();
        let r1 = self.gen_r1();
        proof {
            assert(state_after(*old(self), 0) == *old(self));
            assert(state_after(*old(self), 1) == state_step(*old(self)));
            assert(state_after(*old(self), 2) == state_step(state_after(*old(self), 1)));
        }
        (r0, r1)
    }

    /// Draw three values; the stream is consumed in order.
    pub fn gen_r3(&mut self) -> (r: (i64, i64, i64))
        ensures
            *final(self) == state_after(*old(self), 3),
            r.0 == draw_fx(*old(self)),
            r.1 == draw_fx(state_step(*old(self))),
            r.2 == draw_fx(state_step(state_step(*old(self)))),
            0 <= r.0 < FX_ONE,
            0 <= r.1 < FX_ONE,
            0 <= r.2 < FX_ONE,
    {
        let r0 = self.gen_r1();
        let r1 = self.gen_r1();
        let r2 = self.gen_r1();
        proof {
            assert(state_after(*old(self), 0) == *old(self));
            assert(state_after(*old(self), 1) == state_step(*old(self)));
            assert(state_after(*old(self), 2) == state_step(state_after(*old(self), 1)));
            assert(state_after(*old(self), 3) == state_step(state_after(*old(self), 2)));
        }
        (r0, r1, r2)
    }

    /// The state to persist for the next sample of this pixel.
    pub fn next_state(&self) -> (r: (u32, u32))
        ensures
            r.0 == self.a,
            r.1 == self.b,
    {
        (self.a, self.b)
    }
}

/// Determinism: two streams from equal seeds are equal, draw for draw.
pub proof fn lemma_stream_deterministic(s: Sampler, t: Sampler, n: nat)
    requires
        s == t,
    ensures
        stream(s, n) == stream(t, n),
{
}

} // verus!
