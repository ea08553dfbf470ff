//! Fixed-step time: wall-clock time is added to a virtual clock, and the
//! simulation runs one tick for each whole tick period it passes.
use vstd::prelude::*;

use crate::object::TICKS_PER_SECOND;

verus! {

pub const MICROS_PER_SECOND: u64 = 1_000_000;

/// Length of a tick, rounded down: this constant is the authority.
pub const MICROS_PER_TICK: u64 = MICROS_PER_SECOND / TICKS_PER_SECOND;

pub struct TickClock {
    virtual_time: u128,
    last_tick: u32,
}

impl TickClock {
    /// Virtual time, in microseconds.
    pub closed spec fn spec_virtual_time(&self) -> int {
        self.virtual_time as int
    }

    /// Ticks run so far.
    pub closed spec fn spec_last_tick(&self) -> int {
        self.last_tick as int
    }

    /// The ticks run are the whole tick periods of the virtual time.
    pub open spec fn wf(&self) -> bool {
        self.spec_last_tick() == self.spec_virtual_time() / (MICROS_PER_TICK as int)
    }

    pub fn new() -> (r: Self)
        ensures
            r.wf(),
            r.spec_virtual_time() == 0,
    {
        TickClock { virtual_time: 0, last_tick: 0 }
    }

    pub fn virtual_time(&self) -> (r: u128)
        ensures
            r == self.spec_virtual_time(),
    {
        self.virtual_time
    }

    /// Adds `elapsed_micros` of wall-clock time and returns how many ticks
    /// are now due: the whole tick periods of the new virtual time less
    /// those already run.
    pub fn advance(&mut self, elapsed_micros: u128) -> (num_tick: u32)
        requires
            old(self).wf(),
            (old(self).spec_virtual_time() + elapsed_micros) / (MICROS_PER_TICK as int) <= u32::MAX,
        ensures
            final(self).wf(),
            final(self).spec_virtual_time() == old(self).spec_virtual_time() + elapsed_micros,
            num_tick == final(self).spec_virtual_time() / (MICROS_PER_TICK as int) - old(self).spec_virtual_time()
                / (MICROS_PER_TICK as int),
    {
        let vt = self.virtual_time;
        assert(MICROS_PER_TICK == 33333);
        assert(vt as int + elapsed_micros as int <= u128::MAX) by (nonlinear_arith)
            requires
                (vt + elapsed_micros) / 33333int <= u32::MAX,
                0 <= vt,
                0 <= elapsed_micros,
        ;
        self.virtual_time = vt + elapsed_micros;
        let tick = (self.virtual_time / MICROS_PER_TICK as u128) as u32;
        assert(vt as int / 33333int <= (vt + elapsed_micros) / 33333int) by (nonlinear_arith)
            requires
                0 <= vt,
                0 <= elapsed_micros,
        ;
        let num_tick = tick - self.last_tick;
        self.last_tick = tick;
        num_tick
    }

    /// Microseconds of virtual time since the start of the current tick;
    /// over `MICROS_PER_TICK` it is the interpolation factor.
    pub fn interp_micros(&self) -> (r: u64)
        ensures
            r == self.spec_virtual_time() % (MICROS_PER_TICK as int),
            r < MICROS_PER_TICK,
    {
        (self.virtual_time % MICROS_PER_TICK as u128) as u64
    }
}

} // verus!
