//! The simulation loop's decisions: the tick counter and the throttle.

use crate::engine::LifeEngine;
use crate::grid::Grid;
use crate::rules::{next_generation, same_shape};
use crate::speed::SpeedFactor;
use vstd::prelude::*;

verus! {

/// The throttle: the grid advances on the ticks whose number the divisor
/// divides.
pub open spec fn advances_on(tick: int, divisor: int) -> bool {
    tick % divisor == 0
}

/// Tells whether the grid advances on the tick with the given number.
pub fn should_advance(tick: u64, speed: SpeedFactor) -> (advance: bool)
    ensures
        advance == advances_on(tick as int, speed.spec_divisor()),
{
    tick % speed.divisor() == 0
}

/// A run of the game: the engine, the number of ticks so far, and the speed.
#[derive(Debug)]
pub struct Simulation {
    engine: LifeEngine,
    ticks: u64,
    speed: SpeedFactor,
}

impl Simulation {
    /// The engine is well formed.
    pub closed spec fn wf(&self) -> bool {
        self.engine.wf()
    }

    /// The current generation.
    pub closed spec fn spec_grid(&self) -> Seq<Seq<u8>> {
        self.engine@
    }

    /// The number of ticks so far.
    pub closed spec fn spec_ticks(&self) -> int {
        self.ticks as int
    }

    /// The speed of the run.
    pub closed spec fn spec_speed(&self) -> SpeedFactor {
        self.speed
    }

    /// Starts a run on `grid` at the given speed, with no tick behind it.
    pub fn new(grid: Grid, speed: SpeedFactor) -> (run: Simulation)
        requires
            grid.wf(),
        ensures
            run.wf(),
            run.spec_grid() == grid@,
            run.spec_ticks() == 0,
            run.spec_speed() == speed,
    {
        Simulation { engine: LifeEngine::new(grid), ticks: 0, speed }
    }

    /// The number of ticks so far.
    pub fn ticks(&self) -> (ticks: u64)
        ensures
            ticks == self.spec_ticks(),
    {
        self.ticks
    }

    /// The speed of the run.
    pub fn speed(&self) -> (speed: SpeedFactor)
        ensures
            speed == self.spec_speed(),
    {
        self.speed
    }

    /// The current generation, to be drawn after every tick.
    pub fn grid(&self) -> (grid: &Grid)
        requires
            self.wf(),
        ensures
            grid@ == self.spec_grid(),
            grid.wf(),
    {
        self.engine.current()
    }

    /// One tick: the counter goes up by one, and where the divisor divides
    /// its new value the grid advances by one generation. On every other
    /// tick the grid stays exactly as it was. Tells whether the grid advanced.
    pub fn tick(&mut self) -> (advanced: bool)
        requires
            old(self).wf(),
            old(self).spec_ticks() < u64::MAX,
        ensures
            final(self).wf(),
            final(self).spec_ticks() == old(self).spec_ticks() + 1,
            final(self).spec_speed() == old(self).spec_speed(),
            advanced == advances_on(final(self).spec_ticks(), old(self).spec_speed().spec_divisor()),
            advanced ==> final(self).spec_grid() == next_generation(old(self).spec_grid()),
            !advanced ==> final(self).spec_grid() == old(self).spec_grid(),
            same_shape(final(self).spec_grid(), old(self).spec_grid()),
    {
        self.ticks = self.ticks + 1;
        let advance = should_advance(self.ticks, self.speed);
        if advance {
            self.engine.advance();
        }
        advance
    }
}

} // verus!
