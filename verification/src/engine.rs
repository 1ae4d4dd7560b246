//! The engine: two grid buffers and the step from one generation to the next.

use crate::grid::{well_formed, Grid};
use crate::rules::{compute_next_generation, generations, next_generation, same_shape};
use vstd::prelude::*;

verus! {

/// Holds the current generation and a scratch buffer of the same dimensions
/// into which the next one is written. Its view is the current generation.
#[derive(Debug)]
pub struct LifeEngine {
    current: Grid,
    next: Grid,
}

impl View for LifeEngine {
    type V = Seq<Seq<u8>>;

    closed spec fn view(&self) -> Seq<Seq<u8>> {
        self.current@
    }
}

impl LifeEngine {
    /// Both buffers are grids, and of the same dimensions.
    pub closed spec fn wf(&self) -> bool {
        &&& self.current.wf()
        &&& self.next.wf()
        &&& same_shape(self.next@, self.current@)
    }

    /// The current generation of a well-formed engine is a grid.
    pub proof fn lemma_current_is_grid(&self)
        requires
            self.wf(),
        ensures
            well_formed(self@),
    {
    }

    /// Where two engines hold the same generation, they hold the same one
    /// after any number of steps: what follows depends on the current
    /// generation alone, not on what the scratch buffer holds.
    pub proof fn lemma_same_start_same_result(&self, other: &LifeEngine, n: nat)
        requires
            self@ == other@,
        ensures
            generations(self@, n) == generations(other@, n),
    {
    }

    /// Starts an engine on `grid`. The scratch buffer begins as a copy of it.
    pub fn new(grid: Grid) -> (engine: LifeEngine)
        requires
            grid.wf(),
        ensures
            engine.wf(),
            engine@ == grid@,
    {
        let next = grid.clone();
        LifeEngine { current: grid, next }
    }

    /// The current generation.
    pub fn current(&self) -> (grid: &Grid)
        requires
            self.wf(),
        ensures
            grid@ == self@,
            grid.wf(),
    {
        &self.current
    }

    /// Moves on by one generation. The new generation is computed from the
    /// old one alone and has its dimensions.
    pub fn advance(&mut self)
        requires
            old(self).wf(),
        ensures
            final(self).wf(),
            final(self)@ == next_generation(old(self)@),
            same_shape(final(self)@, old(self)@),
    {
        compute_next_generation(&self.current, &mut self.next);
        std::mem::swap(&mut self.current, &mut self.next);
    }

    /// Moves on by `n` generations.
    pub fn advance_by(&mut self, n: u64)
        requires
            old(self).wf(),
        ensures
            final(self).wf(),
            final(self)@ == generations(old(self)@, n as nat),
            same_shape(final(self)@, old(self)@),
    {
        let mut i: u64 = 0;
        while i < n
            invariant
                i <= n,
                self.wf(),
                self@ == generations(old(self)@, i as nat),
                same_shape(self@, old(self)@),
            decreases n - i,
        {
            self.advance();
            i += 1;
        }
    }
}

} // verus!
