//! The rule evaluator: two pure decision functions of the live-neighbor
//! count.  The exact thresholds are explicit configuration of the engine,
//! not baked-in values, so every variant of the automaton states its own
//! birth and survival windows.

use vstd::prelude::*;

verus! {

/// The configurable thresholds of the automaton.
///
/// A dead cell spawns when its neighbor count lies in
/// `[birth_min, birth_max]`.  A live cell that is not yet decaying enters
/// its decline phase when its neighbor count lies outside
/// `[survive_min, survive_max]`.
#[derive(Clone, Copy, PartialEq, Eq, Structural, Debug)]
pub struct Rules {
    pub birth_min: u32,
    pub birth_max: u32,
    pub survive_min: u32,
    pub survive_max: u32,
}

impl Rules {
    /// Whether a dead cell with `n` live neighbors meets the birth
    /// condition.
    pub open spec fn spec_should_spawn(self, n: u32) -> bool {
        self.birth_min <= n <= self.birth_max
    }

    /// Whether a live, not-yet-decaying cell with `n` live neighbors
    /// meets the decline condition.
    pub open spec fn spec_should_decay(self, n: u32) -> bool {
        !(self.survive_min <= n <= self.survive_max)
    }

    /// Decides whether a currently-dead cell with `neighbors` live
    /// neighbors should come alive.
    pub fn should_spawn(&self, neighbors: u32) -> (r: bool)
        ensures
            r == self.spec_should_spawn(neighbors),
    {
        self.birth_min <= neighbors && neighbors <= self.birth_max
    }

    /// Decides whether a currently-alive, not-yet-decaying cell with
    /// `neighbors` live neighbors should enter its decline phase.
    pub fn should_decay(&self, neighbors: u32) -> (r: bool)
        ensures
            r == self.spec_should_decay(neighbors),
    {
        !(self.survive_min <= neighbors && neighbors <= self.survive_max)
    }

    /// The classic Life-compatible thresholds: birth on exactly 3 live
    /// neighbors, decline on anything outside 2 or 3.
    pub fn classic_life() -> (r: Rules)
        ensures
            r == (Rules { birth_min: 3u32, birth_max: 3u32, survive_min: 2u32, survive_max: 3u32 }),
    {
        Rules { birth_min: 3, birth_max: 3, survive_min: 2, survive_max: 3 }
    }
}

} // verus!
