//! The round state: score, combo counter, the previous clear's bounding
//! box, the countdown timer, and the round's phase.

use vstd::prelude::*;
use crate::bounds::Area;
use crate::grid::Grid;

verus! {

/// The phase of a round. A round starts in `Starting`, plays in `Playing`,
/// and ends in `Finished` when the countdown reaches zero; a retry goes
/// back to `Starting`.
#[derive(Clone, Copy, Debug, PartialEq, Eq, Structural)]
pub enum Phase {
    Starting,
    Playing,
    Finished,
}

/// All mutable state of one round. The score never decreases while a round
/// runs; the combo counter resets to zero whenever a clear is rejected or
/// fails to overlap the previous clear's bounding box.
#[derive(Debug)]
pub struct GameSession {
    pub score: u64,
    pub combo: u64,
    pub prev_area: Option<Area>,
    pub remaining_ms: u64,
    pub round_ms: u64,
    pub phase: Phase,
}

/// The state every session holds right after creation or reset: nothing
/// scored, no combo, no previous clear, the full round duration ahead.
pub open spec fn fresh_session(round_ms: u64) -> GameSession {
    GameSession {
        score: 0,
        combo: 0,
        prev_area: None,
        remaining_ms: round_ms,
        round_ms,
        phase: Phase::Starting,
    }
}

impl GameSession {
    /// Open a new round of the given duration.
    pub fn new(round_ms: u64) -> (s: GameSession)
        ensures
            s == fresh_session(round_ms),
    {
        GameSession {
            score: 0,
            combo: 0,
            prev_area: None,
            remaining_ms: round_ms,
            round_ms,
            phase: Phase::Starting,
        }
    }

    /// Leave the starting screen and begin play.
    pub fn start(&mut self)
        requires
            old(self).phase == Phase::Starting,
        ensures
            *final(self) == (GameSession { phase: Phase::Playing, ..*old(self) }),
    {
        self.phase = Phase::Playing;
    }

    /// Advance the countdown by the elapsed time. When the countdown runs
    /// out the round moves to its terminal `Finished` phase; otherwise the
    /// remaining time simply shrinks and play goes on.
    pub fn tick(&mut self, elapsed_ms: u64)
        requires
            old(self).phase == Phase::Playing,
        ensures
            elapsed_ms < old(self).remaining_ms ==> *final(self) == (GameSession {
                remaining_ms: (old(self).remaining_ms - elapsed_ms) as u64,
                ..*old(self)
            }),
            elapsed_ms >= old(self).remaining_ms ==> *final(self) == (GameSession {
                remaining_ms: 0,
                phase: Phase::Finished,
                ..*old(self)
            }),
    {
        if elapsed_ms < self.remaining_ms {
            self.remaining_ms = self.remaining_ms - elapsed_ms;
        } else {
            self.remaining_ms = 0;
            self.phase = Phase::Finished;
        }
    }

    /// Restart the round: the session returns to the exact state a freshly
    /// created session of the same duration has, and the board is dealt
    /// anew with the same dimensions.
    pub fn reset(&mut self, grid: &mut Grid)
        requires
            old(grid).wf(),
        ensures
            *final(self) == fresh_session(old(self).round_ms),
            final(grid).wf(),
            final(grid)@.len() == old(grid)@.len(),
            crate::grid::spec_cols(final(grid)@) == crate::grid::spec_cols(old(grid)@),
            crate::grid::all_populated(final(grid)@),
    {
        self.score = 0;
        self.combo = 0;
        self.prev_area = None;
        self.remaining_ms = self.round_ms;
        self.phase = Phase::Starting;
        grid.reset();
    }
}

} // verus!
