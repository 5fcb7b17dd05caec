//! The match validator: decides whether a selection clears, mutates the
//! grid and session accordingly, and reports the outcome.

use vstd::prelude::*;
use crate::bounds::{bbox_of, Area, Position};
use crate::grid::{
    cell_at, cleared_grid, pos_in_bounds, spec_cols, Grid,
};
use crate::scoring::{clear_delta, score_clear, session_after_clear};
use crate::session::GameSession;

verus! {

/// The exact sum a selection's tile values must reach to clear.
pub const TARGET_SUM: u64 = 10;

/// No two positions of a selection name the same cell.
pub open spec fn positions_distinct(ps: Seq<Position>) -> bool {
    forall|i: int, j: int| 0 <= i < j < ps.len() ==> ps[i] != ps[j]
}

/// Every selected position names a cell of the grid that still holds a
/// tile.
pub open spec fn selection_valid(g: Seq<Seq<Option<u8>>>, ps: Seq<Position>) -> bool {
    forall|k: int|
        0 <= k < ps.len() ==> pos_in_bounds(g, #[trigger] ps[k]) && cell_at(g, ps[k]) is Some
}

/// The value the selected cell contributes to the sum: its tile value, or
/// nothing for a cell that holds no tile.
pub open spec fn cell_value(g: Seq<Seq<Option<u8>>>, p: Position) -> nat {
    match cell_at(g, p) {
        Some(v) => v as nat,
        None => 0,
    }
}

/// The sum of the selected cells' tile values.
pub open spec fn sum_values(g: Seq<Seq<Option<u8>>>, ps: Seq<Position>) -> nat
    decreases ps.len(),
{
    if ps.len() == 0 {
        0
    } else {
        sum_values(g, ps.drop_last()) + cell_value(g, ps.last())
    }
}

/// The session with only its combo counter reset, as a rejected clear
/// leaves it.
pub open spec fn combo_reset(s: GameSession) -> GameSession {
    GameSession { combo: 0, ..s }
}

/// The optional cap on how many tiles one selection may cover. The cap is
/// off by default; when set, a selection with more tiles than the cap is
/// rejected even if its values sum to the target.
#[derive(Clone, Copy, Debug)]
pub struct MatchConfig {
    pub tile_cap: Option<u8>,
}

impl Default for MatchConfig {
    /// By default the cap is off.
    fn default() -> (c: Self)
        ensures
            c.tile_cap is None,
    {
        MatchConfig { tile_cap: None }
    }
}

/// Whether the configuration caps the selection size below `n` tiles.
pub open spec fn cap_exceeded(c: MatchConfig, n: nat) -> bool {
    match c.tile_cap {
        Some(cap) => n > cap,
        None => false,
    }
}

/// What one selection attempt produced. `Cleared` carries the removed
/// cells, their bounding box, and the score awarded. `Rejected` is the
/// ordinary game outcome for a sum other than the target, or for a capped
/// oversized selection. `NoOp` answers an empty selection. Naming an
/// out-of-range or already cleared cell is a caller error, reported as
/// `InvalidSelection` rather than a crash.
#[derive(Debug, PartialEq)]
pub enum MatchResult {
    Cleared { tiles: Vec<Position>, bounding_box: Area, score_delta: u64 },
    Rejected,
    NoOp,
    InvalidSelection,
}

/// Attempt to clear a selection of distinct cells.
///
/// An empty selection does nothing at all. An oversized selection (only
/// when the cap is on) or a selection whose values do not sum to the
/// target is rejected: the grid stays untouched and the combo falls back
/// to zero. A selection naming a cell outside the board or already
/// cleared changes nothing and reports the caller error. Otherwise the
/// selection is accepted: exactly the selected cells are emptied, the
/// session advances by the clear's worth, and the cleared cells, their
/// bounding box and the score delta are handed back for presentation.
#[verifier::loop_isolation(false)]
pub fn try_clear(
    grid: &mut Grid,
    session: &mut GameSession,
    positions: &Vec<Position>,
    config: &MatchConfig,
) -> (outcome: MatchResult)
    requires
        old(grid).wf(),
        positions_distinct(positions@),
    ensures
        final(grid).wf(),
        final(grid)@.len() == old(grid)@.len(),
        spec_cols(final(grid)@) == spec_cols(old(grid)@),
        positions@.len() == 0 ==> outcome == MatchResult::NoOp && final(grid)@ == old(grid)@
            && *final(session) == *old(session),
        positions@.len() > 0 && cap_exceeded(*config, positions@.len()) ==> outcome
            == MatchResult::Rejected && final(grid)@ == old(grid)@ && *final(session)
            == combo_reset(*old(session)),
        positions@.len() > 0 && !cap_exceeded(*config, positions@.len()) && !selection_valid(
            old(grid)@,
            positions@,
        ) ==> outcome == MatchResult::InvalidSelection && final(grid)@ == old(grid)@
            && *final(session) == *old(session),
        positions@.len() > 0 && !cap_exceeded(*config, positions@.len()) && selection_valid(
            old(grid)@,
            positions@,
        ) && sum_values(old(grid)@, positions@) != TARGET_SUM as nat ==> outcome
            == MatchResult::Rejected && final(grid)@ == old(grid)@ && *final(session)
            == combo_reset(*old(session)),
        positions@.len() > 0 && !cap_exceeded(*config, positions@.len()) && selection_valid(
            old(grid)@,
            positions@,
        ) && sum_values(old(grid)@, positions@) == TARGET_SUM as nat ==> final(grid)@
            == cleared_grid(old(grid)@, positions@) && *final(session) == session_after_clear(
            *old(session),
            bbox_of(positions@),
            positions@.len(),
        ) && (outcome matches MatchResult::Cleared { tiles, bounding_box, score_delta }
            && tiles@ == positions@ && bounding_box == bbox_of(positions@) && score_delta
            == clear_delta(*old(session), bbox_of(positions@), positions@.len())),
{
    let n: usize = positions.len();
    if n == 0 {
        return MatchResult::NoOp;
    }
    if let Some(cap) = config.tile_cap {
        if n > cap as usize {
            session.combo = 0;
            return MatchResult::Rejected;
        }
    }
    let rows: u8 = grid.rows();
    let cols: u8 = grid.cols();
    let mut k: usize = 0;
    while k < n
        invariant
            n == positions@.len(),
            k <= n,
            grid.wf(),
            grid@ == old(grid)@,
            rows as int == grid@.len(),
            cols as int == spec_cols(grid@),
            forall|m: int|
                0 <= m < k as int ==> pos_in_bounds(grid@, #[trigger] positions@[m]) && cell_at(
                    grid@,
                    positions@[m],
                ) is Some,
        decreases n - k,
    {
        let p: Position = positions[k];
        if !(p.row < rows && p.col < cols) {
            proof {
                assert(!(pos_in_bounds(grid@, positions@[k as int]) && cell_at(
                    grid@,
                    positions@[k as int],
                ) is Some));
            }
            return MatchResult::InvalidSelection;
        }
        let held: Option<u8> = grid.value_at(p);
        if held.is_none() {
            proof {
                assert(!(pos_in_bounds(grid@, positions@[k as int]) && cell_at(
                    grid@,
                    positions@[k as int],
                ) is Some));
            }
            return MatchResult::InvalidSelection;
        }
        k = k + 1;
    }
    let mut acc: u64 = 0;
    let mut i: usize = 0;
    while i < n
        invariant
            n == positions@.len(),
            i <= n,
            grid.wf(),
            grid@ == old(grid)@,
            selection_valid(grid@, positions@),
            acc == crate::scoring::sat64(sum_values(grid@, positions@.take(i as int)) as int),
        decreases n - i,
    {
        let p: Position = positions[i];
        proof {
            assert(pos_in_bounds(grid@, positions@[i as int]) && cell_at(
                grid@,
                positions@[i as int],
            ) is Some);
        }
        let v: u8 = match grid.value_at(p) {
            Some(v) => v,
            None => 0,
        };
        acc = acc.saturating_add(v as u64);
        proof {
            assert(positions@.take(i + 1).drop_last() =~= positions@.take(i as int));
            assert(positions@.take(i + 1).last() == positions@[i as int]);
        }
        i = i + 1;
    }
    proof {
        assert(positions@.take(n as int) =~= positions@);
    }
    if acc != TARGET_SUM {
        session.combo = 0;
        return MatchResult::Rejected;
    }
    grid.clear(positions);
    let bbox: Area = Area::from_positions(positions);
    proof {
        crate::bounds::lemma_bbox_bounds(positions@);
    }
    let tile_count: u64 = n as u64;
    let delta: u64 = score_clear(session, bbox, tile_count);
    session.prev_area = Some(bbox);
    let mut tiles: Vec<Position> = Vec::new();
    let mut t: usize = 0;
    while t < n
        invariant
            n == positions@.len(),
            t <= n,
            tiles@ == positions@.take(t as int),
        decreases n - t,
    {
        tiles.push(positions[t]);
        proof {
            assert(positions@.take(t + 1) =~= positions@.take(t as int).push(
                positions@[t as int],
            ));
        }
        t = t + 1;
    }
    proof {
        assert(tiles@ =~= positions@);
    }
    MatchResult::Cleared { tiles, bounding_box: bbox, score_delta: delta }
}

} // verus!
