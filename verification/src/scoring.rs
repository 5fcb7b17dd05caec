//! The scoring engine: the area bonus, the combo bonus with its piecewise
//! growth curve, and the session update an accepted clear performs.

use vstd::prelude::*;
use crate::bounds::{Area, spec_area, spec_intersects};
use crate::session::{fresh_session, GameSession};

verus! {

/// Clamp a mathematical integer into the range of `u64`.
pub open spec fn sat64(x: int) -> u64 {
    if x > u64::MAX {
        u64::MAX
    } else if x < 0 {
        0
    } else {
        x as u64
    }
}

/// The integer square root: the largest k whose square is at most n.
pub open spec fn sqrt_floor(n: nat) -> nat
    decreases n,
{
    if n == 0 {
        0
    } else {
        let r = sqrt_floor((n - 1) as nat);
        if (r + 1) * (r + 1) <= n {
            r + 1
        } else {
            r
        }
    }
}

/// The integer square root satisfies the two-sided bound that defines it.
pub proof fn lemma_sqrt_floor_bounds(n: nat)
    ensures
        sqrt_floor(n) * sqrt_floor(n) <= n,
        n < (sqrt_floor(n) + 1) * (sqrt_floor(n) + 1),
    decreases n,
{
    if n == 0 {
        assert(sqrt_floor(0) == 0);
        assert(n < (sqrt_floor(n) + 1) * (sqrt_floor(n) + 1)) by (nonlinear_arith)
            requires
                n == 0,
                sqrt_floor(n) == 0,
        ;
    } else {
        lemma_sqrt_floor_bounds((n - 1) as nat);
        let r = sqrt_floor((n - 1) as nat);
        if (r + 1) * (r + 1) <= n {
            assert(sqrt_floor(n) == r + 1);
            assert(n <= (r + 1) * (r + 1));
            assert(n < (r + 2) * (r + 2)) by (nonlinear_arith)
                requires
                    n <= (r + 1) * (r + 1),
            ;
            assert((sqrt_floor(n) + 1) * (sqrt_floor(n) + 1) == (r + 2) * (r + 2));
        } else {
            assert(sqrt_floor(n) == r);
            assert(r * r <= n);
        }
    }
}

/// Any k meeting the two-sided bound is the integer square root: the bound
/// pins the value down uniquely.
pub proof fn lemma_sqrt_floor_unique(n: nat, k: nat)
    requires
        k * k <= n,
        n < (k + 1) * (k + 1),
    ensures
        k == sqrt_floor(n),
{
    lemma_sqrt_floor_bounds(n);
    let r = sqrt_floor(n);
    if k < r {
        assert((k + 1) * (k + 1) <= r * r) by (nonlinear_arith)
            requires
                k + 1 <= r,
        ;
    }
    if r < k {
        assert((r + 1) * (r + 1) <= k * k) by (nonlinear_arith)
            requires
                r + 1 <= k,
        ;
    }
}

/// The bonus an accepted, overlapping clear awards at combo level `c`: the
/// floor of c raised to the power three halves while c is below six, and
/// twice c from six upward, clamped into `u64`. The switch at six makes
/// the curve dip at the boundary; the rule is kept exactly as the game
/// defines it.
pub open spec fn combo_bonus(c: u64) -> u64 {
    if c < 6 {
        sqrt_floor((c * c * c) as nat) as u64
    } else {
        sat64(2 * c)
    }
}

/// Compute the combo bonus for level `c`. Below six the bonus is the
/// integer square root of c cubed, found by counting upward.
pub fn combo_bonus_value(c: u64) -> (b: u64)
    ensures
        b == combo_bonus(c),
{
    if c < 6 {
        proof {
            assert(c * c <= 25 && c * c * c <= 125) by (nonlinear_arith)
                requires
                    c <= 5,
            ;
        }
        let cube: u64 = c * c * c;
        let mut k: u64 = 0;
        let mut next_sq: u64 = 1;
        while next_sq <= cube
            invariant
                cube <= 125,
                k <= 11,
                k * k <= cube,
                next_sq == (k + 1) * (k + 1),
            decreases 125 - k,
        {
            proof {
                assert(k <= 10) by (nonlinear_arith)
                    requires
                        (k + 1) * (k + 1) <= 125,
                ;
            }
            k = k + 1;
            next_sq = next_sq + 2 * k + 1;
            proof {
                assert((k + 1) * (k + 1) == k * k + 2 * k + 1) by (nonlinear_arith);
            }
        }
        proof {
            lemma_sqrt_floor_unique(cube as nat, k as nat);
        }
        k
    } else {
        if c <= u64::MAX / 2 {
            2 * c
        } else {
            u64::MAX
        }
    }
}

/// Whether a clear's box overlaps the previous clear's box, so the combo
/// chain continues; before any clear there is nothing to overlap.
pub open spec fn extends_combo(s: GameSession, b: Area) -> bool {
    match s.prev_area {
        Some(p) => spec_intersects(b, p),
        None => false,
    }
}

/// The combo counter after an accepted clear with bounding box `b`.
pub open spec fn combo_after(s: GameSession, b: Area) -> u64 {
    if extends_combo(s, b) {
        sat64(s.combo + 1)
    } else {
        0
    }
}

/// The combo contribution to an accepted clear's score.
pub open spec fn bonus_after(s: GameSession, b: Area) -> u64 {
    if extends_combo(s, b) {
        combo_bonus(combo_after(s, b))
    } else {
        0
    }
}

/// What an accepted clear is worth: one point per cleared tile, the area
/// of the bounding box, and the combo bonus, clamped into `u64`.
pub open spec fn clear_delta(s: GameSession, b: Area, tile_count: nat) -> u64 {
    sat64(tile_count + spec_area(b) + bonus_after(s, b))
}

/// The accumulated score after an accepted clear.
pub open spec fn score_after(s: GameSession, b: Area, tile_count: nat) -> u64 {
    sat64(s.score + clear_delta(s, b, tile_count))
}

/// The whole session state after an accepted clear: the new score and
/// combo, with the clear's box remembered for the next overlap test.
pub open spec fn session_after_clear(s: GameSession, b: Area, tile_count: nat) -> GameSession {
    GameSession {
        score: score_after(s, b, tile_count),
        combo: combo_after(s, b),
        prev_area: Some(b),
        ..s
    }
}

/// Apply an accepted clear of `tile_count` tiles with bounding box `bbox`
/// to the session: the combo grows or resets depending on overlap with the
/// previous clear, and the score rises by the clear's worth, which is
/// returned. Recording `bbox` as the new previous box is left to the
/// caller, which does so after this update.
pub fn score_clear(session: &mut GameSession, bbox: Area, tile_count: u64) -> (delta: u64)
    requires
        bbox.well_formed(),
    ensures
        delta == clear_delta(*old(session), bbox, tile_count as nat),
        final(session).combo == combo_after(*old(session), bbox),
        final(session).score == score_after(*old(session), bbox, tile_count as nat),
        final(session).prev_area == old(session).prev_area,
        final(session).remaining_ms == old(session).remaining_ms,
        final(session).round_ms == old(session).round_ms,
        final(session).phase == old(session).phase,
{
    let overlaps: bool = match session.prev_area {
        Some(p) => bbox.intersect(&p),
        None => false,
    };
    let bonus: u64;
    if overlaps {
        session.combo = session.combo.saturating_add(1);
        bonus = combo_bonus_value(session.combo);
    } else {
        session.combo = 0;
        bonus = 0;
    }
    let area: u32 = bbox.area();
    let delta: u64 = tile_count.saturating_add(area as u64).saturating_add(bonus);
    session.score = session.score.saturating_add(delta);
    delta
}

/// The sound cue picked for a cleared area, bucketed by size: cue one
/// below three cells, cue two below six, cue three below nine, cue four
/// below sixteen, and cue five for anything larger.
pub fn area_sound_bucket(area: u32) -> (cue: u8)
    ensures
        area < 3 ==> cue == 1,
        3 <= area < 6 ==> cue == 2,
        6 <= area < 9 ==> cue == 3,
        9 <= area < 16 ==> cue == 4,
        16 <= area ==> cue == 5,
{
    if area < 3 {
        1
    } else if area < 6 {
        2
    } else if area < 9 {
        3
    } else if area < 16 {
        4
    } else {
        5
    }
}

/// Combo sequencing across three accepted clears that open a round: when
/// each clear's box overlaps the one before it, the combo counter climbs
/// from zero to one and then two; when the third clear does not overlap
/// the second, the counter falls back to zero instead.
pub proof fn lemma_combo_sequencing(
    s0: GameSession,
    b1: Area,
    b2: Area,
    b3: Area,
    t1: nat,
    t2: nat,
    t3: nat,
)
    requires
        s0.prev_area is None,
        spec_intersects(b1, b2),
    ensures
        session_after_clear(s0, b1, t1).combo == 0,
        session_after_clear(session_after_clear(s0, b1, t1), b2, t2).combo == 1,
        spec_intersects(b2, b3) ==> session_after_clear(
            session_after_clear(session_after_clear(s0, b1, t1), b2, t2),
            b3,
            t3,
        ).combo == 2,
        !spec_intersects(b2, b3) ==> session_after_clear(
            session_after_clear(session_after_clear(s0, b1, t1), b2, t2),
            b3,
            t3,
        ).combo == 0,
{
}

/// A reset session is indistinguishable from a freshly created one of the
/// same duration: the two states are equal outright, so any later clear
/// yields the same combo, score and delta on both — no residual combo,
/// score or previous-clear box survives a reset.
pub proof fn lemma_reset_behaves_like_fresh(
    after_reset: GameSession,
    brand_new: GameSession,
    b: Area,
    tile_count: nat,
)
    requires
        after_reset == fresh_session(after_reset.round_ms),
        brand_new == fresh_session(after_reset.round_ms),
    ensures
        after_reset == brand_new,
        session_after_clear(after_reset, b, tile_count) == session_after_clear(
            brand_new,
            b,
            tile_count,
        ),
{
}

} // verus!
