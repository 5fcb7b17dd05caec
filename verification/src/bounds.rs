//! Grid coordinates, axis-aligned bounding boxes, and the screen-space
//! selection rectangle.

use vstd::prelude::*;

verus! {

/// A grid cell coordinate: `row` counts from the bottom, `col` from the left.
#[derive(Clone, Copy, Debug, PartialEq, Eq, Structural)]
pub struct Position {
    pub row: u8,
    pub col: u8,
}

/// The minimal axis-aligned rectangle, in grid coordinates, enclosing a
/// non-empty set of cells. `upper`/`lower` bound the rows, `left`/`right`
/// the columns; all four bounds belong to the box.
#[derive(Clone, Copy, Debug, PartialEq, Eq, Structural)]
pub struct Area {
    pub upper: u8,
    pub lower: u8,
    pub left: u8,
    pub right: u8,
}

/// Two boxes overlap when their projections overlap on both axes; boxes
/// that merely touch along an edge still count as overlapping.
pub open spec fn spec_intersects(a: Area, b: Area) -> bool {
    a.right >= b.left && b.right >= a.left && a.upper >= b.lower && b.upper >= a.lower
}

/// Whether the cell `p` lies within the box `b`.
pub open spec fn in_box(b: Area, p: Position) -> bool {
    b.lower <= p.row <= b.upper && b.left <= p.col <= b.right
}

/// The box spanning exactly one cell.
pub open spec fn box_of_one(p: Position) -> Area {
    Area { upper: p.row, lower: p.row, left: p.col, right: p.col }
}

/// The box `b` grown just enough to also cover the cell `p`.
pub open spec fn extend_box(b: Area, p: Position) -> Area {
    Area {
        upper: if p.row > b.upper { p.row } else { b.upper },
        lower: if p.row < b.lower { p.row } else { b.lower },
        left: if p.col < b.left { p.col } else { b.left },
        right: if p.col > b.right { p.col } else { b.right },
    }
}

/// The minimal enclosing box of a non-empty sequence of cells, folded
/// left to right.
pub open spec fn bbox_of(ps: Seq<Position>) -> Area
    recommends
        ps.len() >= 1,
    decreases ps.len(),
{
    if ps.len() <= 1 {
        box_of_one(ps[0])
    } else {
        extend_box(bbox_of(ps.drop_last()), ps.last())
    }
}

/// The number of cells a box spans: its width times its height.
pub open spec fn spec_area(b: Area) -> int {
    (b.upper - b.lower + 1) * (b.right - b.left + 1)
}

impl Area {
    /// A box derived from at least one cell always has its bounds ordered.
    pub open spec fn well_formed(self) -> bool {
        self.lower <= self.upper && self.left <= self.right
    }

    /// The axis-aligned overlap test used for combo detection.
    pub fn intersect(&self, other: &Area) -> (r: bool)
        ensures
            r == spec_intersects(*self, *other),
    {
        if self.right < other.left || other.right < self.left {
            return false;
        }
        if self.upper < other.lower || other.upper < self.lower {
            return false;
        }
        true
    }

    /// The cell count of the box, at least one for a well-formed box.
    pub fn area(&self) -> (a: u32)
        requires
            self.well_formed(),
        ensures
            a as int == spec_area(*self),
            1 <= a <= 65536,
    {
        let h: u32 = (self.upper - self.lower) as u32 + 1;
        let w: u32 = (self.right - self.left) as u32 + 1;
        proof {
            assert(1 <= h * w <= 65536) by (nonlinear_arith)
                requires
                    1 <= h <= 256,
                    1 <= w <= 256,
            ;
        }
        h * w
    }

    /// Fold the minimal enclosing box over a non-empty selection.
    pub fn from_positions(positions: &Vec<Position>) -> (b: Area)
        requires
            positions@.len() >= 1,
        ensures
            b == bbox_of(positions@),
            b.well_formed(),
    {
        let first: Position = positions[0];
        let mut b = Area { upper: first.row, lower: first.row, left: first.col, right: first.col };
        let mut i: usize = 1;
        while i < positions.len()
            invariant
                1 <= i <= positions@.len(),
                b == bbox_of(positions@.take(i as int)),
                b.well_formed(),
            decreases positions@.len() - i,
        {
            let p: Position = positions[i];
            if p.row > b.upper {
                b.upper = p.row;
            }
            if p.row < b.lower {
                b.lower = p.row;
            }
            if p.col < b.left {
                b.left = p.col;
            }
            if p.col > b.right {
                b.right = p.col;
            }
            proof {
                let ps = positions@;
                assert(ps.take(i + 1).drop_last() =~= ps.take(i as int));
                assert(ps.take(i + 1).last() == ps[i as int]);
            }
            i = i + 1;
        }
        proof {
            assert(positions@.take(positions@.len() as int) =~= positions@);
        }
        b
    }
}

/// Every cell of a non-empty selection lies within its bounding box, and
/// that box is well-formed.
pub proof fn lemma_bbox_bounds(ps: Seq<Position>)
    requires
        ps.len() >= 1,
    ensures
        bbox_of(ps).well_formed(),
        forall|k: int| 0 <= k < ps.len() ==> in_box(bbox_of(ps), #[trigger] ps[k]),
    decreases ps.len(),
{
    if ps.len() > 1 {
        lemma_bbox_bounds(ps.drop_last());
        assert forall|k: int| 0 <= k < ps.len() implies in_box(bbox_of(ps), #[trigger] ps[k]) by {
            if k < ps.len() - 1 {
                assert(in_box(bbox_of(ps.drop_last()), ps.drop_last()[k]));
            }
        }
    }
}

/// Each of the four bounds of a bounding box is attained by some cell of
/// the selection: the box is tight.
pub proof fn lemma_bbox_attained(ps: Seq<Position>)
    requires
        ps.len() >= 1,
    ensures
        exists|k: int| 0 <= k < ps.len() && (#[trigger] ps[k]).row == bbox_of(ps).upper,
        exists|k: int| 0 <= k < ps.len() && (#[trigger] ps[k]).row == bbox_of(ps).lower,
        exists|k: int| 0 <= k < ps.len() && (#[trigger] ps[k]).col == bbox_of(ps).left,
        exists|k: int| 0 <= k < ps.len() && (#[trigger] ps[k]).col == bbox_of(ps).right,
    decreases ps.len(),
{
    if ps.len() == 1 {
        assert(ps[0].row == bbox_of(ps).upper);
    } else {
        let prev = ps.drop_last();
        lemma_bbox_attained(prev);
        let b = bbox_of(ps);
        let last_k = ps.len() - 1;
        if b.upper != ps[last_k].row {
            let k = choose|k: int| 0 <= k < prev.len() && (#[trigger] prev[k]).row == bbox_of(prev).upper;
            assert(ps[k].row == b.upper);
        }
        if b.lower != ps[last_k].row {
            let k = choose|k: int| 0 <= k < prev.len() && (#[trigger] prev[k]).row == bbox_of(prev).lower;
            assert(ps[k].row == b.lower);
        }
        if b.left != ps[last_k].col {
            let k = choose|k: int| 0 <= k < prev.len() && (#[trigger] prev[k]).col == bbox_of(prev).left;
            assert(ps[k].col == b.left);
        }
        if b.right != ps[last_k].col {
            let k = choose|k: int| 0 <= k < prev.len() && (#[trigger] prev[k]).col == bbox_of(prev).right;
            assert(ps[k].col == b.right);
        }
    }
}

/// The bounding box depends only on which cells are selected, never on the
/// order in which the selection lists them.
pub proof fn lemma_bbox_permutation_invariant(ps1: Seq<Position>, ps2: Seq<Position>)
    requires
        ps1.len() >= 1,
        ps1.to_multiset() == ps2.to_multiset(),
    ensures
        bbox_of(ps1) == bbox_of(ps2),
{
    broadcast use vstd::seq_lib::group_to_multiset_ensures;

    vstd::seq_lib::to_multiset_len(ps1);
    vstd::seq_lib::to_multiset_len(ps2);
    assert(ps2.len() == ps1.len());
    lemma_bbox_bounds(ps1);
    lemma_bbox_bounds(ps2);
    lemma_bbox_attained(ps1);
    lemma_bbox_attained(ps2);
    let b1 = bbox_of(ps1);
    let b2 = bbox_of(ps2);
    assert forall|p: Position| ps1.contains(p) implies ps2.contains(p) by {
        assert(ps1.to_multiset().count(p) > 0);
    }
    assert forall|p: Position| ps2.contains(p) implies ps1.contains(p) by {
        assert(ps2.to_multiset().count(p) > 0);
    }
    assert(b1.upper <= b2.upper) by {
        let k = choose|k: int| 0 <= k < ps1.len() && (#[trigger] ps1[k]).row == b1.upper;
        assert(ps1.contains(ps1[k]));
        let j = choose|j: int| 0 <= j < ps2.len() && ps2[j] == ps1[k];
        assert(in_box(b2, ps2[j]));
    }
    assert(b2.upper <= b1.upper) by {
        let k = choose|k: int| 0 <= k < ps2.len() && (#[trigger] ps2[k]).row == b2.upper;
        assert(ps2.contains(ps2[k]));
        let j = choose|j: int| 0 <= j < ps1.len() && ps1[j] == ps2[k];
        assert(in_box(b1, ps1[j]));
    }
    assert(b1.lower >= b2.lower) by {
        let k = choose|k: int| 0 <= k < ps1.len() && (#[trigger] ps1[k]).row == b1.lower;
        assert(ps1.contains(ps1[k]));
        let j = choose|j: int| 0 <= j < ps2.len() && ps2[j] == ps1[k];
        assert(in_box(b2, ps2[j]));
    }
    assert(b2.lower >= b1.lower) by {
        let k = choose|k: int| 0 <= k < ps2.len() && (#[trigger] ps2[k]).row == b2.lower;
        assert(ps2.contains(ps2[k]));
        let j = choose|j: int| 0 <= j < ps1.len() && ps1[j] == ps2[k];
        assert(in_box(b1, ps1[j]));
    }
    assert(b1.left >= b2.left) by {
        let k = choose|k: int| 0 <= k < ps1.len() && (#[trigger] ps1[k]).col == b1.left;
        assert(ps1.contains(ps1[k]));
        let j = choose|j: int| 0 <= j < ps2.len() && ps2[j] == ps1[k];
        assert(in_box(b2, ps2[j]));
    }
    assert(b2.left >= b1.left) by {
        let k = choose|k: int| 0 <= k < ps2.len() && (#[trigger] ps2[k]).col == b2.left;
        assert(ps2.contains(ps2[k]));
        let j = choose|j: int| 0 <= j < ps1.len() && ps1[j] == ps2[k];
        assert(in_box(b1, ps1[j]));
    }
    assert(b1.right <= b2.right) by {
        let k = choose|k: int| 0 <= k < ps1.len() && (#[trigger] ps1[k]).col == b1.right;
        assert(ps1.contains(ps1[k]));
        let j = choose|j: int| 0 <= j < ps2.len() && ps2[j] == ps1[k];
        assert(in_box(b2, ps2[j]));
    }
    assert(b2.right <= b1.right) by {
        let k = choose|k: int| 0 <= k < ps2.len() && (#[trigger] ps2[k]).col == b2.right;
        assert(ps2.contains(ps2[k]));
        let j = choose|j: int| 0 <= j < ps1.len() && ps1[j] == ps2[k];
        assert(in_box(b1, ps1[j]));
    }
}

/// The bounding box of a single cell spans exactly that cell.
pub proof fn lemma_singleton_area(p: Position)
    ensures
        bbox_of(seq![p]) == box_of_one(p),
        spec_area(bbox_of(seq![p])) == 1,
{
    let b = bbox_of(seq![p]);
    assert(b == box_of_one(p));
    assert((b.upper - b.lower + 1) * (b.right - b.left + 1) == 1) by (nonlinear_arith)
        requires
            b.upper == b.lower,
            b.left == b.right,
    ;
}

/// Every well-formed box overlaps itself.
pub proof fn lemma_intersect_reflexive(a: Area)
    requires
        a.well_formed(),
    ensures
        spec_intersects(a, a),
{
}

/// The overlap test does not depend on the order of its arguments.
pub proof fn lemma_intersect_symmetric(a: Area, b: Area)
    ensures
        spec_intersects(a, b) == spec_intersects(b, a),
{
}

/// The player's drag rectangle in screen coordinates, normalized so that
/// `left <= right` and `lower <= upper`. It is built from an anchor corner
/// and a signed extent, so the drag may run in any of the four directions.
#[derive(Clone, Copy, Debug, PartialEq, Eq, Structural)]
pub struct RectBounds {
    pub left: i64,
    pub right: i64,
    pub lower: i64,
    pub upper: i64,
}

impl RectBounds {
    /// The bounds are ordered on both axes.
    pub open spec fn well_formed(self) -> bool {
        self.left <= self.right && self.lower <= self.upper
    }

    /// Normalize a rectangle anchored at `(anchor_x, anchor_y)` whose
    /// opposite corner lies at the anchor minus the signed extent.
    pub fn new(anchor_x: i32, anchor_y: i32, extent_x: i32, extent_y: i32) -> (r: RectBounds)
        ensures
            r.well_formed(),
            r.left == vstd::math::min(anchor_x as int, anchor_x - extent_x),
            r.right == vstd::math::max(anchor_x as int, anchor_x - extent_x),
            r.lower == vstd::math::min(anchor_y as int, anchor_y - extent_y),
            r.upper == vstd::math::max(anchor_y as int, anchor_y - extent_y),
    {
        let ax: i64 = anchor_x as i64;
        let bx: i64 = anchor_x as i64 - extent_x as i64;
        let ay: i64 = anchor_y as i64;
        let by_: i64 = anchor_y as i64 - extent_y as i64;
        let (left, right): (i64, i64) = if ax <= bx {
            (ax, bx)
        } else {
            (bx, ax)
        };
        let (lower, upper): (i64, i64) = if ay <= by_ {
            (ay, by_)
        } else {
            (by_, ay)
        };
        RectBounds { left, right, lower, upper }
    }

    /// Whether a screen point lies inside the rectangle; points on the
    /// border count as inside, so boundary tiles are selected too.
    pub fn contains(&self, x: i64, y: i64) -> (c: bool)
        ensures
            c == (self.left <= x <= self.right && self.lower <= y <= self.upper),
    {
        self.left <= x && x <= self.right && self.lower <= y && y <= self.upper
    }
}

} // verus!
