use squaregg::bounds::{Area, Position, RectBounds};

fn pos(row: u8, col: u8) -> Position {
    Position { row, col }
}

#[test]
fn bounding_box_of_two_cells_in_a_row() {
    let cells = vec![pos(0, 0), pos(0, 1)];
    let b = Area::from_positions(&cells);
    assert_eq!(b, Area { upper: 0, lower: 0, left: 0, right: 1 });
    assert_eq!(b.area(), 2);
}

#[test]
fn bounding_box_ignores_listing_order() {
    let forward = vec![pos(2, 1), pos(0, 3), pos(1, 0), pos(4, 4)];
    let backward = vec![pos(4, 4), pos(1, 0), pos(0, 3), pos(2, 1)];
    let shuffled = vec![pos(1, 0), pos(4, 4), pos(2, 1), pos(0, 3)];
    let b = Area::from_positions(&forward);
    assert_eq!(b, Area::from_positions(&backward));
    assert_eq!(b, Area::from_positions(&shuffled));
    assert_eq!(b, Area { upper: 4, lower: 0, left: 0, right: 4 });
}

#[test]
fn bounding_box_of_single_cell_has_area_one() {
    let only = vec![pos(7, 3)];
    let b = Area::from_positions(&only);
    assert_eq!(b, Area { upper: 7, lower: 7, left: 3, right: 3 });
    assert_eq!(b.area(), 1);
}

#[test]
fn intersect_is_reflexive() {
    let a = Area { upper: 5, lower: 2, left: 1, right: 4 };
    assert!(a.intersect(&a));
    let single = Area { upper: 0, lower: 0, left: 0, right: 0 };
    assert!(single.intersect(&single));
}

#[test]
fn intersect_is_symmetric() {
    let a = Area { upper: 3, lower: 1, left: 0, right: 2 };
    let b = Area { upper: 4, lower: 3, left: 2, right: 5 };
    let c = Area { upper: 9, lower: 8, left: 7, right: 9 };
    assert_eq!(a.intersect(&b), b.intersect(&a));
    assert_eq!(a.intersect(&c), c.intersect(&a));
    assert!(a.intersect(&b));
    assert!(!a.intersect(&c));
}

#[test]
fn touching_edges_count_as_intersecting() {
    let a = Area { upper: 2, lower: 0, left: 0, right: 2 };
    let touching_col = Area { upper: 2, lower: 0, left: 2, right: 4 };
    let touching_row = Area { upper: 4, lower: 2, left: 0, right: 2 };
    let separate = Area { upper: 2, lower: 0, left: 3, right: 4 };
    assert!(a.intersect(&touching_col));
    assert!(a.intersect(&touching_row));
    assert!(!a.intersect(&separate));
}

#[test]
fn boxes_of_disjoint_cells_can_still_overlap() {
    let diag_one = Area::from_positions(&vec![pos(0, 0), pos(1, 1)]);
    let diag_two = Area::from_positions(&vec![pos(0, 1), pos(1, 0)]);
    assert_eq!(diag_one, diag_two);
    assert!(diag_one.intersect(&diag_two));
}

#[test]
fn rect_bounds_normalizes_all_four_drag_directions() {
    let down_right = RectBounds::new(10, 20, 4, 6);
    assert_eq!(down_right, RectBounds { left: 6, right: 10, lower: 14, upper: 20 });
    let up_left = RectBounds::new(10, 20, -4, -6);
    assert_eq!(up_left, RectBounds { left: 10, right: 14, lower: 20, upper: 26 });
    let mixed = RectBounds::new(10, 20, 4, -6);
    assert_eq!(mixed, RectBounds { left: 6, right: 10, lower: 20, upper: 26 });
    let other_mixed = RectBounds::new(10, 20, -4, 6);
    assert_eq!(other_mixed, RectBounds { left: 10, right: 14, lower: 14, upper: 20 });
}

#[test]
fn rect_bounds_contains_is_border_friendly() {
    let r = RectBounds::new(10, 20, 4, 6);
    assert!(r.contains(6, 14));
    assert!(r.contains(10, 20));
    assert!(r.contains(8, 17));
    assert!(!r.contains(5, 17));
    assert!(!r.contains(11, 17));
    assert!(!r.contains(8, 13));
    assert!(!r.contains(8, 21));
}
