use roguelike_core::geom::{pt, Grid, PointSet};

#[test]
fn map_access_by_point() {
    let m = {
        let mut m = Grid::new(10, 10, false);
        m.put(0, 1, true);
        m
    };
    assert!(*m.at(pt(0, 1)));
}

#[test]
fn grid_new_fills_every_cell() {
    let g = Grid::new(3, 2, 7u8);
    for y in 0..2 {
        for x in 0..3 {
            assert_eq!(*g.get(x, y), 7u8);
        }
    }
}

#[test]
fn grid_idx_is_row_major() {
    let g = Grid::new(4, 3, 0u8);
    assert_eq!(g.idx((0, 0)), 0);
    assert_eq!(g.idx((3, 0)), 3);
    assert_eq!(g.idx((0, 1)), 4);
    assert_eq!(g.idx((2, 2)), 10);
}

#[test]
fn grid_put_changes_only_one_cell() {
    let mut g = Grid::new(4, 4, 0i32);
    g.put(2, 3, 9);
    for y in 0..4 {
        for x in 0..4 {
            let want = if (x, y) == (2, 3) { 9 } else { 0 };
            assert_eq!(*g.get(x, y), want);
        }
    }
}

#[test]
fn grid_replace_returns_previous() {
    let mut g = Grid::new(2, 2, 5u8);
    let prev = g.replace_at(pt(1, 0), 8);
    assert_eq!(prev, 5);
    assert_eq!(*g.at(pt(1, 0)), 8);
    assert_eq!(*g.at(pt(0, 0)), 5);
}

#[test]
fn grid_bounds_checks() {
    let g = Grid::new(3, 2, ());
    assert!(g.in_bounds(0, 0));
    assert!(g.in_bounds(2, 1));
    assert!(!g.in_bounds(3, 0));
    assert!(!g.in_bounds(0, 2));
    assert!(!g.in_bounds(-1, 0));
    assert!(g.contains_pt(pt(1, 1)));
    assert!(!g.contains_pt(pt(1, 5)));
}

#[test]
fn point_set_insert_and_contains() {
    let mut s = PointSet::new();
    assert!(!s.contains(pt(1, 2)));
    s.insert(pt(1, 2));
    s.insert(pt(1, 2));
    assert!(s.contains(pt(1, 2)));
    assert!(!s.contains(pt(2, 1)));
    assert_eq!(s.as_points().len(), 1);
}

#[test]
fn point_set_extend() {
    let mut a = PointSet::new();
    a.insert(pt(0, 0));
    let mut b = PointSet::new();
    b.insert(pt(0, 0));
    b.insert(pt(3, 4));
    a.extend_from(&b);
    assert!(a.contains(pt(0, 0)));
    assert!(a.contains(pt(3, 4)));
    assert_eq!(a.as_points().len(), 2);
}
