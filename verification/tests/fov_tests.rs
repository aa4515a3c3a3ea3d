use roguelike_core::fov::{calculate, fov_quadrant, NeverOpaque, SetOpacity};
use roguelike_core::geom::{pt, PointSet};

/// Checks that `vis` holds exactly the `expected` cells within the probed
/// window.
fn assert_cells(vis: &roguelike_core::geom::PointSet, expected: &[(i32, i32)], window: (i32, i32, i32, i32)) {
    let (x0, y0, x1, y1) = window;
    for y in y0..y1 {
        for x in x0..x1 {
            let want = expected.contains(&(x, y));
            assert_eq!(
                vis.contains(pt(x, y)),
                want,
                "cell ({}, {}) expected {}",
                x,
                y,
                want
            );
        }
    }
}

#[test]
fn test_fov() {
    let vis = calculate(pt(5, 5), 5, &NeverOpaque);
    assert!(vis.contains(pt(5, 5)));
}

#[test]
fn test_quadrant_nw_no_obstacles() {
    let vis = fov_quadrant(pt(-1, -1), pt(5, 5), 4, true, &NeverOpaque);
    assert_cells(
        &vis,
        &[
            (4, 1),
            (5, 1),
            (2, 2),
            (3, 2),
            (4, 2),
            (5, 2),
            (3, 3),
            (4, 3),
            (5, 3),
            (4, 4),
            (5, 4),
        ],
        (-1, -1, 12, 12),
    );
    let vis = fov_quadrant(pt(-1, -1), pt(5, 5), 4, false, &NeverOpaque);
    assert_cells(
        &vis,
        &[
            (1, 4),
            (1, 5),
            (2, 2),
            (2, 3),
            (2, 4),
            (2, 5),
            (3, 3),
            (3, 4),
            (3, 5),
            (4, 4),
            (4, 5),
        ],
        (-1, -1, 12, 12),
    );
}

#[test]
fn test_quadrant_se_no_obstacles() {
    let vis = fov_quadrant(pt(1, 1), pt(5, 5), 4, true, &NeverOpaque);
    assert_cells(
        &vis,
        &[
            (5, 6),
            (6, 6),
            (5, 7),
            (6, 7),
            (7, 7),
            (5, 8),
            (6, 8),
            (7, 8),
            (8, 8),
            (5, 9),
            (6, 9),
        ],
        (-1, -1, 12, 12),
    );
    let vis = fov_quadrant(pt(1, 1), pt(5, 5), 4, false, &NeverOpaque);
    assert_cells(
        &vis,
        &[
            (6, 5),
            (7, 5),
            (8, 5),
            (9, 5),
            (6, 6),
            (7, 6),
            (8, 6),
            (9, 6),
            (7, 7),
            (8, 7),
            (8, 8),
        ],
        (-1, -1, 12, 12),
    );
}

/// On an open 5x5 grid with radius 2, the visible set is exactly the disk
/// of cells within Euclidean distance `2 + 1/3` of the origin: the 21
/// cells whose squared offset is at most 5.
#[test]
fn open_grid_radius_two_disk() {
    let vis = calculate(pt(2, 2), 2, &NeverOpaque);
    let mut expected: Vec<(i32, i32)> = Vec::new();
    for dy in -2i32..=2 {
        for dx in -2i32..=2 {
            if 9 * (dx * dx + dy * dy) <= 49 {
                expected.push((2 + dx, 2 + dy));
            }
        }
    }
    assert_eq!(expected.len(), 21);
    assert_cells(&vis, &expected, (-3, -3, 8, 8));
}

/// Radius zero (or less) yields just the origin.
#[test]
fn radius_zero_only_origin() {
    let vis = calculate(pt(4, 4), 0, &NeverOpaque);
    assert_cells(&vis, &[(4, 4)], (0, 0, 9, 9));
    let vis = calculate(pt(4, 4), -3, &NeverOpaque);
    assert_cells(&vis, &[(4, 4)], (0, 0, 9, 9));
}

/// A single opaque cell between the origin and a farther cell occludes the
/// farther cell's center angle, but cells at the obstruction's angular
/// edges stay visible: sight leaks around the corner.
#[test]
fn single_wall_occludes_center_but_leaks_at_edges() {
    let mut cells = PointSet::new();
    cells.insert(pt(6, 5));
    let src = SetOpacity { cells };
    let vis = calculate(pt(5, 5), 3, &src);
    // the wall itself is visible
    assert!(vis.contains(pt(6, 5)));
    // cells straight behind the wall are occluded
    assert!(!vis.contains(pt(7, 5)));
    assert!(!vis.contains(pt(8, 5)));
    // but the diagonal neighbour at the wall's angular edge stays visible
    assert!(vis.contains(pt(7, 6)));
    assert!(vis.contains(pt(7, 4)));
    // and the origin is always visible
    assert!(vis.contains(pt(5, 5)));
}

/// The visible set is symmetric under 90-degree rotation when the opacity
/// is: four walls placed rotation-symmetrically around the origin.
#[test]
fn rotation_symmetric_walls_give_rotation_symmetric_fov() {
    let mut cells = PointSet::new();
    // the four rotations of offset (1, 0) about (10, 10)
    cells.insert(pt(11, 10));
    cells.insert(pt(10, 11));
    cells.insert(pt(9, 10));
    cells.insert(pt(10, 9));
    let src = SetOpacity { cells };
    let vis = calculate(pt(10, 10), 4, &src);
    for dy in -5i32..=5 {
        for dx in -5i32..=5 {
            let here = vis.contains(pt(10 + dx, 10 + dy));
            let rotated = vis.contains(pt(10 - dy, 10 + dx));
            assert_eq!(here, rotated, "asymmetry at offset ({}, {})", dx, dy);
        }
    }
}
