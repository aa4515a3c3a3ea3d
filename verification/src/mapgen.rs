//! Map-carving helpers: rectangular rooms and straight corridors cut into
//! a wall-filled map. The choice of where to carve (the random part) is
//! the caller's; the carving itself is exact.

use vstd::prelude::*;

use crate::game::{GameMap, Tile};
use crate::geom::Point;

verus! {

/// A half-open axis-aligned rectangle of cells: `min` inclusive, `max`
/// exclusive.
#[derive(Clone, Copy, PartialEq, Eq, Structural, Debug)]
pub struct Rect {
    pub min: Point,
    pub max: Point,
}

/// Whether cell `(x, y)` lies inside the rectangle.
pub open spec fn in_rect(r: Rect, x: int, y: int) -> bool {
    r.min.x <= x < r.max.x && r.min.y <= y < r.max.y
}

impl Rect {
    /// Whether two rectangles overlap in at least one cell.
    pub fn intersects(&self, other: &Rect) -> (b: bool)
        ensures
            b == (self.min.x < other.max.x && other.min.x < self.max.x && self.min.y < other.max.y
                && other.min.y < self.max.y),
    {
        self.min.x < other.max.x && other.min.x < self.max.x && self.min.y < other.max.y
            && other.min.y < self.max.y
    }

    /// The rectangle grown by `dx` and `dy` on every side.
    pub fn inflate(&self, dx: i32, dy: i32) -> (r: Rect)
        requires
            i32::MIN <= self.min.x - dx <= i32::MAX,
            i32::MIN <= self.min.y - dy <= i32::MAX,
            i32::MIN <= self.max.x + dx <= i32::MAX,
            i32::MIN <= self.max.y + dy <= i32::MAX,
        ensures
            r.min.x == self.min.x - dx,
            r.min.y == self.min.y - dy,
            r.max.x == self.max.x + dx,
            r.max.y == self.max.y + dy,
    {
        Rect {
            min: Point { x: self.min.x - dx, y: self.min.y - dy },
            max: Point { x: self.max.x + dx, y: self.max.y + dy },
        }
    }

    /// The center cell of the rectangle.
    pub fn center(&self) -> (c: Point)
        requires
            0 <= self.min.x <= self.max.x,
            0 <= self.min.y <= self.max.y,
        ensures
            c.x == (self.min.x + self.max.x) / 2,
            c.y == (self.min.y + self.max.y) / 2,
    {
        let cx = ((self.min.x as i64 + self.max.x as i64) / 2) as i32;
        let cy = ((self.min.y as i64 + self.max.y as i64) / 2) as i32;
        Point { x: cx, y: cy }
    }
}

/// Carves the rectangle out as floor; every other cell and every other
/// part of the map are untouched.
pub fn carve_room(m: &mut GameMap, room: &Rect)
    requires
        old(m).wf(),
        0 <= room.min.x,
        0 <= room.min.y,
        room.max.x <= old(m).tiles.width,
        room.max.y <= old(m).tiles.height,
    ensures
        final(m).wf(),
        final(m).entrance == old(m).entrance,
        final(m).entities == old(m).entities,
        final(m).blocked == old(m).blocked,
        final(m).explored == old(m).explored,
        final(m).tiles.width == old(m).tiles.width,
        final(m).tiles.height == old(m).tiles.height,
        forall|x: int, y: int|
            final(m).tiles.in_bounds_spec(x, y) ==> #[trigger] final(m).tiles.cell(x, y) == (
            if in_rect(*room, x, y) {
                Tile::Floor
            } else {
                old(m).tiles.cell(x, y)
            }),
{
    let mut y = room.min.y;
    while y < room.max.y
        invariant
            room.min.y <= y <= room.max.y || (room.max.y < room.min.y && y == room.min.y),
            m.wf(),
            m.entrance == old(m).entrance,
            m.entities == old(m).entities,
            m.blocked == old(m).blocked,
            m.explored == old(m).explored,
            m.tiles.width == old(m).tiles.width,
            m.tiles.height == old(m).tiles.height,
            0 <= room.min.x,
            0 <= room.min.y,
            room.max.x <= m.tiles.width,
            room.max.y <= m.tiles.height,
            forall|x2: int, y2: int|
                m.tiles.in_bounds_spec(x2, y2) ==> #[trigger] m.tiles.cell(x2, y2) == (
                if in_rect(*room, x2, y2) && y2 < y {
                    Tile::Floor
                } else {
                    old(m).tiles.cell(x2, y2)
                }),
        decreases room.max.y - y,
    {
        let mut x = room.min.x;
        while x < room.max.x
            invariant
                room.min.y <= y < room.max.y,
                room.min.x <= x <= room.max.x || (room.max.x < room.min.x && x == room.min.x),
                m.wf(),
                m.entrance == old(m).entrance,
                m.entities == old(m).entities,
                m.blocked == old(m).blocked,
                m.explored == old(m).explored,
                m.tiles.width == old(m).tiles.width,
                m.tiles.height == old(m).tiles.height,
                0 <= room.min.x,
                0 <= room.min.y,
                room.max.x <= m.tiles.width,
                room.max.y <= m.tiles.height,
                forall|x2: int, y2: int|
                    m.tiles.in_bounds_spec(x2, y2) ==> #[trigger] m.tiles.cell(x2, y2) == (
                    if in_rect(*room, x2, y2) && (y2 < y || (y2 == y && x2 < x)) {
                        Tile::Floor
                    } else {
                        old(m).tiles.cell(x2, y2)
                    }),
            decreases room.max.x - x,
        {
            m.tiles.put(x, y, Tile::Floor);
            x += 1;
        }
        y += 1;
    }
}

/// Carves a horizontal corridor of floor at row `y`, spanning the columns
/// from `x0` to `x1` inclusive (in either order).
pub fn carve_h_corridor(m: &mut GameMap, x0: i32, x1: i32, y: i32)
    requires
        old(m).wf(),
        0 <= x0 < old(m).tiles.width,
        0 <= x1 < old(m).tiles.width,
        0 <= y < old(m).tiles.height,
    ensures
        final(m).wf(),
        final(m).entrance == old(m).entrance,
        final(m).entities == old(m).entities,
        final(m).blocked == old(m).blocked,
        final(m).explored == old(m).explored,
        final(m).tiles.width == old(m).tiles.width,
        final(m).tiles.height == old(m).tiles.height,
        forall|x2: int, y2: int|
            final(m).tiles.in_bounds_spec(x2, y2) ==> #[trigger] final(m).tiles.cell(x2, y2) == (
            if y2 == y && (if x0 <= x1 {
                x0 <= x2 <= x1
            } else {
                x1 <= x2 <= x0
            }) {
                Tile::Floor
            } else {
                old(m).tiles.cell(x2, y2)
            }),
{
    let lo = if x0 <= x1 {
        x0
    } else {
        x1
    };
    let hi = if x0 <= x1 {
        x1
    } else {
        x0
    };
    let mut x = lo;
    while x <= hi
        invariant
            lo <= x <= hi + 1,
            0 <= lo <= hi < m.tiles.width,
            0 <= y < m.tiles.height,
            m.wf(),
            m.entrance == old(m).entrance,
            m.entities == old(m).entities,
            m.blocked == old(m).blocked,
            m.explored == old(m).explored,
            m.tiles.width == old(m).tiles.width,
            m.tiles.height == old(m).tiles.height,
            forall|x2: int, y2: int|
                m.tiles.in_bounds_spec(x2, y2) ==> #[trigger] m.tiles.cell(x2, y2) == (
                if y2 == y && lo <= x2 < x {
                    Tile::Floor
                } else {
                    old(m).tiles.cell(x2, y2)
                }),
        decreases hi + 1 - x,
    {
        m.tiles.put(x, y, Tile::Floor);
        x += 1;
    }
}

/// Carves a vertical corridor of floor at column `x`, spanning the rows
/// from `y0` to `y1` inclusive (in either order).
pub fn carve_v_corridor(m: &mut GameMap, x: i32, y0: i32, y1: i32)
    requires
        old(m).wf(),
        0 <= x < old(m).tiles.width,
        0 <= y0 < old(m).tiles.height,
        0 <= y1 < old(m).tiles.height,
    ensures
        final(m).wf(),
        final(m).entrance == old(m).entrance,
        final(m).entities == old(m).entities,
        final(m).blocked == old(m).blocked,
        final(m).explored == old(m).explored,
        final(m).tiles.width == old(m).tiles.width,
        final(m).tiles.height == old(m).tiles.height,
        forall|x2: int, y2: int|
            final(m).tiles.in_bounds_spec(x2, y2) ==> #[trigger] final(m).tiles.cell(x2, y2) == (
            if x2 == x && (if y0 <= y1 {
                y0 <= y2 <= y1
            } else {
                y1 <= y2 <= y0
            }) {
                Tile::Floor
            } else {
                old(m).tiles.cell(x2, y2)
            }),
{
    let lo = if y0 <= y1 {
        y0
    } else {
        y1
    };
    let hi = if y0 <= y1 {
        y1
    } else {
        y0
    };
    let mut y = lo;
    while y <= hi
        invariant
            lo <= y <= hi + 1,
            0 <= lo <= hi < m.tiles.height,
            0 <= x < m.tiles.width,
            m.wf(),
            m.entrance == old(m).entrance,
            m.entities == old(m).entities,
            m.blocked == old(m).blocked,
            m.explored == old(m).explored,
            m.tiles.width == old(m).tiles.width,
            m.tiles.height == old(m).tiles.height,
            forall|x2: int, y2: int|
                m.tiles.in_bounds_spec(x2, y2) ==> #[trigger] m.tiles.cell(x2, y2) == (
                if x2 == x && lo <= y2 < y {
                    Tile::Floor
                } else {
                    old(m).tiles.cell(x2, y2)
                }),
        decreases hi + 1 - y,
    {
        m.tiles.put(x, y, Tile::Floor);
        y += 1;
    }
}

} // verus!
