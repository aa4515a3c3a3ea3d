//! Geometry primitives: integer points, dense 2D grids, and point sets.

use vstd::prelude::*;

verus! {

/// An integer (x, y) cell coordinate. Equality is by value.
#[derive(Clone, Copy, PartialEq, Eq, Structural, Hash, Debug)]
pub struct Point {
    pub x: i32,
    pub y: i32,
}

/// Shorthand constructor for a [`Point`].
pub fn pt(x: i32, y: i32) -> (p: Point)
    ensures
        p == (Point { x, y }),
{
    Point { x, y }
}

/// Row-major flat index of an in-bounds cell lies inside the grid storage.
pub proof fn lemma_flat_index_bounds(x: int, y: int, w: int, h: int)
    requires
        0 <= x < w,
        0 <= y < h,
    ensures
        0 <= x + y * w < w * h,
{
    assert(0 <= x + y * w < w * h) by (nonlinear_arith)
        requires
            0 <= x < w,
            0 <= y < h,
    ;
}

/// Distinct in-bounds cells have distinct row-major flat indices.
pub proof fn lemma_flat_index_injective(x1: int, y1: int, x2: int, y2: int, w: int)
    requires
        0 <= x1 < w,
        0 <= x2 < w,
        0 <= y1,
        0 <= y2,
        !(x1 == x2 && y1 == y2),
    ensures
        x1 + y1 * w != x2 + y2 * w,
{
    assert(x1 + y1 * w != x2 + y2 * w) by (nonlinear_arith)
        requires
            0 <= x1 < w,
            0 <= x2 < w,
            0 <= y1,
            0 <= y2,
            !(x1 == x2 && y1 == y2),
    ;
}

/// A fixed `width` x `height` dense array of `T`, indexed row-major by
/// `(x, y)` or by [`Point`]. It is never resized after construction, and
/// all accessors demand in-bounds coordinates.
#[derive(Clone, Debug)]
pub struct Grid<T> {
    pub width: i32,
    pub height: i32,
    pub storage: Vec<T>,
}

impl<T> View for Grid<T> {
    type V = Seq<T>;

    open spec fn view(&self) -> Seq<T> {
        self.storage@
    }
}

impl<T> Grid<T> {
    /// Shape invariant: the flat storage covers exactly `width * height` cells.
    pub open spec fn wf(&self) -> bool {
        &&& 0 <= self.width
        &&& 0 <= self.height
        &&& self@.len() == self.width * self.height
        &&& self.width * self.height <= i32::MAX
    }

    /// The cell stored at in-bounds coordinates `(x, y)`.
    pub open spec fn cell(&self, x: int, y: int) -> T {
        self@[x + y * self.width]
    }

    /// Whether `(x, y)` lies inside the grid.
    pub open spec fn in_bounds_spec(&self, x: int, y: int) -> bool {
        0 <= x < self.width && 0 <= y < self.height
    }

    /// Whether the point lies inside the grid.
    pub open spec fn contains_pt_spec(&self, p: Point) -> bool {
        self.in_bounds_spec(p.x as int, p.y as int)
    }

    /// Builds a grid with every cell set to `fill`.
    pub fn new(width: i32, height: i32, fill: T) -> (g: Grid<T>) where T: Copy
        requires
            0 <= width,
            0 <= height,
            width * height <= i32::MAX,
        ensures
            g.wf(),
            g.width == width,
            g.height == height,
            forall|i: int| 0 <= i < g@.len() ==> g@[i] == fill,
            forall|x: int, y: int|
                g.in_bounds_spec(x, y) ==> #[trigger] g.cell(x, y) == fill,
    {
        proof {
            assert(0 <= width * height) by (nonlinear_arith)
                requires
                    0 <= width,
                    0 <= height,
            ;
        }
        let count: usize = (width * height) as usize;
        let mut storage: Vec<T> = Vec::new();
        while storage.len() < count
            invariant
                storage@.len() <= count,
                forall|i: int| 0 <= i < storage@.len() ==> storage@[i] == fill,
            decreases count - storage.len(),
        {
            storage.push(fill);
        }
        let g = Grid { width, height, storage };
        proof {
            assert forall|x: int, y: int| g.in_bounds_spec(x, y) implies #[trigger] g.cell(x, y)
                == fill by {
                lemma_flat_index_bounds(x, y, width as int, height as int);
            }
        }
        g
    }

    /// Row-major flat index of an in-bounds cell.
    pub fn idx(&self, xy: (i32, i32)) -> (i: i32)
        requires
            self.wf(),
            self.in_bounds_spec(xy.0 as int, xy.1 as int),
        ensures
            i == xy.0 + xy.1 * self.width,
            0 <= i < self@.len(),
    {
        proof {
            lemma_flat_index_bounds(xy.0 as int, xy.1 as int, self.width as int,
                self.height as int);
        }
        xy.0 + xy.1 * self.width
    }

    /// Executable test of the shape invariant [`Grid::wf`].
    pub fn check_wf(&self) -> (b: bool)
        ensures
            b == self.wf(),
    {
        proof {
            assert(-0x4000_0000_0000_0000 <= (self.width as int) * (self.height as int)
                <= 0x4000_0000_0000_0000) by (nonlinear_arith)
                requires
                    -0x8000_0000 <= self.width <= 0x7fff_ffff,
                    -0x8000_0000 <= self.height <= 0x7fff_ffff,
            ;
        }
        if !(0 <= self.width && 0 <= self.height && (self.width as i64) * (self.height as i64)
            <= i32::MAX as i64) {
            return false;
        }
        self.storage.len() == ((self.width as i64) * (self.height as i64)) as usize
    }

    /// Whether `(x, y)` lies inside the grid.
    pub fn in_bounds(&self, x: i32, y: i32) -> (b: bool)
        ensures
            b == self.in_bounds_spec(x as int, y as int),
    {
        0 <= x && x < self.width && 0 <= y && y < self.height
    }

    /// Whether the point lies inside the grid.
    pub fn contains_pt(&self, p: Point) -> (b: bool)
        ensures
            b == self.contains_pt_spec(p),
    {
        self.in_bounds(p.x, p.y)
    }

    /// Reads the cell at in-bounds `(x, y)`.
    pub fn get(&self, x: i32, y: i32) -> (r: &T)
        requires
            self.wf(),
            self.in_bounds_spec(x as int, y as int),
        ensures
            *r == self.cell(x as int, y as int),
    {
        let i = self.idx((x, y));
        &self.storage[i as usize]
    }

    /// Reads the cell at an in-bounds point.
    pub fn at(&self, p: Point) -> (r: &T)
        requires
            self.wf(),
            self.contains_pt_spec(p),
        ensures
            *r == self.cell(p.x as int, p.y as int),
    {
        self.get(p.x, p.y)
    }

    /// Overwrites the cell at in-bounds `(x, y)`.
    pub fn put(&mut self, x: i32, y: i32, v: T)
        requires
            old(self).wf(),
            old(self).in_bounds_spec(x as int, y as int),
        ensures
            final(self).wf(),
            final(self).width == old(self).width,
            final(self).height == old(self).height,
            final(self)@ == old(self)@.update(x + y * old(self).width, v),
            final(self).cell(x as int, y as int) == v,
            forall|x2: int, y2: int|
                old(self).in_bounds_spec(x2, y2) && !(x2 == x && y2 == y)
                    ==> #[trigger] final(self).cell(x2, y2) == old(self).cell(x2, y2),
    {
        let i = self.idx((x, y));
        self.storage.set(i as usize, v);
        proof {
            let w = self.width as int;
            let h = self.height as int;
            lemma_flat_index_bounds(x as int, y as int, w, h);
            assert forall|x2: int, y2: int|
                self.in_bounds_spec(x2, y2) && !(x2 == x && y2 == y) implies #[trigger] self.cell(
                x2, y2) == old(self).cell(x2, y2) by {
                lemma_flat_index_bounds(x2, y2, w, h);
                lemma_flat_index_injective(x as int, y as int, x2, y2, w);
            }
        }
    }

    /// Overwrites the cell at an in-bounds point.
    pub fn put_at(&mut self, p: Point, v: T)
        requires
            old(self).wf(),
            old(self).contains_pt_spec(p),
        ensures
            final(self).wf(),
            final(self).width == old(self).width,
            final(self).height == old(self).height,
            final(self)@ == old(self)@.update(p.x + p.y * old(self).width, v),
            final(self).cell(p.x as int, p.y as int) == v,
            forall|x2: int, y2: int|
                old(self).in_bounds_spec(x2, y2) && !(x2 == p.x && y2 == p.y)
                    ==> #[trigger] final(self).cell(x2, y2) == old(self).cell(x2, y2),
    {
        self.put(p.x, p.y, v)
    }

    /// Swaps the cell at an in-bounds point with `v`, returning the old cell.
    pub fn replace_at(&mut self, p: Point, v: T) -> (prev: T)
        requires
            old(self).wf(),
            old(self).contains_pt_spec(p),
        ensures
            final(self).wf(),
            final(self).width == old(self).width,
            final(self).height == old(self).height,
            final(self)@ == old(self)@.update(p.x + p.y * old(self).width, v),
            prev == old(self).cell(p.x as int, p.y as int),
            final(self).cell(p.x as int, p.y as int) == v,
            forall|x2: int, y2: int|
                old(self).in_bounds_spec(x2, y2) && !(x2 == p.x && y2 == p.y)
                    ==> #[trigger] final(self).cell(x2, y2) == old(self).cell(x2, y2),
    {
        let i = self.idx((p.x, p.y));
        let mut v = v;
        self.storage.set_and_swap(i as usize, &mut v);
        proof {
            let w = self.width as int;
            let h = self.height as int;
            lemma_flat_index_bounds(p.x as int, p.y as int, w, h);
            assert forall|x2: int, y2: int|
                self.in_bounds_spec(x2, y2) && !(x2 == p.x && y2 == p.y)
                    implies #[trigger] self.cell(x2, y2) == old(self).cell(x2, y2) by {
                lemma_flat_index_bounds(x2, y2, w, h);
                lemma_flat_index_injective(p.x as int, p.y as int, x2, y2, w);
            }
        }
        v
    }
}

impl<U> Grid<Vec<U>> {
    /// Builds a grid whose every cell is an empty list.
    pub fn new_lists(width: i32, height: i32) -> (g: Grid<Vec<U>>)
        requires
            0 <= width,
            0 <= height,
            width * height <= i32::MAX,
        ensures
            g.wf(),
            g.width == width,
            g.height == height,
            forall|i: int| 0 <= i < g@.len() ==> (#[trigger] g@[i])@ == Seq::<U>::empty(),
            forall|x: int, y: int|
                g.in_bounds_spec(x, y) ==> (#[trigger] g.cell(x, y))@ == Seq::<U>::empty(),
    {
        proof {
            assert(0 <= width * height) by (nonlinear_arith)
                requires
                    0 <= width,
                    0 <= height,
            ;
        }
        let count: usize = (width * height) as usize;
        let mut storage: Vec<Vec<U>> = Vec::new();
        while storage.len() < count
            invariant
                storage@.len() <= count,
                forall|i: int| 0 <= i < storage@.len() ==> (#[trigger] storage@[i])@ == Seq::<
                    U,
                >::empty(),
            decreases count - storage.len(),
        {
            let cell: Vec<U> = Vec::new();
            storage.push(cell);
        }
        let g = Grid { width, height, storage };
        proof {
            assert forall|x: int, y: int| g.in_bounds_spec(x, y) implies (#[trigger] g.cell(x, y))@
                == Seq::<U>::empty() by {
                lemma_flat_index_bounds(x, y, width as int, height as int);
            }
        }
        g
    }
}

/// A finite set of points, stored without duplicates.
pub struct PointSet {
    items: Vec<Point>,
}

impl View for PointSet {
    type V = Set<Point>;

    closed spec fn view(&self) -> Set<Point> {
        self.items@.to_set()
    }
}

impl PointSet {
    /// The empty set.
    pub fn new() -> (s: PointSet)
        ensures
            s@ == Set::<Point>::empty(),
    {
        let s = PointSet { items: Vec::new() };
        proof {
            assert(s@ =~= Set::<Point>::empty());
        }
        s
    }

    /// Membership test.
    pub fn contains(&self, p: Point) -> (b: bool)
        ensures
            b == self@.contains(p),
    {
        let n = self.items.len();
        let mut j: usize = 0;
        while j < n
            invariant
                n == self.items@.len(),
                j <= n,
                forall|k: int| 0 <= k < j ==> self.items@[k] != p,
            decreases n - j,
        {
            if self.items[j] == p {
                proof {
                    assert(self.items@.contains(p));
                }
                return true;
            }
            j += 1;
        }
        proof {
            assert(!self.items@.contains(p));
        }
        false
    }

    /// Adds a point.
    pub fn insert(&mut self, p: Point)
        ensures
            final(self)@ == old(self)@.insert(p),
    {
        if !self.contains(p) {
            self.items.push(p);
            proof {
                assert forall|q: Point| self@.contains(q) <==> old(self)@.insert(p).contains(
                    q) by {
                    if q == p {
                        assert(self.items@[self.items@.len() - 1] == p);
                        assert(self.items@.contains(p));
                    } else {
                        if old(self).items@.contains(q) {
                            let k = choose|k: int|
                                0 <= k < old(self).items@.len() && old(self).items@[k] == q;
                            assert(self.items@[k] == q);
                            assert(self.items@.contains(q));
                        }
                        if self.items@.contains(q) {
                            let k = choose|k: int|
                                0 <= k < self.items@.len() && self.items@[k] == q;
                            assert(old(self).items@[k] == q);
                        }
                    }
                }
                assert(self@ =~= old(self)@.insert(p));
            }
        } else {
            proof {
                assert(self@ =~= old(self)@.insert(p));
            }
        }
    }

    /// Adds every point of `other`.
    pub fn extend_from(&mut self, other: &PointSet)
        ensures
            final(self)@ == old(self)@.union(other@),
    {
        let n = other.items.len();
        let mut j: usize = 0;
        while j < n
            invariant
                n == other.items@.len(),
                j <= n,
                old(self)@.subset_of(self@),
                self@.subset_of(old(self)@.union(other@)),
                forall|k: int| 0 <= k < j ==> self@.contains(#[trigger] other.items@[k]),
            decreases n - j,
        {
            let p = other.items[j];
            proof {
                assert(other.items@.contains(p));
                assert(other@.contains(p));
            }
            self.insert(p);
            j += 1;
        }
        proof {
            assert forall|q: Point| old(self)@.union(other@).contains(q) implies self@.contains(
                q) by {
                if other@.contains(q) {
                    let k = choose|k: int|
                        0 <= k < other.items@.len() && other.items@[k] == q;
                    assert(self@.contains(other.items@[k]));
                }
            }
            assert(self@ =~= old(self)@.union(other@));
        }
    }

    /// The points as a vector (in unspecified order, without duplicates).
    pub fn as_points(&self) -> (r: &Vec<Point>)
        ensures
            r@.to_set() == self@,
    {
        &self.items
    }
}

} // verus!
