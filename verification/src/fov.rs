//! Occlusion-aware field-of-view: symmetric shadowcasting by quadrant sweep.
//!
//! The circle around the origin is divided into 4 quadrants by the diagonal
//! axes, and each quadrant is swept twice (once primarily horizontally, once
//! vertically) so that the result is octant-symmetric. Within one sweep, each
//! cell at integer distance `it` covers the angular interval
//! `[stp/(it+1), (stp+1)/(it+1)]` of the quadrant, with center angle
//! `(2*stp+1)/(2*(it+1))`. A cell is visible when its start or end angle
//! escapes every previously recorded obstruction and its center angle escapes
//! every obstruction; comparisons are strict, so boundary angles are never
//! occluded. All angle comparisons are exact rational comparisons carried out
//! on integers. A cell is eligible when its Euclidean distance from the
//! origin is at most `radius + 1/3`, i.e. `9*d2 <= (3*radius+1)^2`.

use vstd::prelude::*;

use crate::geom::{pt, Point, PointSet};

verus! {

/// A source of opacity information: which cells block sight.
pub trait Opacity {
    /// The opacity predicate, as a mathematical function of the cell.
    spec fn op(&self, p: Point) -> bool;

    /// What the executable test needs of the source (a backing grid's shape
    /// invariant, for instance).
    spec fn src_wf(&self) -> bool;

    /// Executable opacity test, faithful to [`Opacity::op`].
    fn is_opaque(&self, p: Point) -> (b: bool)
        requires
            self.src_wf(),
        ensures
            b == self.op(p),
    ;
}

/// An opacity source with no opaque cells at all.
pub struct NeverOpaque;

impl Opacity for NeverOpaque {
    open spec fn op(&self, p: Point) -> bool {
        false
    }

    open spec fn src_wf(&self) -> bool {
        true
    }

    fn is_opaque(&self, p: Point) -> (b: bool) {
        false
    }
}

/// An opacity source given by an explicit set of opaque cells.
pub struct SetOpacity {
    pub cells: PointSet,
}

impl Opacity for SetOpacity {
    open spec fn op(&self, p: Point) -> bool {
        self.cells@.contains(p)
    }

    open spec fn src_wf(&self) -> bool {
        true
    }

    fn is_opaque(&self, p: Point) -> (b: bool) {
        self.cells.contains(p)
    }
}

/// The angular interval of the cell at sweep coordinates `(stp, it)`:
/// start angle `stp/(it+1)`, center angle `(2*stp+1)/(2*(it+1))`,
/// end angle `(stp+1)/(it+1)`.
#[derive(Clone, Copy, PartialEq, Eq, Structural, Debug)]
pub struct Angles {
    pub stp: i32,
    pub it: i32,
}

/// `a/b < c/d`, for positive denominators `b` and `d`.
pub open spec fn frac_lt(a: int, b: int, c: int, d: int) -> bool {
    a * d < c * b
}

/// Whether the obstruction `o` strictly contains the start angle of `a`.
pub open spec fn obstructs_start(o: Angles, a: Angles) -> bool {
    &&& frac_lt(o.stp as int, o.it + 1, a.stp as int, a.it + 1)
    &&& frac_lt(a.stp as int, a.it + 1, o.stp + 1, o.it + 1)
}

/// Whether the obstruction `o` strictly contains the center angle of `a`.
pub open spec fn obstructs_center(o: Angles, a: Angles) -> bool {
    &&& frac_lt(o.stp as int, o.it + 1, 2 * a.stp + 1, 2 * (a.it + 1))
    &&& frac_lt(2 * a.stp + 1, 2 * (a.it + 1), o.stp + 1, o.it + 1)
}

/// Whether the obstruction `o` strictly contains the end angle of `a`.
pub open spec fn obstructs_end(o: Angles, a: Angles) -> bool {
    &&& frac_lt(o.stp as int, o.it + 1, a.stp + 1, a.it + 1)
    &&& frac_lt(a.stp + 1, a.it + 1, o.stp + 1, o.it + 1)
}

/// The visibility rule: the center angle escapes every obstruction, and the
/// start or the end angle escapes every obstruction.
pub open spec fn vis_given(a: Angles, obs: Seq<Angles>) -> bool {
    let start_ok = forall|k: int| 0 <= k < obs.len() ==> !obstructs_start(#[trigger] obs[k], a);
    let center_ok = forall|k: int| 0 <= k < obs.len() ==> !obstructs_center(#[trigger] obs[k], a);
    let end_ok = forall|k: int| 0 <= k < obs.len() ==> !obstructs_end(#[trigger] obs[k], a);
    (end_ok || start_ok) && center_ok
}

/// The cell visited at sweep coordinates `(stp, it)` of a quadrant sweep.
pub open spec fn cell_at(center: Point, quad: Point, stp: int, it: int, vert: bool) -> (int, int) {
    if vert {
        (center.x + stp * quad.x, center.y + it * quad.y)
    } else {
        (center.x + it * quad.x, center.y + stp * quad.y)
    }
}

/// Whether the cell `p` lies within Euclidean distance `radius + 1/3` of
/// `center`.
pub open spec fn within_radius(center: Point, p: (int, int), radius: int) -> bool {
    let dx = p.0 - center.x;
    let dy = p.1 - center.y;
    9 * (dx * dx + dy * dy) <= (3 * radius + 1) * (3 * radius + 1)
}

/// Whether every cell within `radius` of `center` has representable
/// coordinates.
pub open spec fn fov_window_ok(center: Point, radius: int) -> bool {
    radius <= 0 || (i32::MIN <= center.x - radius && center.x + radius <= i32::MAX
        && i32::MIN <= center.y - radius && center.y + radius <= i32::MAX)
}

/// Whether the quadrant direction is one of the four diagonal directions.
pub open spec fn quad_dir_ok(quad: Point) -> bool {
    (quad.x == 1 || quad.x == -1) && (quad.y == 1 || quad.y == -1)
}

/// The state of one quadrant sweep: the cells found visible so far and the
/// angular obstructions recorded so far.
#[verifier::ext_equal]
pub ghost struct SweepState {
    pub vis: Set<Point>,
    pub obs: Seq<Angles>,
}

/// One step of a quadrant sweep, processing the cell at `(stp, it)`.
pub open spec fn sweep_step<F: Opacity>(
    st: SweepState,
    src: &F,
    center: Point,
    quad: Point,
    vert: bool,
    radius: int,
    it: int,
    stp: int,
) -> SweepState {
    let pc = cell_at(center, quad, stp, it, vert);
    if !within_radius(center, pc, radius) {
        st
    } else {
        let p = Point { x: pc.0 as i32, y: pc.1 as i32 };
        let a = Angles { stp: stp as i32, it: it as i32 };
        if vis_given(a, st.obs) {
            SweepState {
                vis: st.vis.insert(p),
                obs: if src.op(p) {
                    st.obs.push(a)
                } else {
                    st.obs
                },
            }
        } else {
            SweepState { vis: st.vis, obs: st.obs.push(a) }
        }
    }
}

/// The sweep state after processing every row below `it` completely and the
/// first `stp` cells of row `it`. Row `r` visits cells `(0, r)` up to
/// `(r, r)`, in order of increasing `stp`, for `r` from `1` up to the radius.
pub open spec fn sweep_upto<F: Opacity>(
    src: &F,
    center: Point,
    quad: Point,
    vert: bool,
    radius: int,
    it: int,
    stp: int,
) -> SweepState
    decreases it, stp + 1,
{
    if it < 1 {
        SweepState { vis: Set::empty(), obs: Seq::empty() }
    } else if stp <= 0 {
        sweep_upto(src, center, quad, vert, radius, it - 1, it)
    } else {
        sweep_step(
            sweep_upto(src, center, quad, vert, radius, it, stp - 1),
            src,
            center,
            quad,
            vert,
            radius,
            it,
            stp - 1,
        )
    }
}

/// The set of cells visible in one quadrant sweep.
pub open spec fn quadrant_vis<F: Opacity>(
    src: &F,
    center: Point,
    quad: Point,
    vert: bool,
    radius: int,
) -> Set<Point> {
    if radius < 1 {
        Set::empty()
    } else {
        sweep_upto(src, center, quad, vert, radius, radius, radius + 1).vis
    }
}

/// The full visible set: the union of all 8 quadrant sweeps, plus the origin.
pub open spec fn visible_spec<F: Opacity>(src: &F, center: Point, radius: int) -> Set<Point> {
    quadrant_vis(src, center, Point { x: -1i32, y: -1i32 }, false, radius).union(
        quadrant_vis(src, center, Point { x: -1i32, y: -1i32 }, true, radius),
    ).union(quadrant_vis(src, center, Point { x: 1i32, y: -1i32 }, false, radius)).union(
        quadrant_vis(src, center, Point { x: 1i32, y: -1i32 }, true, radius),
    ).union(quadrant_vis(src, center, Point { x: 1i32, y: 1i32 }, false, radius)).union(
        quadrant_vis(src, center, Point { x: 1i32, y: 1i32 }, true, radius),
    ).union(quadrant_vis(src, center, Point { x: -1i32, y: 1i32 }, false, radius)).union(
        quadrant_vis(src, center, Point { x: -1i32, y: 1i32 }, true, radius),
    ).insert(center)
}

/// Exact rational comparison `a/b < c/d` for positive denominators, carried
/// out in 128-bit arithmetic.
fn frac_lt_exec(a: i64, b: i64, c: i64, d: i64) -> (r: bool)
    requires
        -0x2_0000_0000 <= a <= 0x2_0000_0000,
        -0x2_0000_0000 <= b <= 0x2_0000_0000,
        -0x2_0000_0000 <= c <= 0x2_0000_0000,
        -0x2_0000_0000 <= d <= 0x2_0000_0000,
    ensures
        r == frac_lt(a as int, b as int, c as int, d as int),
{
    proof {
        assert(-0x4_0000_0000_0000_0000 <= (a as int) * (d as int) <= 0x4_0000_0000_0000_0000
            && -0x4_0000_0000_0000_0000 <= (c as int) * (b as int)
            <= 0x4_0000_0000_0000_0000) by (nonlinear_arith)
            requires
                -0x2_0000_0000 <= a <= 0x2_0000_0000,
                -0x2_0000_0000 <= b <= 0x2_0000_0000,
                -0x2_0000_0000 <= c <= 0x2_0000_0000,
                -0x2_0000_0000 <= d <= 0x2_0000_0000,
        ;
    }
    (a as i128) * (d as i128) < (c as i128) * (b as i128)
}

impl Angles {
    /// Executable test of [`obstructs_start`].
    fn blocks_start(self, a: Angles) -> (r: bool)
        ensures
            r == obstructs_start(self, a),
    {
        frac_lt_exec(self.stp as i64, self.it as i64 + 1, a.stp as i64, a.it as i64 + 1)
            && frac_lt_exec(a.stp as i64, a.it as i64 + 1, self.stp as i64 + 1, self.it as i64 + 1)
    }

    /// Executable test of [`obstructs_center`].
    fn blocks_center(self, a: Angles) -> (r: bool)
        ensures
            r == obstructs_center(self, a),
    {
        frac_lt_exec(
            self.stp as i64,
            self.it as i64 + 1,
            2 * (a.stp as i64) + 1,
            2 * (a.it as i64 + 1),
        ) && frac_lt_exec(
            2 * (a.stp as i64) + 1,
            2 * (a.it as i64 + 1),
            self.stp as i64 + 1,
            self.it as i64 + 1,
        )
    }

    /// Executable test of [`obstructs_end`].
    fn blocks_end(self, a: Angles) -> (r: bool)
        ensures
            r == obstructs_end(self, a),
    {
        frac_lt_exec(self.stp as i64, self.it as i64 + 1, a.stp as i64 + 1, a.it as i64 + 1)
            && frac_lt_exec(
            a.stp as i64 + 1,
            a.it as i64 + 1,
            self.stp as i64 + 1,
            self.it as i64 + 1,
        )
    }
}

/// Whether the cell with angles `a` is visible given the recorded
/// obstructions.
fn is_visible(a: Angles, obstructions: &Vec<Angles>) -> (r: bool)
    ensures
        r == vis_given(a, obstructions@),
{
    let mut start_vis = true;
    let mut center_vis = true;
    let mut end_vis = true;
    let n = obstructions.len();
    let mut j: usize = 0;
    while j < n
        invariant
            n == obstructions@.len(),
            j <= n,
            start_vis == forall|k: int|
                0 <= k < j ==> !obstructs_start(#[trigger] obstructions@[k], a),
            center_vis == forall|k: int|
                0 <= k < j ==> !obstructs_center(#[trigger] obstructions@[k], a),
            end_vis == forall|k: int| 0 <= k < j ==> !obstructs_end(#[trigger] obstructions@[k], a),
        decreases n - j,
    {
        let o = obstructions[j];
        if o.blocks_start(a) {
            start_vis = false;
        }
        if o.blocks_center(a) {
            center_vis = false;
        }
        if o.blocks_end(a) {
            end_vis = false;
        }
        j += 1;
    }
    (end_vis || start_vis) && center_vis
}

/// The cell visited at sweep coordinates `(stp, it)`.
fn at(center: Point, quad: Point, stp: i32, it: i32, vert: bool) -> (p: Point)
    requires
        quad_dir_ok(quad),
        0 <= stp <= it,
        i32::MIN <= center.x - it,
        center.x + it <= i32::MAX,
        i32::MIN <= center.y - it,
        center.y + it <= i32::MAX,
    ensures
        (p.x as int, p.y as int) == cell_at(center, quad, stp as int, it as int, vert),
{
    let sx = if quad.x == 1 {
        center.x + stp
    } else {
        center.x - stp
    };
    let ix = if quad.x == 1 {
        center.x + it
    } else {
        center.x - it
    };
    let sy = if quad.y == 1 {
        center.y + stp
    } else {
        center.y - stp
    };
    let iy = if quad.y == 1 {
        center.y + it
    } else {
        center.y - it
    };
    proof {
        assert(quad.x == 1 ==> stp * quad.x == stp && it * quad.x == it) by (nonlinear_arith);
        assert(quad.x == -1 ==> stp * quad.x == -stp && it * quad.x == -it) by (nonlinear_arith);
        assert(quad.y == 1 ==> stp * quad.y == stp && it * quad.y == it) by (nonlinear_arith);
        assert(quad.y == -1 ==> stp * quad.y == -stp && it * quad.y == -it) by (nonlinear_arith);
    }
    if vert {
        Point { x: sx, y: iy }
    } else {
        Point { x: ix, y: sy }
    }
}

/// Whether `p` lies within Euclidean distance `radius + 1/3` of `center`.
fn eligible(center: Point, p: Point, radius: i32) -> (b: bool)
    ensures
        b == within_radius(center, (p.x as int, p.y as int), radius as int),
{
    let dx = (p.x as i128) - (center.x as i128);
    let dy = (p.y as i128) - (center.y as i128);
    let rr = 3 * (radius as i128) + 1;
    proof {
        assert(0 <= (dx as int) * (dx as int) <= 0x1_0000_0000_0000_0000 && 0 <= (dy as int) * (
        dy as int) <= 0x1_0000_0000_0000_0000 && -0x4_0000_0000_0000_0000 <= (rr as int) * (
        rr as int) <= 0x4_0000_0000_0000_0000) by (nonlinear_arith)
            requires
                -0x1_0000_0000 <= dx <= 0x1_0000_0000,
                -0x1_0000_0000 <= dy <= 0x1_0000_0000,
                -0x2_0000_0000 <= rr <= 0x2_0000_0000,
        ;
    }
    9 * (dx * dx + dy * dy) <= rr * rr
}

/// One quadrant sweep: visits each cell of the quadrant in order of
/// increasing distance, recording opaque or occluded cells as obstructions
/// for the farther cells of the same sweep.
pub fn fov_quadrant<F: Opacity>(
    quad_dir: Point,
    center: Point,
    radius: i32,
    vert: bool,
    opaque_at: &F,
) -> (vis: PointSet)
    requires
        opaque_at.src_wf(),
        quad_dir_ok(quad_dir),
        fov_window_ok(center, radius as int),
    ensures
        vis@ == quadrant_vis(opaque_at, center, quad_dir, vert, radius as int),
{
    let mut vis = PointSet::new();
    let mut obstructions: Vec<Angles> = Vec::new();
    if radius < 1 {
        return vis;
    }
    let rad: i64 = radius as i64;
    proof {
        assert(sweep_upto(opaque_at, center, quad_dir, vert, radius as int, 1, 0) == sweep_upto(
            opaque_at,
            center,
            quad_dir,
            vert,
            radius as int,
            0,
            1,
        ));
        assert(sweep_upto(opaque_at, center, quad_dir, vert, radius as int, 0, 1).vis
            == Set::<Point>::empty());
    }
    let mut it: i64 = 1;
    while it <= rad
        invariant
            1 <= it <= rad + 1,
            rad == radius as int,
            1 <= radius,
            opaque_at.src_wf(),
            quad_dir_ok(quad_dir),
            fov_window_ok(center, radius as int),
            vis@ == sweep_upto(opaque_at, center, quad_dir, vert, radius as int, it as int, 0).vis,
            obstructions@ == sweep_upto(
                opaque_at,
                center,
                quad_dir,
                vert,
                radius as int,
                it as int,
                0,
            ).obs,
        decreases rad + 1 - it,
    {
        let mut stp: i64 = 0;
        while stp <= it
            invariant
                1 <= it <= rad,
                0 <= stp <= it + 1,
                rad == radius as int,
                1 <= radius,
                opaque_at.src_wf(),
                quad_dir_ok(quad_dir),
                fov_window_ok(center, radius as int),
                vis@ == sweep_upto(
                    opaque_at,
                    center,
                    quad_dir,
                    vert,
                    radius as int,
                    it as int,
                    stp as int,
                ).vis,
                obstructions@ == sweep_upto(
                    opaque_at,
                    center,
                    quad_dir,
                    vert,
                    radius as int,
                    it as int,
                    stp as int,
                ).obs,
            decreases it + 1 - stp,
        {
            let ghost st = sweep_upto(
                opaque_at,
                center,
                quad_dir,
                vert,
                radius as int,
                it as int,
                stp as int,
            );
            let p = at(center, quad_dir, stp as i32, it as i32, vert);
            if eligible(center, p, radius) {
                let a = Angles { stp: stp as i32, it: it as i32 };
                if is_visible(a, &obstructions) {
                    vis.insert(p);
                    if opaque_at.is_opaque(p) {
                        obstructions.push(a);
                    }
                } else {
                    obstructions.push(a);
                }
            }
            proof {
                let stepped = sweep_step(
                    st,
                    opaque_at,
                    center,
                    quad_dir,
                    vert,
                    radius as int,
                    it as int,
                    stp as int,
                );
                assert(sweep_upto(
                    opaque_at,
                    center,
                    quad_dir,
                    vert,
                    radius as int,
                    it as int,
                    stp as int + 1,
                ) == stepped);
                let pc = cell_at(center, quad_dir, stp as int, it as int, vert);
                assert(Point { x: pc.0 as i32, y: pc.1 as i32 } == p);
                assert(vis@ == stepped.vis);
                assert(obstructions@ == stepped.obs);
            }
            stp += 1;
        }
        proof {
            assert(sweep_upto(
                opaque_at,
                center,
                quad_dir,
                vert,
                radius as int,
                it as int + 1,
                0,
            ) == sweep_upto(
                opaque_at,
                center,
                quad_dir,
                vert,
                radius as int,
                it as int,
                it as int + 1,
            ));
        }
        it += 1;
    }
    vis
}

/// Computes the set of cells visible from `center` out to `radius`, given
/// the opacity source. Deterministic and side-effect free; the result always
/// contains `center`, and a radius of zero or less yields just `center`.
pub fn calculate<F: Opacity>(center: Point, radius: i32, opaque_at: &F) -> (vis: PointSet)
    requires
        opaque_at.src_wf(),
        fov_window_ok(center, radius as int),
    ensures
        vis@ == visible_spec(opaque_at, center, radius as int),
        vis@.contains(center),
        radius <= 0 ==> vis@ =~= Set::empty().insert(center),
{
    let mut vis = fov_quadrant(pt(-1, -1), center, radius, false, opaque_at);
    let q2 = fov_quadrant(pt(-1, -1), center, radius, true, opaque_at);
    vis.extend_from(&q2);
    let q3 = fov_quadrant(pt(1, -1), center, radius, false, opaque_at);
    vis.extend_from(&q3);
    let q4 = fov_quadrant(pt(1, -1), center, radius, true, opaque_at);
    vis.extend_from(&q4);
    let q5 = fov_quadrant(pt(1, 1), center, radius, false, opaque_at);
    vis.extend_from(&q5);
    let q6 = fov_quadrant(pt(1, 1), center, radius, true, opaque_at);
    vis.extend_from(&q6);
    let q7 = fov_quadrant(pt(-1, 1), center, radius, false, opaque_at);
    vis.extend_from(&q7);
    let q8 = fov_quadrant(pt(-1, 1), center, radius, true, opaque_at);
    vis.extend_from(&q8);
    vis.insert(center);
    vis
}

/// Executable test of [`fov_window_ok`].
pub fn window_check(center: Point, radius: i32) -> (b: bool)
    ensures
        b == fov_window_ok(center, radius as int),
{
    radius <= 0 || ((center.x as i64) - (radius as i64) >= i32::MIN as i64 && (center.x as i64)
        + (radius as i64) <= i32::MAX as i64 && (center.y as i64) - (radius as i64)
        >= i32::MIN as i64 && (center.y as i64) + (radius as i64) <= i32::MAX as i64)
}

/// Chebyshev distance between two points.
pub open spec fn cheb(center: Point, p: Point) -> int {
    let dx = if p.x >= center.x {
        p.x - center.x
    } else {
        center.x - p.x
    };
    let dy = if p.y >= center.y {
        p.y - center.y
    } else {
        center.y - p.y
    };
    if dx >= dy {
        dx
    } else {
        dy
    }
}

/// Multiplying by a unit is the identity or the negation.
proof fn lemma_mul_unit(a: int, s: int)
    requires
        s == 1 || s == -1,
    ensures
        s == 1 ==> a * s == a,
        s == -1 ==> a * s == -a,
{
    assert(a * 1 == a && a * -1 == -a) by (nonlinear_arith);
}

/// With no opaque cell anywhere, a sweep never records an obstruction.
proof fn lemma_sweep_clear_obs<F: Opacity>(
    src: &F,
    center: Point,
    quad: Point,
    vert: bool,
    radius: int,
    it: int,
    stp: int,
)
    requires
        forall|q: Point| !src.op(q),
    ensures
        sweep_upto(src, center, quad, vert, radius, it, stp).obs == Seq::<Angles>::empty(),
    decreases it, stp + 1,
{
    if it < 1 {
    } else if stp <= 0 {
        lemma_sweep_clear_obs(src, center, quad, vert, radius, it - 1, it);
    } else {
        lemma_sweep_clear_obs(src, center, quad, vert, radius, it, stp - 1);
    }
}

/// With no opaque cell anywhere, every eligible cell processed so far is
/// visible.
proof fn lemma_sweep_clear_vis<F: Opacity>(
    src: &F,
    center: Point,
    quad: Point,
    vert: bool,
    radius: int,
    it: int,
    stp: int,
    tit: int,
    tstp: int,
)
    requires
        forall|q: Point| !src.op(q),
        1 <= tit,
        0 <= tstp <= tit,
        tit < it || (tit == it && tstp < stp),
        within_radius(center, cell_at(center, quad, tstp, tit, vert), radius),
    ensures
        ({
            let pc = cell_at(center, quad, tstp, tit, vert);
            sweep_upto(src, center, quad, vert, radius, it, stp).vis.contains(
                Point { x: pc.0 as i32, y: pc.1 as i32 },
            )
        }),
    decreases it, stp + 1,
{
    if it < 1 {
        // impossible: tit >= 1 and tit < it
    } else if stp <= 0 {
        lemma_sweep_clear_vis(src, center, quad, vert, radius, it - 1, it, tit, tstp);
    } else {
        if tit == it && tstp == stp - 1 {
            lemma_sweep_clear_obs(src, center, quad, vert, radius, it, stp - 1);
        } else {
            lemma_sweep_clear_vis(src, center, quad, vert, radius, it, stp - 1, tit, tstp);
        }
    }
}

/// A cell within distance `radius + 1/3` of the center, other than the
/// center itself, lies within Chebyshev distance `radius`, and the radius is
/// at least 1.
proof fn lemma_disk_chebyshev(center: Point, p: Point, radius: int)
    requires
        within_radius(center, (p.x as int, p.y as int), radius),
        p != center,
        radius >= 0,
    ensures
        1 <= cheb(center, p) <= radius,
{
    let dx = p.x - center.x;
    let dy = p.y - center.y;
    assert(dx != 0 || dy != 0);
    assert(9 * (dx * dx + dy * dy) <= (3 * radius + 1) * (3 * radius + 1));
    assert(!(dx == 0 && dy == 0) && 9 * (dx * dx + dy * dy) <= (3 * radius + 1) * (3 * radius + 1)
        && radius >= 0 ==> (if dx >= 0 {
        dx
    } else {
        -dx
    }) <= radius && (if dy >= 0 {
        dy
    } else {
        -dy
    }) <= radius && ((if dx >= 0 {
        dx
    } else {
        -dx
    }) >= 1 || (if dy >= 0 {
        dy
    } else {
        -dy
    }) >= 1)) by (nonlinear_arith);
}

/// With an opacity predicate that holds nowhere, the visible set contains
/// every cell of the disk of radius `radius + 1/3` around the center --
/// and, like always, the center itself.
pub proof fn lemma_clear_full_disk<F: Opacity>(src: &F, center: Point, radius: int, p: Point)
    requires
        forall|q: Point| !src.op(q),
        fov_window_ok(center, radius),
        radius >= 0,
        within_radius(center, (p.x as int, p.y as int), radius) || p == center,
    ensures
        visible_spec(src, center, radius).contains(p),
{
    if p == center {
        return ;
    }
    lemma_disk_chebyshev(center, p, radius);
    let dx = p.x - center.x;
    let dy = p.y - center.y;
    let qx: i32 = if dx >= 0 {
        1i32
    } else {
        -1i32
    };
    let qy: i32 = if dy >= 0 {
        1i32
    } else {
        -1i32
    };
    let quad = Point { x: qx, y: qy };
    let adx = if dx >= 0 {
        dx
    } else {
        -dx
    };
    let ady = if dy >= 0 {
        dy
    } else {
        -dy
    };
    let vert = ady >= adx;
    let tit = if vert {
        ady
    } else {
        adx
    };
    let tstp = if vert {
        adx
    } else {
        ady
    };
    lemma_mul_unit(tstp, qx as int);
    lemma_mul_unit(tstp, qy as int);
    lemma_mul_unit(tit, qx as int);
    lemma_mul_unit(tit, qy as int);
    let pc = cell_at(center, quad, tstp, tit, vert);
    assert(pc.0 == p.x as int && pc.1 == p.y as int);
    lemma_sweep_clear_vis(src, center, quad, vert, radius, radius, radius + 1, tit, tstp);
    assert(quadrant_vis(src, center, quad, vert, radius).contains(p));
}

/// Distinct sweep coordinates visit distinct cells, both as integer pairs
/// and as points.
proof fn lemma_cells_distinct(
    center: Point,
    quad: Point,
    vert: bool,
    radius: int,
    i1: int,
    s1: int,
    i2: int,
    s2: int,
)
    requires
        quad_dir_ok(quad),
        fov_window_ok(center, radius),
        1 <= i1 <= radius,
        0 <= s1 <= i1,
        1 <= i2 <= radius,
        0 <= s2 <= i2,
        !(i1 == i2 && s1 == s2),
    ensures
        ({
            let c1 = cell_at(center, quad, s1, i1, vert);
            let c2 = cell_at(center, quad, s2, i2, vert);
            Point { x: c1.0 as i32, y: c1.1 as i32 } != Point { x: c2.0 as i32, y: c2.1 as i32 }
        }),
{
    lemma_mul_unit(s1, quad.x as int);
    lemma_mul_unit(s1, quad.y as int);
    lemma_mul_unit(i1, quad.x as int);
    lemma_mul_unit(i1, quad.y as int);
    lemma_mul_unit(s2, quad.x as int);
    lemma_mul_unit(s2, quad.y as int);
    lemma_mul_unit(i2, quad.x as int);
    lemma_mul_unit(i2, quad.y as int);
    let c1 = cell_at(center, quad, s1, i1, vert);
    let c2 = cell_at(center, quad, s2, i2, vert);
    assert(i32::MIN <= c1.0 <= i32::MAX && i32::MIN <= c1.1 <= i32::MAX);
    assert(i32::MIN <= c2.0 <= i32::MAX && i32::MIN <= c2.1 <= i32::MAX);
    assert(c1 != c2);
}

/// An opaque eligible cell is recorded as an obstruction by the time any
/// later sweep coordinate is processed, whether or not it was itself
/// visible.
proof fn lemma_obstruction_recorded<F: Opacity>(
    src: &F,
    center: Point,
    quad: Point,
    vert: bool,
    radius: int,
    it: int,
    stp: int,
    ait: int,
    astp: int,
)
    requires
        1 <= ait <= i32::MAX,
        0 <= astp <= ait,
        ait < it || (ait == it && astp < stp),
        within_radius(center, cell_at(center, quad, astp, ait, vert), radius),
        ({
            let ac = cell_at(center, quad, astp, ait, vert);
            src.op(Point { x: ac.0 as i32, y: ac.1 as i32 })
        }),
    ensures
        sweep_upto(src, center, quad, vert, radius, it, stp).obs.contains(
            Angles { stp: astp as i32, it: ait as i32 },
        ),
    decreases it, stp + 1,
{
    let a = Angles { stp: astp as i32, it: ait as i32 };
    if it < 1 {
        // impossible: ait >= 1 and ait < it
    } else if stp <= 0 {
        lemma_obstruction_recorded(src, center, quad, vert, radius, it - 1, it, ait, astp);
    } else {
        let st = sweep_upto(src, center, quad, vert, radius, it, stp - 1);
        if ait == it && astp == stp - 1 {
            assert(st.obs.push(a)[st.obs.len() as int] == a);
        } else {
            lemma_obstruction_recorded(src, center, quad, vert, radius, it, stp - 1, ait, astp);
            let i = choose|i: int| 0 <= i < st.obs.len() && st.obs[i] == a;
            assert(st.obs.push(Angles { stp: (stp - 1) as i32, it: it as i32 })[i] == a);
        }
    }
}

/// If a nearer opaque eligible cell `A` occludes the center angle of a
/// farther cell `B` of the same sweep, then `B` is not visible in that
/// sweep.
proof fn lemma_sweep_occluded<F: Opacity>(
    src: &F,
    center: Point,
    quad: Point,
    vert: bool,
    radius: int,
    it: int,
    stp: int,
    ait: int,
    astp: int,
    bit: int,
    bstp: int,
)
    requires
        quad_dir_ok(quad),
        fov_window_ok(center, radius),
        1 <= ait <= radius,
        0 <= astp <= ait,
        1 <= bit <= radius,
        0 <= bstp <= bit,
        ait < bit,
        it <= radius,
        stp <= it + 1,
        within_radius(center, cell_at(center, quad, astp, ait, vert), radius),
        ({
            let ac = cell_at(center, quad, astp, ait, vert);
            src.op(Point { x: ac.0 as i32, y: ac.1 as i32 })
        }),
        obstructs_center(
            Angles { stp: astp as i32, it: ait as i32 },
            Angles { stp: bstp as i32, it: bit as i32 },
        ),
    ensures
        ({
            let bc = cell_at(center, quad, bstp, bit, vert);
            !sweep_upto(src, center, quad, vert, radius, it, stp).vis.contains(
                Point { x: bc.0 as i32, y: bc.1 as i32 },
            )
        }),
    decreases it, stp + 1,
{
    let bc = cell_at(center, quad, bstp, bit, vert);
    let b = Point { x: bc.0 as i32, y: bc.1 as i32 };
    if it < 1 {
    } else if stp <= 0 {
        lemma_sweep_occluded(src, center, quad, vert, radius, it - 1, it, ait, astp, bit, bstp);
    } else {
        lemma_sweep_occluded(src, center, quad, vert, radius, it, stp - 1, ait, astp, bit, bstp);
        let st = sweep_upto(src, center, quad, vert, radius, it, stp - 1);
        let pc = cell_at(center, quad, stp - 1, it, vert);
        let p = Point { x: pc.0 as i32, y: pc.1 as i32 };
        if it == bit && stp - 1 == bstp {
            // this is B's own step: its center angle is occluded by A
            lemma_obstruction_recorded(src, center, quad, vert, radius, it, stp - 1, ait, astp);
            let a = Angles { stp: astp as i32, it: ait as i32 };
            let bang = Angles { stp: bstp as i32, it: bit as i32 };
            if within_radius(center, pc, radius) {
                let i = choose|i: int| 0 <= i < st.obs.len() && st.obs[i] == a;
                assert(obstructs_center(st.obs[i], bang));
                assert(!vis_given(bang, st.obs));
            }
        } else {
            // some other cell: inserting it cannot add B
            lemma_cells_distinct(center, quad, vert, radius, it, stp - 1, bit, bstp);
            assert(p != b);
        }
    }
}

/// A single opaque cell strictly nearer to the origin whose interval
/// contains a farther cell's center angle occludes that farther cell in the
/// quadrant sweep that visits both. (Cells at the obstruction's angular
/// edges may still be visible: boundary angles are never occluded.)
pub proof fn lemma_single_obstruction_occludes<F: Opacity>(
    src: &F,
    center: Point,
    quad: Point,
    vert: bool,
    radius: int,
    ait: int,
    astp: int,
    bit: int,
    bstp: int,
)
    requires
        quad_dir_ok(quad),
        fov_window_ok(center, radius),
        1 <= ait <= radius,
        0 <= astp <= ait,
        1 <= bit <= radius,
        0 <= bstp <= bit,
        ait < bit,
        within_radius(center, cell_at(center, quad, astp, ait, vert), radius),
        ({
            let ac = cell_at(center, quad, astp, ait, vert);
            src.op(Point { x: ac.0 as i32, y: ac.1 as i32 })
        }),
        obstructs_center(
            Angles { stp: astp as i32, it: ait as i32 },
            Angles { stp: bstp as i32, it: bit as i32 },
        ),
    ensures
        ({
            let bc = cell_at(center, quad, bstp, bit, vert);
            !quadrant_vis(src, center, quad, vert, radius).contains(
                Point { x: bc.0 as i32, y: bc.1 as i32 },
            )
        }),
{
    lemma_sweep_occluded(
        src,
        center,
        quad,
        vert,
        radius,
        radius,
        radius + 1,
        ait,
        astp,
        bit,
        bstp,
    );
}

/// Rotation of `p` by 90 degrees about `center`: the offset `(dx, dy)` maps
/// to `(-dy, dx)`.
pub open spec fn rot90(center: Point, p: Point) -> Point {
    Point {
        x: (center.x - (p.y - center.y)) as i32,
        y: (center.y + (p.x - center.x)) as i32,
    }
}

/// The quadrant direction that a sweep maps to under [`rot90`], with the
/// sweep axis flipped.
pub open spec fn rotq(quad: Point) -> Point {
    Point { x: (0 - quad.y) as i32, y: quad.x }
}

/// Squares are unaffected by negation.
proof fn lemma_sq_neg(a: int)
    ensures
        (0 - a) * (0 - a) == a * a,
{
    assert((0 - a) * (0 - a) == a * a) by (nonlinear_arith);
}

/// One sweep under a rotation-symmetric opacity predicate corresponds,
/// cell by cell, to the sweep of the rotated quadrant with the axis order
/// flipped: the obstruction lists agree and the visible cells are the
/// rotations of one another.
proof fn lemma_sweep_rot<F: Opacity>(
    src: &F,
    center: Point,
    quad: Point,
    vert: bool,
    radius: int,
    it: int,
    stp: int,
)
    requires
        quad_dir_ok(quad),
        fov_window_ok(center, radius),
        1 <= radius,
        it <= radius,
        stp <= it + 1,
        forall|q: Point|
            cheb(center, q) <= radius ==> src.op(rot90(center, q)) == #[trigger] src.op(q),
    ensures
        ({
            let st1 = sweep_upto(src, center, quad, vert, radius, it, stp);
            let st2 = sweep_upto(src, center, rotq(quad), !vert, radius, it, stp);
            &&& st2.obs == st1.obs
            &&& forall|q: Point| st1.vis.contains(q) ==> cheb(center, q) <= radius
            &&& forall|q: Point|
                cheb(center, q) <= radius ==> (st1.vis.contains(q) <==> st2.vis.contains(
                    rot90(center, q),
                ))
        }),
    decreases it, stp + 1,
{
    if it < 1 {
    } else if stp <= 0 {
        lemma_sweep_rot(src, center, quad, vert, radius, it - 1, it);
    } else {
        lemma_sweep_rot(src, center, quad, vert, radius, it, stp - 1);
        let st1 = sweep_upto(src, center, quad, vert, radius, it, stp - 1);
        let st2 = sweep_upto(src, center, rotq(quad), !vert, radius, it, stp - 1);
        let s = stp - 1;
        lemma_mul_unit(s, quad.x as int);
        lemma_mul_unit(s, quad.y as int);
        lemma_mul_unit(it, quad.x as int);
        lemma_mul_unit(it, quad.y as int);
        lemma_mul_unit(s, rotq(quad).x as int);
        lemma_mul_unit(s, rotq(quad).y as int);
        lemma_mul_unit(it, rotq(quad).x as int);
        lemma_mul_unit(it, rotq(quad).y as int);
        let c1 = cell_at(center, quad, s, it, vert);
        let c2 = cell_at(center, rotq(quad), s, it, !vert);
        assert(c2.0 == center.x - (c1.1 - center.y) && c2.1 == center.y + (c1.0 - center.x));
        assert(i32::MIN <= c1.0 <= i32::MAX && i32::MIN <= c1.1 <= i32::MAX);
        assert(i32::MIN <= c2.0 <= i32::MAX && i32::MIN <= c2.1 <= i32::MAX);
        let p1 = Point { x: c1.0 as i32, y: c1.1 as i32 };
        let p2 = Point { x: c2.0 as i32, y: c2.1 as i32 };
        assert(p2 == rot90(center, p1));
        assert(cheb(center, p1) <= radius);
        assert(cheb(center, p2) <= radius);
        lemma_sq_neg(c1.1 - center.y);
        assert(within_radius(center, c2, radius) == within_radius(center, c1, radius));
        assert(src.op(p2) == src.op(p1));
        let a = Angles { stp: s as i32, it: it as i32 };
        let st1n = sweep_upto(src, center, quad, vert, radius, it, stp);
        let st2n = sweep_upto(src, center, rotq(quad), !vert, radius, it, stp);
        assert(st1n == sweep_step(st1, src, center, quad, vert, radius, it, s));
        assert(st2n == sweep_step(st2, src, center, rotq(quad), !vert, radius, it, s));
        if within_radius(center, c1, radius) {
            assert(vis_given(a, st2.obs) == vis_given(a, st1.obs));
            if vis_given(a, st1.obs) {
                assert(st1n.vis == st1.vis.insert(p1));
                assert(st2n.vis == st2.vis.insert(p2));
                assert forall|q: Point| cheb(center, q) <= radius implies (st1n.vis.contains(q)
                    <==> st2n.vis.contains(rot90(center, q))) by {
                    if q != p1 {
                        assert(i32::MIN <= center.x - (q.y - center.y) <= i32::MAX);
                        assert(i32::MIN <= center.y + (q.x - center.x) <= i32::MAX);
                        assert(rot90(center, q) != p2);
                    }
                }
            }
        }
        assert(st2n.obs == st1n.obs);
        assert forall|q: Point| st1n.vis.contains(q) implies cheb(center, q) <= radius by {}
        assert forall|q: Point| cheb(center, q) <= radius implies (st1n.vis.contains(q)
            <==> st2n.vis.contains(rot90(center, q))) by {
            if !(within_radius(center, c1, radius) && vis_given(a, st1.obs)) {
                assert(st1n.vis == st1.vis);
                assert(st2n.vis == st2.vis);
            }
        }
    }
}

/// `visible_cells` is symmetric under 90-degree rotation about the origin,
/// whenever the opacity predicate is itself rotation-symmetric about the
/// origin (over the cells within reach of the sweep).
pub proof fn lemma_rotation_symmetry<F: Opacity>(src: &F, center: Point, radius: int, p: Point)
    requires
        fov_window_ok(center, radius),
        forall|q: Point|
            cheb(center, q) <= radius ==> src.op(rot90(center, q)) == #[trigger] src.op(q),
        cheb(center, p) <= radius,
    ensures
        visible_spec(src, center, radius).contains(p) <==> visible_spec(src, center, radius)
            .contains(rot90(center, p)),
{
    if radius < 1 {
        assert(p == center);
        assert(rot90(center, p) == center);
    } else {
        let nw = Point { x: -1i32, y: -1i32 };
        let ne = Point { x: 1i32, y: -1i32 };
        let se = Point { x: 1i32, y: 1i32 };
        let sw = Point { x: -1i32, y: 1i32 };
        assert(rotq(nw) == ne && rotq(ne) == se && rotq(se) == sw && rotq(sw) == nw);
        lemma_sweep_rot(src, center, nw, false, radius, radius, radius + 1);
        lemma_sweep_rot(src, center, nw, true, radius, radius, radius + 1);
        lemma_sweep_rot(src, center, ne, false, radius, radius, radius + 1);
        lemma_sweep_rot(src, center, ne, true, radius, radius, radius + 1);
        lemma_sweep_rot(src, center, se, false, radius, radius, radius + 1);
        lemma_sweep_rot(src, center, se, true, radius, radius, radius + 1);
        lemma_sweep_rot(src, center, sw, false, radius, radius, radius + 1);
        lemma_sweep_rot(src, center, sw, true, radius, radius, radius + 1);
        assert(p == center <==> rot90(center, p) == center);
    }
}

} // verus!
