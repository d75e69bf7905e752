//! Geometry primitives: integer 2D vectors, axis-aligned rectangles, the
//! strict overlap test the packing search is built on, and the mirror /
//! distance predicates the symmetry and clearance arguments rest on.

use vstd::prelude::*;

verus! {

/// Geometry lives on a bounded integer grid so that every coordinate sum the
/// library computes stays far away from `i64` overflow. All generated layouts
/// use coordinates that are smaller than this by several orders of magnitude.
pub const COORD_LIMIT: i64 = 0x4000_0000_0000;

/// A 2D integer vector, used both for positions and for extents.
#[derive(Clone, Copy, Debug, PartialEq, Eq, Structural)]
pub struct Vec2 {
    pub x: i64,
    pub y: i64,
}

/// A 3D integer position; `z` is the render layer.
#[derive(Clone, Copy, Debug, PartialEq, Eq, Structural)]
pub struct Vec3 {
    pub x: i64,
    pub y: i64,
    pub z: i64,
}

/// An axis-aligned rectangle occupying `[pos.x, pos.x+size.x) x [pos.y, pos.y+size.y)`;
/// `pos` is the lower-left corner.
#[derive(Clone, Copy, Debug, PartialEq, Eq, Structural)]
pub struct Rect {
    pub pos: Vec2,
    pub size: Vec2,
}

/// A coordinate the geometry accepts: bounded so sums of two cannot overflow.
pub open spec fn coord_ok(c: int) -> bool {
    -(COORD_LIMIT as int) <= c <= COORD_LIMIT as int
}

/// Well-formed rectangle: bounded coordinates and non-negative extents.
pub open spec fn rect_wf(r: Rect) -> bool {
    &&& coord_ok(r.pos.x as int)
    &&& coord_ok(r.pos.y as int)
    &&& 0 <= r.size.x <= COORD_LIMIT
    &&& 0 <= r.size.y <= COORD_LIMIT
}

/// Strict AABB overlap: rectangles that merely touch along an edge do not
/// overlap. The packing search relies on this tolerance to place rectangles
/// flush against each other.
pub open spec fn overlaps(a: Rect, b: Rect) -> bool {
    &&& a.pos.x < b.pos.x + b.size.x
    &&& b.pos.x < a.pos.x + a.size.x
    &&& a.pos.y < b.pos.y + b.size.y
    &&& b.pos.y < a.pos.y + a.size.y
}

/// One of the two unit axis vectors.
pub open spec fn is_axis(v: Vec2) -> bool {
    ||| (v.x == 1 && v.y == 0)
    ||| (v.x == 0 && v.y == 1)
}

/// The orthogonal unit axis.
pub open spec fn perp(ax: Vec2) -> Vec2 {
    Vec2 { x: ax.y, y: ax.x }
}

/// The component of `v` along the unit axis `ax`.
pub open spec fn along(v: Vec2, ax: Vec2) -> int {
    if ax.x == 1 {
        v.x as int
    } else {
        v.y as int
    }
}

/// The near edge of `r` along `ax`.
pub open spec fn rect_lo(r: Rect, ax: Vec2) -> int {
    along(r.pos, ax)
}

/// The far edge of `r` along `ax`.
pub open spec fn rect_hi(r: Rect, ax: Vec2) -> int {
    along(r.pos, ax) + along(r.size, ax)
}

/// `r` reflected across the y axis (x coordinates negated): the far x corner
/// becomes the near one, so the new `pos.x` is minus the old far edge.
pub open spec fn mirror_x_rect(r: Rect) -> Rect {
    Rect {
        pos: Vec2 { x: (-(r.pos.x + r.size.x)) as i64, y: r.pos.y },
        size: r.size,
    }
}

/// `r` reflected across the x axis (y coordinates negated).
pub open spec fn mirror_y_rect(r: Rect) -> Rect {
    Rect {
        pos: Vec2 { x: r.pos.x, y: (-(r.pos.y + r.size.y)) as i64 },
        size: r.size,
    }
}

/// Squared Euclidean norm of the point `(x, y)`.
pub open spec fn nsq(x: int, y: int) -> int {
    x * x + y * y
}

/// The coordinate of the interval `[lo, hi]` nearest to zero.
pub open spec fn nearest0(lo: int, hi: int) -> int {
    if lo > 0 {
        lo
    } else if hi < 0 {
        hi
    } else {
        0
    }
}

/// Squared distance from the origin to the nearest point of (the closure of) `r`.
pub open spec fn dist2_origin(r: Rect) -> int {
    nsq(
        nearest0(r.pos.x as int, r.pos.x + r.size.x),
        nearest0(r.pos.y as int, r.pos.y + r.size.y),
    )
}

/// `r` lies entirely within one closed quadrant: it does not strictly
/// straddle either axis.
pub open spec fn quadrant_confined(r: Rect) -> bool {
    &&& (r.pos.x >= 0 || r.pos.x + r.size.x <= 0)
    &&& (r.pos.y >= 0 || r.pos.y + r.size.y <= 0)
}

/// The spawn-clearance filter keeps `r` iff all four of its corners are
/// strictly farther than `rad` from the origin.
pub open spec fn hole_keep(r: Rect, rad: int) -> bool {
    &&& nsq(r.pos.x as int, r.pos.y as int) > rad * rad
    &&& nsq(r.pos.x + r.size.x, r.pos.y + r.size.y) > rad * rad
    &&& nsq(r.pos.x as int, r.pos.y + r.size.y) > rad * rad
    &&& nsq(r.pos.x + r.size.x, r.pos.y as int) > rad * rad
}

/// Mirroring twice along x restores the rectangle.
pub proof fn lemma_mirror_x_involutive(r: Rect)
    requires
        rect_wf(r),
    ensures
        mirror_x_rect(mirror_x_rect(r)) == r,
{
}

/// Mirroring twice along y restores the rectangle.
pub proof fn lemma_mirror_y_involutive(r: Rect)
    requires
        rect_wf(r),
    ensures
        mirror_y_rect(mirror_y_rect(r)) == r,
{
}

/// The two mirrors commute.
pub proof fn lemma_mirror_commute(r: Rect)
    requires
        rect_wf(r),
    ensures
        mirror_x_rect(mirror_y_rect(r)) == mirror_y_rect(mirror_x_rect(r)),
{
}

/// Mirroring both rectangles of a pair preserves (non-)overlap.
pub proof fn lemma_mirror_x_overlaps(a: Rect, b: Rect)
    requires
        rect_wf(a),
        rect_wf(b),
    ensures
        overlaps(mirror_x_rect(a), mirror_x_rect(b)) == overlaps(a, b),
{
}

pub proof fn lemma_mirror_y_overlaps(a: Rect, b: Rect)
    requires
        rect_wf(a),
        rect_wf(b),
    ensures
        overlaps(mirror_y_rect(a), mirror_y_rect(b)) == overlaps(a, b),
{
}

/// Negating a point's x coordinate preserves its squared norm.
pub proof fn lemma_nsq_neg_x(x: int, y: int)
    ensures
        nsq(-x, y) == nsq(x, y),
{
    assert((-x) * (-x) == x * x) by (nonlinear_arith);
}

/// Negating a point's y coordinate preserves its squared norm.
pub proof fn lemma_nsq_neg_y(x: int, y: int)
    ensures
        nsq(x, -y) == nsq(x, y),
{
    assert((-y) * (-y) == y * y) by (nonlinear_arith);
}

/// The clearance filter is invariant under mirroring along x.
pub proof fn lemma_hole_keep_mirror_x(r: Rect, rad: int)
    requires
        rect_wf(r),
    ensures
        hole_keep(mirror_x_rect(r), rad) == hole_keep(r, rad),
{
    let fx = r.pos.x + r.size.x;
    lemma_nsq_neg_x(r.pos.x as int, r.pos.y as int);
    lemma_nsq_neg_x(fx, r.pos.y + r.size.y);
    lemma_nsq_neg_x(r.pos.x as int, r.pos.y + r.size.y);
    lemma_nsq_neg_x(fx, r.pos.y as int);
}

/// The clearance filter is invariant under mirroring along y.
pub proof fn lemma_hole_keep_mirror_y(r: Rect, rad: int)
    requires
        rect_wf(r),
    ensures
        hole_keep(mirror_y_rect(r), rad) == hole_keep(r, rad),
{
    let fy = r.pos.y + r.size.y;
    lemma_nsq_neg_y(r.pos.x as int, r.pos.y as int);
    lemma_nsq_neg_y(r.pos.x + r.size.x, fy);
    lemma_nsq_neg_y(r.pos.x as int, fy);
    lemma_nsq_neg_y(r.pos.x + r.size.x, r.pos.y as int);
}

/// For a quadrant-confined rectangle that the clearance filter keeps, the
/// nearest point of the rectangle is one of its corners, so the whole
/// rectangle is strictly farther than `rad` from the origin.
pub proof fn lemma_clearance(r: Rect, rad: int)
    requires
        rect_wf(r),
        quadrant_confined(r),
        hole_keep(r, rad),
    ensures
        dist2_origin(r) > rad * rad,
{
}

/// The component of `v` along the unit axis `ax` (executable form of `along`).
pub fn axis_coord(v: &Vec2, ax: &Vec2) -> (c: i64)
    requires
        is_axis(*ax),
    ensures
        c as int == along(*v, *ax),
{
    if ax.x == 1 {
        v.x
    } else {
        v.y
    }
}

/// `v` translated by `d` units along the unit axis `ax`.
pub fn axis_add(v: &Vec2, ax: &Vec2, d: i64) -> (w: Vec2)
    requires
        is_axis(*ax),
        -0x2000_0000_0000 <= v.x <= 0x2000_0000_0000,
        -0x2000_0000_0000 <= v.y <= 0x2000_0000_0000,
        -0x2000_0000_0000 <= d <= 0x2000_0000_0000,
    ensures
        along(w, *ax) == along(*v, *ax) + d,
        along(w, perp(*ax)) == along(*v, perp(*ax)),
        coord_ok(w.x as int),
        coord_ok(w.y as int),
{
    if ax.x == 1 {
        Vec2 { x: v.x + d, y: v.y }
    } else {
        Vec2 { x: v.x, y: v.y + d }
    }
}

/// Squared Euclidean norm of `(x, y)`, computed widely enough that any
/// in-bounds coordinate pair is accepted.
pub fn norm2_wide(x: i64, y: i64) -> (n: i128)
    requires
        -0x8000_0000_0000 <= x <= 0x8000_0000_0000,
        -0x8000_0000_0000 <= y <= 0x8000_0000_0000,
    ensures
        n as int == nsq(x as int, y as int),
{
    let xl = x as i128;
    let yl = y as i128;
    proof {
        assert(xl * xl <= 0x8000_0000_0000i128 * 0x8000_0000_0000i128 && xl * xl >= 0)
            by (nonlinear_arith)
            requires -0x8000_0000_0000 <= xl <= 0x8000_0000_0000;
        assert(yl * yl <= 0x8000_0000_0000i128 * 0x8000_0000_0000i128 && yl * yl >= 0)
            by (nonlinear_arith)
            requires -0x8000_0000_0000 <= yl <= 0x8000_0000_0000;
    }
    xl * xl + yl * yl
}

} // verus!
