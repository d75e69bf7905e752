//! The placement half of the layout builder: the rectangle collection, the
//! incremental placement search ("cast"), the transitive contact-propagating
//! repositioning ("drag"), mirroring and merging.

use vstd::prelude::*;

use crate::geom::{
    along, axis_add, axis_coord, is_axis, lemma_mirror_x_involutive,
    lemma_mirror_y_involutive, mirror_x_rect, mirror_y_rect, overlaps, perp, rect_hi, rect_lo,
    rect_wf, Rect, Vec2, COORD_LIMIT,
};

verus! {

/// Every rectangle of the sequence is well formed.
pub open spec fn all_wf(s: Seq<Rect>) -> bool {
    forall|i: int| 0 <= i < s.len() ==> rect_wf(#[trigger] s[i])
}

/// No two distinct rectangles of the sequence overlap.
pub open spec fn pairwise_disjoint(s: Seq<Rect>) -> bool {
    forall|i: int, j: int|
        0 <= i < s.len() && 0 <= j < s.len() && i != j ==> !overlaps(
            #[trigger] s[i],
            #[trigger] s[j],
        )
}

/// `r` lies within the square `[0, b] x [0, b]`.
pub open spec fn in_box(r: Rect, b: int) -> bool {
    &&& 0 <= r.pos.x
    &&& r.pos.x + r.size.x <= b
    &&& 0 <= r.pos.y
    &&& r.pos.y + r.size.y <= b
}

/// Every rectangle of the sequence lies within `[0, b] x [0, b]`.
pub open spec fn all_in_box(s: Seq<Rect>, b: int) -> bool {
    forall|i: int| 0 <= i < s.len() ==> in_box(#[trigger] s[i], b)
}

/// The far edge of the sequence's rectangles along `ax`: the maximum of
/// `rect_hi` over the sequence, `0` when it is empty.
pub open spec fn extent_along(s: Seq<Rect>, ax: Vec2) -> int
    decreases s.len(),
{
    if s.len() == 0 {
        0
    } else {
        let rest = extent_along(s.drop_last(), ax);
        let f = rect_hi(s.last(), ax);
        if f > rest {
            f
        } else {
            rest
        }
    }
}

/// A small "movable" footprint: each dimension a multiple of five in `[10, 50]`.
pub open spec fn movable_size(sz: Vec2) -> bool {
    &&& 10 <= sz.x <= 50 && sz.x % 5 == 0
    &&& 10 <= sz.y <= 50 && sz.y % 5 == 0
}

/// An elongated "wall" footprint: a long axis in `[75, 125]` and a short one
/// in `[15, 50]`, both multiples of five.
pub open spec fn wall_size(sz: Vec2) -> bool {
    &&& sz.x % 5 == 0 && sz.y % 5 == 0
    &&& ((75 <= sz.x <= 125 && 15 <= sz.y <= 50) || (15 <= sz.x <= 50 && 75 <= sz.y <= 125))
}

/// Any footprint the generator samples.
pub open spec fn gen_size(sz: Vec2) -> bool {
    movable_size(sz) || wall_size(sz)
}

/// The clipping strip covering the "beyond +y" region.
pub open spec fn oob_strip_y(oob: Vec2) -> Rect {
    Rect { pos: Vec2 { x: 0, y: oob.y }, size: oob }
}

/// The clipping strip covering the "beyond +x" region.
pub open spec fn oob_strip_x(oob: Vec2) -> Rect {
    Rect { pos: Vec2 { x: oob.x, y: 0 }, size: oob }
}

/// The out-of-bounds filter keeps `r` iff it intersects neither strip.
pub open spec fn oob_keep(r: Rect, oob: Vec2) -> bool {
    !overlaps(r, oob_strip_y(oob)) && !overlaps(r, oob_strip_x(oob))
}

/// The larger of two integers.
pub open spec fn max_int(a: int, b: int) -> int {
    if a > b {
        a
    } else {
        b
    }
}

/// The placement search and the generator keep every coordinate within this
/// box; it is far below `COORD_LIMIT`, leaving room for the later drags.
pub const PLACE_BOUND: i64 = 0x200_0000_0000;

/// The extent is non-negative and dominates every rectangle's far edge.
pub proof fn lemma_extent_props(s: Seq<Rect>, ax: Vec2)
    requires
        all_wf(s),
    ensures
        extent_along(s, ax) >= 0,
        forall|i: int| 0 <= i < s.len() ==> rect_hi(#[trigger] s[i], ax) <= extent_along(s, ax),
    decreases s.len(),
{
    if s.len() > 0 {
        let rest = s.drop_last();
        assert(all_wf(rest)) by {
            assert(forall|i: int| 0 <= i < rest.len() ==> rest[i] == s[i]);
        }
        lemma_extent_props(rest, ax);
        assert forall|i: int| 0 <= i < s.len() implies rect_hi(#[trigger] s[i], ax)
            <= extent_along(s, ax) by {
            if i < s.len() - 1 {
                assert(rest[i] == s[i]);
            } else {
                assert(s[i] == s.last());
            }
        }
    }
}

/// Within a bounding box, the extent along either axis is bounded too.
pub proof fn lemma_extent_le(s: Seq<Rect>, ax: Vec2, b: int)
    requires
        is_axis(ax),
        all_in_box(s, b),
        b >= 0,
    ensures
        extent_along(s, ax) <= b,
    decreases s.len(),
{
    if s.len() > 0 {
        let rest = s.drop_last();
        assert(all_in_box(rest, b)) by {
            assert(forall|i: int| 0 <= i < rest.len() ==> rest[i] == s[i]);
        }
        lemma_extent_le(rest, ax, b);
        assert(in_box(s.last(), b));
    }
}

/// The drag operation accepts rectangles within this span; generated layouts
/// stay well inside it, leaving room for the translation itself.
pub const DRAG_BOUND: i64 = 0x200_0000_0000;

/// `r` lies within the square `[lo, hi] x [lo, hi]`.
pub open spec fn rect_in_span(r: Rect, lo: int, hi: int) -> bool {
    &&& lo <= r.pos.x
    &&& r.pos.x + r.size.x <= hi
    &&& lo <= r.pos.y
    &&& r.pos.y + r.size.y <= hi
}

/// Every rectangle of the sequence lies within `[lo, hi] x [lo, hi]`.
pub open spec fn all_in_span(s: Seq<Rect>, lo: int, hi: int) -> bool {
    forall|i: int| 0 <= i < s.len() ==> rect_in_span(#[trigger] s[i], lo, hi)
}

/// `r2` is `r` translated one unit along the unit axis `ax`.
pub open spec fn is_shift1(r2: Rect, r: Rect, ax: Vec2) -> bool {
    &&& r2.size == r.size
    &&& along(r2.pos, ax) == along(r.pos, ax) + 1
    &&& along(r2.pos, perp(ax)) == along(r.pos, perp(ax))
}

/// Overlap of `a` with `b` translated one unit along `ax`.
pub open spec fn overlaps_shift1(a: Rect, b: Rect, ax: Vec2) -> bool {
    &&& rect_lo(a, ax) < rect_hi(b, ax) + 1
    &&& rect_lo(b, ax) + 1 < rect_hi(a, ax)
    &&& rect_lo(a, perp(ax)) < rect_hi(b, perp(ax))
    &&& rect_lo(b, perp(ax)) < rect_hi(a, perp(ax))
}

/// Index `j` occurs in the index list `dr`.
pub open spec fn in_idxs(dr: Seq<usize>, j: int) -> bool {
    exists|di: int| 0 <= di < dr.len() && dr[di] as int == j
}

/// All entries of the index list are below `n`.
pub open spec fn idxs_ok(dr: Seq<usize>, n: int) -> bool {
    forall|di: int| 0 <= di < dr.len() ==> (#[trigger] dr[di]) < n
}

/// The index list is closed under one-unit-translation contact: any
/// rectangle that a translated member would overlap is itself a member.
pub open spec fn drag_closed(s: Seq<Rect>, dr: Seq<usize>, ax: Vec2) -> bool {
    forall|di: int, j: int|
        0 <= di < dr.len() && 0 <= j < s.len() && #[trigger] overlaps_shift1(
            s[j],
            s[dr[di] as int],
            ax,
        ) ==> in_idxs(dr, j)
}

/// Testing against a one-unit-translated copy is the same as
/// `overlaps_shift1` on the originals.
pub proof fn lemma_overlaps_shift1(a: Rect, b: Rect, moved: Rect, ax: Vec2)
    requires
        is_axis(ax),
        is_shift1(moved, b, ax),
    ensures
        overlaps(a, moved) == overlaps_shift1(a, b, ax),
{
}

/// Translating both rectangles of a pair by one unit preserves (non-)overlap.
pub proof fn lemma_overlaps_translate1(a: Rect, b: Rect, a2: Rect, b2: Rect, ax: Vec2)
    requires
        is_axis(ax),
        is_shift1(a2, a, ax),
        is_shift1(b2, b, ax),
    ensures
        overlaps(a2, b2) == overlaps(a, b),
{
}

/// Membership in an index list survives appending, and the appended index is
/// a member.
pub proof fn lemma_in_idxs_push(dr: Seq<usize>, x: usize)
    ensures
        forall|j: int| in_idxs(dr, j) ==> in_idxs(#[trigger] dr.push(x), j),
        in_idxs(dr.push(x), x as int),
{
    assert forall|j: int| in_idxs(dr, j) implies in_idxs(#[trigger] dr.push(x), j) by {
        let di = choose|di: int| 0 <= di < dr.len() && dr[di] as int == j;
        assert(dr.push(x)[di] as int == j);
    }
    assert(dr.push(x)[dr.len() as int] == x);
}

/// A duplicate-free list of indices below `n` has at most `n` entries.
pub proof fn lemma_distinct_bounded(dr: Seq<usize>, n: int)
    requires
        dr.no_duplicates(),
        idxs_ok(dr, n),
        n >= 0,
    ensures
        dr.len() <= n,
{
    let f = |u: usize| u as int;
    let dri = dr.map_values(f);
    dr.lemma_no_duplicates_injective(f);
    dri.unique_seq_to_set();
    assert(dri.to_set().subset_of(vstd::set_lib::set_int_range(0, n))) by {
        assert forall|x: int| dri.to_set().contains(x) implies vstd::set_lib::set_int_range(
            0,
            n,
        ).contains(x) by {
            let di = choose|di: int| 0 <= di < dri.len() && dri[di] == x;
            assert(dr[di] < n);
        }
    }
    vstd::set_lib::lemma_int_range(0, n);
    vstd::set_lib::lemma_len_subset(dri.to_set(), vstd::set_lib::set_int_range(0, n));
}

/// Every coordinate of a quarter layout generated with `count` rectangles
/// stays within this bound: each placement extends the occupied extent by at
/// most 175 units, and the drags afterwards add at most 230 more.
pub open spec fn quarter_bound(count: int) -> int {
    175 * count + 230
}

/// Symmetry, stated as set invariance: a set of well-formed rectangles that
/// is closed under mirroring along x (as every generated arena is) contains
/// a well-formed rectangle exactly when it contains its mirror image.
pub proof fn lemma_mirror_x_set_invariant(s: Seq<Rect>, r: Rect)
    requires
        all_wf(s),
        forall|i: int| 0 <= i < s.len() ==> s.contains(mirror_x_rect(#[trigger] s[i])),
        rect_wf(r),
    ensures
        s.contains(r) <==> s.contains(mirror_x_rect(r)),
{
    lemma_mirror_x_involutive(r);
    if s.contains(r) {
        let i = choose|i: int| 0 <= i < s.len() && s[i] == r;
        assert(s.contains(mirror_x_rect(s[i])));
    }
    if s.contains(mirror_x_rect(r)) {
        let i = choose|i: int| 0 <= i < s.len() && s[i] == mirror_x_rect(r);
        assert(s.contains(mirror_x_rect(s[i])));
    }
}

/// Symmetry along y, stated as set invariance in the same way.
pub proof fn lemma_mirror_y_set_invariant(s: Seq<Rect>, r: Rect)
    requires
        all_wf(s),
        forall|i: int| 0 <= i < s.len() ==> s.contains(mirror_y_rect(#[trigger] s[i])),
        rect_wf(r),
    ensures
        s.contains(r) <==> s.contains(mirror_y_rect(r)),
{
    lemma_mirror_y_involutive(r);
    if s.contains(r) {
        let i = choose|i: int| 0 <= i < s.len() && s[i] == r;
        assert(s.contains(mirror_y_rect(s[i])));
    }
    if s.contains(mirror_y_rect(r)) {
        let i = choose|i: int| 0 <= i < s.len() && s[i] == mirror_y_rect(r);
        assert(s.contains(mirror_y_rect(s[i])));
    }
}

/// An ordered collection of placed rectangles. Order is creation order; it
/// has no geometric meaning.
pub struct Layout {
    pub rects: Vec<Rect>,
}

/// Whether the index list holds `x`.
fn contains_idx(v: &Vec<usize>, x: usize) -> (b: bool)
    ensures
        b == in_idxs(v@, x as int),
{
    let mut k: usize = 0;
    while k < v.len()
        invariant
            k <= v@.len(),
            forall|i: int| 0 <= i < k ==> (#[trigger] v@[i]) != x,
        decreases v@.len() - k,
    {
        if v[k] == x {
            return true;
        }
        k = k + 1;
    }
    false
}

impl Layout {
    /// Strict AABB overlap test; touching edges do not count as overlap.
    pub fn intersects(r: &Rect, rect: &Rect) -> (b: bool)
        requires
            rect_wf(*r),
            rect_wf(*rect),
        ensures
            b == overlaps(*r, *rect),
    {
        r.pos.x < rect.pos.x + rect.size.x && rect.pos.x < r.pos.x + r.size.x
            && r.pos.y < rect.pos.y + rect.size.y && rect.pos.y < r.pos.y + r.size.y
    }

    /// Whether `r` overlaps any already-placed rectangle.
    fn overlaps_any(&self, r: &Rect) -> (b: bool)
        requires
            all_wf(self.rects@),
            rect_wf(*r),
        ensures
            b == exists|i: int| 0 <= i < self.rects@.len() && overlaps(#[trigger] self.rects@[i], *r),
    {
        let mut k: usize = 0;
        while k < self.rects.len()
            invariant
                all_wf(self.rects@),
                rect_wf(*r),
                k <= self.rects@.len(),
                forall|i: int| 0 <= i < k ==> !overlaps(#[trigger] self.rects@[i], *r),
            decreases self.rects@.len() - k,
        {
            if Layout::intersects(&self.rects[k], r) {
                return true;
            }
            k = k + 1;
        }
        false
    }

    /// Concatenates two layouts, keeping creation order.
    pub fn merge(&self, oth: &Layout) -> (res: Layout)
        ensures
            res.rects@ == self.rects@ + oth.rects@,
    {
        let mut rects: Vec<Rect> = Vec::new();
        let mut k: usize = 0;
        while k < self.rects.len()
            invariant
                k <= self.rects@.len(),
                rects@ == self.rects@.take(k as int),
            decreases self.rects@.len() - k,
        {
            rects.push(self.rects[k]);
            proof {
                assert(rects@ =~= self.rects@.take(k + 1 as int));
            }
            k = k + 1;
        }
        let mut j: usize = 0;
        while j < oth.rects.len()
            invariant
                j <= oth.rects@.len(),
                rects@ == self.rects@ + oth.rects@.take(j as int),
            decreases oth.rects@.len() - j,
        {
            rects.push(oth.rects[j]);
            proof {
                assert(rects@ =~= self.rects@ + oth.rects@.take(j + 1 as int));
            }
            j = j + 1;
        }
        proof {
            assert(self.rects@.take(self.rects@.len() as int) =~= self.rects@);
            assert(rects@ =~= self.rects@ + oth.rects@);
        }
        Layout { rects }
    }

    /// Reflects every rectangle across the y axis (x coordinates negated).
    /// The new position is recomputed from the reflected far corner so that
    /// sizes stay non-negative.
    pub fn mirror_x(&self) -> (res: Layout)
        requires
            all_wf(self.rects@),
        ensures
            res.rects@.len() == self.rects@.len(),
            forall|i: int|
                0 <= i < self.rects@.len() ==> res.rects@[i] == mirror_x_rect(
                    #[trigger] self.rects@[i],
                ),
    {
        let mut rects: Vec<Rect> = Vec::new();
        let mut k: usize = 0;
        while k < self.rects.len()
            invariant
                all_wf(self.rects@),
                k <= self.rects@.len(),
                rects@.len() == k,
                forall|i: int|
                    0 <= i < k ==> rects@[i] == mirror_x_rect(#[trigger] self.rects@[i]),
            decreases self.rects@.len() - k,
        {
            let r = self.rects[k];
            rects.push(Rect { pos: Vec2 { x: -(r.pos.x + r.size.x), y: r.pos.y }, size: r.size });
            k = k + 1;
        }
        Layout { rects }
    }

    /// Reflects every rectangle across the x axis (y coordinates negated).
    pub fn mirror_y(&self) -> (res: Layout)
        requires
            all_wf(self.rects@),
        ensures
            res.rects@.len() == self.rects@.len(),
            forall|i: int|
                0 <= i < self.rects@.len() ==> res.rects@[i] == mirror_y_rect(
                    #[trigger] self.rects@[i],
                ),
    {
        let mut rects: Vec<Rect> = Vec::new();
        let mut k: usize = 0;
        while k < self.rects.len()
            invariant
                all_wf(self.rects@),
                k <= self.rects@.len(),
                rects@.len() == k,
                forall|i: int|
                    0 <= i < k ==> rects@[i] == mirror_y_rect(#[trigger] self.rects@[i]),
            decreases self.rects@.len() - k,
        {
            let r = self.rects[k];
            rects.push(Rect { pos: Vec2 { x: r.pos.x, y: -(r.pos.y + r.size.y) }, size: r.size });
            k = k + 1;
        }
        Layout { rects }
    }

    /// The far edge of all placed rectangles along `ax` (`0` if none).
    pub(crate) fn extent(&self, ax: &Vec2) -> (e: i64)
        requires
            is_axis(*ax),
            all_wf(self.rects@),
        ensures
            e as int == extent_along(self.rects@, *ax),
    {
        let mut e: i64 = 0;
        let mut k: usize = 0;
        while k < self.rects.len()
            invariant
                is_axis(*ax),
                all_wf(self.rects@),
                k <= self.rects@.len(),
                e as int == extent_along(self.rects@.take(k as int), *ax),
                -COORD_LIMIT <= e,
                e as int <= 2 * COORD_LIMIT,
            decreases self.rects@.len() - k,
        {
            let r = self.rects[k];
            let hi = axis_coord(&r.pos, ax) + axis_coord(&r.size, ax);
            if hi > e {
                e = hi;
            }
            proof {
                let pre = self.rects@.take(k as int);
                let post = self.rects@.take(k + 1 as int);
                assert(post.drop_last() =~= pre);
                assert(post.last() == self.rects@[k as int]);
            }
            k = k + 1;
        }
        proof {
            assert(self.rects@.take(self.rects@.len() as int) =~= self.rects@);
        }
        e
    }

    /// The incremental placement search: starting from `start`, advance a
    /// candidate position along `dir` to successive rectangle boundaries
    /// until a spot is found where `rect`'s footprint overlaps nothing. After
    /// one hundred probes it falls back to an overflow position beyond
    /// everything placed so far, so the result never overlaps an existing
    /// rectangle and the search always terminates.
    pub fn cast(&self, start: &Vec2, dir: &Vec2, rect: &Rect) -> (res: Rect)
        requires
            is_axis(*dir),
            all_wf(self.rects@),
            all_in_box(self.rects@, PLACE_BOUND as int),
            self.rects@.len() <= 0x4_0000_0000,
            0 <= start.x <= PLACE_BOUND,
            0 <= start.y <= PLACE_BOUND,
            rect_wf(*rect),
        ensures
            res.size == rect.size,
            forall|i: int| 0 <= i < self.rects@.len() ==> !overlaps(#[trigger] self.rects@[i], res),
            along(res.pos, perp(*dir)) == along(*start, perp(*dir)),
            along(*start, *dir) <= along(res.pos, *dir) <= along(*start, *dir) + max_int(
                extent_along(self.rects@, *dir),
                50 * (self.rects@.len() as int),
            ),
            res.pos.x >= 0,
            res.pos.y >= 0,
    {
        let ghost s = self.rects@;
        proof {
            lemma_extent_props(s, *dir);
            lemma_extent_le(s, *dir, PLACE_BOUND as int);
        }
        let mut m: i64 = 0;
        let mut step: usize = 0;
        while step < 100
            invariant
                is_axis(*dir),
                all_wf(s),
                all_in_box(s, PLACE_BOUND as int),
                s.len() <= 0x4_0000_0000,
                0 <= start.x <= PLACE_BOUND,
                0 <= start.y <= PLACE_BOUND,
                rect_wf(*rect),
                s == self.rects@,
                0 <= m,
                m as int <= extent_along(s, *dir),
                extent_along(s, *dir) <= PLACE_BOUND as int,
                forall|i: int| 0 <= i < s.len() ==> rect_hi(#[trigger] s[i], *dir)
                    <= extent_along(s, *dir),
            decreases 100 - step,
        {
            let mut k: usize = 0;
            let mut advanced = false;
            while k < self.rects.len() && !advanced
                invariant
                    k <= s.len(),
                    0 <= m,
                    m as int <= extent_along(s, *dir),
                decreases s.len() - k,
            {
                let r = self.rects[k];
                let lo = axis_coord(&r.pos, dir);
                let hi = lo + axis_coord(&r.size, dir);
                if lo > m {
                    proof {
                        assert(rect_lo(s[k as int], *dir) <= rect_hi(s[k as int], *dir));
                    }
                    m = lo;
                    advanced = true;
                } else if hi > m {
                    m = hi;
                    advanced = true;
                }
                k = k + 1;
            }
            let pos = axis_add(start, dir, m);
            let cand = Rect { pos, size: rect.size };
            if !self.overlaps_any(&cand) {
                return cand;
            }
            step = step + 1;
        }
        let ext = self.extent(dir);
        let mut fb = (self.rects.len() as i64) * 50;
        if ext > fb {
            fb = ext;
        }
        let pos = axis_add(start, dir, fb);
        let res = Rect { pos, size: rect.size };
        proof {
            assert forall|i: int| 0 <= i < s.len() implies !overlaps(#[trigger] s[i], res) by {
                assert(rect_hi(s[i], *dir) <= fb as int);
                assert(along(res.pos, *dir) >= fb as int);
            }
        }
        res
    }

    /// Pushes rectangle `rect_i` by `distance` units along `dir`, dragging
    /// along — transitively — every rectangle that a moving rectangle would
    /// come to overlap. One unit is applied at a time: the set of dragged
    /// indices is grown to a contact-closed set, then every member moves one
    /// unit. A layout without overlaps has none afterwards either.
    pub fn drag(&mut self, rect_i: usize, dir: &Vec2, distance: u64)
        requires
            is_axis(*dir),
            rect_i < old(self).rects@.len(),
            all_wf(old(self).rects@),
            all_in_span(old(self).rects@, -(DRAG_BOUND as int), DRAG_BOUND as int),
            distance <= 0x1000_0000,
        ensures
            final(self).rects@.len() == old(self).rects@.len(),
            all_wf(final(self).rects@),
            forall|i: int|
                0 <= i < old(self).rects@.len() ==> (#[trigger] final(self).rects@[i]).size
                    == old(self).rects@[i].size,
            forall|i: int|
                0 <= i < old(self).rects@.len() ==> along(
                    (#[trigger] final(self).rects@[i]).pos,
                    perp(*dir),
                ) == along(old(self).rects@[i].pos, perp(*dir)),
            forall|i: int|
                0 <= i < old(self).rects@.len() ==> along(old(self).rects@[i].pos, *dir) <= along(
                    (#[trigger] final(self).rects@[i]).pos,
                    *dir,
                ) <= along(old(self).rects@[i].pos, *dir) + distance,
            along(final(self).rects@[rect_i as int].pos, *dir) == along(
                old(self).rects@[rect_i as int].pos,
                *dir,
            ) + distance,
            pairwise_disjoint(old(self).rects@) ==> pairwise_disjoint(final(self).rects@),
    {
        let ghost s_orig = self.rects@;
        let ghost n = self.rects@.len() as int;
        let mut dragging: Vec<usize> = Vec::new();
        dragging.push(rect_i);
        proof {
            assert(dragging@[0] == rect_i);
        }
        let mut t: u64 = 0;
        while t < distance
            invariant
                is_axis(*dir),
                distance <= 0x1000_0000,
                t <= distance,
                n == s_orig.len(),
                self.rects@.len() == n,
                all_wf(self.rects@),
                dragging@.no_duplicates(),
                idxs_ok(dragging@, n),
                dragging@.len() <= n,
                in_idxs(dragging@, rect_i as int),
                along(self.rects@[rect_i as int].pos, *dir) == along(
                    s_orig[rect_i as int].pos,
                    *dir,
                ) + t,
                all_in_span(s_orig, -(DRAG_BOUND as int), DRAG_BOUND as int),
                all_in_span(self.rects@, -(DRAG_BOUND as int), DRAG_BOUND as int + t),
                forall|i: int|
                    0 <= i < n ==> (#[trigger] self.rects@[i]).size == s_orig[i].size,
                forall|i: int|
                    0 <= i < n ==> along((#[trigger] self.rects@[i]).pos, perp(*dir)) == along(
                        s_orig[i].pos,
                        perp(*dir),
                    ),
                forall|i: int|
                    0 <= i < n ==> along(s_orig[i].pos, *dir) <= along(
                        (#[trigger] self.rects@[i]).pos,
                        *dir,
                    ) <= along(s_orig[i].pos, *dir) + t,
                pairwise_disjoint(s_orig) ==> pairwise_disjoint(self.rects@),
            decreases distance - t,
        {
            // Grow the dragged set until it is closed under translation contact.
            let mut finished = false;
            while !finished
                invariant
                    is_axis(*dir),
                    self.rects@.len() == n,
                    all_wf(self.rects@),
                    all_in_span(
                        self.rects@,
                        -(DRAG_BOUND as int),
                        DRAG_BOUND as int + t,
                    ),
                    t <= distance,
                    distance <= 0x1000_0000,
                    dragging@.no_duplicates(),
                    idxs_ok(dragging@, n),
                    dragging@.len() <= n,
                    in_idxs(dragging@, rect_i as int),
                    finished ==> drag_closed(self.rects@, dragging@, *dir),
                decreases n - dragging@.len(), (if finished { 0int } else { 1int }),
            {
                finished = true;
                let ghost drag0 = dragging@;
                let mut pushed: Vec<usize> = Vec::new();
                let mut di: usize = 0;
                while di < dragging.len()
                    invariant
                        is_axis(*dir),
                        self.rects@.len() == n,
                        all_wf(self.rects@),
                        all_in_span(
                            self.rects@,
                            -(DRAG_BOUND as int),
                            DRAG_BOUND as int + t,
                        ),
                        t <= distance,
                        distance <= 0x1000_0000,
                        drag0 == dragging@,
                        idxs_ok(dragging@, n),
                        di <= dragging@.len(),
                        idxs_ok(pushed@, n),
                        forall|d2: int, j: int|
                            0 <= d2 < di && 0 <= j < n && #[trigger] overlaps_shift1(
                                self.rects@[j],
                                self.rects@[drag0[d2] as int],
                                *dir,
                            ) ==> in_idxs(pushed@, j),
                    decreases dragging@.len() - di,
                {
                    let idx = dragging[di];
                    let r = self.rects[idx];
                    let moved = Rect { pos: axis_add(&r.pos, dir, 1), size: r.size };
                    let mut j: usize = 0;
                    while j < self.rects.len()
                        invariant
                            is_axis(*dir),
                            self.rects@.len() == n,
                            all_wf(self.rects@),
                            drag0 == dragging@,
                            idxs_ok(dragging@, n),
                            di < dragging@.len(),
                            idx == dragging@[di as int],
                            rect_wf(moved),
                            is_shift1(moved, self.rects@[idx as int], *dir),
                            j <= n,
                            idxs_ok(pushed@, n),
                            forall|d2: int, j2: int|
                                0 <= d2 < di && 0 <= j2 < n && #[trigger] overlaps_shift1(
                                    self.rects@[j2],
                                    self.rects@[drag0[d2] as int],
                                    *dir,
                                ) ==> in_idxs(pushed@, j2),
                            forall|j2: int|
                                0 <= j2 < j && #[trigger] overlaps_shift1(
                                    self.rects@[j2],
                                    self.rects@[idx as int],
                                    *dir,
                                ) ==> in_idxs(pushed@, j2),
                        decreases n - j,
                    {
                        proof {
                            lemma_overlaps_shift1(
                                self.rects@[j as int],
                                self.rects@[idx as int],
                                moved,
                                *dir,
                            );
                        }
                        if Layout::intersects(&self.rects[j], &moved) {
                            proof {
                                lemma_in_idxs_push(pushed@, j);
                            }
                            pushed.push(j);
                        }
                        j = j + 1;
                    }
                    proof {
                        assert forall|d2: int, j2: int|
                            0 <= d2 < di + 1 && 0 <= j2 < n && #[trigger] overlaps_shift1(
                                self.rects@[j2],
                                self.rects@[drag0[d2] as int],
                                *dir,
                            ) implies in_idxs(pushed@, j2) by {
                            if d2 == di {
                                assert(drag0[d2] == idx);
                            }
                        }
                    }
                    di = di + 1;
                }
                // Fold the contacts into the dragged set.
                let mut p: usize = 0;
                while p < pushed.len()
                    invariant
                        is_axis(*dir),
                        self.rects@.len() == n,
                        p <= pushed@.len(),
                        idxs_ok(pushed@, n),
                        dragging@.no_duplicates(),
                        idxs_ok(dragging@, n),
                        dragging@.len() <= n,
                        dragging@.len() >= drag0.len(),
                        forall|d2: int| 0 <= d2 < drag0.len() ==> dragging@[d2] == drag0[d2],
                        forall|j: int| in_idxs(drag0, j) ==> in_idxs(dragging@, j),
                        finished ==> dragging@ == drag0,
                        !finished ==> dragging@.len() > drag0.len(),
                        forall|q: int| 0 <= q < p ==> in_idxs(dragging@, #[trigger] pushed@[q] as int),
                    decreases pushed@.len() - p,
                {
                    let pv = pushed[p];
                    if !contains_idx(&dragging, pv) {
                        proof {
                            lemma_in_idxs_push(dragging@, pv);
                            assert(dragging@.push(pv).no_duplicates()) by {
                                assert(forall|d2: int|
                                    0 <= d2 < dragging@.len() ==> (#[trigger] dragging@[d2]) as int
                                        != pv as int);
                            }
                        }
                        dragging.push(pv);
                        finished = false;
                        proof {
                            lemma_distinct_bounded(dragging@, n);
                        }
                    }
                    p = p + 1;
                }
                proof {
                    if finished {
                        assert forall|di2: int, j: int|
                            0 <= di2 < dragging@.len() && 0 <= j < self.rects@.len()
                                && #[trigger] overlaps_shift1(
                                self.rects@[j],
                                self.rects@[dragging@[di2] as int],
                                *dir,
                            ) implies in_idxs(dragging@, j) by {
                            assert(in_idxs(pushed@, j));
                            let q = choose|q: int|
                                0 <= q < pushed@.len() && pushed@[q] as int == j;
                            assert(in_idxs(dragging@, pushed@[q] as int));
                        }
                    }
                }
            }
            // Move every member of the closed set one unit.
            let ghost s_cur = self.rects@;
            let mut a: usize = 0;
            while a < dragging.len()
                invariant
                    is_axis(*dir),
                    s_cur.len() == n,
                    self.rects@.len() == n,
                    a <= dragging@.len(),
                    dragging@.no_duplicates(),
                    idxs_ok(dragging@, n),
                    all_in_span(s_cur, -(DRAG_BOUND as int), DRAG_BOUND as int + t),
                    t <= distance,
                    distance <= 0x1000_0000,
                    forall|j: int|
                        0 <= j < n && in_idxs(dragging@.take(a as int), j) ==> is_shift1(
                            #[trigger] self.rects@[j],
                            s_cur[j],
                            *dir,
                        ),
                    forall|j: int|
                        0 <= j < n && !in_idxs(dragging@.take(a as int), j)
                            ==> #[trigger] self.rects@[j] == s_cur[j],
                decreases dragging@.len() - a,
            {
                let idx = dragging[a];
                proof {
                    assert(!in_idxs(dragging@.take(a as int), idx as int));
                    assert(self.rects@[idx as int] == s_cur[idx as int]);
                }
                let r = self.rects[idx];
                self.rects[idx] = Rect { pos: axis_add(&r.pos, dir, 1), size: r.size };
                proof {
                    assert(dragging@.take(a + 1 as int) =~= dragging@.take(a as int).push(
                        dragging@[a as int],
                    ));
                    lemma_in_idxs_push(dragging@.take(a as int), dragging@[a as int]);
                    assert forall|j: int|
                        0 <= j < n && in_idxs(dragging@.take(a + 1 as int), j) implies is_shift1(
                        #[trigger] self.rects@[j],
                        s_cur[j],
                        *dir,
                    ) by {
                        let d2 = choose|d2: int|
                            0 <= d2 < a + 1 && (#[trigger] dragging@.take(a + 1 as int)[d2]) as int
                                == j;
                        if d2 < a {
                            assert(in_idxs(dragging@.take(a as int), j)) by {
                                assert(dragging@.take(a as int)[d2] as int == j);
                            }
                        }
                    }
                    assert forall|j: int|
                        0 <= j < n && !in_idxs(dragging@.take(a + 1 as int), j)
                            implies #[trigger] self.rects@[j] == s_cur[j] by {
                        assert(!in_idxs(dragging@.take(a as int), j)) by {
                            if in_idxs(dragging@.take(a as int), j) {
                                let d2 = choose|d2: int|
                                    0 <= d2 < a && dragging@.take(a as int)[d2] as int == j;
                                assert(dragging@.take(a + 1 as int)[d2] as int == j);
                            }
                        }
                    }
                }
                a = a + 1;
            }
            proof {
                assert(dragging@.take(dragging@.len() as int) =~= dragging@);
                let s_new = self.rects@;
                // Re-establish the per-rectangle relations to the entry state.
                assert forall|i: int| 0 <= i < n implies (#[trigger] s_new[i]).size
                    == s_orig[i].size && along(s_new[i].pos, perp(*dir)) == along(
                    s_orig[i].pos,
                    perp(*dir),
                ) && along(s_orig[i].pos, *dir) <= along(s_new[i].pos, *dir) <= along(
                    s_orig[i].pos,
                    *dir,
                ) + t + 1 by {
                    if in_idxs(dragging@, i) {
                        assert(is_shift1(s_new[i], s_cur[i], *dir));
                    } else {
                        assert(s_new[i] == s_cur[i]);
                    }
                }
                // No-overlap is preserved across the unit move.
                if pairwise_disjoint(s_orig) {
                    assert(pairwise_disjoint(s_cur));
                    assert(drag_closed(s_cur, dragging@, *dir));
                    assert forall|i: int, j: int|
                        0 <= i < n && 0 <= j < n && i != j implies !overlaps(
                        #[trigger] s_new[i],
                        #[trigger] s_new[j],
                    ) by {
                        if in_idxs(dragging@, i) && in_idxs(dragging@, j) {
                            lemma_overlaps_translate1(
                                s_cur[i],
                                s_cur[j],
                                s_new[i],
                                s_new[j],
                                *dir,
                            );
                        } else if in_idxs(dragging@, i) && !in_idxs(dragging@, j) {
                            let d2 = choose|d2: int|
                                0 <= d2 < dragging@.len() && dragging@[d2] as int == i;
                            assert(!overlaps_shift1(s_cur[j], s_cur[dragging@[d2] as int], *dir));
                            lemma_overlaps_shift1(s_cur[j], s_cur[i], s_new[i], *dir);
                        } else if !in_idxs(dragging@, i) && in_idxs(dragging@, j) {
                            let d2 = choose|d2: int|
                                0 <= d2 < dragging@.len() && dragging@[d2] as int == j;
                            assert(!overlaps_shift1(s_cur[i], s_cur[dragging@[d2] as int], *dir));
                            lemma_overlaps_shift1(s_cur[i], s_cur[j], s_new[j], *dir);
                        } else {
                            assert(s_new[i] == s_cur[i] && s_new[j] == s_cur[j]);
                        }
                    }
                }
                // The span grows by at most the one unit applied.
                assert forall|i: int| 0 <= i < n implies rect_in_span(
                    #[trigger] self.rects@[i],
                    -(DRAG_BOUND as int),
                    DRAG_BOUND as int + t + 1,
                ) by {
                    if in_idxs(dragging@, i) {
                        assert(is_shift1(self.rects@[i], s_cur[i], *dir));
                    } else {
                        assert(self.rects@[i] == s_cur[i]);
                    }
                }
                assert forall|i: int| 0 <= i < n implies rect_wf(#[trigger] self.rects@[i]) by {}
            }
            t = t + 1;
        }
    }

}

} // verus!
