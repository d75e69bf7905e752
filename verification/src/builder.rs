//! The generator half of the layout builder: the out-of-bounds and
//! spawn-clearance filters, the quadrant generator, and the four-way
//! symmetric arena generator.

use vstd::prelude::*;

use crate::geom::{
    along, dist2_origin, hole_keep, lemma_clearance, lemma_hole_keep_mirror_x,
    lemma_hole_keep_mirror_y, lemma_mirror_commute, lemma_mirror_x_involutive,
    lemma_mirror_x_overlaps, lemma_mirror_y_involutive, lemma_mirror_y_overlaps, mirror_x_rect,
    mirror_y_rect, norm2_wide, overlaps, perp, quadrant_confined, rect_wf, Rect, Vec2,
    COORD_LIMIT,
};
use crate::layout::{
    all_in_box, all_wf, extent_along, gen_size, in_box, lemma_extent_le, lemma_extent_props,
    movable_size, oob_keep, pairwise_disjoint, quarter_bound, Layout,
};
use crate::rng::{rand_range, rand_ratio};

verus! {

/// Filtering a sequence whose every element satisfies the predicate returns
/// it unchanged. With the filters' exact contracts this is their
/// idempotence: applying the out-of-bounds clip or the spawn-clearance
/// filter a second time, with the same parameters, removes nothing.
pub proof fn lemma_filter_noop<A>(s: Seq<A>, pred: spec_fn(A) -> bool)
    requires
        forall|i: int| 0 <= i < s.len() ==> pred(#[trigger] s[i]),
    ensures
        s.filter(pred) == s,
    decreases s.len(),
{
    reveal(Seq::filter);
    if s.len() > 0 {
        assert forall|i: int| 0 <= i < s.drop_last().len() implies pred(
            #[trigger] s.drop_last()[i],
        ) by {
            assert(s.drop_last()[i] == s[i]);
        }
        lemma_filter_noop(s.drop_last(), pred);
        assert(s.filter(pred) =~= s);
    }
}

impl Layout {
    /// Removes every rectangle that intersects either out-of-bounds clipping
    /// strip: one covering the region beyond `+y`, one beyond `+x`.
    pub fn clip_oob(&self, oob: &Vec2) -> (res: Layout)
        requires
            all_wf(self.rects@),
            0 <= oob.x <= COORD_LIMIT,
            0 <= oob.y <= COORD_LIMIT,
        ensures
            res.rects@ == self.rects@.filter(|r: Rect| oob_keep(r, *oob)),
            res.rects@.len() <= self.rects@.len(),
            all_wf(res.rects@),
            forall|i: int|
                0 <= i < res.rects@.len() ==> oob_keep(#[trigger] res.rects@[i], *oob)
                    && self.rects@.contains(res.rects@[i]),
            forall|i: int|
                0 <= i < self.rects@.len() && oob_keep(#[trigger] self.rects@[i], *oob)
                    ==> res.rects@.contains(self.rects@[i]),
            pairwise_disjoint(self.rects@) ==> pairwise_disjoint(res.rects@),
    {
        let strip_y = Rect { pos: Vec2 { x: 0, y: oob.y }, size: *oob };
        let strip_x = Rect { pos: Vec2 { x: oob.x, y: 0 }, size: *oob };
        let ghost pred = |r: Rect| oob_keep(r, *oob);
        let mut rects: Vec<Rect> = Vec::new();
        let ghost mut src: Seq<int> = Seq::empty();
        let mut k: usize = 0;
        while k < self.rects.len()
            invariant
                k <= self.rects@.len(),
                rects@.len() <= k,
                rects@ == self.rects@.take(k as int).filter(pred),
                src.len() == rects@.len(),
                forall|i: int|
                    0 <= i < src.len() ==> 0 <= #[trigger] src[i] < k && rects@[i]
                        == self.rects@[src[i]],
                forall|i: int, j: int| 0 <= i < j < src.len() ==> src[i] < src[j],
                forall|i: int| 0 <= i < rects@.len() ==> oob_keep(#[trigger] rects@[i], *oob),
                forall|k2: int|
                    0 <= k2 < k && oob_keep(#[trigger] self.rects@[k2], *oob)
                        ==> rects@.contains(self.rects@[k2]),
            decreases self.rects@.len() - k,
        {
            let r = self.rects[k];
            let ghost pre = rects@;
            if !Layout::intersects(&r, &strip_y) && !Layout::intersects(&r, &strip_x) {
                rects.push(r);
                proof {
                    src = src.push(k as int);
                    assert(rects@[pre.len() as int] == self.rects@[k as int]);
                    assert forall|k2: int|
                        0 <= k2 < k + 1 && oob_keep(#[trigger] self.rects@[k2], *oob)
                            implies rects@.contains(self.rects@[k2]) by {
                        if k2 < k {
                            let w = choose|w: int|
                                0 <= w < pre.len() && #[trigger] pre[w] == self.rects@[k2];
                            assert(rects@[w] == self.rects@[k2]);
                        } else {
                            assert(rects@[pre.len() as int] == self.rects@[k2]);
                        }
                    }
                }
            }
            proof {
                reveal(Seq::filter);
                let post = self.rects@.take(k + 1 as int);
                assert(post.drop_last() =~= self.rects@.take(k as int));
                assert(post.last() == self.rects@[k as int]);
                assert(rects@ == post.filter(pred));
            }
            k = k + 1;
        }
        proof {
            assert(self.rects@.take(self.rects@.len() as int) =~= self.rects@);
            assert forall|i: int| 0 <= i < rects@.len() implies self.rects@.contains(
                #[trigger] rects@[i],
            ) by {
                assert(rects@[i] == self.rects@[src[i]]);
            }
            if pairwise_disjoint(self.rects@) {
                assert forall|i: int, j: int|
                    0 <= i < rects@.len() && 0 <= j < rects@.len() && i != j implies !overlaps(
                    #[trigger] rects@[i],
                    #[trigger] rects@[j],
                ) by {
                    assert(src[i] != src[j]);
                }
            }
            assert forall|i: int| 0 <= i < rects@.len() implies rect_wf(#[trigger] rects@[i]) by {
                assert(rects@[i] == self.rects@[src[i]]);
            }
        }
        Layout { rects }
    }

    /// Whether all four corners of `r` lie strictly farther than `rad` from
    /// the origin.
    fn hole_keep_exec(r: &Rect, rad: i64) -> (b: bool)
        requires
            rect_wf(*r),
            0 <= rad <= COORD_LIMIT,
        ensures
            b == hole_keep(*r, rad as int),
    {
        let fx = r.pos.x + r.size.x;
        let fy = r.pos.y + r.size.y;
        let rl = rad as i128;
        proof {
            assert(rl * rl <= 0x4000_0000_0000i128 * 0x4000_0000_0000i128 && rl * rl >= 0)
                by (nonlinear_arith)
                requires 0 <= rl <= 0x4000_0000_0000i128;
        }
        let rr = rl * rl;
        norm2_wide(r.pos.x, r.pos.y) > rr && norm2_wide(fx, fy) > rr && norm2_wide(r.pos.x, fy)
            > rr && norm2_wide(fx, r.pos.y) > rr
    }

    /// Removes every rectangle one of whose corners lies within `rad` of the
    /// origin, guaranteeing a circular clearing for the player's spawn point.
    pub fn character_hole(&self, rad: i64) -> (res: Layout)
        requires
            all_wf(self.rects@),
            0 <= rad <= COORD_LIMIT,
        ensures
            res.rects@ == self.rects@.filter(|r: Rect| hole_keep(r, rad as int)),
            res.rects@.len() <= self.rects@.len(),
            all_wf(res.rects@),
            forall|i: int|
                0 <= i < res.rects@.len() ==> hole_keep(#[trigger] res.rects@[i], rad as int)
                    && self.rects@.contains(res.rects@[i]),
            forall|i: int|
                0 <= i < self.rects@.len() && hole_keep(#[trigger] self.rects@[i], rad as int)
                    ==> res.rects@.contains(self.rects@[i]),
            pairwise_disjoint(self.rects@) ==> pairwise_disjoint(res.rects@),
    {
        let ghost pred = |r: Rect| hole_keep(r, rad as int);
        let mut rects: Vec<Rect> = Vec::new();
        let ghost mut src: Seq<int> = Seq::empty();
        let mut k: usize = 0;
        while k < self.rects.len()
            invariant
                k <= self.rects@.len(),
                rects@.len() <= k,
                rects@ == self.rects@.take(k as int).filter(pred),
                src.len() == rects@.len(),
                forall|i: int|
                    0 <= i < src.len() ==> 0 <= #[trigger] src[i] < k && rects@[i]
                        == self.rects@[src[i]],
                forall|i: int, j: int| 0 <= i < j < src.len() ==> src[i] < src[j],
                forall|i: int| 0 <= i < rects@.len() ==> hole_keep(#[trigger] rects@[i], rad as int),
                forall|k2: int|
                    0 <= k2 < k && hole_keep(#[trigger] self.rects@[k2], rad as int)
                        ==> rects@.contains(self.rects@[k2]),
            decreases self.rects@.len() - k,
        {
            let r = self.rects[k];
            let ghost pre = rects@;
            if Layout::hole_keep_exec(&r, rad) {
                rects.push(r);
                proof {
                    src = src.push(k as int);
                    assert(rects@[pre.len() as int] == self.rects@[k as int]);
                    assert forall|k2: int|
                        0 <= k2 < k + 1 && hole_keep(#[trigger] self.rects@[k2], rad as int)
                            implies rects@.contains(self.rects@[k2]) by {
                        if k2 < k {
                            let w = choose|w: int|
                                0 <= w < pre.len() && #[trigger] pre[w] == self.rects@[k2];
                            assert(rects@[w] == self.rects@[k2]);
                        } else {
                            assert(rects@[pre.len() as int] == self.rects@[k2]);
                        }
                    }
                }
            }
            proof {
                reveal(Seq::filter);
                let post = self.rects@.take(k + 1 as int);
                assert(post.drop_last() =~= self.rects@.take(k as int));
                assert(post.last() == self.rects@[k as int]);
                assert(rects@ == post.filter(pred));
            }
            k = k + 1;
        }
        proof {
            assert(self.rects@.take(self.rects@.len() as int) =~= self.rects@);
            assert forall|i: int| 0 <= i < rects@.len() implies self.rects@.contains(
                #[trigger] rects@[i],
            ) by {
                assert(rects@[i] == self.rects@[src[i]]);
            }
            if pairwise_disjoint(self.rects@) {
                assert forall|i: int, j: int|
                    0 <= i < rects@.len() && 0 <= j < rects@.len() && i != j implies !overlaps(
                    #[trigger] rects@[i],
                    #[trigger] rects@[j],
                ) by {
                    assert(src[i] != src[j]);
                }
            }
            assert forall|i: int| 0 <= i < rects@.len() implies rect_wf(#[trigger] rects@[i]) by {
                assert(rects@[i] == self.rects@[src[i]]);
            }
        }
        Layout { rects }
    }

    /// Builds one quadrant's worth of rectangles: `count` placements via the
    /// placement search, a deterministic double drag of the first rectangle
    /// away from the origin, five randomized drags, and the out-of-bounds
    /// clip. The result is a set of pairwise non-overlapping rectangles in
    /// the first quadrant, clear of both clipping strips.
    pub fn gen_quarter(count: u64, rng: &mut rand::rngs::StdRng, walls_prob_pct: u32) -> (res:
        Layout)
        requires
            1 <= count <= 0x2_0000_0000,
            walls_prob_pct <= 100,
        ensures
            res.rects@.len() <= count,
            all_wf(res.rects@),
            pairwise_disjoint(res.rects@),
            all_in_box(res.rects@, quarter_bound(count as int)),
            forall|i: int| 0 <= i < res.rects@.len() ==> gen_size((#[trigger] res.rects@[i]).size),
            walls_prob_pct == 0 ==> forall|i: int|
                0 <= i < res.rects@.len() ==> movable_size((#[trigger] res.rects@[i]).size),
            forall|i: int|
                0 <= i < res.rects@.len() ==> oob_keep(
                    #[trigger] res.rects@[i],
                    Vec2 { x: 350, y: 290 },
                ),
            walls_prob_pct == 0 ==> res.rects@.len() >= 1 && (exists|i: int|
                0 <= i < res.rects@.len() && (#[trigger] res.rects@[i]).pos.x >= 40
                    && res.rects@[i].pos.y >= 40),
    {
        let mut layout = Layout { rects: Vec::new() };
        let mut i: u64 = 0;
        while i < count
            invariant
                i <= count,
                layout.rects@.len() == i,
                all_wf(layout.rects@),
                pairwise_disjoint(layout.rects@),
                all_in_box(layout.rects@, 175 * (i as int)),
                forall|k: int|
                    0 <= k < layout.rects@.len() ==> gen_size(
                        (#[trigger] layout.rects@[k]).size,
                    ),
                walls_prob_pct == 0 ==> forall|k: int|
                    0 <= k < layout.rects@.len() ==> movable_size(
                        (#[trigger] layout.rects@[k]).size,
                    ),
                i >= 1 ==> layout.rects@[0].pos.x == 0 && layout.rects@[0].pos.y == 0,
            decreases count - i,
        {
            // Sample a footprint: mostly small movable boxes, occasionally an
            // elongated wall with random orientation.
            let movable = rand_ratio(rng, 100 - walls_prob_pct, 100);
            let size: Vec2 = if movable {
                let sx = rand_range(rng, 2, 11);
                let sy = rand_range(rng, 2, 11);
                Vec2 { x: (sx * 5) as i64, y: (sy * 5) as i64 }
            } else {
                let long = rand_range(rng, 15, 26);
                let short = rand_range(rng, 3, 11);
                if rand_ratio(rng, 1, 2) {
                    Vec2 { x: (long * 5) as i64, y: (short * 5) as i64 }
                } else {
                    Vec2 { x: (short * 5) as i64, y: (long * 5) as i64 }
                }
            };
            // Pick the offset axis; the placement search advances along the
            // orthogonal one.
            let horizontal = rand_ratio(rng, 1, 2);
            let dir = if horizontal {
                Vec2 { x: 1, y: 0 }
            } else {
                Vec2 { x: 0, y: 1 }
            };
            let perp_v = if horizontal {
                Vec2 { x: 0, y: 1 }
            } else {
                Vec2 { x: 1, y: 0 }
            };
            // Sample a starting offset within the occupied span along `dir`.
            let ext = layout.extent(&dir);
            proof {
                lemma_extent_props(layout.rects@, dir);
                lemma_extent_le(layout.rects@, dir, 175 * (i as int));
            }
            let off: i64 = if ext > 0 {
                let stepped = ext / 5;
                if stepped > 0 {
                    (rand_range(rng, 0, stepped as u64) as i64) * 5
                } else {
                    0
                }
            } else {
                0
            };
            let start = if horizontal {
                Vec2 { x: off, y: 0 }
            } else {
                Vec2 { x: 0, y: off }
            };
            let rect = Rect { pos: start, size };
            let casted = layout.cast(&start, &perp_v, &rect);
            proof {
                let s = layout.rects@;
                assert(extent_along(s, perp_v) <= 175 * (i as int)) by {
                    lemma_extent_le(s, perp_v, 175 * (i as int));
                }
                assert(in_box(casted, 175 * (i as int) + 175));
            }
            layout.rects.push(casted);
            proof {
                let s = layout.rects@;
                assert forall|a: int, b: int|
                    0 <= a < s.len() && 0 <= b < s.len() && a != b implies !overlaps(
                    #[trigger] s[a],
                    #[trigger] s[b],
                ) by {}
                assert(all_in_box(s, 175 * ((i + 1) as int)));
                // The very first rectangle comes to rest at the origin: the
                // occupied extent is zero, so both the offset and the probe
                // position are zero.
                if i == 0 {
                    assert(along(casted.pos, perp_v) == 0);
                    assert(along(casted.pos, perp(perp_v)) == 0);
                    assert(casted.pos.x == 0 && casted.pos.y == 0);
                }
            }
            i = i + 1;
        }
        // Spread the first rectangle (and whatever rests against it) away
        // from the origin, then shake the arrangement with random drags.
        layout.drag(0, &Vec2 { x: 1, y: 0 }, 40);
        layout.drag(0, &Vec2 { x: 0, y: 1 }, 40);
        proof {
            assert(all_in_box(layout.rects@, 175 * (count as int) + 80));
            assert(layout.rects@[0].pos.x == 40 && layout.rects@[0].pos.y == 40);
        }
        let mut d: u64 = 0;
        while d < 5
            invariant
                d <= 5,
                layout.rects@.len() == count,
                all_wf(layout.rects@),
                pairwise_disjoint(layout.rects@),
                all_in_box(layout.rects@, 175 * (count as int) + 80 + 30 * (d as int)),
                forall|k: int|
                    0 <= k < layout.rects@.len() ==> gen_size(
                        (#[trigger] layout.rects@[k]).size,
                    ),
                walls_prob_pct == 0 ==> forall|k: int|
                    0 <= k < layout.rects@.len() ==> movable_size(
                        (#[trigger] layout.rects@[k]).size,
                    ),
                40 <= layout.rects@[0].pos.x <= 40 + 30 * (d as int),
                40 <= layout.rects@[0].pos.y <= 40 + 30 * (d as int),
            decreases 5 - d,
        {
            let dirv = if rand_ratio(rng, 1, 2) {
                Vec2 { x: 1, y: 0 }
            } else {
                Vec2 { x: 0, y: 1 }
            };
            let dist = rand_range(rng, 2, 7) * 5;
            let idx = rand_range(rng, 0, layout.rects.len() as u64) as usize;
            layout.drag(idx, &dirv, dist);
            d = d + 1;
        }
        let res = layout.clip_oob(&Vec2 { x: 350, y: 290 });
        proof {
            assert forall|i2: int| 0 <= i2 < res.rects@.len() implies in_box(
                #[trigger] res.rects@[i2],
                quarter_bound(count as int),
            ) && gen_size(res.rects@[i2].size) && (walls_prob_pct == 0 ==> movable_size(
                res.rects@[i2].size,
            )) by {
                let w = choose|w: int|
                    0 <= w < layout.rects@.len() && #[trigger] layout.rects@[w] == res.rects@[i2];
            }
            // For wall probability zero the first rectangle always survives
            // the clip: it is movable (sides at most 50) and has been
            // dragged to within [40, 190] on both axes, so its far edges
            // stay at most 240, below both clipping strips.
            if walls_prob_pct == 0 {
                let r0 = layout.rects@[0];
                assert(movable_size(r0.size));
                assert(r0.pos.x + r0.size.x <= 240 && r0.pos.y + r0.size.y <= 240);
                assert(oob_keep(r0, Vec2 { x: 350, y: 290 }));
                assert(res.rects@.contains(r0));
                let w0 = choose|w0: int| 0 <= w0 < res.rects@.len() && res.rects@[w0] == r0;
                assert(res.rects@[w0].pos.x >= 40 && res.rects@[w0].pos.y >= 40);
            }
        }
        res
    }

    /// Generates a full arena: one quadrant, mirrored across both axes and
    /// merged (original, mirror-x, mirror-y, mirror-both), then the circular
    /// spawn clearance carved out around the origin. The result is pairwise
    /// non-overlapping, clear of the origin, clear of the clipping strips,
    /// and closed as a set under both reflections.
    #[verifier::rlimit(60)]
    pub fn gen(count: u64, rng: &mut rand::rngs::StdRng, walls_prob_pct: u32) -> (res: Layout)
        requires
            1 <= count <= 0x2_0000_0000,
            walls_prob_pct <= 100,
        ensures
            all_wf(res.rects@),
            pairwise_disjoint(res.rects@),
            res.rects@.len() <= 4 * count,
            forall|i: int| 0 <= i < res.rects@.len() ==> gen_size((#[trigger] res.rects@[i]).size),
            walls_prob_pct == 0 ==> forall|i: int|
                0 <= i < res.rects@.len() ==> movable_size((#[trigger] res.rects@[i]).size),
            forall|i: int| 0 <= i < res.rects@.len() ==> quadrant_confined(#[trigger] res.rects@[i]),
            forall|i: int| 0 <= i < res.rects@.len() ==> hole_keep(#[trigger] res.rects@[i], 32),
            forall|i: int| 0 <= i < res.rects@.len() ==> dist2_origin(#[trigger] res.rects@[i]) > 32
                * 32,
            forall|i: int|
                0 <= i < res.rects@.len() ==> oob_keep(
                    #[trigger] res.rects@[i],
                    Vec2 { x: 350, y: 290 },
                ),
            forall|i: int|
                0 <= i < res.rects@.len() ==> res.rects@.contains(
                    mirror_x_rect(#[trigger] res.rects@[i]),
                ),
            forall|i: int|
                0 <= i < res.rects@.len() ==> res.rects@.contains(
                    mirror_y_rect(#[trigger] res.rects@[i]),
                ),
            walls_prob_pct == 0 ==> res.rects@.len() >= 1,
    {
        let quarter = Layout::gen_quarter(count, rng, walls_prob_pct);
        let ghost q = quarter.rects@;
        let ghost n = q.len() as int;
        let ghost qb = quarter_bound(count as int);
        proof {
            assert forall|i: int| 0 <= i < n implies (#[trigger] q[i]).pos.x >= 0 && q[i].pos.y
                >= 0 && q[i].pos.x + q[i].size.x <= qb && q[i].pos.y + q[i].size.y <= qb
                && rect_wf(q[i]) by {
                assert(in_box(q[i], qb));
            }
        }
        let m1 = quarter.mirror_x();
        let m2 = quarter.mirror_y();
        let m2b = quarter.mirror_y();
        proof {
            assert forall|i: int| 0 <= i < n implies rect_wf(#[trigger] m2b.rects@[i]) by {
                assert(m2b.rects@[i] == mirror_y_rect(q[i]));
            }
        }
        let m12 = m2b.mirror_x();
        let merged1 = quarter.merge(&m1);
        let merged2 = merged1.merge(&m2);
        let merged = merged2.merge(&m12);
        let ghost m = merged.rects@;
        proof {
            assert(m.len() == 4 * n);
            assert forall|i: int| 0 <= i < n implies #[trigger] m[i] == q[i] by {}
            assert forall|i: int| 0 <= i < n implies m[n + i] == mirror_x_rect(#[trigger] q[i]) by {
                assert(m[n + i] == m1.rects@[i]);
            }
            assert forall|i: int| 0 <= i < n implies m[2 * n + i] == mirror_y_rect(
                #[trigger] q[i],
            ) by {
                assert(m[2 * n + i] == m2.rects@[i]);
            }
            assert forall|i: int| 0 <= i < n implies m[3 * n + i] == mirror_x_rect(
                mirror_y_rect(#[trigger] q[i]),
            ) by {
                assert(m[3 * n + i] == m12.rects@[i]);
                assert(m12.rects@[i] == mirror_x_rect(m2b.rects@[i]));
            }
            // Per-block shape facts: well-formedness, sizes, quadrant signs,
            // and clearance of the clipping strips.
            assert forall|i: int| 0 <= i < 4 * n implies rect_wf(#[trigger] m[i]) && gen_size(
                m[i].size,
            ) && (walls_prob_pct == 0 ==> movable_size(m[i].size)) && quadrant_confined(m[i])
                && oob_keep(m[i], Vec2 { x: 350, y: 290 }) by {
                if i < n {
                    assert(m[i] == q[i]);
                    assert(oob_keep(q[i], Vec2 { x: 350, y: 290 }));
                } else if i < 2 * n {
                    assert(m[i] == mirror_x_rect(q[i - n]));
                    assert(m[i].pos.x + m[i].size.x <= 0);
                    assert(m[i].pos.y >= 0);
                } else if i < 3 * n {
                    assert(m[i] == mirror_y_rect(q[i - 2 * n]));
                    assert(m[i].pos.x >= 0);
                    assert(m[i].pos.y + m[i].size.y <= 0);
                } else {
                    assert(m[i] == mirror_x_rect(mirror_y_rect(q[i - 3 * n])));
                    assert(m[i].pos.x + m[i].size.x <= 0);
                    assert(m[i].pos.y + m[i].size.y <= 0);
                }
            }
            // No two rectangles of the merged set overlap: within a block by
            // the quarter's invariant (mirroring preserves overlap), across
            // blocks because distinct quadrants are separated by an axis.
            assert forall|a: int, b: int|
                0 <= a < 4 * n && 0 <= b < 4 * n && a != b implies !overlaps(
                #[trigger] m[a],
                #[trigger] m[b],
            ) by {
                let ka = if a < n {
                    a
                } else if a < 2 * n {
                    a - n
                } else if a < 3 * n {
                    a - 2 * n
                } else {
                    a - 3 * n
                };
                let kb = if b < n {
                    b
                } else if b < 2 * n {
                    b - n
                } else if b < 3 * n {
                    b - 2 * n
                } else {
                    b - 3 * n
                };
                if a < n && b < n {
                    assert(!overlaps(q[a], q[b]));
                } else if n <= a < 2 * n && n <= b < 2 * n {
                    lemma_mirror_x_overlaps(q[ka], q[kb]);
                } else if 2 * n <= a < 3 * n && 2 * n <= b < 3 * n {
                    lemma_mirror_y_overlaps(q[ka], q[kb]);
                } else if 3 * n <= a && 3 * n <= b {
                    lemma_mirror_y_overlaps(q[ka], q[kb]);
                    lemma_mirror_x_overlaps(mirror_y_rect(q[ka]), mirror_y_rect(q[kb]));
                } else {
                    // Different blocks: separated along x or along y. Restate
                    // the sign facts of each operand's quadrant.
                    if a < n {
                        assert(m[a] == q[ka]);
                        assert(m[a].pos.x >= 0 && m[a].pos.y >= 0);
                    } else if a < 2 * n {
                        assert(m[a] == mirror_x_rect(q[ka]));
                        assert(m[a].pos.x + m[a].size.x <= 0 && m[a].pos.y >= 0);
                    } else if a < 3 * n {
                        assert(m[a] == mirror_y_rect(q[ka]));
                        assert(m[a].pos.x >= 0 && m[a].pos.y + m[a].size.y <= 0);
                    } else {
                        assert(m[a] == mirror_x_rect(mirror_y_rect(q[ka])));
                        assert(m[a].pos.x + m[a].size.x <= 0 && m[a].pos.y + m[a].size.y <= 0);
                    }
                    if b < n {
                        assert(m[b] == q[kb]);
                        assert(m[b].pos.x >= 0 && m[b].pos.y >= 0);
                    } else if b < 2 * n {
                        assert(m[b] == mirror_x_rect(q[kb]));
                        assert(m[b].pos.x + m[b].size.x <= 0 && m[b].pos.y >= 0);
                    } else if b < 3 * n {
                        assert(m[b] == mirror_y_rect(q[kb]));
                        assert(m[b].pos.x >= 0 && m[b].pos.y + m[b].size.y <= 0);
                    } else {
                        assert(m[b] == mirror_x_rect(mirror_y_rect(q[kb])));
                        assert(m[b].pos.x + m[b].size.x <= 0 && m[b].pos.y + m[b].size.y <= 0);
                    }
                }
            }
            // The merged set is closed under both reflections.
            assert forall|i: int| 0 <= i < 4 * n implies m.contains(
                mirror_x_rect(#[trigger] m[i]),
            ) && m.contains(mirror_y_rect(m[i])) by {
                if i < n {
                    assert(m[n + i] == mirror_x_rect(m[i]));
                    assert(m[2 * n + i] == mirror_y_rect(m[i]));
                } else if i < 2 * n {
                    let k = i - n;
                    lemma_mirror_x_involutive(q[k]);
                    assert(m[k] == mirror_x_rect(m[i]));
                    lemma_mirror_commute(q[k]);
                    assert(m[3 * n + k] == mirror_y_rect(m[i]));
                } else if i < 3 * n {
                    let k = i - 2 * n;
                    assert(m[i] == mirror_y_rect(q[k]));
                    assert(m[3 * n + k] == mirror_x_rect(mirror_y_rect(q[k])));
                    assert(m[3 * n + k] == mirror_x_rect(m[i]));
                    lemma_mirror_y_involutive(q[k]);
                    assert(m[k] == mirror_y_rect(m[i]));
                } else {
                    let k = i - 3 * n;
                    assert(rect_wf(mirror_y_rect(q[k])));
                    lemma_mirror_x_involutive(mirror_y_rect(q[k]));
                    assert(m[2 * n + k] == mirror_x_rect(m[i]));
                    lemma_mirror_commute(q[k]);
                    lemma_mirror_y_involutive(q[k]);
                    assert(mirror_y_rect(m[i]) == mirror_y_rect(mirror_y_rect(mirror_x_rect(
                        q[k],
                    ))));
                    lemma_mirror_y_involutive(mirror_x_rect(q[k]));
                    assert(m[n + k] == mirror_y_rect(m[i]));
                }
            }
        }
        let res = merged.character_hole(32);
        proof {
            assert forall|i: int| 0 <= i < res.rects@.len() implies gen_size(
                (#[trigger] res.rects@[i]).size,
            ) && (walls_prob_pct == 0 ==> movable_size(res.rects@[i].size)) && quadrant_confined(
                res.rects@[i],
            ) && oob_keep(res.rects@[i], Vec2 { x: 350, y: 290 }) && dist2_origin(res.rects@[i])
                > 32 * 32 by {
                assert(m.contains(res.rects@[i]));
                let w = choose|w: int| 0 <= w < m.len() && #[trigger] m[w] == res.rects@[i];
                lemma_clearance(res.rects@[i], 32);
            }
            assert forall|i: int| 0 <= i < res.rects@.len() implies res.rects@.contains(
                mirror_x_rect(#[trigger] res.rects@[i]),
            ) && res.rects@.contains(mirror_y_rect(res.rects@[i])) by {
                let r = res.rects@[i];
                assert(m.contains(r));
                let w = choose|w: int| 0 <= w < m.len() && #[trigger] m[w] == r;
                lemma_hole_keep_mirror_x(r, 32);
                lemma_hole_keep_mirror_y(r, 32);
                assert(m.contains(mirror_x_rect(r)) && m.contains(mirror_y_rect(r))) by {
                    assert(m[w] == r);
                }
                let wx = choose|wx: int| 0 <= wx < m.len() && #[trigger] m[wx] == mirror_x_rect(r);
                assert(hole_keep(m[wx], 32));
                assert(res.rects@.contains(m[wx]));
                let wy = choose|wy: int| 0 <= wy < m.len() && #[trigger] m[wy] == mirror_y_rect(r);
                assert(hole_keep(m[wy], 32));
                assert(res.rects@.contains(m[wy]));
            }
            // For wall probability zero the quadrant keeps a rectangle whose
            // position is at least (40, 40); every coordinate of its corners
            // is then at least 40, so all four clear the spawn radius and
            // the rectangle survives the hole.
            if walls_prob_pct == 0 {
                let i = choose|i: int|
                    0 <= i < q.len() && (#[trigger] q[i]).pos.x >= 40 && q[i].pos.y >= 40;
                let px = q[i].pos.x as int;
                let py = q[i].pos.y as int;
                let fx = px + q[i].size.x;
                let fy = py + q[i].size.y;
                assert(px * px >= 1600 && py * py >= 1600 && fx * fx >= 1600 && fy * fy >= 1600)
                    by (nonlinear_arith)
                    requires px >= 40, py >= 40, fx >= 40, fy >= 40;
                assert(hole_keep(q[i], 32));
                assert(m[i] == q[i]);
                assert(res.rects@.contains(m[i]));
                let w0 = choose|w0: int| 0 <= w0 < res.rects@.len() && res.rects@[w0] == m[i];
            }
        }
        res
    }
}

} // verus!
