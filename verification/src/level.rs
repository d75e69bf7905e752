//! The level synthesizer: picks generation parameters from the level id,
//! derives a color scheme, classifies the generated rectangles into movable
//! blocks and static walls, and computes the level metadata.

use vstd::prelude::*;

use crate::geom::{
    dist2_origin, hole_keep, norm2_wide, nsq, overlaps, quadrant_confined, rect_wf, Rect, Vec2,
    Vec3,
};
use crate::layout::{
    gen_size, movable_size, oob_keep, wall_size, Layout,
};
use crate::rng::rand_range;

verus! {

/// A color in HSL form: hue in degrees, saturation and lightness in percent.
#[derive(Clone, Copy, Debug, PartialEq, Eq, Structural)]
pub struct Hsl {
    pub hue_deg: u32,
    pub sat_pct: u32,
    pub light_pct: u32,
}

/// A classified, styled instantiation of one rectangle, consumed by the
/// physics and render layers. Scalar physical properties are stored in
/// hundredths (so `restitution_pct == 30` means 0.30), and the center is
/// stored doubled (`center_x2` is twice the true center coordinate): the
/// footprint sides are multiples of five, so true centers can lie on
/// half-units, and doubling keeps them integral and exact.
#[derive(Clone, Copy, Debug, PartialEq, Eq, Structural)]
pub struct Block {
    pub center_x2: i64,
    pub center_y2: i64,
    pub layer: i64,
    pub size: Vec2,
    pub color: Hsl,
    pub color_target: Hsl,
    pub max_distance: i64,
    pub linear_damping_pct: u32,
    pub angular_damping_pct: u32,
    pub restitution_pct: u32,
    pub density_pct: u32,
}

/// The rectangle a block was built from: position recovered from the doubled
/// center and the size.
pub open spec fn block_footprint(b: Block) -> Rect {
    Rect {
        pos: Vec2 {
            x: ((b.center_x2 - b.size.x) / 2) as i64,
            y: ((b.center_y2 - b.size.y) / 2) as i64,
        },
        size: b.size,
    }
}

/// Number of movable blocks (positive density) in the sequence.
pub open spec fn count_movable(s: Seq<Block>) -> int
    decreases s.len(),
{
    if s.len() == 0 {
        0
    } else {
        count_movable(s.drop_last()) + if s.last().density_pct > 0 {
            1int
        } else {
            0int
        }
    }
}

/// Number of static walls (zero density) in the sequence.
pub open spec fn count_wall(s: Seq<Block>) -> int
    decreases s.len(),
{
    if s.len() == 0 {
        0
    } else {
        count_wall(s.drop_last()) + if s.last().density_pct == 0 {
            1int
        } else {
            0int
        }
    }
}

/// Appending one block adjusts exactly one of the two counts.
pub proof fn lemma_count_push(s: Seq<Block>, b: Block)
    ensures
        count_movable(s.push(b)) == count_movable(s) + if b.density_pct > 0 {
            1int
        } else {
            0int
        },
        count_wall(s.push(b)) == count_wall(s) + if b.density_pct == 0 {
            1int
        } else {
            0int
        },
{
    assert(s.push(b).drop_last() =~= s);
    assert(s.push(b).last() == b);
}

/// The two counts are non-negative and partition the sequence.
pub proof fn lemma_count_partition(s: Seq<Block>)
    ensures
        count_movable(s) >= 0,
        count_wall(s) >= 0,
        count_movable(s) + count_wall(s) == s.len(),
    decreases s.len(),
{
    if s.len() > 0 {
        lemma_count_partition(s.drop_last());
    }
}

/// A generated footprint is a wall shape exactly when its diagonal is at
/// least 75 units long: movable dimensions cap at 50 (diagonal squared at
/// most 5000), while a wall's long side alone is at least 75.
pub proof fn lemma_size_class(sz: Vec2)
    requires
        gen_size(sz),
    ensures
        wall_size(sz) <==> nsq(sz.x as int, sz.y as int) >= 5625,
        movable_size(sz) <==> nsq(sz.x as int, sz.y as int) < 5625,
{
    if movable_size(sz) {
        assert(sz.x * sz.x <= 2500 && sz.y * sz.y <= 2500) by (nonlinear_arith)
            requires 10 <= sz.x <= 50 && 10 <= sz.y <= 50;
    } else {
        if 75 <= sz.x {
            assert(sz.x * sz.x >= 5625 && sz.y * sz.y >= 0) by (nonlinear_arith)
                requires 75 <= sz.x;
        } else {
            assert(sz.y * sz.y >= 5625 && sz.x * sz.x >= 0) by (nonlinear_arith)
                requires 75 <= sz.y;
        }
        assert(!movable_size(sz));
    }
}

/// Every block of a generated level satisfies this: a sampled footprint,
/// wall/movable classification decided exactly by the diagonal, fixed
/// physical properties, and the render layer used for blocks.
pub open spec fn block_valid(b: Block) -> bool {
    &&& gen_size(b.size)
    &&& (b.density_pct == 0 <==> nsq(b.size.x as int, b.size.y as int) >= 5625)
    &&& (b.density_pct == 0 || b.density_pct == 100)
    &&& b.layer == 10
    &&& b.max_distance == 300
    &&& b.linear_damping_pct == 100
    &&& b.angular_damping_pct == 100
    &&& b.restitution_pct == 30
}

/// One generated arena: the classified blocks plus the metadata the game
/// shell reads.
pub struct Level {
    pub id: u32,
    pub blocks: Vec<Block>,
    /// Completion threshold in hundredths: exactly 76 per movable block,
    /// that is 0.76 x the number of movable blocks.
    pub point_threshold_hundredths: u64,
    pub spawn_point: Vec3,
    pub duration_secs: u64,
    pub back_color: Hsl,
    pub accent_color: Hsl,
}

/// The rectangle count the generator is asked for at a given level id.
pub open spec fn level_count(id: u32) -> int {
    if 1 <= id <= 2 {
        5
    } else if 3 <= id <= 6 {
        10
    } else if 7 <= id <= 15 {
        20
    } else if 2 * id > 40 {
        2 * id
    } else {
        40
    }
}

/// The wall probability (in hundredths) at a given level id.
pub open spec fn level_walls_pct(id: u32) -> int {
    if 1 <= id <= 2 {
        0
    } else if 3 <= id <= 6 {
        3
    } else if 7 <= id <= 15 {
        6
    } else {
        10
    }
}

/// The color every block interpolates towards at maximum displacement: a
/// golden-angle step of 137 degrees past the accent hue (wrapping around the
/// circle), fully saturated at half lightness.
pub open spec fn target_color_of(accent: Hsl) -> Hsl {
    Hsl { hue_deg: ((accent.hue_deg as int + 137) % 360) as u32, sat_pct: 100, light_pct: 50 }
}

/// The static walls' color: two golden-angle steps (274 degrees, wrapping)
/// past the accent hue, half saturated and slightly dark.
pub open spec fn wall_color_of(accent: Hsl) -> Hsl {
    Hsl { hue_deg: ((accent.hue_deg as int + 274) % 360) as u32, sat_pct: 50, light_pct: 40 }
}

/// Everything `Level::gen` guarantees of a produced level, as a predicate on
/// the value: the metadata formulas, the classification, the color scheme,
/// and the structural invariants of the underlying footprints (no overlaps,
/// spawn clearance, within bounds, one closed quadrant each).
pub open spec fn level_valid(l: Level) -> bool {
    &&& l.point_threshold_hundredths == 76 * count_movable(l.blocks@)
    &&& l.duration_secs == count_movable(l.blocks@) + 5 * count_wall(l.blocks@)
    &&& l.spawn_point == (Vec3 { x: 0, y: 0, z: 20 })
    &&& l.back_color == (Hsl { hue_deg: 0, sat_pct: 0, light_pct: 10 })
    &&& l.accent_color.sat_pct == 100
    &&& l.accent_color.light_pct == 50
    &&& l.accent_color.hue_deg < 360
    &&& l.blocks@.len() <= 4 * level_count(l.id)
    &&& forall|i: int| 0 <= i < l.blocks@.len() ==> block_valid(#[trigger] l.blocks@[i])
    &&& forall|i: int|
        0 <= i < l.blocks@.len() ==> rect_wf(block_footprint(#[trigger] l.blocks@[i]))
    &&& forall|i: int, j: int|
        0 <= i < l.blocks@.len() && 0 <= j < l.blocks@.len() && i != j ==> !overlaps(
            block_footprint(#[trigger] l.blocks@[i]),
            block_footprint(#[trigger] l.blocks@[j]),
        )
    &&& forall|i: int|
        0 <= i < l.blocks@.len() ==> quadrant_confined(block_footprint(#[trigger] l.blocks@[i]))
            && hole_keep(block_footprint(l.blocks@[i]), 32) && dist2_origin(
            block_footprint(l.blocks@[i]),
        ) > 32 * 32 && oob_keep(block_footprint(l.blocks@[i]), Vec2 { x: 350, y: 290 })
    &&& forall|i: int|
        0 <= i < l.blocks@.len() ==> ((#[trigger] l.blocks@[i]).density_pct > 0
            ==> l.blocks@[i].color == l.accent_color)
    &&& forall|i: int|
        0 <= i < l.blocks@.len() ==> ((#[trigger] l.blocks@[i]).density_pct == 0
            ==> l.blocks@[i].color == wall_color_of(l.accent_color))
    &&& forall|i: int|
        0 <= i < l.blocks@.len() ==> (#[trigger] l.blocks@[i]).color_target == target_color_of(
            l.accent_color,
        )
    &&& (level_walls_pct(l.id) == 0 ==> count_wall(l.blocks@) == 0 && count_movable(l.blocks@)
        >= 1)
}

/// In a sequence of movable blocks alone, the movable count is the length
/// and the wall count is zero.
pub proof fn lemma_count_all_movable(s: Seq<Block>)
    requires
        forall|i: int| 0 <= i < s.len() ==> (#[trigger] s[i]).density_pct > 0,
    ensures
        count_movable(s) == s.len(),
        count_wall(s) == 0,
    decreases s.len(),
{
    if s.len() > 0 {
        assert forall|i: int| 0 <= i < s.drop_last().len() implies (#[trigger] s.drop_last()[i])
            .density_pct > 0 by {
            assert(s.drop_last()[i] == s[i]);
        }
        lemma_count_all_movable(s.drop_last());
    }
}

impl Block {
    /// A copy of this block recentered at the given doubled coordinates, on
    /// the block render layer.
    pub fn mov(&self, center_x2: i64, center_y2: i64) -> (b: Block)
        ensures
            b == (Block { center_x2, center_y2, layer: 10, ..*self }),
    {
        Block { center_x2, center_y2, layer: 10, ..*self }
    }

    /// A copy of this block with the given footprint size.
    pub fn siz(&self, size: Vec2) -> (b: Block)
        ensures
            b == (Block { size, ..*self }),
    {
        Block { size, ..*self }
    }
}

impl core::default::Default for Block {
    /// The movable-block prototype: a 40x40 footprint at the origin with
    /// unit density, moderate damping, and placeholder colors.
    fn default() -> (b: Block)
        ensures
            b == (Block {
                center_x2: 0,
                center_y2: 0,
                layer: 0,
                size: Vec2 { x: 40, y: 40 },
                color: Hsl { hue_deg: 300, sat_pct: 100, light_pct: 25 },
                color_target: Hsl { hue_deg: 0, sat_pct: 100, light_pct: 50 },
                max_distance: 300,
                linear_damping_pct: 100,
                angular_damping_pct: 100,
                restitution_pct: 30,
                density_pct: 100,
            }),
    {
        Block {
            center_x2: 0,
            center_y2: 0,
            layer: 0,
            size: Vec2 { x: 40, y: 40 },
            color: Hsl { hue_deg: 300, sat_pct: 100, light_pct: 25 },
            color_target: Hsl { hue_deg: 0, sat_pct: 100, light_pct: 50 },
            max_distance: 300,
            linear_damping_pct: 100,
            angular_damping_pct: 100,
            restitution_pct: 30,
            density_pct: 100,
        }
    }
}

/// Classifies every rectangle of the layout into a block stamped from one of
/// the two prototypes: a wall when the diagonal is at least 75 units,
/// movable otherwise.
fn build_blocks(layout: &Layout, movable_proto: &Block, wall_proto: &Block) -> (blocks: Vec<
    Block,
>)
    requires
        crate::layout::all_wf(layout.rects@),
        forall|i: int| 0 <= i < layout.rects@.len() ==> gen_size((#[trigger] layout.rects@[i]).size),
        movable_proto.density_pct == 100,
        wall_proto.density_pct == 0,
        movable_proto.max_distance == 300 && wall_proto.max_distance == 300,
        movable_proto.linear_damping_pct == 100 && wall_proto.linear_damping_pct == 100,
        movable_proto.angular_damping_pct == 100 && wall_proto.angular_damping_pct == 100,
        movable_proto.restitution_pct == 30 && wall_proto.restitution_pct == 30,
        movable_proto.color_target == wall_proto.color_target,
    ensures
        blocks@.len() == layout.rects@.len(),
        forall|i: int|
            0 <= i < blocks@.len() ==> block_footprint(#[trigger] blocks@[i]) == layout.rects@[i],
        forall|i: int| 0 <= i < blocks@.len() ==> block_valid(#[trigger] blocks@[i]),
        forall|i: int|
            0 <= i < blocks@.len() ==> ((#[trigger] blocks@[i]).density_pct > 0 ==> blocks@[i].color
                == movable_proto.color),
        forall|i: int|
            0 <= i < blocks@.len() ==> ((#[trigger] blocks@[i]).density_pct == 0 ==> blocks@[i].color
                == wall_proto.color),
        forall|i: int|
            0 <= i < blocks@.len() ==> (#[trigger] blocks@[i]).color_target
                == movable_proto.color_target,
{
    let mut blocks: Vec<Block> = Vec::new();
    let mut k: usize = 0;
    while k < layout.rects.len()
        invariant
            k <= layout.rects@.len(),
            blocks@.len() == k,
            forall|i: int|
                0 <= i < k ==> block_footprint(#[trigger] blocks@[i]) == layout.rects@[i],
            forall|i: int| 0 <= i < k ==> block_valid(#[trigger] blocks@[i]),
            forall|i: int|
                0 <= i < k ==> ((#[trigger] blocks@[i]).density_pct > 0 ==> blocks@[i].color
                    == movable_proto.color),
            forall|i: int|
                0 <= i < k ==> ((#[trigger] blocks@[i]).density_pct == 0 ==> blocks@[i].color
                    == wall_proto.color),
            forall|i: int|
                0 <= i < k ==> (#[trigger] blocks@[i]).color_target == movable_proto.color_target,
        decreases layout.rects@.len() - k,
    {
        let r = layout.rects[k];
        let d2 = norm2_wide(r.size.x, r.size.y);
        let cx2 = 2 * r.pos.x + r.size.x;
        let cy2 = 2 * r.pos.y + r.size.y;
        let b = if d2 >= 5625 {
            wall_proto.mov(cx2, cy2).siz(r.size)
        } else {
            movable_proto.mov(cx2, cy2).siz(r.size)
        };
        proof {
            lemma_size_class(r.size);
            assert((2 * r.pos.x + r.size.x - r.size.x) / 2 == r.pos.x);
            assert((2 * r.pos.y + r.size.y - r.size.y) / 2 == r.pos.y);
            assert(block_footprint(b) == layout.rects@[k as int]);
        }
        blocks.push(b);
        k = k + 1;
    }
    blocks
}

/// Counts movable blocks and walls.
fn count_blocks(blocks: &Vec<Block>) -> (counts: (u64, u64))
    requires
        blocks@.len() <= 0x10_0000_0000,
    ensures
        counts.0 as int == count_movable(blocks@),
        counts.1 as int == count_wall(blocks@),
        counts.0 + counts.1 == blocks@.len(),
{
    let mut movable_n: u64 = 0;
    let mut wall_n: u64 = 0;
    let mut c: usize = 0;
    while c < blocks.len()
        invariant
            c <= blocks@.len(),
            movable_n as int == count_movable(blocks@.take(c as int)),
            wall_n as int == count_wall(blocks@.take(c as int)),
            movable_n + wall_n == c,
        decreases blocks@.len() - c,
    {
        proof {
            assert(blocks@.take(c + 1 as int).drop_last() =~= blocks@.take(c as int));
            assert(blocks@.take(c + 1 as int).last() == blocks@[c as int]);
        }
        if blocks[c].density_pct > 0 {
            movable_n = movable_n + 1;
        } else {
            wall_n = wall_n + 1;
        }
        c = c + 1;
    }
    proof {
        assert(blocks@.take(blocks@.len() as int) =~= blocks@);
    }
    (movable_n, wall_n)
}

impl Level {
    /// Synthesizes the level for the given id: parameters are selected by id
    /// range (larger and more wall-dense arenas as the id grows), a color
    /// scheme is derived from one random hue, the layout builder produces
    /// the rectangle set, and each rectangle becomes a wall (diagonal at
    /// least 75) or a movable block. The completion threshold is exactly
    /// 0.76 per movable block; the duration is one second per movable block
    /// plus five per wall.
    #[verifier::rlimit(60)]
    pub fn gen(num: u32, rng: &mut rand::rngs::StdRng) -> (l: Level)
        ensures
            l.id == num,
            level_valid(l),
    {
        let hue = rand_range(rng, 0, 360) as u32;
        let color = Hsl { hue_deg: hue, sat_pct: 100, light_pct: 50 };
        let target_color = Hsl { hue_deg: (hue + 137) % 360, sat_pct: 100, light_pct: 50 };
        let wall_color = Hsl { hue_deg: (hue + 274) % 360, sat_pct: 50, light_pct: 40 };
        let back_color = Hsl { hue_deg: 0, sat_pct: 0, light_pct: 10 };
        let base = Block::default();
        let movable_proto = Block { color, color_target: target_color, ..base };
        let wall_proto = Block {
            color: wall_color,
            color_target: target_color,
            density_pct: 0,
            ..base
        };
        let (count, walls_pct): (u64, u32) = if num >= 1 && num <= 2 {
            (5, 0)
        } else if num >= 3 && num <= 6 {
            (10, 3)
        } else if num >= 7 && num <= 15 {
            (20, 6)
        } else {
            let c = 2 * (num as u64);
            (
                if c > 40 {
                    c
                } else {
                    40
                },
                10,
            )
        };
        proof {
            assert(count as int == level_count(num));
            assert(walls_pct as int == level_walls_pct(num));
        }
        let layout = Layout::gen(count, rng, walls_pct);
        let blocks = build_blocks(&layout, &movable_proto, &wall_proto);
        let counts = count_blocks(&blocks);
        let movable_n = counts.0;
        let wall_n = counts.1;
        proof {
            lemma_count_partition(blocks@);
            assert forall|i: int| 0 <= i < blocks@.len() implies rect_wf(
                block_footprint(#[trigger] blocks@[i]),
            ) && quadrant_confined(block_footprint(blocks@[i])) && hole_keep(
                block_footprint(blocks@[i]),
                32,
            ) && dist2_origin(block_footprint(blocks@[i])) > 32 * 32 && oob_keep(
                block_footprint(blocks@[i]),
                Vec2 { x: 350, y: 290 },
            ) by {
                assert(block_footprint(blocks@[i]) == layout.rects@[i]);
            }
            assert forall|i: int, j: int|
                0 <= i < blocks@.len() && 0 <= j < blocks@.len() && i != j implies !overlaps(
                block_footprint(#[trigger] blocks@[i]),
                block_footprint(#[trigger] blocks@[j]),
            ) by {
                assert(block_footprint(blocks@[i]) == layout.rects@[i]);
                assert(block_footprint(blocks@[j]) == layout.rects@[j]);
            }
            assert(target_color == target_color_of(color));
            assert(wall_color == wall_color_of(color));
            // Wall probability zero (ids whose parameter table says so)
            // yields only movable blocks, and at least one: the quadrant
            // always keeps its first rectangle.
            if walls_pct == 0 {
                assert forall|i: int| 0 <= i < blocks@.len() implies (#[trigger] blocks@[i])
                    .density_pct > 0 by {
                    assert(block_footprint(blocks@[i]) == layout.rects@[i]);
                    assert(movable_size(layout.rects@[i].size));
                    lemma_size_class(blocks@[i].size);
                }
                lemma_count_all_movable(blocks@);
            }
        }
        let point_threshold_hundredths = 76 * movable_n;
        let duration_secs = movable_n + wall_n * 5;
        Level {
            id: num,
            blocks,
            point_threshold_hundredths,
            spawn_point: Vec3 { x: 0, y: 0, z: 20 },
            duration_secs,
            back_color,
            accent_color: color,
        }
    }
}

} // verus!
