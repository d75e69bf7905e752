use arena_layout::geom::{Rect, Vec2};
use arena_layout::layout::Layout;

fn rect(px: i64, py: i64, sx: i64, sy: i64) -> Rect {
    Rect { pos: Vec2 { x: px, y: py }, size: Vec2 { x: sx, y: sy } }
}

const X: Vec2 = Vec2 { x: 1, y: 0 };
const Y: Vec2 = Vec2 { x: 0, y: 1 };

fn no_overlaps(l: &Layout) -> bool {
    for i in 0..l.rects.len() {
        for j in 0..l.rects.len() {
            if i != j && Layout::intersects(&l.rects[i], &l.rects[j]) {
                return false;
            }
        }
    }
    true
}

#[test]
fn cast_on_empty_layout_stays_at_start() {
    let l = Layout { rects: vec![] };
    let r = l.cast(&Vec2 { x: 15, y: 0 }, &Y, &rect(0, 0, 10, 10));
    assert_eq!(r, rect(15, 0, 10, 10));
}

#[test]
fn cast_advances_past_an_obstacle() {
    // A block occupies [0,30) along y at the start column; the candidate
    // must come to rest flush on top of it.
    let l = Layout { rects: vec![rect(0, 0, 30, 30)] };
    let r = l.cast(&Vec2 { x: 0, y: 0 }, &Y, &rect(0, 0, 10, 10));
    assert_eq!(r, rect(0, 30, 10, 10));
    assert!(!Layout::intersects(&l.rects[0], &r));
}

#[test]
fn cast_follows_boundaries_in_scan_order() {
    // The probe jumps to the first boundary (in placement order) that
    // exceeds the trial position; it is not a smallest-free-slot search, so
    // the gap below the far rectangle stays unused.
    let l = Layout { rects: vec![rect(100, 0, 10, 10), rect(0, 0, 10, 10)] };
    let r = l.cast(&Vec2 { x: 0, y: 0 }, &X, &rect(0, 0, 5, 5));
    assert_eq!(r, rect(110, 0, 5, 5));
}

#[test]
fn cast_falls_back_after_a_hundred_probes() {
    // A picket fence of unit-wide columns: each probe advances the trial
    // position by a single boundary, so a hundred probes cannot clear the
    // fence and the deterministic overflow slot is used instead.
    let mut rects = Vec::new();
    for k in 0..200 {
        rects.push(rect(k, 0, 1, 1000));
    }
    let l = Layout { rects };
    let r = l.cast(&Vec2 { x: 0, y: 0 }, &X, &rect(0, 0, 10, 10));
    // 200 rectangles placed: the overflow position is 200 * 50 = 10000.
    assert_eq!(r, rect(10000, 0, 10, 10));
    for f in &l.rects {
        assert!(!Layout::intersects(f, &r));
    }
}

#[test]
fn drag_moves_a_free_rectangle_alone() {
    let mut l = Layout { rects: vec![rect(0, 0, 10, 10), rect(500, 0, 10, 10)] };
    l.drag(0, &X, 25);
    assert_eq!(l.rects[0], rect(25, 0, 10, 10));
    assert_eq!(l.rects[1], rect(500, 0, 10, 10));
}

#[test]
fn drag_pushes_transitively() {
    // Three boxes in contact along x: dragging the first pushes the chain.
    let mut l = Layout {
        rects: vec![rect(0, 0, 10, 10), rect(10, 0, 10, 10), rect(20, 0, 10, 10)],
    };
    l.drag(0, &X, 15);
    assert_eq!(l.rects[0], rect(15, 0, 10, 10));
    assert_eq!(l.rects[1], rect(25, 0, 10, 10));
    assert_eq!(l.rects[2], rect(35, 0, 10, 10));
    assert!(no_overlaps(&l));
}

#[test]
fn drag_picks_up_rectangles_on_the_way() {
    // The dragged box reaches a resting neighbor after 5 units and carries
    // it for the remaining distance.
    let mut l = Layout { rects: vec![rect(0, 0, 10, 10), rect(15, 0, 10, 10)] };
    l.drag(0, &X, 20);
    assert_eq!(l.rects[0], rect(20, 0, 10, 10));
    assert_eq!(l.rects[1], rect(30, 0, 10, 10));
    assert!(no_overlaps(&l));
}

#[test]
fn drag_ignores_the_perpendicular_lane() {
    let mut l = Layout { rects: vec![rect(0, 0, 10, 10), rect(12, 0, 10, 10)] };
    l.drag(0, &Y, 30);
    assert_eq!(l.rects[0], rect(0, 30, 10, 10));
    assert_eq!(l.rects[1], rect(12, 0, 10, 10));
}

#[test]
fn clip_oob_removes_rectangles_in_the_strips() {
    let inside = rect(10, 10, 20, 20);
    let beyond_x = rect(360, 10, 20, 20);
    let beyond_y = rect(10, 300, 20, 20);
    let l = Layout { rects: vec![inside, beyond_x, beyond_y] };
    let c = l.clip_oob(&Vec2 { x: 350, y: 290 });
    assert_eq!(c.rects, vec![inside]);
}

#[test]
fn clip_oob_keeps_rectangles_flush_with_the_strips() {
    // Touching a strip's edge is not intersecting it.
    let flush_x = rect(330, 10, 20, 20);
    let flush_y = rect(10, 270, 20, 20);
    let l = Layout { rects: vec![flush_x, flush_y] };
    let c = l.clip_oob(&Vec2 { x: 350, y: 290 });
    assert_eq!(c.rects, vec![flush_x, flush_y]);
}

#[test]
fn clip_oob_keeps_order_and_is_idempotent() {
    let a = rect(10, 10, 20, 20);
    let beyond = rect(360, 10, 20, 20);
    let b = rect(40, 40, 20, 20);
    let c = rect(200, 200, 20, 20);
    let l = Layout { rects: vec![a, beyond, b, c] };
    let oob = Vec2 { x: 350, y: 290 };
    let once = l.clip_oob(&oob);
    // Survivors keep their relative order; nothing is moved or resized.
    assert_eq!(once.rects, vec![a, b, c]);
    let twice = once.clip_oob(&oob);
    assert_eq!(twice.rects, once.rects);
}

#[test]
fn character_hole_keeps_order_and_is_idempotent() {
    let far1 = rect(100, 100, 10, 10);
    let near = rect(5, 5, 10, 10);
    let far2 = rect(-80, 40, 10, 10);
    let l = Layout { rects: vec![far1, near, far2] };
    let once = l.character_hole(32);
    assert_eq!(once.rects, vec![far1, far2]);
    let twice = once.character_hole(32);
    assert_eq!(twice.rects, once.rects);
}

#[test]
fn character_hole_removes_rectangles_near_the_origin() {
    let near = rect(5, 5, 10, 10);
    let far = rect(100, 100, 10, 10);
    let l = Layout { rects: vec![near, far] };
    let h = l.character_hole(32);
    assert_eq!(h.rects, vec![far]);
}

#[test]
fn character_hole_boundary_is_strict() {
    // One corner at exactly the radius: 32 > 32 is false, so it is removed.
    let at_radius = rect(32, 0, 10, 10);
    // Entirely strictly outside the radius.
    let outside = rect(33, 1, 10, 10);
    let l = Layout { rects: vec![at_radius, outside] };
    let h = l.character_hole(32);
    assert_eq!(h.rects, vec![outside]);
}

#[test]
fn character_hole_checks_corners_in_every_quadrant() {
    // A mirrored rectangle whose nearest corner is its upper-right one.
    let near = rect(-15, -15, 10, 10);
    let l = Layout { rects: vec![near] };
    let h = l.character_hole(32);
    assert_eq!(h.rects.len(), 0);
}
