use arena_layout::geom::{Rect, Vec2};
use arena_layout::layout::Layout;

fn rect(px: i64, py: i64, sx: i64, sy: i64) -> Rect {
    Rect { pos: Vec2 { x: px, y: py }, size: Vec2 { x: sx, y: sy } }
}

#[test]
fn intersects_overlapping() {
    let a = rect(0, 0, 10, 10);
    let b = rect(5, 5, 10, 10);
    assert!(Layout::intersects(&a, &b));
    assert!(Layout::intersects(&b, &a));
}

#[test]
fn intersects_touching_edges_do_not_overlap() {
    let a = rect(0, 0, 10, 10);
    let b = rect(10, 0, 10, 10);
    assert!(!Layout::intersects(&a, &b));
    assert!(!Layout::intersects(&b, &a));
    let c = rect(0, 10, 10, 10);
    assert!(!Layout::intersects(&a, &c));
    let corner = rect(10, 10, 5, 5);
    assert!(!Layout::intersects(&a, &corner));
}

#[test]
fn intersects_disjoint() {
    let a = rect(0, 0, 10, 10);
    let b = rect(100, 100, 10, 10);
    assert!(!Layout::intersects(&a, &b));
}

#[test]
fn intersects_containment() {
    let outer = rect(0, 0, 100, 100);
    let inner = rect(40, 40, 10, 10);
    assert!(Layout::intersects(&outer, &inner));
}

#[test]
fn mirror_x_reflects_positions() {
    let l = Layout { rects: vec![rect(10, 20, 30, 40)] };
    let m = l.mirror_x();
    assert_eq!(m.rects.len(), 1);
    // The far x corner (10 + 30 = 40) becomes the near corner at -40.
    assert_eq!(m.rects[0], rect(-40, 20, 30, 40));
}

#[test]
fn mirror_y_reflects_positions() {
    let l = Layout { rects: vec![rect(10, 20, 30, 40)] };
    let m = l.mirror_y();
    assert_eq!(m.rects.len(), 1);
    assert_eq!(m.rects[0], rect(10, -60, 30, 40));
}

#[test]
fn mirror_twice_restores() {
    let l = Layout { rects: vec![rect(5, 15, 25, 35), rect(100, 0, 10, 75)] };
    let back = l.mirror_x().mirror_x();
    assert_eq!(back.rects, l.rects);
    let back_y = l.mirror_y().mirror_y();
    assert_eq!(back_y.rects, l.rects);
}

#[test]
fn merge_concatenates_in_order() {
    let a = Layout { rects: vec![rect(0, 0, 10, 10)] };
    let b = Layout { rects: vec![rect(20, 0, 10, 10), rect(40, 0, 10, 10)] };
    let m = a.merge(&b);
    assert_eq!(m.rects, vec![rect(0, 0, 10, 10), rect(20, 0, 10, 10), rect(40, 0, 10, 10)]);
}
