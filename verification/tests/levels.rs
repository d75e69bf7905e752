use arena_layout::cache::Info;
use arena_layout::geom::{Vec2, Vec3};
use arena_layout::level::{Block, Hsl, Level};
use arena_layout::rng::rng_seeded;

#[test]
fn block_default_prototype() {
    let b = Block::default();
    assert_eq!(b.size, Vec2 { x: 40, y: 40 });
    assert_eq!(b.density_pct, 100);
    assert_eq!(b.restitution_pct, 30);
    assert_eq!(b.linear_damping_pct, 100);
    assert_eq!(b.angular_damping_pct, 100);
    assert_eq!(b.max_distance, 300);
}

#[test]
fn block_mov_and_siz() {
    let b = Block::default().mov(21, -13).siz(Vec2 { x: 15, y: 75 });
    assert_eq!(b.center_x2, 21);
    assert_eq!(b.center_y2, -13);
    assert_eq!(b.layer, 10);
    assert_eq!(b.size, Vec2 { x: 15, y: 75 });
    assert_eq!(b.density_pct, 100);
}

#[test]
fn level_threshold_is_76_hundredths_per_movable() {
    for seed in [0u64, 5, 9] {
        let mut rng = rng_seeded(seed);
        let l = Level::gen(4, &mut rng);
        let movable = l.blocks.iter().filter(|b| b.density_pct > 0).count() as u64;
        assert_eq!(l.point_threshold_hundredths, 76 * movable);
    }
}

#[test]
fn level_duration_counts_walls_five_fold() {
    let mut rng = rng_seeded(77);
    let l = Level::gen(20, &mut rng);
    let movable = l.blocks.iter().filter(|b| b.density_pct > 0).count() as u64;
    let walls = l.blocks.iter().filter(|b| b.density_pct == 0).count() as u64;
    assert_eq!(l.duration_secs, movable + walls * 5);
    assert_eq!(movable + walls, l.blocks.len() as u64);
}

#[test]
fn level_classification_follows_the_diagonal() {
    let mut rng = rng_seeded(123);
    let l = Level::gen(30, &mut rng);
    for b in &l.blocks {
        let d2 = b.size.x * b.size.x + b.size.y * b.size.y;
        if d2 >= 75 * 75 {
            assert_eq!(b.density_pct, 0, "long block must be a wall");
        } else {
            assert_eq!(b.density_pct, 100, "short block must be movable");
        }
    }
}

#[test]
fn level_metadata_fixed_fields() {
    let mut rng = rng_seeded(2);
    let l = Level::gen(1, &mut rng);
    assert_eq!(l.id, 1);
    assert_eq!(l.spawn_point, Vec3 { x: 0, y: 0, z: 20 });
    assert_eq!(l.back_color, Hsl { hue_deg: 0, sat_pct: 0, light_pct: 10 });
    assert_eq!(l.accent_color.sat_pct, 100);
    assert_eq!(l.accent_color.light_pct, 50);
    assert!(l.accent_color.hue_deg < 360);
    // Ids 1 and 2 ask for five rectangles per quadrant.
    assert!(l.blocks.len() <= 20);
}

#[test]
fn level_count_grows_with_the_id() {
    let mut rng = rng_seeded(4);
    let l16 = Level::gen(16, &mut rng);
    // Ids above 15 ask for max(2 * id, 40) rectangles per quadrant.
    assert!(l16.blocks.len() <= 4 * 40);
    let l100 = Level::gen(100, &mut rng);
    assert!(l100.blocks.len() <= 4 * 200);
}

#[test]
fn level_blocks_do_not_overlap() {
    let mut rng = rng_seeded(31);
    let l = Level::gen(8, &mut rng);
    for i in 0..l.blocks.len() {
        for j in 0..l.blocks.len() {
            if i == j {
                continue;
            }
            let a = &l.blocks[i];
            let b = &l.blocks[j];
            // Strict AABB test on doubled coordinates (centers are doubled,
            // so sides must be doubled too).
            let overlap_x = a.center_x2 - a.size.x < b.center_x2 + b.size.x
                && b.center_x2 - b.size.x < a.center_x2 + a.size.x;
            let overlap_y = a.center_y2 - a.size.y < b.center_y2 + b.size.y
                && b.center_y2 - b.size.y < a.center_y2 + a.size.y;
            assert!(!(overlap_x && overlap_y));
        }
    }
}

#[test]
fn low_levels_are_never_empty() {
    // Ids 1 and 2 use wall probability zero: the quadrant always keeps its
    // first rectangle, so such a level has at least one block, all movable,
    // and a nonzero completion threshold.
    for seed in 0..10u64 {
        let mut rng = rng_seeded(seed);
        let l = Level::gen(1, &mut rng);
        assert!(!l.blocks.is_empty());
        assert!(l.blocks.iter().all(|b| b.density_pct > 0));
        assert!(l.point_threshold_hundredths >= 76);
        assert_eq!(l.point_threshold_hundredths, 76 * l.blocks.len() as u64);
    }
}

#[test]
fn level_color_scheme_is_golden_angle_spaced() {
    let mut rng = rng_seeded(64);
    let l = Level::gen(20, &mut rng);
    let h = l.accent_color.hue_deg;
    let target = Hsl { hue_deg: (h + 137) % 360, sat_pct: 100, light_pct: 50 };
    let wall = Hsl { hue_deg: (h + 274) % 360, sat_pct: 50, light_pct: 40 };
    for b in &l.blocks {
        assert_eq!(b.color_target, target);
        if b.density_pct > 0 {
            assert_eq!(b.color, l.accent_color);
        } else {
            assert_eq!(b.color, wall);
        }
    }
}

#[test]
fn level_hues_wrap_around_the_circle() {
    // Whatever the accent hue, the derived hues stay in [0, 360) and keep
    // their golden-angle distances (mod 360), so they never collapse.
    for seed in 0..20u64 {
        let mut rng = rng_seeded(seed);
        let l = Level::gen(20, &mut rng);
        let h = l.accent_color.hue_deg;
        for b in &l.blocks {
            assert!(b.color_target.hue_deg < 360);
            assert_eq!((b.color_target.hue_deg + 360 - h) % 360, 137);
            if b.density_pct == 0 {
                assert!(b.color.hue_deg < 360);
                assert_eq!((b.color.hue_deg + 360 - h) % 360, 274);
            }
        }
    }
}

#[test]
fn cache_starts_empty() {
    let info = Info::default();
    assert_eq!(info.levels.len(), 0);
}

#[test]
fn cache_is_idempotent_per_id() {
    let mut info = Info::default();
    let mut rng = rng_seeded(42);
    let first = info.get_level(3, &mut rng);
    let second = info.get_level(3, &mut rng);
    assert_eq!(first.id, 3);
    assert_eq!(second.id, 3);
    assert_eq!(first.blocks, second.blocks);
    assert_eq!(first.point_threshold_hundredths, second.point_threshold_hundredths);
    assert_eq!(first.duration_secs, second.duration_secs);
    assert_eq!(first.accent_color, second.accent_color);
    assert_eq!(info.levels.len(), 1);
}

#[test]
fn cache_synthesizes_each_id_once() {
    let mut info = Info::default();
    let mut rng = rng_seeded(8);
    let l1 = info.get_level(1, &mut rng);
    let l2 = info.get_level(2, &mut rng);
    assert_eq!(info.levels.len(), 2);
    assert_eq!(l1.id, 1);
    assert_eq!(l2.id, 2);
    let l1_again = info.get_level(1, &mut rng);
    assert_eq!(info.levels.len(), 2);
    assert_eq!(l1_again.blocks, l1.blocks);
}
