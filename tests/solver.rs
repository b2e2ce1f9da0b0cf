use rust_physics::body::{Color, VerletObject};
use rust_physics::geometry::{ceil_sqrt_u128, clamp_i128, scale_i128, Vec2, ACCEL_LIMIT, WORLD_LIMIT};
use rust_physics::solver::{contain, resolve_pair, Solver, SUB_STEPS};

fn white() -> Color {
    Color::rgb(255, 255, 255)
}

fn dist2(a: Vec2, b: Vec2) -> i128 {
    let dx = a.x as i128 - b.x as i128;
    let dy = a.y as i128 - b.y as i128;
    dx * dx + dy * dy
}

fn moving(px: i64, py: i64, ox: i64, oy: i64, radius: i64) -> VerletObject {
    let mut b = VerletObject::new(px, py, radius, white());
    b.position_old = Vec2::new(ox, oy);
    b
}

#[test]
fn velocity_kept_without_acceleration() {
    let mut b = moving(100, 50, 97, 54, 5);
    b.update_position(7);
    assert_eq!(b.position_current, Vec2::new(103, 46));
    assert_eq!(b.position_old, Vec2::new(100, 50));
    assert_eq!(b.position_current.x - b.position_old.x, 3);
    assert_eq!(b.position_current.y - b.position_old.y, -4);
}

#[test]
fn gravity_moves_resting_body_by_g_dt_squared() {
    let mut s = Solver::new(Vec2::new(2, 7), Vec2::new(0, 0), 10_000, SUB_STEPS);
    s.add_object(30, -40, 10, white());
    s.apply_gravity();
    assert_eq!(s.objects[0].acceleration, Vec2::new(2, 7));
    s.update_positions(3);
    assert_eq!(s.objects[0].position_current, Vec2::new(30 + 18, -40 + 63));
    assert_eq!(s.objects[0].acceleration, Vec2::new(0, 0));
}

#[test]
fn accelerate_accumulates_and_saturates() {
    let mut b = VerletObject::new(0, 0, 1, white());
    b.accelerate(Vec2::new(3, -4));
    b.accelerate(Vec2::new(3, -4));
    assert_eq!(b.acceleration, Vec2::new(6, -8));
    b.accelerate(Vec2::new(ACCEL_LIMIT, -ACCEL_LIMIT));
    assert_eq!(b.acceleration, Vec2::new(ACCEL_LIMIT, -ACCEL_LIMIT));
}

#[test]
fn integration_saturates_at_world_edge() {
    let mut b = moving(WORLD_LIMIT, 0, WORLD_LIMIT - 10, 0, 1);
    b.update_position(1);
    assert_eq!(b.position_current, Vec2::new(WORLD_LIMIT, 0));
}

#[test]
fn containment_pulls_body_onto_limit_circle() {
    let mut s = Solver::new(Vec2::new(0, 0), Vec2::new(0, 0), 100, SUB_STEPS);
    s.add_object(300, 400, 10, white());
    s.add_object(5, 5, 10, white());
    s.apply_constraint();
    assert_eq!(s.objects[0].position_current, Vec2::new(54, 72));
    assert_eq!(s.objects[0].position_old, Vec2::new(300, 400));
    assert_eq!(s.objects[1].position_current, Vec2::new(5, 5));
}

#[test]
fn containment_keeps_every_body_inside() {
    let center = Vec2::new(600, 400);
    let mut s = Solver::new(Vec2::new(0, 0), center, 300, SUB_STEPS);
    let spots = [(-5000, 17), (601, 2000), (1234, -999), (600, 400), (899, 400), (13, 13)];
    let mut r: i64 = 5;
    for (x, y) in spots {
        s.add_object(x, y, r, white());
        r += 9;
    }
    s.apply_constraint();
    for b in s.objects.iter() {
        let lim = (300 - b.radius) as i128;
        assert!(dist2(b.position_current, center) <= lim * lim);
    }
}

#[test]
fn body_at_center_is_not_moved() {
    let b = VerletObject::new(600, 400, 20, white());
    let r = contain(&b, Vec2::new(600, 400), 300);
    assert_eq!(r, b);
}

#[test]
fn body_wider_than_arena_is_pinned_to_center() {
    let b = VerletObject::new(50, 0, 500, white());
    let r = contain(&b, Vec2::new(0, 0), 300);
    assert_eq!(r.position_current, Vec2::new(0, 0));
}

#[test]
fn two_overlapping_bodies_end_forty_apart() {
    let mut s = Solver::new(Vec2::new(0, 0), Vec2::new(0, 0), 1000, SUB_STEPS);
    s.add_object(0, 0, 20, white());
    s.add_object(10, 0, 20, white());
    s.solve_collisions();
    assert_eq!(s.objects[0].position_current, Vec2::new(-15, 0));
    assert_eq!(s.objects[1].position_current, Vec2::new(25, 0));
    assert_eq!(dist2(s.objects[0].position_current, s.objects[1].position_current), 1600);
}

#[test]
fn pair_correction_is_symmetric() {
    let a = VerletObject::new(100, 200, 30, white());
    let b = VerletObject::new(117, 191, 25, white());
    let (na, nb) = resolve_pair(&a, &b);
    let da = (na.position_current.x - 100, na.position_current.y - 200);
    let db = (nb.position_current.x - 117, nb.position_current.y - 191);
    assert_ne!(da, (0, 0));
    assert_eq!(da, (-db.0, -db.1));
    assert_eq!(na.position_current.x + nb.position_current.x, 217);
    assert_eq!(na.position_current.y + nb.position_current.y, 391);
    assert!(dist2(na.position_current, nb.position_current) > dist2(a.position_current, b.position_current));
}

#[test]
fn coincident_bodies_are_left_alone() {
    let a = VerletObject::new(10, 10, 30, white());
    let b = VerletObject::new(10, 10, 25, white());
    let (na, nb) = resolve_pair(&a, &b);
    assert_eq!(na, a);
    assert_eq!(nb, b);
}

#[test]
fn separate_bodies_are_left_alone() {
    let a = VerletObject::new(0, 0, 20, white());
    let b = VerletObject::new(40, 0, 20, white());
    let (na, nb) = resolve_pair(&a, &b);
    assert_eq!(na, a);
    assert_eq!(nb, b);
}

#[test]
fn repeated_collision_passes_remove_overlap() {
    let mut s = Solver::new(Vec2::new(0, 0), Vec2::new(0, 0), 1_000_000, SUB_STEPS);
    let spots = [(0, 0, 300), (100, 30, 250), (-80, 60, 200), (40, -90, 350), (10, 10, 150)];
    for (x, y, r) in spots {
        s.add_object(x, y, r, white());
    }
    for _ in 0..2000 {
        s.solve_collisions();
    }
    for i in 0..s.objects.len() {
        for k in (i + 1)..s.objects.len() {
            // truncated corrections stop once the overlap is a few units
            let m = (s.objects[i].radius + s.objects[k].radius - 4) as i128;
            assert!(dist2(s.objects[i].position_current, s.objects[k].position_current) >= m * m);
        }
    }
}

#[test]
fn resting_bodies_stay_put_without_gravity() {
    let mut s = Solver::new(Vec2::new(0, 0), Vec2::new(0, 0), 1000, 4);
    s.add_object(0, 0, 50, white());
    s.add_object(100, 0, 50, white());
    s.add_object(-300, 200, 10, white());
    let before: Vec<VerletObject> = s.objects.clone();
    s.update(16);
    assert_eq!(s.objects, before);
}

#[test]
fn dropped_body_settles_on_arena_floor() {
    let mut s = Solver::new(Vec2::new(0, 50), Vec2::new(0, 0), 1000, SUB_STEPS);
    s.add_object(0, 0, 100, white());
    for _ in 0..3000 {
        s.update(16);
    }
    let b = s.objects[0];
    assert_eq!(b.position_current.x, 0);
    assert_eq!(b.position_current.y, 900 + 50);
    s.apply_constraint();
    let b = s.objects[0];
    assert_eq!(b.position_current, Vec2::new(0, 900));
    assert_eq!(b.position_old, Vec2::new(0, 900));
}

#[test]
fn update_runs_all_sub_steps() {
    let mut s = Solver::new(Vec2::new(0, 1), Vec2::new(0, 0), 1_000_000, 4);
    s.add_object(0, 0, 10, white());
    s.update(8);
    // four sub-steps of length 2: displacements 4, 8, 12, 16
    assert_eq!(s.objects[0].position_current, Vec2::new(0, 40));
    assert_eq!(s.objects[0].position_old, Vec2::new(0, 24));
}

#[test]
fn integer_square_root_rounds_up() {
    assert_eq!(ceil_sqrt_u128(0), 0);
    assert_eq!(ceil_sqrt_u128(1), 1);
    assert_eq!(ceil_sqrt_u128(2), 2);
    assert_eq!(ceil_sqrt_u128(16), 4);
    assert_eq!(ceil_sqrt_u128(17), 5);
    assert_eq!(ceil_sqrt_u128(1 << 84), 1 << 42);
}

#[test]
fn scaling_truncates_toward_zero() {
    assert_eq!(scale_i128(7, 2, 3), 4);
    assert_eq!(scale_i128(-7, 2, 3), -4);
    assert_eq!(clamp_i128(5, 3), 3);
    assert_eq!(clamp_i128(-5, 3), -3);
    assert_eq!(clamp_i128(2, 3), 2);
}

#[test]
fn pixel_position_rounds_half_away_from_zero() {
    let b = VerletObject::new(96, -96, 4, white());
    assert_eq!(b.pixel_position(64), Some((2, -2)));
    let b = VerletObject::new(95, -95, 4, white());
    assert_eq!(b.pixel_position(64), Some((1, -1)));
    let b = VerletObject::new(64 * 40_000, 0, 4, white());
    assert_eq!(b.pixel_position(64), None);
}
