use banana_dash::car::{setup_car, Car};
use banana_dash::course::{Customer, Goal, Hazard, Merch, Obstacle};
use banana_dash::geometry::{Point, UNIT};
use banana_dash::interaction::{
    check_in_goal, collision_update_system, collision_update_system_hazards,
    detect_projectile_hit, detect_shoot_system, is_near, projectile_update, Projectile,
};

fn car_at(x: i64, y: i64, vx: i64, vy: i64) -> Car {
    let mut car = setup_car();
    car.pos = Point::new(x, y);
    car.vel = Point::new(vx, vy);
    car
}

#[test]
fn bounce_reverses_and_damps() {
    let mut car = car_at(0, 0, -10 * UNIT, 50 * UNIT);
    let walls = vec![Obstacle { pos: Point::new(-50 * UNIT, 0), bounce_dir: 1 }];
    assert!(collision_update_system(&mut car, &walls));
    // -0.9 * -10 + 0.15 * 80 = 21, moved once, then 21 * 0.6 and 50 * 0.3
    assert_eq!(car.pos, Point::new(21 * UNIT, 50 * UNIT));
    assert_eq!(car.vel, Point::new(12_600, 15 * UNIT));
}

#[test]
fn no_bounce_when_moving_away_or_far() {
    let walls = vec![Obstacle { pos: Point::new(-50 * UNIT, 0), bounce_dir: 1 }];
    let mut car = car_at(0, 0, 10 * UNIT, 50 * UNIT);
    let before = car;
    assert!(!collision_update_system(&mut car, &walls));
    assert_eq!(car, before);
    let mut far = car_at(0, 320 * UNIT, -10 * UNIT, 0);
    let before = far;
    assert!(!collision_update_system(&mut far, &walls));
    assert_eq!(far, before);
    let mut wide = car_at(50 * UNIT, 0, -10 * UNIT, 0);
    assert!(!collision_update_system(&mut wide, &walls));
}

#[test]
fn mirrored_walls_give_opposite_impulses() {
    let mut a = car_at(0, 0, -10 * UNIT, 40 * UNIT);
    let mut b = car_at(0, 0, 10 * UNIT, 40 * UNIT);
    let left = vec![Obstacle { pos: Point::new(-60 * UNIT, 5 * UNIT), bounce_dir: 1 }];
    let right = vec![Obstacle { pos: Point::new(60 * UNIT, 5 * UNIT), bounce_dir: -1 }];
    assert!(collision_update_system(&mut a, &left));
    assert!(collision_update_system(&mut b, &right));
    assert_eq!(a.vel.x, -b.vel.x);
    assert_eq!(a.vel.y, b.vel.y);
    assert_eq!(a.pos.x, -b.pos.x);
    let mut c = car_at(0, 0, -7_777, 40 * UNIT);
    let mut d = car_at(0, 0, 7_777, 40 * UNIT);
    collision_update_system(&mut c, &left);
    collision_update_system(&mut d, &right);
    assert_eq!(c.vel.x, -d.vel.x);
}

#[test]
fn hazard_within_radius_is_hit() {
    let car = car_at(0, 0, 0, 0);
    assert!(collision_update_system_hazards(&car, &vec![Hazard { pos: Point::new(224 * UNIT, 0) }]));
    assert!(!collision_update_system_hazards(&car, &vec![Hazard { pos: Point::new(225 * UNIT, 0) }]));
    assert!(!collision_update_system_hazards(&car, &vec![Hazard { pos: Point::new(160 * UNIT, 160 * UNIT) }]));
    assert!(!collision_update_system_hazards(&car, &Vec::new()));
}

#[test]
fn near_handles_distant_points() {
    assert!(!is_near(Point::new(i64::MIN, 0), Point::new(i64::MAX, 0), 10));
    assert!(is_near(Point::new(3, 4), Point::new(0, 0), 6));
    assert!(!is_near(Point::new(3, 4), Point::new(0, 0), 5));
}

#[test]
fn shooting_fires_sideways_and_spends_cargo() {
    let mut car = setup_car();
    let mut shots = Vec::new();
    detect_shoot_system(&mut car, &mut shots, true, true);
    assert_eq!(car.ammo.bananas, 8);
    assert_eq!(shots.len(), 2);
    assert_eq!(shots[0].vel, Point::new(100 * UNIT, 0));
    assert_eq!(shots[1].vel, Point::new(-100 * UNIT, 0));
    assert_eq!(shots[0].pos, car.pos);
    assert_eq!(shots[1].pos, car.pos);
    assert_eq!(shots[0].merch, Merch::Banana);
}

#[test]
fn shooting_with_no_cargo_does_nothing() {
    let mut car = setup_car();
    car.ammo.bananas = 1;
    let mut shots = Vec::new();
    detect_shoot_system(&mut car, &mut shots, true, true);
    assert_eq!(car.ammo.bananas, 0);
    assert_eq!(shots.len(), 1);
    detect_shoot_system(&mut car, &mut shots, true, false);
    assert_eq!(car.ammo.bananas, 0);
    assert_eq!(shots.len(), 1);
}

#[test]
fn projectiles_move_by_velocity() {
    let mut shots = vec![
        Projectile { pos: Point::new(1, 2), vel: Point::new(10, -20), merch: Merch::Banana },
        Projectile { pos: Point::new(0, 0), vel: Point::new(-5, 5), merch: Merch::Banana },
    ];
    projectile_update(&mut shots);
    assert_eq!(shots[0].pos, Point::new(11, -18));
    assert_eq!(shots[1].pos, Point::new(-5, 5));
}

#[test]
fn projectile_serves_one_customer_and_walls_stop_others() {
    let c = |x: i64| Customer { pos: Point::new(x * UNIT, 0), wants: Merch::Banana };
    let mut customers = vec![c(0), c(150), c(1000)];
    let mut shots = vec![
        Projectile { pos: Point::new(100 * UNIT, 0), vel: Point::new(0, 0), merch: Merch::Banana },
        Projectile { pos: Point::new(5000 * UNIT, 0), vel: Point::new(0, 0), merch: Merch::Banana },
        Projectile { pos: Point::new(9000 * UNIT, 0), vel: Point::new(0, 0), merch: Merch::Banana },
    ];
    let walls = vec![Obstacle { pos: Point::new(5050 * UNIT, 0), bounce_dir: 1 }];
    detect_projectile_hit(&mut shots, &mut customers, &walls);
    assert_eq!(customers, vec![c(150), c(1000)]);
    assert_eq!(shots.len(), 1);
    assert_eq!(shots[0].pos, Point::new(9000 * UNIT, 0));
}

#[test]
fn goal_needs_crossing_within_radius() {
    let goals = vec![Goal { pos: Point::new(0, 1000 * UNIT), radius: 300 * UNIT }];
    assert!(check_in_goal(&car_at(0, 1001 * UNIT, 0, 0), &goals));
    assert!(!check_in_goal(&car_at(0, 1000 * UNIT, 0, 0), &goals));
    assert!(!check_in_goal(&car_at(300 * UNIT, 2000 * UNIT, 0, 0), &goals));
    assert!(check_in_goal(&car_at(-299 * UNIT, 2000 * UNIT, 0, 0), &goals));
}

#[test]
fn two_projectiles_at_one_customer_are_both_used() {
    let mut customers = vec![Customer { pos: Point::new(0, 0), wants: Merch::Banana }];
    let mut shots = vec![
        Projectile { pos: Point::new(10 * UNIT, 0), vel: Point::new(0, 0), merch: Merch::Banana },
        Projectile { pos: Point::new(-10 * UNIT, 5 * UNIT), vel: Point::new(0, 0), merch: Merch::Banana },
    ];
    detect_projectile_hit(&mut shots, &mut customers, &Vec::new());
    assert!(customers.is_empty());
    assert!(shots.is_empty());
}

#[test]
fn second_projectile_serves_next_customer_in_reach() {
    let c = |x: i64| Customer { pos: Point::new(x * UNIT, 0), wants: Merch::Banana };
    let mut customers = vec![c(0), c(150), c(1000)];
    let mut shots = vec![
        Projectile { pos: Point::new(100 * UNIT, 0), vel: Point::new(0, 0), merch: Merch::Banana },
        Projectile { pos: Point::new(100 * UNIT, 0), vel: Point::new(0, 0), merch: Merch::Banana },
    ];
    detect_projectile_hit(&mut shots, &mut customers, &Vec::new());
    assert_eq!(customers, vec![c(1000)]);
    assert!(shots.is_empty());
}

#[test]
fn bounce_keeps_speed_below_cap() {
    let walls = vec![Obstacle { pos: Point::new(-50 * UNIT, 0), bounce_dir: 1 }];
    let mut car = car_at(0, 0, -80 * UNIT, 80 * UNIT);
    assert!(collision_update_system(&mut car, &walls));
    let n = (car.vel.x as i128).pow(2) + (car.vel.y as i128).pow(2);
    assert!(n <= (80 * UNIT as i128).pow(2));
    // -0.9 * -80 + 12 = 84, then 84 * 0.6 and 80 * 0.3
    assert_eq!(car.vel, Point::new(50_400, 24 * UNIT));
}
