use banana_dash::car::{setup_car, sprite_movement, turn_direction, CarSprite, Steering, FACING_SCALE};
use banana_dash::geometry::{isqrt, Point, UNIT};
use banana_dash::input::Inputs;

fn no_steering() -> Steering {
    Steering { facing: Point::new(0, FACING_SCALE), drift: Point::new(0, 0) }
}

#[test]
fn resting_car_without_input_stays_put() {
    let mut car = setup_car();
    let before = car;
    let steering = Steering { facing: Point::new(5, 5), drift: Point::new(123, -77) };
    let sprite = sprite_movement(&mut car, &Inputs::none(), &steering);
    assert_eq!(car.vel, Point::new(0, 0));
    assert_eq!(car.pos, before.pos);
    assert_eq!(car.direction, Point::new(0, FACING_SCALE));
    assert_eq!(sprite, CarSprite::Center);
}

#[test]
fn throttle_from_rest_uses_tenth_multiplier() {
    let mut car = setup_car();
    let mut input = Inputs::none();
    input.accelerate = true;
    sprite_movement(&mut car, &input, &no_steering());
    // 0.7 * 0.1 world units
    assert_eq!(car.vel, Point::new(0, 70));
    assert_eq!(car.pos, Point::new(100 * UNIT, 70));
}

#[test]
fn throttle_at_speed_uses_full_multiplier() {
    let mut car = setup_car();
    car.vel = Point::new(0, 20 * UNIT);
    let mut input = Inputs::none();
    input.accelerate = true;
    sprite_movement(&mut car, &input, &no_steering());
    // 0.7 * 1.0 world units, minus no drift
    assert_eq!(car.vel, Point::new(0, 20 * UNIT + 700));
}

#[test]
fn speed_is_capped_at_top_speed() {
    let mut car = setup_car();
    car.vel = Point::new(0, 80 * UNIT);
    let mut input = Inputs::none();
    input.accelerate = true;
    sprite_movement(&mut car, &input, &no_steering());
    assert_eq!(car.vel, Point::new(0, 80 * UNIT));
    let mut car = setup_car();
    car.vel = Point::new(60 * UNIT, 60 * UNIT);
    car.direction = Point::new(707_107, 707_107);
    let steering = Steering { facing: car.direction, drift: Point::new(0, 0) };
    for _ in 0..50 {
        sprite_movement(&mut car, &input, &steering);
        let n = (car.vel.x as i128) * (car.vel.x as i128) + (car.vel.y as i128) * (car.vel.y as i128);
        assert!(n <= (80 * UNIT as i128) * (80 * UNIT as i128));
    }
}

#[test]
fn moving_car_turns_and_shows_steering_sprite() {
    let mut car = setup_car();
    car.vel = Point::new(0, 10 * UNIT);
    let mut input = Inputs::none();
    input.steer_left = true;
    let steering = Steering { facing: Point::new(-12_000, 999_928), drift: Point::new(1, 2) };
    let sprite = sprite_movement(&mut car, &input, &steering);
    assert_eq!(sprite, CarSprite::Left);
    assert_eq!(car.direction, Point::new(-12_000, 999_928));
    assert_eq!(car.vel, Point::new(-1, 10 * UNIT - 2));
    input.steer_left = false;
    input.steer_right = true;
    assert_eq!(sprite_movement(&mut car, &input, &steering), CarSprite::Right);
}

#[test]
fn stationary_car_cannot_turn() {
    let mut car = setup_car();
    let mut input = Inputs::none();
    input.steer_right = true;
    let steering = Steering { facing: Point::new(FACING_SCALE, 0), drift: Point::new(0, 0) };
    sprite_movement(&mut car, &input, &steering);
    assert_eq!(car.direction, Point::new(0, FACING_SCALE));
}

#[test]
fn integer_square_root() {
    assert_eq!(isqrt(0), 0);
    assert_eq!(isqrt(15), 3);
    assert_eq!(isqrt(16), 4);
    assert_eq!(isqrt(80_700 * 80_700), 80_700);
}

#[test]
fn left_steering_wins_over_right() {
    let mut input = Inputs::none();
    assert_eq!(turn_direction(&input), 0);
    input.steer_right = true;
    assert_eq!(turn_direction(&input), -1);
    input.steer_left = true;
    assert_eq!(turn_direction(&input), 1);
}
