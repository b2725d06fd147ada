use banana_dash::car::{setup_car, Steering, FACING_SCALE};
use banana_dash::course::{lv1_turns, setup_obstacles, Course, Customer, Goal, Merch, Obstacle};
use banana_dash::game::{
    draws_level, initial_setup, run_if_in_end_level, setup_save, AppState, Effect, GameWorld,
};
use banana_dash::geometry::{Point, UNIT};
use banana_dash::input::Inputs;

fn straight() -> Steering {
    Steering { facing: Point::new(0, FACING_SCALE), drift: Point::new(0, 0) }
}

fn playing(course: Course) -> GameWorld {
    let mut w = initial_setup();
    w.course = course;
    w.state = AppState::Game;
    w
}

fn empty_course() -> Course {
    Course { obstacles: Vec::new(), hazards: Vec::new(), customers: Vec::new(), goals: Vec::new() }
}

#[test]
fn start_key_begins_play() {
    let mut w = initial_setup();
    assert_eq!(w.state, AppState::StartLevel(0));
    assert_eq!(w.on_tick(&Inputs::none(), &straight()), Effect::Nothing);
    let mut input = Inputs::none();
    input.start = true;
    assert_eq!(w.on_tick(&input, &straight()), Effect::LevelStarted);
    assert_eq!(w.state, AppState::Game);
    assert!(!w.car.hard_mode);
    assert_eq!(w.car.frames_elapsed, 0);
}

#[test]
fn hard_start_key_sets_hard_mode() {
    let mut w = initial_setup();
    let mut input = Inputs::none();
    input.hard_start = true;
    assert_eq!(w.on_tick(&input, &straight()), Effect::LevelStarted);
    assert_eq!(w.state, AppState::Game);
    assert!(w.car.hard_mode);
}

#[test]
fn physics_and_interaction_idle_outside_play() {
    let mut input = Inputs::none();
    input.accelerate = true;
    input.steer_left = true;
    input.fire_left = true;
    input.fire_right = true;
    let states = [
        AppState::StartLevel(0),
        AppState::StartLevel(2),
        AppState::EndLevel { level: 0, did_win: false, did_finish: true, score: 9 },
    ];
    for state in states {
        let mut w = initial_setup();
        w.state = state;
        w.car.vel = Point::new(0, 5 * UNIT);
        let before = w.car;
        let customers = w.course.customers.len();
        w.on_tick(&input, &straight());
        assert_eq!(w.car.pos, before.pos);
        assert_eq!(w.car.vel, before.vel);
        assert_eq!(w.car.ammo, before.ammo);
        assert!(w.projectiles.is_empty());
        assert_eq!(w.course.customers.len(), customers);
        assert_eq!(w.state, state);
    }
    let mut w = initial_setup();
    w.state = AppState::Game;
    w.on_tick(&input, &straight());
    assert_ne!(w.car.pos, initial_setup().car.pos);
    assert_eq!(w.car.ammo.bananas, 8);
}

#[test]
fn play_counts_ticks() {
    let mut w = playing(empty_course());
    for _ in 0..3 {
        w.on_tick(&Inputs::none(), &straight());
    }
    assert_eq!(w.car.frames_elapsed, 3);
}

#[test]
fn hard_mode_wall_contact_is_fatal() {
    let wall = Obstacle { pos: Point::new(50 * UNIT, 0), bounce_dir: -1 };
    let mut course = empty_course();
    course.obstacles.push(wall);
    let mut w = playing(course);
    w.car.hard_mode = true;
    w.car.vel = Point::new(10 * UNIT, 0);
    assert_eq!(w.on_tick(&Inputs::none(), &straight()), Effect::LevelEnded);
    assert_eq!(w.state, AppState::EndLevel { level: 0, did_win: false, did_finish: false, score: 1 });
    assert!(run_if_in_end_level(&w.state));
    assert!(w.save.scores.is_empty());
}

#[test]
fn normal_mode_wall_contact_only_bounces() {
    let wall = Obstacle { pos: Point::new(150 * UNIT, 0), bounce_dir: -1 };
    let mut course = empty_course();
    course.obstacles.push(wall);
    let mut w = playing(course);
    w.car.vel = Point::new(10 * UNIT, 0);
    assert_eq!(w.on_tick(&Inputs::none(), &straight()), Effect::Nothing);
    assert_eq!(w.state, AppState::Game);
    assert!(w.car.vel.x < 0);
}

#[test]
fn cone_contact_is_fatal_in_any_mode() {
    let mut course = empty_course();
    course.hazards.push(banana_dash::course::Hazard { pos: Point::new(100 * UNIT, 100 * UNIT) });
    let mut w = playing(course);
    assert_eq!(w.on_tick(&Inputs::none(), &straight()), Effect::LevelEnded);
    assert_eq!(w.state, AppState::EndLevel { level: 0, did_win: false, did_finish: false, score: 1 });
}

fn delivery_course(customers: usize) -> Course {
    let mut course = empty_course();
    for i in 0..customers {
        course.customers.push(Customer {
            pos: Point::new(100 * UNIT + 300 * UNIT, (i as i64) * 1000 * UNIT),
            wants: Merch::Banana,
        });
    }
    course.goals.push(Goal { pos: Point::new(100 * UNIT, 5000 * UNIT), radius: 300 * UNIT });
    course
}

fn run_to_goal(w: &mut GameWorld, serve: usize) -> Effect {
    // each customer stands 300 to the right of the car's path, 1000 apart
    let mut served = 0;
    for _ in 0..10_000 {
        let mut input = Inputs::none();
        let y = w.car.pos.y;
        if served < serve && y >= (served as i64) * 1000 * UNIT {
            input.fire_right = true;
            served += 1;
        } else {
            input.accelerate = true;
        }
        let effect = w.on_tick(&input, &straight());
        if effect != Effect::Nothing {
            return effect;
        }
    }
    Effect::Nothing
}

#[test]
fn serving_every_customer_wins() {
    let mut w = playing(delivery_course(3));
    w.car.pos = Point::new(100 * UNIT, -1);
    assert_eq!(run_to_goal(&mut w, 3), Effect::LevelEnded);
    assert!(w.course.customers.is_empty());
    match w.state {
        AppState::EndLevel { did_win, did_finish, score, .. } => {
            assert!(did_win);
            assert!(did_finish);
            assert_eq!(w.save.scores, vec![score]);
            assert!(score > 0);
        }
        _ => panic!("level did not end"),
    }
    assert_eq!(w.car.ammo.bananas, 7);
}

#[test]
fn unserved_customer_finishes_without_win() {
    let mut w = playing(delivery_course(3));
    w.car.pos = Point::new(100 * UNIT, -1);
    assert_eq!(run_to_goal(&mut w, 2), Effect::LevelEnded);
    assert_eq!(w.course.customers.len(), 1);
    match w.state {
        AppState::EndLevel { did_win, did_finish, .. } => {
            assert!(!did_win);
            assert!(did_finish);
        }
        _ => panic!("level did not end"),
    }
    assert!(w.save.scores.is_empty());
}

#[test]
fn restart_lays_out_a_fresh_level() {
    let mut w = playing(empty_course());
    w.car.pos = Point::new(0, 0);
    w.state = AppState::EndLevel { level: 0, did_win: true, did_finish: true, score: 40 };
    w.save.scores.push(40);
    assert_eq!(w.on_tick(&Inputs::none(), &straight()), Effect::Nothing);
    let mut input = Inputs::none();
    input.restart = true;
    assert_eq!(w.on_tick(&input, &straight()), Effect::LevelReset);
    assert_eq!(w.state, AppState::StartLevel(0));
    assert_eq!(w.car, setup_car());
    let fresh = setup_obstacles(&lv1_turns());
    assert_eq!(w.course.obstacles, fresh.obstacles);
    assert_eq!(w.course.hazards, fresh.hazards);
    assert_eq!(w.course.customers, fresh.customers);
    assert_eq!(w.course.goals, fresh.goals);
    assert_eq!(w.course.customers.len(), 10);
    assert_eq!(w.save.scores, vec![40]);
}

#[test]
fn scores_are_shown_best_first() {
    let mut save = setup_save();
    for s in [3, 7, 1, 9] {
        save.push_score(s);
    }
    assert_eq!(save.best_scores(), vec![9, 7, 3, 1]);
    assert_eq!(save.scores, vec![9, 7, 3, 1]);
}

#[test]
fn at_most_five_scores_are_shown() {
    let mut save = setup_save();
    for s in [4, 4, 12, 0, 8, 15, 2] {
        save.push_score(s);
    }
    assert_eq!(save.best_scores(), vec![15, 12, 8, 4, 4]);
    assert_eq!(save.scores.len(), 7);
    let mut empty = setup_save();
    assert!(empty.best_scores().is_empty());
}

#[test]
fn level_is_drawn_in_play_first_start_and_end() {
    assert!(draws_level(&AppState::Game));
    assert!(draws_level(&AppState::StartLevel(0)));
    assert!(!draws_level(&AppState::StartLevel(1)));
    assert!(draws_level(&AppState::EndLevel { level: 0, did_win: false, did_finish: false, score: 0 }));
    assert!(!run_if_in_end_level(&AppState::Game));
}
