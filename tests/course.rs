use banana_dash::course::{
    setup_obstacles, lv1_turns, CourseStep, Customer, Goal, Hazard, Merch, Obstacle, Placement,
};
use banana_dash::geometry::{Point, UNIT};

fn p(x: i64, y: i64) -> Point {
    Point::new(x * UNIT, y * UNIT)
}

#[test]
fn level_one_has_expected_shape() {
    let steps = lv1_turns();
    assert_eq!(steps.len(), 161);
    let rows: u64 = steps.iter().map(|s| s.count).sum();
    assert_eq!(rows, 524);
    let course = setup_obstacles(&steps);
    assert_eq!(course.obstacles.len(), 1048);
    assert_eq!(course.customers.len(), 10);
    assert_eq!(course.hazards.len(), 1);
    assert_eq!(course.goals.len(), 1);
}

#[test]
fn level_one_positions() {
    let course = setup_obstacles(&lv1_turns());
    assert_eq!(course.obstacles[0], Obstacle { pos: p(-400, -100), bounce_dir: 1 });
    assert_eq!(course.obstacles[1], Obstacle { pos: p(400, -100), bounce_dir: -1 });
    assert_eq!(course.obstacles[1046], Obstacle { pos: p(1930, 83580), bounce_dir: -1 });
    assert_eq!(course.obstacles[1047], Obstacle { pos: p(-430, 83580), bounce_dir: 1 });
    assert_eq!(course.hazards[0], Hazard { pos: p(600, 10300) });
    assert_eq!(course.goals[0], Goal { pos: p(750, 66140), radius: 300 * UNIT });
    let expected = [
        (-500, 6780),
        (1100, 13980),
        (-800, 24700),
        (800, 24700),
        (-800, 26300),
        (800, 26300),
        (-950, 36060),
        (1950, 42620),
        (250, 59100),
        (1250, 59100),
    ];
    for (c, (x, y)) in course.customers.iter().zip(expected.iter()) {
        assert_eq!(*c, Customer { pos: p(*x, *y), wants: Merch::Banana });
    }
}

#[test]
fn rows_shift_and_mirror_about_center() {
    let steps = vec![
        CourseStep {
            count: 2,
            shift: 30 * UNIT,
            half_gap: 400 * UNIT,
            placements: vec![Placement::Customer { xpos: -500 * UNIT }],
        },
        CourseStep {
            count: 1,
            shift: 0,
            half_gap: 100 * UNIT,
            placements: vec![Placement::Goal { xpos: 10 * UNIT }, Placement::HangryCone { xpos: -10 * UNIT }],
        },
    ];
    let course = setup_obstacles(&steps);
    assert_eq!(
        course.obstacles,
        vec![
            Obstacle { pos: p(-370, -100), bounce_dir: 1 },
            Obstacle { pos: p(430, -100), bounce_dir: -1 },
            Obstacle { pos: p(-340, 60), bounce_dir: 1 },
            Obstacle { pos: p(460, 60), bounce_dir: -1 },
            Obstacle { pos: p(-40, 220), bounce_dir: 1 },
            Obstacle { pos: p(160, 220), bounce_dir: -1 },
        ]
    );
    assert_eq!(course.customers, vec![Customer { pos: p(-500, -100), wants: Merch::Banana }]);
    assert_eq!(course.goals, vec![Goal { pos: p(70, 220), radius: 300 * UNIT }]);
    assert_eq!(course.hazards, vec![Hazard { pos: p(50, 220) }]);
}

#[test]
fn empty_step_list_gives_empty_course() {
    let course = setup_obstacles(&Vec::new());
    assert!(course.obstacles.is_empty());
    assert!(course.customers.is_empty());
    assert!(course.goals.is_empty());
    assert!(course.hazards.is_empty());
}

#[test]
fn layout_is_deterministic() {
    let a = setup_obstacles(&lv1_turns());
    let b = setup_obstacles(&lv1_turns());
    assert_eq!(a.obstacles, b.obstacles);
    assert_eq!(a.customers, b.customers);
}
