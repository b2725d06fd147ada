//! Course layout: the declarative steps of a level and the generator that
//! turns them into walls, hazards, customers and goals.
use vstd::prelude::*;
use crate::geometry::{Point, UNIT};

verus! {

/// Longitudinal distance between two rows of wall.
pub const ROW_HEIGHT: i64 = 160 * UNIT;

/// Longitudinal coordinate of the first row of a course.
pub const COURSE_START_Y: i64 = -100 * UNIT;

/// Capture radius of every goal.
pub const GOAL_RADIUS: i64 = 300 * UNIT;

/// Largest magnitude of a step's shift, half gap or placement offset.
pub const MAX_OFFSET: i64 = 100_000 * UNIT;

/// Largest number of wall rows in one course.
pub const MAX_ROWS: u64 = 1_000_000;

/// A kind of cargo: what a customer wants and a projectile carries.
#[derive(Clone, Copy, Debug, PartialEq, Eq, Structural)]
pub enum Merch {
    Banana,
}

/// Something placed at a step's position, offset laterally by `xpos`.
#[derive(Clone, Copy, Debug, PartialEq, Eq, Structural)]
pub enum Placement {
    Customer { xpos: i64 },
    Goal { xpos: i64 },
    HangryCone { xpos: i64 },
}

/// One unit of layout: `count` rows of wall, each shifted laterally by
/// `shift` from the one before, with walls `half_gap` either side.
#[derive(Clone, Debug)]
pub struct CourseStep {
    pub count: u64,
    pub shift: i64,
    pub half_gap: i64,
    pub placements: Vec<Placement>,
}

/// What a step says, as plain values.
pub struct StepView {
    pub count: u64,
    pub shift: i64,
    pub half_gap: i64,
    pub placements: Seq<Placement>,
}

impl View for CourseStep {
    type V = StepView;

    open spec fn view(&self) -> StepView {
        StepView {
            count: self.count,
            shift: self.shift,
            half_gap: self.half_gap,
            placements: self.placements@,
        }
    }
}

/// The views of a list of steps.
pub open spec fn views(steps: Seq<CourseStep>) -> Seq<StepView> {
    steps.map_values(|s: CourseStep| s@)
}

/// A wall segment; `bounce_dir` is the lateral sign it pushes the car to.
#[derive(Clone, Copy, Debug, PartialEq, Eq, Structural)]
pub struct Obstacle {
    pub pos: Point,
    pub bounce_dir: i64,
}

/// A cone whose touch ends the level.
#[derive(Clone, Copy, Debug, PartialEq, Eq, Structural)]
pub struct Hazard {
    pub pos: Point,
}

#[derive(Clone, Copy, Debug, PartialEq, Eq, Structural)]
pub struct Customer {
    pub pos: Point,
    pub wants: Merch,
}

#[derive(Clone, Copy, Debug, PartialEq, Eq, Structural)]
pub struct Goal {
    pub pos: Point,
    pub radius: i64,
}

/// The entities of one generated level.
#[derive(Clone, Debug)]
pub struct Course {
    pub obstacles: Vec<Obstacle>,
    pub hazards: Vec<Hazard>,
    pub customers: Vec<Customer>,
    pub goals: Vec<Goal>,
}

pub struct CourseModel {
    pub obstacles: Seq<Obstacle>,
    pub hazards: Seq<Hazard>,
    pub customers: Seq<Customer>,
    pub goals: Seq<Goal>,
}

impl Course {
    pub open spec fn model(&self) -> CourseModel {
        CourseModel {
            obstacles: self.obstacles@,
            hazards: self.hazards@,
            customers: self.customers@,
            goals: self.goals@,
        }
    }
}

pub open spec fn sign_of(v: int) -> i64 {
    if v < 0 {
        -1i64
    } else {
        1i64
    }
}

/// The two walls of the row whose lateral accumulator is `cx`.
pub open spec fn row_pair(cx: int, y: int, shift: int, gap: int) -> Seq<Obstacle> {
    seq![
        Obstacle { pos: Point { x: (cx + shift - gap) as i64, y: y as i64 }, bounce_dir: sign_of(gap) },
        Obstacle { pos: Point { x: (cx + shift + gap) as i64, y: y as i64 }, bounce_dir: (-sign_of(gap)) as i64 },
    ]
}

/// The walls of the first `k` rows of a step that starts at `(cx, y)`.
pub open spec fn step_rows(k: nat, cx: int, y: int, shift: int, gap: int) -> Seq<Obstacle>
    decreases k,
{
    if k == 0 {
        Seq::empty()
    } else {
        step_rows((k - 1) as nat, cx, y, shift, gap) + row_pair(
            cx + (k - 1) * shift,
            y + (k - 1) * ROW_HEIGHT,
            shift,
            gap,
        )
    }
}

pub open spec fn placed_customers(ps: Seq<Placement>, cx: int, y: int) -> Seq<Customer>
    decreases ps.len(),
{
    if ps.len() == 0 {
        Seq::empty()
    } else {
        placed_customers(ps.drop_last(), cx, y) + match ps.last() {
            Placement::Customer { xpos } => seq![
                Customer { pos: Point { x: (cx + xpos) as i64, y: y as i64 }, wants: Merch::Banana },
            ],
            _ => Seq::empty(),
        }
    }
}

pub open spec fn placed_goals(ps: Seq<Placement>, cx: int, y: int) -> Seq<Goal>
    decreases ps.len(),
{
    if ps.len() == 0 {
        Seq::empty()
    } else {
        placed_goals(ps.drop_last(), cx, y) + match ps.last() {
            Placement::Goal { xpos } => seq![
                Goal { pos: Point { x: (cx + xpos) as i64, y: y as i64 }, radius: GOAL_RADIUS },
            ],
            _ => Seq::empty(),
        }
    }
}

pub open spec fn placed_hazards(ps: Seq<Placement>, cx: int, y: int) -> Seq<Hazard>
    decreases ps.len(),
{
    if ps.len() == 0 {
        Seq::empty()
    } else {
        placed_hazards(ps.drop_last(), cx, y) + match ps.last() {
            Placement::HangryCone { xpos } => seq![
                Hazard { pos: Point { x: (cx + xpos) as i64, y: y as i64 } },
            ],
            _ => Seq::empty(),
        }
    }
}

/// Wall rows in the first `n` steps.
pub open spec fn total_rows(steps: Seq<StepView>, n: nat) -> nat
    decreases n,
{
    if n == 0 || n > steps.len() {
        0
    } else {
        (total_rows(steps, (n - 1) as nat) + steps[n - 1].count) as nat
    }
}

/// Lateral accumulator and longitudinal position after the first `n` steps.
pub open spec fn cursor(steps: Seq<StepView>, n: nat) -> (int, int)
    decreases n,
{
    if n == 0 || n > steps.len() {
        (0, COURSE_START_Y as int)
    } else {
        let (cx, y) = cursor(steps, (n - 1) as nat);
        let s = steps[n - 1];
        (cx + s.count * s.shift, y + s.count * ROW_HEIGHT)
    }
}

/// The entities generated by the first `n` steps.
pub open spec fn course_model(steps: Seq<StepView>, n: nat) -> CourseModel
    decreases n,
{
    if n == 0 || n > steps.len() {
        CourseModel {
            obstacles: Seq::empty(),
            hazards: Seq::empty(),
            customers: Seq::empty(),
            goals: Seq::empty(),
        }
    } else {
        let prev = course_model(steps, (n - 1) as nat);
        let (cx, y) = cursor(steps, (n - 1) as nat);
        let s = steps[n - 1];
        CourseModel {
            obstacles: prev.obstacles + step_rows(s.count as nat, cx, y, s.shift as int, s.half_gap as int),
            hazards: prev.hazards + placed_hazards(s.placements, cx, y),
            customers: prev.customers + placed_customers(s.placements, cx, y),
            goals: prev.goals + placed_goals(s.placements, cx, y),
        }
    }
}

pub open spec fn placement_offset(p: Placement) -> int {
    match p {
        Placement::Customer { xpos } => xpos as int,
        Placement::Goal { xpos } => xpos as int,
        Placement::HangryCone { xpos } => xpos as int,
    }
}

pub open spec fn step_fits(s: StepView) -> bool {
    &&& -MAX_OFFSET <= s.shift <= MAX_OFFSET
    &&& -MAX_OFFSET <= s.half_gap <= MAX_OFFSET
    &&& forall|j: int|
        0 <= j < s.placements.len() ==> -MAX_OFFSET <= #[trigger] placement_offset(s.placements[j])
            <= MAX_OFFSET
}

/// A step list small enough for every generated position to lie in the world.
pub open spec fn steps_fit(steps: Seq<StepView>) -> bool {
    &&& forall|i: int| 0 <= i < steps.len() ==> #[trigger] step_fits(steps[i])
    &&& total_rows(steps, steps.len()) <= MAX_ROWS
}

proof fn lemma_total_rows_monotone(steps: Seq<StepView>, i: nat, n: nat)
    requires
        i <= n <= steps.len(),
    ensures
        total_rows(steps, i) <= total_rows(steps, n),
    decreases n - i,
{
    if i < n {
        lemma_total_rows_monotone(steps, i, (n - 1) as nat);
    }
}

proof fn lemma_offset_bound(k: int, shift: int)
    requires
        0 <= k,
        -MAX_OFFSET <= shift <= MAX_OFFSET,
    ensures
        -(k * MAX_OFFSET) <= k * shift <= k * MAX_OFFSET,
{
    assert(-(k * MAX_OFFSET) <= k * shift <= k * MAX_OFFSET) by (nonlinear_arith)
        requires
            0 <= k,
            -MAX_OFFSET <= shift <= MAX_OFFSET,
    ;
}

proof fn lemma_rows_scaled(r: int, c: int)
    requires
        0 <= r <= MAX_ROWS,
        0 <= c,
    ensures
        0 <= r * c <= MAX_ROWS * c,
{
    assert(0 <= r * c <= MAX_ROWS * c) by (nonlinear_arith)
        requires
            0 <= r <= MAX_ROWS,
            0 <= c,
    ;
}

/// Emits the customers, goals and hazards of one step's placements.
fn place_step(
    placements: &Vec<Placement>,
    cx: i64,
    y: i64,
    customers: &mut Vec<Customer>,
    goals: &mut Vec<Goal>,
    hazards: &mut Vec<Hazard>,
)
    requires
        -400_000_000_000_000 <= cx <= 400_000_000_000_000,
        forall|j: int|
            0 <= j < placements@.len() ==> -MAX_OFFSET <= #[trigger] placement_offset(placements@[j])
                <= MAX_OFFSET,
    ensures
        final(customers)@ == old(customers)@ + placed_customers(placements@, cx as int, y as int),
        final(goals)@ == old(goals)@ + placed_goals(placements@, cx as int, y as int),
        final(hazards)@ == old(hazards)@ + placed_hazards(placements@, cx as int, y as int),
{
    let ghost ps = placements@;
    let mut j: usize = 0;
    while j < placements.len()
        invariant
            ps == placements@,
            j <= ps.len(),
            -400_000_000_000_000 <= cx <= 400_000_000_000_000,
            forall|i: int|
                0 <= i < ps.len() ==> -MAX_OFFSET <= #[trigger] placement_offset(ps[i]) <= MAX_OFFSET,
            customers@ == old(customers)@ + placed_customers(ps.take(j as int), cx as int, y as int),
            goals@ == old(goals)@ + placed_goals(ps.take(j as int), cx as int, y as int),
            hazards@ == old(hazards)@ + placed_hazards(ps.take(j as int), cx as int, y as int),
        decreases ps.len() - j,
    {
        let p = placements[j];
        assert(ps.take(j + 1).drop_last() =~= ps.take(j as int));
        assert(ps.take(j + 1).last() == p);
        assert(-MAX_OFFSET <= placement_offset(ps[j as int]) <= MAX_OFFSET);
        match p {
            Placement::Customer { xpos } => {
                customers.push(Customer { pos: Point { x: cx + xpos, y }, wants: Merch::Banana });
            },
            Placement::Goal { xpos } => {
                goals.push(Goal { pos: Point { x: cx + xpos, y }, radius: GOAL_RADIUS });
            },
            Placement::HangryCone { xpos } => {
                hazards.push(Hazard { pos: Point { x: cx + xpos, y } });
            },
        }
        j = j + 1;
    }
    assert(ps.take(ps.len() as int) =~= ps);
}

/// Builds every entity of a level from its step list, in longitudinal order.
pub fn setup_obstacles(steps: &Vec<CourseStep>) -> (r: Course)
    requires
        steps_fit(views(steps@)),
    ensures
        r.model() == course_model(views(steps@), steps@.len()),
{
    let ghost ss = views(steps@);
    let mut course = Course {
        obstacles: Vec::new(),
        hazards: Vec::new(),
        customers: Vec::new(),
        goals: Vec::new(),
    };
    let mut cx: i64 = 0;
    let mut y: i64 = COURSE_START_Y;
    let mut i: usize = 0;
    while i < steps.len()
        invariant
            ss == views(steps@),
            ss.len() == steps@.len(),
            steps_fit(ss),
            i <= ss.len(),
            (cx as int, y as int) == cursor(ss, i as nat),
            -((total_rows(ss, i as nat) as int) * MAX_OFFSET) <= cx <= (total_rows(ss, i as nat) as int)
                * MAX_OFFSET,
            y == COURSE_START_Y + total_rows(ss, i as nat) * ROW_HEIGHT,
            course.model() == course_model(ss, i as nat),
        decreases ss.len() - i,
    {
        let step = &steps[i];
        assert(steps@[i as int]@ == ss[i as int]);
        assert(step.placements@ == ss[i as int].placements);
        assert(step.count == ss[i as int].count && step.shift == ss[i as int].shift);
        assert(step_fits(ss[i as int]));
        proof {
            lemma_total_rows_monotone(ss, (i + 1) as nat, ss.len());
        }
        let ghost rows0: int = total_rows(ss, i as nat) as int;
        assert(rows0 + step.count <= MAX_ROWS);
        let ghost obs0 = course.obstacles@;
        let ghost prev = course.model();
        proof {
            lemma_rows_scaled(rows0, MAX_OFFSET as int);
            assert(-(rows0 * MAX_OFFSET) <= cx <= rows0 * MAX_OFFSET);
            assert(rows0 * MAX_OFFSET <= MAX_ROWS * MAX_OFFSET);
            assert(MAX_ROWS * MAX_OFFSET == 100_000_000_000_000);
        }
        place_step(&step.placements, cx, y, &mut course.customers, &mut course.goals, &mut course.hazards);
        let ghost placed = (course.customers@, course.goals@, course.hazards@);
        let ghost cx0: int = cx as int;
        let ghost y0: int = y as int;
        let mut k: u64 = 0;
        while k < step.count
            invariant
                step@ == ss[i as int],
                step_fits(step@),
                rows0 + step.count <= MAX_ROWS,
                0 <= rows0,
                -(rows0 * MAX_OFFSET) <= cx0 <= rows0 * MAX_OFFSET,
                y0 == COURSE_START_Y + rows0 * ROW_HEIGHT,
                k <= step.count,
                placed == (course.customers@, course.goals@, course.hazards@),
                cx == cx0 + k * step.shift,
                y == y0 + k * ROW_HEIGHT,
                course.obstacles@ == obs0 + step_rows(
                    k as nat,
                    cx0,
                    y0,
                    step.shift as int,
                    step.half_gap as int,
                ),
            decreases step.count - k,
        {
            proof {
                lemma_offset_bound(k as int, step.shift as int);
                lemma_offset_bound(k as int, ROW_HEIGHT as int);
                lemma_rows_scaled(rows0 + k, MAX_OFFSET as int);
                lemma_rows_scaled(rows0 + k, ROW_HEIGHT as int);
                assert((rows0 + k) * MAX_OFFSET == rows0 * MAX_OFFSET + k * MAX_OFFSET)
                    by (nonlinear_arith);
                assert((rows0 + k) * ROW_HEIGHT == rows0 * ROW_HEIGHT + k * ROW_HEIGHT)
                    by (nonlinear_arith);
                assert(-((rows0 + k) * MAX_OFFSET) <= cx <= (rows0 + k) * MAX_OFFSET);
                assert((rows0 + k) * MAX_OFFSET <= MAX_ROWS * MAX_OFFSET);
            }
            let dir: i64 = if step.half_gap < 0 {
                -1
            } else {
                1
            };
            course.obstacles.push(
                Obstacle { pos: Point { x: cx + step.shift - step.half_gap, y }, bounce_dir: dir },
            );
            course.obstacles.push(
                Obstacle { pos: Point { x: cx + step.shift + step.half_gap, y }, bounce_dir: -dir },
            );
            assert(course.obstacles@ == obs0 + step_rows((k + 1) as nat, cx0, y0, step.shift as int, step.half_gap as int));
            cx = cx + step.shift;
            y = y + ROW_HEIGHT;
            k = k + 1;
            assert(cx == cx0 + k * step.shift) by (nonlinear_arith)
                requires
                    cx == cx0 + (k - 1) * step.shift + step.shift,
            ;
            assert(y == y0 + k * ROW_HEIGHT) by (nonlinear_arith)
                requires
                    y == y0 + (k - 1) * ROW_HEIGHT + ROW_HEIGHT,
            ;
        }
        proof {
            lemma_offset_bound(step.count as int, step.shift as int);
            assert((rows0 + step.count) * MAX_OFFSET == rows0 * MAX_OFFSET + step.count * MAX_OFFSET)
                by (nonlinear_arith);
            assert(total_rows(ss, (i + 1) as nat) == rows0 + step.count);
            let s = ss[i as int];
            assert(course.obstacles@ == prev.obstacles + step_rows(s.count as nat, cx0, y0, s.shift as int, s.half_gap as int));
            assert(course.customers@ == prev.customers + placed_customers(s.placements, cx0, y0));
            assert(course.goals@ == prev.goals + placed_goals(s.placements, cx0, y0));
            assert(course.hazards@ == prev.hazards + placed_hazards(s.placements, cx0, y0));
            assert(cursor(ss, i as nat) == (cx0, y0));
            assert(-((rows0 + step.count) * MAX_OFFSET) <= cx <= (rows0 + step.count) * MAX_OFFSET);
            assert((rows0 + step.count) * ROW_HEIGHT == rows0 * ROW_HEIGHT + step.count * ROW_HEIGHT)
                by (nonlinear_arith);
        }
        i = i + 1;
    }
    course
}

/// Number of customers among the placements.
pub open spec fn n_customers(ps: Seq<Placement>) -> nat
    decreases ps.len(),
{
    if ps.len() == 0 {
        0
    } else {
        n_customers(ps.drop_last()) + if ps.last() is Customer {
            1nat
        } else {
            0nat
        }
    }
}

pub open spec fn n_goals(ps: Seq<Placement>) -> nat
    decreases ps.len(),
{
    if ps.len() == 0 {
        0
    } else {
        n_goals(ps.drop_last()) + if ps.last() is Goal {
            1nat
        } else {
            0nat
        }
    }
}

pub open spec fn n_hazards(ps: Seq<Placement>) -> nat
    decreases ps.len(),
{
    if ps.len() == 0 {
        0
    } else {
        n_hazards(ps.drop_last()) + if ps.last() is HangryCone {
            1nat
        } else {
            0nat
        }
    }
}

proof fn lemma_placed_lens(ps: Seq<Placement>, cx: int, y: int)
    ensures
        placed_customers(ps, cx, y).len() == n_customers(ps),
        placed_goals(ps, cx, y).len() == n_goals(ps),
        placed_hazards(ps, cx, y).len() == n_hazards(ps),
    decreases ps.len(),
{
    if ps.len() > 0 {
        lemma_placed_lens(ps.drop_last(), cx, y);
    }
}

proof fn lemma_course_model_push(steps: Seq<StepView>, x: StepView, n: nat)
    requires
        n <= steps.len(),
    ensures
        course_model(steps.push(x), n) == course_model(steps, n),
        cursor(steps.push(x), n) == cursor(steps, n),
    decreases n,
{
    if n > 0 {
        lemma_course_model_push(steps, x, (n - 1) as nat);
        assert(steps.push(x)[n - 1] == steps[n - 1]);
    }
}

/// How many customers, goals and cones a step list lays out.
#[verifier::opaque]
pub open spec fn layout_counts(steps: Seq<StepView>) -> (nat, nat, nat) {
    let m = course_model(steps, steps.len());
    (m.customers.len(), m.goals.len(), m.hazards.len())
}

/// Placements holding just `p`.
fn single(p: Placement) -> (v: Vec<Placement>)
    ensures
        v@ == seq![p],
        n_customers(v@) == if p is Customer { 1nat } else { 0nat },
        n_goals(v@) == if p is Goal { 1nat } else { 0nat },
        n_hazards(v@) == if p is HangryCone { 1nat } else { 0nat },
{
    let v = vec![p];
    assert(v@.len() == 1 && v@.last() == p);
    assert(v@.drop_last() =~= Seq::<Placement>::empty());
    assert(n_customers(Seq::<Placement>::empty()) == 0);
    assert(n_goals(Seq::<Placement>::empty()) == 0);
    assert(n_hazards(Seq::<Placement>::empty()) == 0);
    v
}

/// Placements holding two customers.
fn two_customers(a: i64, b: i64) -> (v: Vec<Placement>)
    ensures
        v@ == Seq::empty().push(Placement::Customer { xpos: a }).push(Placement::Customer { xpos: b }),
        n_customers(v@) == 2,
        n_goals(v@) == 0,
        n_hazards(v@) == 0,
{
    let v = vec![Placement::Customer { xpos: a }, Placement::Customer { xpos: b }];
    assert(v@ =~= Seq::empty().push(Placement::Customer { xpos: a }).push(Placement::Customer { xpos: b }));
    assert(v@.drop_last() =~= seq![Placement::Customer { xpos: a }]);
    assert(v@.drop_last().drop_last() =~= Seq::<Placement>::empty());
    assert(n_customers(Seq::<Placement>::empty()) == 0);
    assert(n_goals(Seq::<Placement>::empty()) == 0);
    assert(n_hazards(Seq::<Placement>::empty()) == 0);
    assert(n_customers(v@.drop_last()) == 1);
    assert(n_goals(v@.drop_last()) == 0);
    assert(n_hazards(v@.drop_last()) == 0);
    v
}

proof fn lemma_total_rows_push(steps: Seq<StepView>, x: StepView, n: nat)
    requires
        n <= steps.len(),
    ensures
        total_rows(steps.push(x), n) == total_rows(steps, n),
    decreases n,
{
    if n > 0 {
        lemma_total_rows_push(steps, x, (n - 1) as nat);
    }
}

/// Appends one step to a step list that fits, keeping it fitting.
fn push_step(steps: &mut Vec<CourseStep>, count: u64, shift: i64, half_gap: i64, placements: Vec<Placement>)
    requires
        steps_fit(views(old(steps)@)),
        total_rows(views(old(steps)@), old(steps)@.len()) + count <= MAX_ROWS,
        -MAX_OFFSET <= shift <= MAX_OFFSET,
        -MAX_OFFSET <= half_gap <= MAX_OFFSET,
        forall|j: int|
            0 <= j < placements@.len() ==> -MAX_OFFSET <= #[trigger] placement_offset(placements@[j])
                <= MAX_OFFSET,
    ensures
        views(final(steps)@) == views(old(steps)@).push(
            StepView { count, shift, half_gap, placements: placements@ },
        ),
        final(steps)@.len() == old(steps)@.len() + 1,
        steps_fit(views(final(steps)@)),
        total_rows(views(final(steps)@), final(steps)@.len()) == total_rows(
            views(old(steps)@),
            old(steps)@.len(),
        ) + count,
        layout_counts(views(final(steps)@)) == (
            layout_counts(views(old(steps)@)).0 + n_customers(placements@),
            layout_counts(views(old(steps)@)).1 + n_goals(placements@),
            layout_counts(views(old(steps)@)).2 + n_hazards(placements@),
        ),
{
    let ghost before = views(steps@);
    let step = CourseStep { count, shift, half_gap, placements };
    steps.push(step);
    proof {
        assert(views(steps@) =~= before.push(step@));
        lemma_total_rows_push(before, step@, before.len());
        lemma_course_model_push(before, step@, before.len());
        let (cx, y) = cursor(before, before.len());
        lemma_placed_lens(step.placements@, cx, y);
        reveal(layout_counts);
        let after = views(steps@);
        assert(after[before.len() as int] == step@);
        assert forall|i: int| 0 <= i < after.len() implies #[trigger] step_fits(after[i]) by {
            if i < before.len() {
                assert(after[i] == before[i]);
            }
        }
    }
}

/// A step with walls only.
pub open spec fn wall_step(count: u64, shift: i64, half_gap: i64) -> StepView {
    StepView { count, shift, half_gap, placements: Seq::empty() }
}

pub open spec fn placed_step(count: u64, shift: i64, half_gap: i64, placements: Seq<Placement>) -> StepView {
    StepView { count, shift, half_gap, placements }
}

/// The first level up to the goal box.
pub open spec fn lv1_head() -> Seq<StepView> {
    Seq::empty()
        .push(wall_step(10, 0, 400000))
        .push(wall_step(10, 0, 400000))
        .push(wall_step(10, 0, 400000))
        .push(wall_step(10, 0, 400000))
        .push(wall_step(3, 0, 700000))
        .push(placed_step(2, 0, 700000, Seq::empty().push(Placement::Customer { xpos: -500000i64 })))
        .push(wall_step(20, 30000, 400000))
        .push(placed_step(20, 0, 400000, Seq::empty().push(Placement::HangryCone { xpos: 0 })))
        .push(wall_step(3, 0, 700000))
        .push(placed_step(2, 0, 700000, Seq::empty().push(Placement::Customer { xpos: 500000 })))
        .push(wall_step(40, -30000i64, 400000))
        .push(wall_step(20, 30000, 400000))
        .push(wall_step(5, 0, 1000000))
        .push(placed_step(0, 0, 0, Seq::empty().push(Placement::Customer { xpos: -800000i64 })))
        .push(placed_step(0, 0, 0, Seq::empty().push(Placement::Customer { xpos: 800000 })))
        .push(wall_step(10, 0, 1000000))
        .push(placed_step(0, 0, 0, Seq::empty().push(Placement::Customer { xpos: -800000i64 })))
        .push(placed_step(0, 0, 0, Seq::empty().push(Placement::Customer { xpos: 800000 })))
        .push(wall_step(5, 0, 1000000))
        .push(wall_step(50, 0, 700000))
        .push(wall_step(1, 400000, 15000000))
        .push(wall_step(5, 30000, 500000))
        .push(placed_step(0, 0, 0, Seq::empty().push(Placement::Customer { xpos: -1500000i64 })))
        .push(wall_step(15, 30000, 400000))
        .push(wall_step(20, 0, 600000))
        .push(wall_step(1, -400000i64, 15000000))
        .push(wall_step(5, -30000i64, 400000))
        .push(placed_step(0, 0, 0, Seq::empty().push(Placement::Customer { xpos: 1500000 })))
        .push(wall_step(15, -30000i64, 400000))
        .push(wall_step(15, 50000, 400000))
        .push(wall_step(15, -50000i64, 400000))
        .push(wall_step(15, 50000, 400000))
        .push(wall_step(15, -50000i64, 400000))
        .push(wall_step(15, 50000, 400000))
        .push(wall_step(10, 0, 400000))
        .push(wall_step(3, 0, 700000))
        .push(placed_step(1, 0, 700000, Seq::empty().push(Placement::Customer { xpos: -500000i64 }).push(Placement::Customer { xpos: 500000 })))
        .push(wall_step(3, 0, 700000))
        .push(wall_step(10, 0, 400000))
}

/// The first level with the first `i` rows of the widening goal box.
pub open spec fn lv1_box_open(i: nat) -> Seq<StepView>
    decreases i,
{
    if i == 0 {
        lv1_head()
    } else {
        lv1_box_open((i - 1) as nat).push(wall_step(1, 0, (400_000 + (i - 1) * 20_000) as i64))
    }
}

/// The first level with the goal and the first `j` rows of the closing box.
pub open spec fn lv1_box_close(j: nat) -> Seq<StepView>
    decreases j,
{
    if j == 0 {
        lv1_box_open(20).push(wall_step(10, 0, 800_000)).push(
            placed_step(10, 0, 800_000, Seq::empty().push(Placement::Goal { xpos: 0 })),
        )
    } else {
        lv1_box_close((j - 1) as nat).push(wall_step(1, 0, (800_000 - (j - 1) * 20_000) as i64))
    }
}

/// The steps of the first level.
pub open spec fn lv1_steps() -> Seq<StepView> {
    lv1_box_close(100)
}

/// The step list of the first level: ten customers, one cone and a goal
/// inside a closing box at the end.
#[verifier::rlimit(100)]
pub fn lv1_turns() -> (r: Vec<CourseStep>)
    ensures
        views(r@) == lv1_steps(),
        r@.len() == 161,
        steps_fit(lv1_steps()),
        total_rows(lv1_steps(), 161) == 524,
        layout_counts(lv1_steps()) == (10nat, 1nat, 1nat),
{
    let base_width: i64 = 400 * UNIT;
    let sharpness_easy: i64 = 30 * UNIT;
    let sharper: i64 = 50 * UNIT;
    let mut res: Vec<CourseStep> = Vec::new();
    assert(views(res@) =~= Seq::<StepView>::empty());
    assert(layout_counts(views(res@)) == (0nat, 0nat, 0nat)) by {
        reveal(layout_counts);
    }
    push_step(&mut res, 10, 0, base_width, Vec::new());
    push_step(&mut res, 10, 0, base_width, Vec::new());
    push_step(&mut res, 10, 0, base_width, Vec::new());
    push_step(&mut res, 10, 0, base_width, Vec::new());
    push_step(&mut res, 3, 0, base_width + 300 * UNIT, Vec::new());
    push_step(&mut res, 2, 0, base_width + 300 * UNIT, single(Placement::Customer { xpos: -500 * UNIT }));
    push_step(&mut res, 20, sharpness_easy, base_width, Vec::new());
    push_step(&mut res, 20, 0, base_width, single(Placement::HangryCone { xpos: 0 }));
    push_step(&mut res, 3, 0, base_width + 300 * UNIT, Vec::new());
    push_step(&mut res, 2, 0, base_width + 300 * UNIT, single(Placement::Customer { xpos: 500 * UNIT }));
    push_step(&mut res, 40, -sharpness_easy, base_width, Vec::new());
    push_step(&mut res, 20, sharpness_easy, base_width, Vec::new());
    push_step(&mut res, 5, 0, 1000 * UNIT, Vec::new());
    push_step(&mut res, 0, 0, 0, single(Placement::Customer { xpos: -800 * UNIT }));
    push_step(&mut res, 0, 0, 0, single(Placement::Customer { xpos: 800 * UNIT }));
    push_step(&mut res, 10, 0, 1000 * UNIT, Vec::new());
    push_step(&mut res, 0, 0, 0, single(Placement::Customer { xpos: -800 * UNIT }));
    push_step(&mut res, 0, 0, 0, single(Placement::Customer { xpos: 800 * UNIT }));
    push_step(&mut res, 5, 0, 1000 * UNIT, Vec::new());
    push_step(&mut res, 50, 0, 700 * UNIT, Vec::new());
    // flush with the right wall, leaving a gap on the left
    push_step(&mut res, 1, (700 - 500) * 2 * UNIT, 15000 * UNIT, Vec::new());
    push_step(&mut res, 5, sharpness_easy, 500 * UNIT, Vec::new());
    // a customer outside the lane
    push_step(&mut res, 0, 0, 0, single(Placement::Customer { xpos: -1500 * UNIT }));
    push_step(&mut res, 15, sharpness_easy, base_width, Vec::new());
    push_step(&mut res, 20, 0, 600 * UNIT, Vec::new());
    // flush with the left wall, leaving a gap on the right
    push_step(&mut res, 1, -(600 - 400) * 2 * UNIT, 15000 * UNIT, Vec::new());
    push_step(&mut res, 5, -sharpness_easy, 400 * UNIT, Vec::new());
    push_step(&mut res, 0, 0, 0, single(Placement::Customer { xpos: 1500 * UNIT }));
    push_step(&mut res, 15, -sharpness_easy, base_width, Vec::new());
    // hard zig zags
    push_step(&mut res, 15, sharper, base_width, Vec::new());
    push_step(&mut res, 15, -sharper, base_width, Vec::new());
    push_step(&mut res, 15, sharper, base_width, Vec::new());
    push_step(&mut res, 15, -sharper, base_width, Vec::new());
    push_step(&mut res, 15, sharper, base_width, Vec::new());
    push_step(&mut res, 10, 0, base_width, Vec::new());
    push_step(&mut res, 3, 0, base_width + 300 * UNIT, Vec::new());
    push_step(&mut res, 1, 0, base_width + 300 * UNIT, two_customers(-500 * UNIT, 500 * UNIT));
    push_step(&mut res, 3, 0, base_width + 300 * UNIT, Vec::new());
    push_step(&mut res, 10, 0, base_width, Vec::new());
    assert(views(res@) == lv1_head());
    // the goal sits inside a box whose walls widen, hold, then close
    let box_size: i64 = 20;
    let mut i: i64 = 0;
    while i < box_size
        invariant
            0 <= i <= box_size,
            box_size == 20,
            base_width == 400 * UNIT,
            views(res@) == lv1_box_open(i as nat),
            steps_fit(views(res@)),
            res@.len() == 39 + i,
            total_rows(views(res@), res@.len()) == 384 + i,
            layout_counts(views(res@)) == (10nat, 0nat, 1nat),
        decreases box_size - i,
    {
        push_step(&mut res, 1, 0, base_width + i * 20 * UNIT, Vec::new());
        i = i + 1;
    }
    let box_width: i64 = base_width + box_size * 20 * UNIT;
    push_step(&mut res, 10, 0, box_width, Vec::new());
    push_step(&mut res, 10, 0, box_width, single(Placement::Goal { xpos: 0 }));
    let mut j: i64 = 0;
    while j < 100
        invariant
            0 <= j <= 100,
            box_width == 800 * UNIT,
            views(res@) == lv1_box_close(j as nat),
            steps_fit(views(res@)),
            res@.len() == 61 + j,
            total_rows(views(res@), res@.len()) == 424 + j,
            layout_counts(views(res@)) == (10nat, 1nat, 1nat),
        decreases 100 - j,
    {
        push_step(&mut res, 1, 0, box_width - j * 20 * UNIT, Vec::new());
        j = j + 1;
    }
    res
}

pub open spec fn obstacle_dirs_ok(obs: Seq<Obstacle>) -> bool {
    forall|i: int| 0 <= i < obs.len() ==> (#[trigger] obs[i]).bounce_dir == 1 || obs[i].bounce_dir == -1
}

proof fn lemma_step_rows_ok(k: nat, cx: int, y: int, shift: int, gap: int)
    ensures
        obstacle_dirs_ok(step_rows(k, cx, y, shift, gap)),
    decreases k,
{
    if k > 0 {
        lemma_step_rows_ok((k - 1) as nat, cx, y, shift, gap);
        let a = step_rows((k - 1) as nat, cx, y, shift, gap);
        let b = row_pair(cx + (k - 1) * shift, y + (k - 1) * ROW_HEIGHT, shift, gap);
        assert forall|i: int| 0 <= i < (a + b).len() implies (#[trigger] (a + b)[i]).bounce_dir == 1
            || (a + b)[i].bounce_dir == -1 by {
            if i >= a.len() {
                assert((a + b)[i] == b[i - a.len()]);
            } else {
                assert((a + b)[i] == a[i]);
            }
        }
    }
}

/// Every generated wall pushes one way or the other.
pub proof fn lemma_course_obstacles_ok(steps: Seq<StepView>, n: nat)
    ensures
        obstacle_dirs_ok(course_model(steps, n).obstacles),
    decreases n,
{
    if n > 0 && n <= steps.len() {
        lemma_course_obstacles_ok(steps, (n - 1) as nat);
        let (cx, y) = cursor(steps, (n - 1) as nat);
        let s = steps[n - 1];
        lemma_step_rows_ok(s.count as nat, cx, y, s.shift as int, s.half_gap as int);
        let a = course_model(steps, (n - 1) as nat).obstacles;
        let b = step_rows(s.count as nat, cx, y, s.shift as int, s.half_gap as int);
        assert forall|i: int| 0 <= i < (a + b).len() implies (#[trigger] (a + b)[i]).bounce_dir == 1
            || (a + b)[i].bounce_dir == -1 by {
            if i >= a.len() {
                assert((a + b)[i] == b[i - a.len()]);
            } else {
                assert((a + b)[i] == a[i]);
            }
        }
    }
}

} // verus!
