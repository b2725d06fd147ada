//! The level lifecycle: Start, Game and EndLevel, the tick that each state
//! runs, and the score list.
use vstd::prelude::*;
use crate::car::{
    Car, CarSprite, Steering, fresh_car, physics_spec, setup_car, sprite_movement, sprite_for,
};
use crate::course::{
    Course, Customer, Goal, Hazard, Merch, Obstacle, course_model, lv1_steps, lv1_turns, setup_obstacles,
};
use crate::input::Inputs;
use crate::interaction::{
    Projectile, any_contact, bounce_all, check_in_goal, clear_of_walls, collision_update_system,
    collision_update_system_hazards, deliver, detect_projectile_hit, detect_shoot_system,
    goal_reached, hazard_hit, moved, obstacles_ok, projectile_update, shoot_spec,
};

verus! {

/// How many scores the end screen shows.
pub const SHOWN_SCORES: usize = 5;

/// The active state of the game.
#[derive(Clone, Copy, Debug, PartialEq, Eq, Structural)]
pub enum AppState {
    EndLevel { level: u64, did_win: bool, did_finish: bool, score: u64 },
    StartLevel(u64),
    Game,
}

/// Whether the end screen is up.
pub fn run_if_in_end_level(state: &AppState) -> (r: bool)
    ensures
        r == (*state is EndLevel),
{
    match state {
        AppState::EndLevel { .. } => true,
        _ => false,
    }
}

/// Whether the course, car and goal are drawn: while playing, on the first
/// start screen, and frozen behind any end screen.
pub fn draws_level(state: &AppState) -> (r: bool)
    ensures
        r == (*state == AppState::Game || *state == AppState::StartLevel(0) || *state is EndLevel),
{
    match state {
        AppState::Game => true,
        AppState::StartLevel(n) => *n == 0,
        AppState::EndLevel { .. } => true,
    }
}

pub open spec fn sorted_desc(s: Seq<u64>) -> bool {
    forall|i: int, j: int| 0 <= i < j < s.len() ==> s[i] >= s[j]
}

/// Scores of won levels, in ticks, kept for the whole session.
#[derive(Clone, Debug)]
pub struct SaveData {
    pub scores: Vec<u64>,
}

pub fn setup_save() -> (r: SaveData)
    ensures
        r.scores@ == Seq::<u64>::empty(),
{
    SaveData { scores: Vec::new() }
}

impl SaveData {
    pub fn push_score(&mut self, score: u64)
        ensures
            final(self).scores@ == old(self).scores@.push(score),
    {
        self.scores.push(score);
    }

    /// Sorts the scores from highest to lowest.
    pub fn sort_descending(&mut self)
        ensures
            sorted_desc(final(self).scores@),
            final(self).scores@.to_multiset() == old(self).scores@.to_multiset(),
    {
        let ghost src = self.scores@;
        let mut out: Vec<u64> = Vec::new();
        let mut i: usize = 0;
        assert(src.take(0) =~= out@);
        while i < self.scores.len()
            invariant
                src == self.scores@,
                i <= src.len(),
                sorted_desc(out@),
                out@.to_multiset() == src.take(i as int).to_multiset(),
            decreases src.len() - i,
        {
            let x = self.scores[i];
            let mut p: usize = 0;
            while p < out.len() && out[p] >= x
                invariant
                    p <= out@.len(),
                    forall|k: int| 0 <= k < p ==> out@[k] >= x,
                decreases out@.len() - p,
            {
                p = p + 1;
            }
            let ghost before = out@;
            out.insert(p, x);
            proof {
                vstd::seq_lib::to_multiset_insert(before, p as int, x);
                assert(src.take(i + 1) =~= src.take(i as int).push(x));
                vstd::seq_lib::to_multiset_build(src.take(i as int), x);
                assert forall|a: int, b: int| 0 <= a < b < out@.len() implies out@[a] >= out@[b] by {
                    if b < p {
                    } else if b == p {
                        assert(out@[a] == before[a]);
                    } else if a < p {
                        assert(out@[b] == before[b - 1]);
                    } else if a == p {
                        assert(out@[b] == before[b - 1]);
                        assert(p < before.len() && !(before[p as int] >= x));
                        if b - 1 > p {
                            assert(before[p as int] >= before[b - 1]);
                        }
                    } else {
                        assert(out@[a] == before[a - 1]);
                        assert(out@[b] == before[b - 1]);
                    }
                }
            }
            i = i + 1;
        }
        assert(src.take(src.len() as int) =~= src);
        self.scores = out;
    }

    /// Sorts the scores and gives the best of them, at most five.
    pub fn best_scores(&mut self) -> (r: Vec<u64>)
        ensures
            sorted_desc(final(self).scores@),
            final(self).scores@.to_multiset() == old(self).scores@.to_multiset(),
            r@ == final(self).scores@.take(
                if final(self).scores@.len() < SHOWN_SCORES {
                    final(self).scores@.len() as int
                } else {
                    SHOWN_SCORES as int
                },
            ),
    {
        self.sort_descending();
        let mut r: Vec<u64> = Vec::new();
        let mut i: usize = 0;
        while i < self.scores.len() && i < SHOWN_SCORES
            invariant
                i <= self.scores@.len(),
                i <= SHOWN_SCORES,
                r@ == self.scores@.take(i as int),
            decreases SHOWN_SCORES - i,
        {
            r.push(self.scores[i]);
            assert(self.scores@.take(i + 1) =~= self.scores@.take(i as int).push(self.scores@[i as int]));
            i = i + 1;
        }
        r
    }
}

/// What the presentation layer should do after a tick.
#[derive(Clone, Copy, Debug, PartialEq, Eq, Structural)]
pub enum Effect {
    /// Nothing changed state.
    Nothing,
    /// Play began: start the music, drop the start screen.
    LevelStarted,
    /// The level ended: pause the music, show the end screen.
    LevelEnded,
    /// A new level was laid out: show the start screen again.
    LevelReset,
}

/// The whole game: active state, the level's entities and the scores.
#[derive(Clone, Debug)]
pub struct GameWorld {
    pub state: AppState,
    pub car: Car,
    pub course: Course,
    pub projectiles: Vec<Projectile>,
    pub save: SaveData,
    pub sprite: CarSprite,
}

pub struct WorldModel {
    pub state: AppState,
    pub car: Car,
    pub obstacles: Seq<Obstacle>,
    pub hazards: Seq<Hazard>,
    pub customers: Seq<Customer>,
    pub goals: Seq<Goal>,
    pub projectiles: Seq<Projectile>,
    pub scores: Seq<u64>,
}

impl GameWorld {
    pub open spec fn model(&self) -> WorldModel {
        WorldModel {
            state: self.state,
            car: self.car,
            obstacles: self.course.obstacles@,
            hazards: self.course.hazards@,
            customers: self.course.customers@,
            goals: self.course.goals@,
            projectiles: self.projectiles@,
            scores: self.save.scores@,
        }
    }

    pub open spec fn wf(&self) -> bool {
        self.car.wf() && obstacles_ok(self.course.obstacles@)
    }
}

/// The car after physics, with the tick counted.
pub open spec fn counted(car: Car, input: Inputs, steering: Steering) -> Car {
    let c = physics_spec(car, input, steering);
    Car { frames_elapsed: if c.frames_elapsed < u64::MAX { (c.frames_elapsed + 1) as u64 } else { c.frames_elapsed }, ..c }
}

pub open spec fn lost(score: u64) -> AppState {
    AppState::EndLevel { level: 0, did_win: false, did_finish: false, score }
}

/// One tick of play: physics, walls, cones, shooting, projectile flight and
/// hits, then the goal. A crash ends the tick at once.
pub open spec fn game_step(m: WorldModel, input: Inputs, steering: Steering) -> WorldModel {
    let c1 = counted(m.car, input, steering);
    let c2 = bounce_all(c1, m.obstacles, m.obstacles.len());
    if c2.hard_mode && any_contact(c1, m.obstacles, m.obstacles.len()) {
        WorldModel { state: lost(c2.frames_elapsed), car: c2, ..m }
    } else if hazard_hit(c2, m.hazards) {
        WorldModel { state: lost(c2.frames_elapsed), car: c2, ..m }
    } else {
        let (c3, ps1) = shoot_spec(c2, m.projectiles, input.fire_right, input.fire_left);
        let ps2 = ps1.map_values(|p: Projectile| moved(p));
        let (ps3, cs) = deliver(ps2, m.customers, m.customers);
        let ps4 = clear_of_walls(ps3, m.obstacles);
        if goal_reached(c3, m.goals) {
            let did_win = cs.len() == 0;
            WorldModel {
                state: AppState::EndLevel { level: 0, did_win, did_finish: true, score: c3.frames_elapsed },
                car: c3,
                customers: cs,
                projectiles: ps4,
                scores: if did_win { m.scores.push(c3.frames_elapsed) } else { m.scores },
                ..m
            }
        } else {
            WorldModel { car: c3, customers: cs, projectiles: ps4, ..m }
        }
    }
}

/// The start screen: a start press begins play, in hard mode for the hard
/// start key, with the tick counter cleared.
pub open spec fn start_step(m: WorldModel, input: Inputs) -> WorldModel {
    if m.state == AppState::StartLevel(0) && (input.start || input.hard_start) {
        WorldModel {
            state: AppState::Game,
            car: Car { frames_elapsed: 0, hard_mode: input.hard_start, ..m.car },
            ..m
        }
    } else {
        m
    }
}

/// A restart: the first level laid out afresh behind the first start
/// screen, with the scores kept.
pub open spec fn reset_step(m: WorldModel) -> WorldModel {
    let c = course_model(lv1_steps(), 161);
    WorldModel {
        state: AppState::StartLevel(0),
        car: fresh_car(),
        obstacles: c.obstacles,
        hazards: c.hazards,
        customers: c.customers,
        goals: c.goals,
        projectiles: Seq::empty(),
        scores: m.scores,
    }
}

/// One tick in whatever state is active: play runs only in `Game`; the
/// start screen waits for a start key, the end screen for a restart.
pub open spec fn tick_spec(m: WorldModel, input: Inputs, steering: Steering) -> WorldModel {
    match m.state {
        AppState::Game => game_step(m, input, steering),
        AppState::StartLevel(_) => start_step(m, input),
        AppState::EndLevel { .. } => if input.restart {
            reset_step(m)
        } else {
            m
        },
    }
}

/// The car and the course of the first level.
pub fn setup_level() -> (r: (Car, Course))
    ensures
        r.0 == fresh_car(),
        r.0.wf(),
        r.0.ammo.count(Merch::Banana) == 10,
        r.1.model() == course_model(lv1_steps(), 161),
        obstacles_ok(r.1.obstacles@),
        r.1.customers@.len() == 10,
        r.1.goals@.len() == 1,
        r.1.hazards@.len() == 1,
{
    let car = setup_car();
    let steps = lv1_turns();
    let course = setup_obstacles(&steps);
    proof {
        crate::course::lemma_course_obstacles_ok(lv1_steps(), 161);
        reveal(crate::course::layout_counts);
    }
    (car, course)
}

/// The game as the program opens: the first start screen over level one.
pub fn initial_setup() -> (r: GameWorld)
    ensures
        r.wf(),
        r.state == AppState::StartLevel(0),
        r.car == fresh_car(),
        r.course.model() == course_model(lv1_steps(), 161),
        r.car.ammo.count(Merch::Banana) == 10,
        r.course.customers@.len() == 10,
        r.course.goals@.len() == 1,
        r.projectiles@.len() == 0,
        r.save.scores@.len() == 0,
{
    let (car, course) = setup_level();
    GameWorld {
        state: AppState::StartLevel(0),
        car,
        course,
        projectiles: Vec::new(),
        save: setup_save(),
        sprite: CarSprite::Center,
    }
}

impl GameWorld {
    fn end_level(&mut self, did_win: bool, did_finish: bool)
        ensures
            final(self).state == (AppState::EndLevel {
                level: 0,
                did_win,
                did_finish,
                score: old(self).car.frames_elapsed,
            }),
            final(self).save.scores@ == if did_win {
                old(self).save.scores@.push(old(self).car.frames_elapsed)
            } else {
                old(self).save.scores@
            },
            final(self).car == old(self).car,
            final(self).course == old(self).course,
            final(self).projectiles == old(self).projectiles,
            final(self).sprite == old(self).sprite,
    {
        let score = self.car.frames_elapsed;
        self.state = AppState::EndLevel { level: 0, did_win, did_finish, score };
        if did_win {
            self.save.push_score(score);
        }
    }

    /// One tick of play.
    fn play(&mut self, input: &Inputs, steering: &Steering)
        requires
            old(self).wf(),
            steering.wf(),
        ensures
            final(self).wf(),
            final(self).model() == game_step(old(self).model(), *input, *steering),
            final(self).sprite == sprite_for(*input),
    {
        self.sprite = sprite_movement(&mut self.car, input, steering);
        if self.car.frames_elapsed < u64::MAX {
            self.car.frames_elapsed = self.car.frames_elapsed + 1;
        }
        let ghost c1 = self.car;
        let contact = collision_update_system(&mut self.car, &self.course.obstacles);
        if self.car.hard_mode && contact {
            self.end_level(false, false);
            return;
        }
        if collision_update_system_hazards(&self.car, &self.course.hazards) {
            self.end_level(false, false);
            return;
        }
        detect_shoot_system(&mut self.car, &mut self.projectiles, input.fire_right, input.fire_left);
        let ghost ps1 = self.projectiles@;
        projectile_update(&mut self.projectiles);
        assert(self.projectiles@ =~= ps1.map_values(|p: Projectile| moved(p)));
        detect_projectile_hit(&mut self.projectiles, &mut self.course.customers, &self.course.obstacles);
        if check_in_goal(&self.car, &self.course.goals) {
            let did_win = self.course.customers.len() == 0;
            self.end_level(did_win, true);
        }
    }

    /// Advances the game by one tick. Only play moves the car or the
    /// level; the start screen waits for a start key, the end screen for a
    /// restart.
    pub fn on_tick(&mut self, input: &Inputs, steering: &Steering) -> (effect: Effect)
        requires
            old(self).wf(),
            steering.wf(),
        ensures
            final(self).wf(),
            final(self).model() == tick_spec(old(self).model(), *input, *steering),
            old(self).state != AppState::Game && !(old(self).state is EndLevel && input.restart) ==> {
                &&& final(self).car.pos == old(self).car.pos
                &&& final(self).car.vel == old(self).car.vel
                &&& final(self).car.direction == old(self).car.direction
                &&& final(self).car.ammo == old(self).car.ammo
                &&& final(self).model().projectiles == old(self).model().projectiles
                &&& final(self).model().customers == old(self).model().customers
                &&& final(self).model().scores == old(self).model().scores
            },
            effect == if old(self).state == AppState::Game {
                if final(self).state is EndLevel { Effect::LevelEnded } else { Effect::Nothing }
            } else if old(self).state is EndLevel {
                if input.restart { Effect::LevelReset } else { Effect::Nothing }
            } else if final(self).state == AppState::Game {
                Effect::LevelStarted
            } else {
                Effect::Nothing
            },
    {
        match self.state {
            AppState::Game => {
                self.play(input, steering);
                if run_if_in_end_level(&self.state) {
                    Effect::LevelEnded
                } else {
                    Effect::Nothing
                }
            },
            AppState::StartLevel(n) => {
                if n == 0 && (input.start || input.hard_start) {
                    self.state = AppState::Game;
                    self.car.frames_elapsed = 0;
                    self.car.hard_mode = input.hard_start;
                    Effect::LevelStarted
                } else {
                    Effect::Nothing
                }
            },
            AppState::EndLevel { .. } => {
                if input.restart {
                    let (car, course) = setup_level();
                    self.state = AppState::StartLevel(0);
                    self.car = car;
                    self.course = course;
                    self.projectiles = Vec::new();
                    self.sprite = CarSprite::Center;
                    Effect::LevelReset
                } else {
                    Effect::Nothing
                }
            },
        }
    }
}

proof fn lemma_bounce_all_keeps(car: Car, obs: Seq<Obstacle>, n: nat)
    ensures
        bounce_all(car, obs, n).hard_mode == car.hard_mode,
        bounce_all(car, obs, n).frames_elapsed == car.frames_elapsed,
    decreases n,
{
    if n > 0 && n <= obs.len() {
        lemma_bounce_all_keeps(car, obs, (n - 1) as nat);
    }
}

/// In hard mode any wall contact ends the level as a crash, whatever the
/// bounce did, and records no score; in normal mode a wall contact only
/// bounces the car, and play goes on unless a cone or the goal ends it.
pub proof fn lemma_hard_mode_fatality(m: WorldModel, input: Inputs, steering: Steering)
    requires
        m.state == AppState::Game,
    ensures
        ({
            let c1 = counted(m.car, input, steering);
            let c2 = bounce_all(c1, m.obstacles, m.obstacles.len());
            let r = tick_spec(m, input, steering);
            &&& m.car.hard_mode && any_contact(c1, m.obstacles, m.obstacles.len()) ==> {
                &&& r.state == lost(c1.frames_elapsed)
                &&& r.car == c2
                &&& r.scores == m.scores
            }
            &&& !m.car.hard_mode && !hazard_hit(c2, m.hazards) && !goal_reached(
                shoot_spec(c2, m.projectiles, input.fire_right, input.fire_left).0,
                m.goals,
            ) ==> r.state == AppState::Game
        }),
{
    let c1 = counted(m.car, input, steering);
    lemma_bounce_all_keeps(c1, m.obstacles, m.obstacles.len());
}

/// Reaching the goal always finishes the level; it is won exactly when no
/// customer remains, and a win records the score.
pub proof fn lemma_goal_outcome(m: WorldModel, input: Inputs, steering: Steering)
    requires
        m.state == AppState::Game,
        ({
            let c1 = counted(m.car, input, steering);
            let c2 = bounce_all(c1, m.obstacles, m.obstacles.len());
            &&& !(c2.hard_mode && any_contact(c1, m.obstacles, m.obstacles.len()))
            &&& !hazard_hit(c2, m.hazards)
            &&& goal_reached(shoot_spec(c2, m.projectiles, input.fire_right, input.fire_left).0, m.goals)
        }),
    ensures
        ({
            let r = tick_spec(m, input, steering);
            &&& r.state is EndLevel
            &&& r.state->level == 0
            &&& r.state->did_finish
            &&& r.state->did_win == (r.customers.len() == 0)
            &&& r.state->score == r.car.frames_elapsed
            &&& r.scores == if r.state->did_win {
                m.scores.push(r.state->score)
            } else {
                m.scores
            }
        }),
{
}

/// Outside play, whatever is held or pressed, neither physics nor the
/// interaction rules run: the car, its cargo, the projectiles, the
/// customers and the course stay as they were (a restart from the end
/// screen lays out a new level instead).
pub proof fn lemma_state_gating(m: WorldModel, input: Inputs, steering: Steering)
    requires
        m.state != AppState::Game,
        !(m.state is EndLevel && input.restart),
    ensures
        ({
            let r = tick_spec(m, input, steering);
            &&& r.car.pos == m.car.pos
            &&& r.car.vel == m.car.vel
            &&& r.car.direction == m.car.direction
            &&& r.car.ammo == m.car.ammo
            &&& r.projectiles == m.projectiles
            &&& r.customers == m.customers
            &&& r.obstacles == m.obstacles
            &&& r.hazards == m.hazards
            &&& r.goals == m.goals
            &&& r.scores == m.scores
        }),
{
}

} // verus!
