//! Interaction rules of one tick: wall bounces, hazards, shooting,
//! projectile flight and hits, and the goal line.
use vstd::prelude::*;
use crate::car::{Car, FACING_SCALE, MAX_SPEED};
use crate::course::{Customer, Goal, Hazard, Merch, Obstacle, ROW_HEIGHT};
use crate::geometry::{Point, UNIT, WORLD_LIMIT, dist_sq, norm_sq, step_spec, step_point, trunc_div, trunc_div_i128};

verus! {

/// Lateral reach of a wall, for the car.
pub const WALL_REACH_X: i64 = 100 * UNIT;

/// Longitudinal reach of a wall, for the car.
pub const WALL_REACH_Y: i64 = 2 * ROW_HEIGHT;

/// Radius within which a cone is fatal.
pub const HAZARD_RADIUS: i64 = 225 * UNIT;

/// Radius within which a projectile reaches a customer.
pub const DELIVERY_RADIUS: i64 = 200 * UNIT;

/// Radius within which a wall stops a projectile.
pub const WALL_RADIUS: i64 = 100 * UNIT;

/// Cargo in flight.
#[derive(Clone, Copy, Debug, PartialEq, Eq, Structural)]
pub struct Projectile {
    pub pos: Point,
    pub vel: Point,
    pub merch: Merch,
}

pub open spec fn abs(v: int) -> int {
    if v < 0 {
        -v
    } else {
        v
    }
}

/// Whether `a` lies strictly within `radius` of `b`.
pub open spec fn near(a: Point, b: Point, radius: int) -> bool {
    dist_sq(a, b) < radius * radius
}

/// Decides `near` without overflow: far apart on one axis means not near.
pub fn is_near(a: Point, b: Point, radius: i64) -> (r: bool)
    requires
        0 <= radius <= MAX_SPEED,
    ensures
        r == near(a, b, radius as int),
{
    let dx: i128 = a.x as i128 - b.x as i128;
    let dy: i128 = a.y as i128 - b.y as i128;
    let rr: i128 = radius as i128;
    if dx >= rr || dx <= -rr || dy >= rr || dy <= -rr {
        proof {
            assert(dist_sq(a, b) >= rr * rr) by (nonlinear_arith)
                requires
                    dx >= rr || dx <= -rr || dy >= rr || dy <= -rr,
                    rr >= 0,
                    dist_sq(a, b) == dx * dx + dy * dy,
            ;
        }
        false
    } else {
        proof {
            crate::geometry::lemma_square_bound(dx as int, 1_000_000_000);
            crate::geometry::lemma_square_bound(dy as int, 1_000_000_000);
            crate::geometry::lemma_square_bound(rr as int, 1_000_000_000);
        }
        dx * dx + dy * dy < rr * rr
    }
}

/// Whether the car is in contact with a wall that pushes against its
/// lateral motion.
pub open spec fn touches(car: Car, o: Obstacle) -> bool {
    &&& abs(o.pos.x - car.pos.x) < WALL_REACH_X
    &&& abs(o.pos.y - car.pos.y) < WALL_REACH_Y
    &&& o.bounce_dir * car.vel.x < 0
}

/// Lateral velocity right after a bounce off a wall pushing toward `dir`.
pub open spec fn bounce_vx(vx: int, dir: int, top: int) -> int {
    trunc_div(-90 * vx + 15 * dir * top, 100)
}

/// The car after bouncing off one wall: the new velocity moves it once,
/// then the velocity is damped.
pub open spec fn bounce_one(car: Car, o: Obstacle) -> Car {
    if touches(car, o) {
        let v1 = Point {
            x: bounce_vx(car.vel.x as int, o.bounce_dir as int, car.top_speed as int) as i64,
            y: car.vel.y,
        };
        Car {
            pos: step_spec(car.pos, v1),
            vel: Point { x: trunc_div(6 * v1.x, 10) as i64, y: trunc_div(3 * v1.y, 10) as i64 },
            ..car
        }
    } else {
        car
    }
}

/// The car after meeting the first `n` walls in order.
pub open spec fn bounce_all(car: Car, obs: Seq<Obstacle>, n: nat) -> Car
    decreases n,
{
    if n == 0 || n > obs.len() {
        car
    } else {
        bounce_one(bounce_all(car, obs, (n - 1) as nat), obs[n - 1])
    }
}

/// Whether any of the first `n` walls bounced the car.
pub open spec fn any_contact(car: Car, obs: Seq<Obstacle>, n: nat) -> bool
    decreases n,
{
    if n == 0 || n > obs.len() {
        false
    } else {
        any_contact(car, obs, (n - 1) as nat) || touches(bounce_all(car, obs, (n - 1) as nat), obs[n - 1])
    }
}

pub open spec fn obstacle_ok(o: Obstacle) -> bool {
    o.bounce_dir == 1 || o.bounce_dir == -1
}

/// Bounces the car off one wall, if it touches it; says whether it did.
pub fn bounce_off(car: &mut Car, o: &Obstacle) -> (hit: bool)
    requires
        old(car).wf(),
        obstacle_ok(*o),
    ensures
        hit == touches(*old(car), *o),
        *final(car) == bounce_one(*old(car), *o),
        final(car).wf(),
        hit ==> 1_000_000 * norm_sq(final(car).vel) <= 486_900 * old(car).top_speed * old(car).top_speed,
        norm_sq(old(car).vel) <= old(car).top_speed * old(car).top_speed ==> norm_sq(final(car).vel)
            <= old(car).top_speed * old(car).top_speed,
{
    let dx: i128 = o.pos.x as i128 - car.pos.x as i128;
    let dy: i128 = o.pos.y as i128 - car.pos.y as i128;
    let close_x = -(WALL_REACH_X as i128) < dx && dx < WALL_REACH_X as i128;
    let close_y = -(WALL_REACH_Y as i128) < dy && dy < WALL_REACH_Y as i128;
    proof {
        if o.bounce_dir == 1 {
            assert(o.bounce_dir * car.vel.x == car.vel.x);
        } else {
            assert(o.bounce_dir * car.vel.x == -car.vel.x);
        }
    }
    let against = if o.bounce_dir > 0 {
        car.vel.x < 0
    } else {
        car.vel.x > 0
    };
    if close_x && close_y && against {
        let vx: i128 = car.vel.x as i128;
        let top: i128 = car.top_speed as i128;
        let dir: i128 = o.bounce_dir as i128;
        proof {
            assert(-MAX_SPEED * 15 <= dir * top * 15 <= MAX_SPEED * 15) by (nonlinear_arith)
                requires
                    dir == 1 || dir == -1,
                    0 <= top <= MAX_SPEED,
            ;
            assert(15 * dir * top == dir * top * 15) by (nonlinear_arith);
        }
        let nx: i128 = trunc_div_i128(-90 * vx + 15 * dir * top, 100);
        proof {
            assert(-105 * top <= -90 * vx + 15 * dir * top <= 105 * top) by (nonlinear_arith)
                requires
                    dir == 1 || dir == -1,
                    -top <= vx <= top,
                    0 <= top,
            ;
            assert(-(105 * top) / 100 <= nx <= (105 * top) / 100);
        }
        let v1 = Point { x: nx as i64, y: car.vel.y };
        car.pos = step_point(car.pos, v1);
        let dampx: i128 = trunc_div_i128(6 * nx, 10);
        let dampy: i128 = trunc_div_i128(3 * (v1.y as i128), 10);
        proof {
            let vy = v1.y as int;
            let raw = -90 * vx + 15 * dir * top;
            crate::car::lemma_trunc_div_square(raw, 100);
            crate::car::lemma_trunc_div_square(6 * nx, 10);
            crate::car::lemma_trunc_div_square(3 * vy, 10);
            assert(raw * raw <= (105 * top) * (105 * top)) by (nonlinear_arith)
                requires
                    -105 * top <= raw <= 105 * top,
            ;
            assert(vy * vy <= top * top) by (nonlinear_arith)
                requires
                    -top <= vy <= top,
            ;
            assert(dampx * dampx * 1_000_000 <= 396_900 * (top * top)) by (nonlinear_arith)
                requires
                    dampx * dampx * (10 * 10) <= (6 * nx) * (6 * nx),
                    nx * nx * (100 * 100) <= raw * raw,
                    raw * raw <= (105 * top) * (105 * top),
            ;
            assert(dampy * dampy * 1_000_000 <= 90_000 * (top * top)) by (nonlinear_arith)
                requires
                    dampy * dampy * (10 * 10) <= (3 * vy) * (3 * vy),
                    vy * vy <= top * top,
            ;
            assert(top * top >= 0) by (nonlinear_arith);
            assert(1_000_000 * (dampx * dampx + dampy * dampy) <= 486_900 * top * top) by (nonlinear_arith)
                requires
                    dampx * dampx * 1_000_000 <= 396_900 * (top * top),
                    dampy * dampy * 1_000_000 <= 90_000 * (top * top),
            ;
        }
        car.vel = Point { x: dampx as i64, y: dampy as i64 };
        true
    } else {
        false
    }
}

pub open spec fn obstacles_ok(obs: Seq<Obstacle>) -> bool {
    crate::course::obstacle_dirs_ok(obs)
}

/// Meets every wall in order; says whether any of them bounced the car.
pub fn collision_update_system(car: &mut Car, obstacles: &Vec<Obstacle>) -> (hit: bool)
    requires
        old(car).wf(),
        obstacles_ok(obstacles@),
    ensures
        *final(car) == bounce_all(*old(car), obstacles@, obstacles@.len()),
        hit == any_contact(*old(car), obstacles@, obstacles@.len()),
        final(car).wf(),
        norm_sq(old(car).vel) <= old(car).top_speed * old(car).top_speed ==> norm_sq(final(car).vel)
            <= old(car).top_speed * old(car).top_speed,
{
    let ghost start = *car;
    let mut hit = false;
    let mut i: usize = 0;
    while i < obstacles.len()
        invariant
            i <= obstacles@.len(),
            obstacles_ok(obstacles@),
            car.wf(),
            car.top_speed == start.top_speed,
            norm_sq(start.vel) <= start.top_speed * start.top_speed ==> norm_sq(car.vel) <= start.top_speed
                * start.top_speed,
            *car == bounce_all(start, obstacles@, i as nat),
            hit == any_contact(start, obstacles@, i as nat),
        decreases obstacles@.len() - i,
    {
        assert(obstacle_ok(obstacles@[i as int]));
        let h = bounce_off(car, &obstacles[i]);
        hit = hit || h;
        i = i + 1;
    }
    hit
}

/// Whether the car is within reach of any cone.
pub open spec fn hazard_hit(car: Car, hazards: Seq<Hazard>) -> bool {
    exists|i: int| 0 <= i < hazards.len() && near(car.pos, #[trigger] hazards[i].pos, HAZARD_RADIUS as int)
}

pub fn collision_update_system_hazards(car: &Car, hazards: &Vec<Hazard>) -> (hit: bool)
    ensures
        hit == hazard_hit(*car, hazards@),
{
    let mut i: usize = 0;
    while i < hazards.len()
        invariant
            i <= hazards@.len(),
            forall|j: int| 0 <= j < i ==> !near(car.pos, #[trigger] hazards@[j].pos, HAZARD_RADIUS as int),
        decreases hazards@.len() - i,
    {
        if is_near(car.pos, hazards[i].pos, HAZARD_RADIUS) {
            return true;
        }
        i = i + 1;
    }
    false
}

/// Velocity of a projectile fired sideways: the facing turned a quarter
/// turn clockwise (to the right) or counterclockwise (to the left).
pub open spec fn launch_velocity(car: Car, right: bool) -> Point {
    let (rx, ry) = if right {
        (car.direction.y as int, -car.direction.x)
    } else {
        (-car.direction.y, car.direction.x as int)
    };
    Point {
        x: trunc_div(rx * car.projectile_speed, FACING_SCALE as int) as i64,
        y: trunc_div(ry * car.projectile_speed, FACING_SCALE as int) as i64,
    }
}

/// The projectiles fired for one side, and the car's cargo after it.
pub open spec fn fire_one(car: Car, ps: Seq<Projectile>, pressed: bool, right: bool) -> (Car, Seq<Projectile>) {
    if pressed && car.ammo.bananas > 0 {
        (
            Car { ammo: crate::car::Inventory { bananas: (car.ammo.bananas - 1) as u64 }, ..car },
            ps.push(Projectile { pos: car.pos, vel: launch_velocity(car, right), merch: Merch::Banana }),
        )
    } else {
        (car, ps)
    }
}

/// The right-hand shot first, then the left-hand one.
pub open spec fn shoot_spec(car: Car, ps: Seq<Projectile>, fire_right: bool, fire_left: bool) -> (Car, Seq<Projectile>) {
    let (c1, p1) = fire_one(car, ps, fire_right, true);
    fire_one(c1, p1, fire_left, false)
}

fn fire(car: &mut Car, projectiles: &mut Vec<Projectile>, right: bool)
    requires
        old(car).wf(),
    ensures
        (*final(car), final(projectiles)@) == fire_one(*old(car), old(projectiles)@, true, right),
        final(car).wf(),
{
    if car.ammo.get(Merch::Banana) > 0 {
        let (rx, ry) = if right {
            (car.direction.y as i128, -(car.direction.x as i128))
        } else {
            (-(car.direction.y as i128), car.direction.x as i128)
        };
        let sp: i128 = car.projectile_speed as i128;
        proof {
            assert(-1_000_000_000_000_000 <= rx * sp <= 1_000_000_000_000_000) by (nonlinear_arith)
                requires
                    -1_000_000 <= rx <= 1_000_000,
                    0 <= sp <= 1_000_000_000,
            ;
            assert(-1_000_000_000_000_000 <= ry * sp <= 1_000_000_000_000_000) by (nonlinear_arith)
                requires
                    -1_000_000 <= ry <= 1_000_000,
                    0 <= sp <= 1_000_000_000,
            ;
        }
        let vx: i128 = trunc_div_i128(rx * sp, FACING_SCALE as i128);
        let vy: i128 = trunc_div_i128(ry * sp, FACING_SCALE as i128);
        projectiles.push(
            Projectile { pos: car.pos, vel: Point { x: vx as i64, y: vy as i64 }, merch: Merch::Banana },
        );
        car.ammo.take_one(Merch::Banana);
    }
}

/// Fires to the right and to the left, as pressed, while cargo remains.
pub fn detect_shoot_system(car: &mut Car, projectiles: &mut Vec<Projectile>, fire_right: bool, fire_left: bool)
    requires
        old(car).wf(),
    ensures
        (*final(car), final(projectiles)@) == shoot_spec(*old(car), old(projectiles)@, fire_right, fire_left),
        final(car).wf(),
{
    if fire_right {
        fire(car, projectiles, true);
    }
    if fire_left {
        fire(car, projectiles, false);
    }
}

pub open spec fn moved(p: Projectile) -> Projectile {
    Projectile { pos: step_spec(p.pos, p.vel), ..p }
}

/// Moves every projectile by its velocity.
pub fn projectile_update(projectiles: &mut Vec<Projectile>)
    ensures
        final(projectiles)@.len() == old(projectiles)@.len(),
        forall|i: int| 0 <= i < old(projectiles)@.len() ==> #[trigger] final(projectiles)@[i] == moved(old(projectiles)@[i]),
{
    let ghost start = projectiles@;
    let mut i: usize = 0;
    while i < projectiles.len()
        invariant
            i <= projectiles@.len(),
            projectiles@.len() == start.len(),
            forall|j: int| 0 <= j < i ==> #[trigger] projectiles@[j] == moved(start[j]),
            forall|j: int| i <= j < start.len() ==> #[trigger] projectiles@[j] == start[j],
        decreases start.len() - i,
    {
        let p = projectiles[i];
        let np = Projectile { pos: step_point(p.pos, p.vel), ..p };
        projectiles.set(i, np);
        i = i + 1;
    }
}

pub open spec fn serves(p: Projectile, c: Customer) -> bool {
    c.wants == p.merch && near(p.pos, c.pos, DELIVERY_RADIUS as int)
}

/// Index of the first customer `p` serves, or the number of customers.
pub open spec fn first_served(p: Projectile, cs: Seq<Customer>) -> nat
    decreases cs.len(),
{
    if cs.len() == 0 {
        0
    } else if serves(p, cs[0]) {
        0
    } else {
        1 + first_served(p, cs.drop_first())
    }
}

/// Projectiles in order each serve the first customer still present that
/// they reach, who leaves. Every projectile in reach of a matching customer
/// of `start`, the customers when the tick began, is used up, also when
/// an earlier projectile served that customer first. Gives the projectiles
/// and the customers that remain.
pub open spec fn deliver(ps: Seq<Projectile>, start: Seq<Customer>, cs: Seq<Customer>) -> (
    Seq<Projectile>,
    Seq<Customer>,
)
    decreases ps.len(),
{
    if ps.len() == 0 {
        (ps, cs)
    } else {
        let k = first_served(ps[0], cs);
        let left = if k < cs.len() {
            cs.remove(k as int)
        } else {
            cs
        };
        let (rest, remain) = deliver(ps.drop_first(), start, left);
        if first_served(ps[0], start) < start.len() {
            (rest, remain)
        } else {
            (seq![ps[0]] + rest, remain)
        }
    }
}

pub open spec fn hits_wall(p: Projectile, obs: Seq<Obstacle>) -> bool {
    exists|i: int| 0 <= i < obs.len() && near(p.pos, #[trigger] obs[i].pos, WALL_RADIUS as int)
}

/// The projectiles that no wall stops, in order.
pub open spec fn clear_of_walls(ps: Seq<Projectile>, obs: Seq<Obstacle>) -> Seq<Projectile>
    decreases ps.len(),
{
    if ps.len() == 0 {
        ps
    } else {
        clear_of_walls(ps.drop_last(), obs) + if hits_wall(ps.last(), obs) {
            Seq::empty()
        } else {
            seq![ps.last()]
        }
    }
}

proof fn lemma_first_served(p: Projectile, cs: Seq<Customer>, k: int)
    requires
        0 <= k <= cs.len(),
        forall|j: int| 0 <= j < k ==> !#[trigger] serves(p, cs[j]),
        k < cs.len() ==> serves(p, cs[k]),
    ensures
        first_served(p, cs) == k,
    decreases k,
{
    if k > 0 {
        assert forall|j: int| 0 <= j < k - 1 implies !#[trigger] serves(p, cs.drop_first()[j]) by {
            assert(cs.drop_first()[j] == cs[j + 1]);
        }
        if k - 1 < cs.drop_first().len() {
            assert(cs.drop_first()[k - 1] == cs[k]);
        }
        assert(!serves(p, cs[0]));
        lemma_first_served(p, cs.drop_first(), k - 1);
    }
}

fn find_served(p: &Projectile, customers: &Vec<Customer>) -> (k: usize)
    ensures
        k == first_served(*p, customers@),
        k <= customers@.len(),
{
    let mut k: usize = 0;
    while k < customers.len()
        invariant
            k <= customers@.len(),
            forall|j: int| 0 <= j < k ==> !#[trigger] serves(*p, customers@[j]),
        decreases customers@.len() - k,
    {
        let c = &customers[k];
        if c.wants == p.merch && is_near(p.pos, c.pos, DELIVERY_RADIUS) {
            proof {
                lemma_first_served(*p, customers@, k as int);
            }
            return k;
        }
        k = k + 1;
    }
    proof {
        lemma_first_served(*p, customers@, k as int);
    }
    k
}

fn near_any_wall(p: &Projectile, obstacles: &Vec<Obstacle>) -> (r: bool)
    ensures
        r == hits_wall(*p, obstacles@),
{
    let mut i: usize = 0;
    while i < obstacles.len()
        invariant
            i <= obstacles@.len(),
            forall|j: int| 0 <= j < i ==> !near(p.pos, #[trigger] obstacles@[j].pos, WALL_RADIUS as int),
        decreases obstacles@.len() - i,
    {
        if is_near(p.pos, obstacles[i].pos, WALL_RADIUS) {
            return true;
        }
        i = i + 1;
    }
    false
}

/// Resolves hits: projectiles serve customers, then walls stop projectiles.
pub fn detect_projectile_hit(
    projectiles: &mut Vec<Projectile>,
    customers: &mut Vec<Customer>,
    obstacles: &Vec<Obstacle>,
)
    ensures
        final(customers)@ == deliver(old(projectiles)@, old(customers)@, old(customers)@).1,
        final(projectiles)@ == clear_of_walls(
            deliver(old(projectiles)@, old(customers)@, old(customers)@).0,
            obstacles@,
        ),
{
    let ghost ps = projectiles@;
    let ghost cs0 = customers@;
    let mut used: Vec<bool> = Vec::new();
    let mut i: usize = 0;
    while i < projectiles.len()
        invariant
            ps == projectiles@,
            cs0 == customers@,
            i <= ps.len(),
            used@.len() == i,
            forall|j: int| 0 <= j < i ==> used@[j] == (first_served(#[trigger] ps[j], cs0) < cs0.len()),
        decreases ps.len() - i,
    {
        let k = find_served(&projectiles[i], customers);
        used.push(k < customers.len());
        i = i + 1;
    }
    let mut kept: Vec<Projectile> = Vec::new();
    let mut i: usize = 0;
    assert(ps.skip(0) =~= ps);
    assert(kept@ + deliver(ps, cs0, cs0).0 =~= deliver(ps, cs0, cs0).0);
    while i < projectiles.len()
        invariant
            ps == projectiles@,
            i <= ps.len(),
            used@.len() == ps.len(),
            forall|j: int| 0 <= j < ps.len() ==> used@[j] == (first_served(#[trigger] ps[j], cs0) < cs0.len()),
            deliver(ps, cs0, cs0) == (kept@ + deliver(ps.skip(i as int), cs0, customers@).0, deliver(
                ps.skip(i as int),
                cs0,
                customers@,
            ).1),
        decreases ps.len() - i,
    {
        let p = projectiles[i];
        let ghost rest = ps.skip(i as int);
        let ghost cs = customers@;
        assert(rest.drop_first() =~= ps.skip(i + 1));
        assert(rest[0] == p);
        assert(used@[i as int] == (first_served(ps[i as int], cs0) < cs0.len()));
        let k = find_served(&p, customers);
        if k < customers.len() {
            customers.remove(k);
        }
        if !used[i] {
            let ghost before = kept@;
            kept.push(p);
            let ghost d = deliver(ps.skip(i + 1), cs0, customers@).0;
            assert(before + (seq![p] + d) =~= kept@ + d);
        }
        i = i + 1;
    }
    assert(ps.skip(ps.len() as int) =~= Seq::<Projectile>::empty());
    let ghost delivered = kept@;
    let mut out: Vec<Projectile> = Vec::new();
    let mut j: usize = 0;
    while j < kept.len()
        invariant
            delivered == kept@,
            j <= delivered.len(),
            out@ == clear_of_walls(delivered.take(j as int), obstacles@),
        decreases delivered.len() - j,
    {
        assert(delivered.take(j + 1).drop_last() =~= delivered.take(j as int));
        let p = kept[j];
        if !near_any_wall(&p, obstacles) {
            out.push(p);
        }
        j = j + 1;
    }
    assert(delivered.take(delivered.len() as int) =~= delivered);
    *projectiles = out;
}

/// Whether the car has crossed a goal line within its radius.
pub open spec fn reached(car: Car, g: Goal) -> bool {
    car.pos.y > g.pos.y && abs(car.pos.x - g.pos.x) < g.radius
}

pub open spec fn goal_reached(car: Car, goals: Seq<Goal>) -> bool {
    exists|i: int| 0 <= i < goals.len() && #[trigger] reached(car, goals[i])
}

pub fn check_in_goal(car: &Car, goals: &Vec<Goal>) -> (r: bool)
    ensures
        r == goal_reached(*car, goals@),
{
    let mut i: usize = 0;
    while i < goals.len()
        invariant
            i <= goals@.len(),
            forall|j: int| 0 <= j < i ==> !#[trigger] reached(*car, goals@[j]),
        decreases goals@.len() - i,
    {
        let g = &goals[i];
        let dx: i128 = car.pos.x as i128 - g.pos.x as i128;
        if car.pos.y > g.pos.y && -(g.radius as i128) < dx && dx < g.radius as i128 {
            assert(reached(*car, goals@[i as int]));
            return true;
        }
        i = i + 1;
    }
    false
}

proof fn lemma_trunc_div_odd(a: int, d: int)
    requires
        d > 0,
    ensures
        trunc_div(-a, d) == -trunc_div(a, d),
{
}

proof fn lemma_trunc_div_bound(a: int, d: int, b: int)
    requires
        d > 0,
        -b <= a <= b,
    ensures
        -b <= trunc_div(a, d) <= b,
{
    if a >= 0 {
        assert(a / d <= a) by (nonlinear_arith)
            requires
                a >= 0,
                d > 0,
        ;
    } else {
        assert((-a) / d <= -a) by (nonlinear_arith)
            requires
                -a > 0,
                d > 0,
        ;
    }
}

/// Walls pushing opposite ways, placed symmetrically either side of the
/// car, meet mirrored approaches with mirrored bounces: the same contact,
/// and lateral velocities after the bounce equal and opposite. Away from
/// the world's edge, where a move is clamped, the car's lateral moves are
/// mirrored as well, and its forward moves equal.
pub proof fn lemma_bounce_symmetry(car: Car, d: int, dy: int, dir: i64, vx: i64)
    requires
        car.wf(),
        dir == 1 || dir == -1,
        -car.top_speed <= vx <= car.top_speed,
        i64::MIN <= car.pos.x + d <= i64::MAX,
        i64::MIN <= car.pos.x - d <= i64::MAX,
        i64::MIN <= car.pos.y + dy <= i64::MAX,
        -WORLD_LIMIT + 2 * car.top_speed <= car.pos.x <= WORLD_LIMIT - 2 * car.top_speed,
    ensures
        ({
            let a = Obstacle { pos: Point { x: (car.pos.x + d) as i64, y: (car.pos.y + dy) as i64 }, bounce_dir: dir };
            let b = Obstacle { pos: Point { x: (car.pos.x - d) as i64, y: (car.pos.y + dy) as i64 }, bounce_dir: (-dir) as i64 };
            let ca = Car { vel: Point { x: vx, y: car.vel.y }, ..car };
            let cb = Car { vel: Point { x: (-vx) as i64, y: car.vel.y }, ..car };
            &&& touches(ca, a) == touches(cb, b)
            &&& bounce_one(ca, a).vel.x == -bounce_one(cb, b).vel.x
            &&& bounce_one(ca, a).vel.y == bounce_one(cb, b).vel.y
            &&& bounce_one(ca, a).pos.x - car.pos.x == -(bounce_one(cb, b).pos.x - car.pos.x)
            &&& bounce_one(ca, a).pos.y == bounce_one(cb, b).pos.y
        }),
{
    let a = Obstacle { pos: Point { x: (car.pos.x + d) as i64, y: (car.pos.y + dy) as i64 }, bounce_dir: dir };
    let b = Obstacle { pos: Point { x: (car.pos.x - d) as i64, y: (car.pos.y + dy) as i64 }, bounce_dir: (-dir) as i64 };
    let ca = Car { vel: Point { x: vx, y: car.vel.y }, ..car };
    let cb = Car { vel: Point { x: (-vx) as i64, y: car.vel.y }, ..car };
    let top = car.top_speed as int;
    assert((-dir) * (-vx) == dir * vx) by (nonlinear_arith);
    assert(-105 * top <= -90 * vx + 15 * dir * top <= 105 * top) by (nonlinear_arith)
        requires
            dir == 1 || dir == -1,
            -top <= vx <= top,
            0 <= top,
    ;
    assert(-90 * (-vx) + 15 * (-dir) * top == -(-90 * vx + 15 * dir * top)) by (nonlinear_arith);
    let n = -90 * vx + 15 * dir * top;
    lemma_trunc_div_odd(n, 100);
    lemma_trunc_div_bound(n, 100, 105 * top);
    let na = trunc_div(n, 100);
    lemma_trunc_div_odd(6 * na, 10);
    assert(6 * (-na) == -(6 * na));
    assert(-2 * top <= na <= 2 * top) by {
        if n >= 0 {
            assert(n / 100 <= 2 * top) by (nonlinear_arith)
                requires
                    0 <= n <= 105 * top,
            ;
        } else {
            assert((-n) / 100 <= 2 * top) by (nonlinear_arith)
                requires
                    0 < -n <= 105 * top,
            ;
        }
    }
}

/// One projectile serves at most one customer: the first it reaches, who
/// then leaves with the projectile; with no customer in reach, the
/// customers and the projectile stay.
pub proof fn lemma_delivery_serves_one(p: Projectile, cs: Seq<Customer>)
    ensures
        first_served(p, cs) < cs.len() ==> deliver(seq![p], cs, cs).1 == cs.remove(
            first_served(p, cs) as int,
        ) && deliver(seq![p], cs, cs).1.len() == cs.len() - 1 && deliver(seq![p], cs, cs).0.len() == 0,
        first_served(p, cs) >= cs.len() ==> deliver(seq![p], cs, cs).1 == cs && deliver(seq![p], cs, cs).0
            == seq![p],
{
    let ps = seq![p];
    assert(ps.drop_first() =~= Seq::<Projectile>::empty());
    let k = first_served(p, cs);
    assert(ps[0] == p);
    let e = ps.drop_first();
    if k >= cs.len() {
        assert(deliver(e, cs, cs) == (e, cs));
        assert(seq![p] + e =~= seq![p]);
    } else {
        assert(deliver(e, cs, cs.remove(k as int)) == (e, cs.remove(k as int)));
    }
}

/// Two projectiles in reach of the same lone customer are both used up;
/// the customer is served once.
pub proof fn lemma_shared_target_consumes_both(p: Projectile, q: Projectile, c: Customer)
    requires
        serves(p, c),
        serves(q, c),
    ensures
        deliver(seq![p, q], seq![c], seq![c]) == (Seq::<Projectile>::empty(), Seq::<Customer>::empty()),
{
    let ps = seq![p, q];
    let cs = seq![c];
    assert(cs[0] == c);
    assert(first_served(p, cs) == 0);
    assert(first_served(q, cs) == 0);
    let left = cs.remove(0);
    assert(left =~= Seq::<Customer>::empty());
    let tail = ps.drop_first();
    assert(ps[0] == p);
    assert(tail.len() == 1 && tail[0] == q);
    let none = tail.drop_first();
    assert(none.len() == 0);
    assert(first_served(q, left) == 0);
    assert(deliver(none, cs, left) == (none, left));
    assert(deliver(tail, cs, left) == (none, left));
    assert(none =~= Seq::<Projectile>::empty());
}

} // verus!
