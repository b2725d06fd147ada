//! The car: its state, its cargo and the integration of one physics tick.
use vstd::prelude::*;
use crate::course::Merch;
use crate::geometry::{
    Point, UNIT, WORLD_LIMIT, in_world, norm_sq, trunc_div, step_spec, step_point, trunc_div_i128,
    isqrt,
};
use crate::input::Inputs;

verus! {

/// Fixed-point scale of the facing vector: a unit vector has this length.
pub const FACING_SCALE: i64 = 1_000_000;

/// Largest speed, acceleration or projectile speed a car may be given.
pub const MAX_SPEED: i64 = 1_000_000_000;

/// Remaining cargo, by kind.
#[derive(Clone, Copy, Debug, PartialEq, Eq, Structural)]
pub struct Inventory {
    pub bananas: u64,
}

impl Inventory {
    pub open spec fn count(&self, kind: Merch) -> nat {
        match kind {
            Merch::Banana => self.bananas as nat,
        }
    }

    pub fn get(&self, kind: Merch) -> (r: u64)
        ensures
            r == self.count(kind),
    {
        match kind {
            Merch::Banana => self.bananas,
        }
    }

    /// Removes one item of `kind` if there is one; never goes below zero.
    pub fn take_one(&mut self, kind: Merch) -> (taken: bool)
        ensures
            taken == (old(self).count(kind) > 0),
            final(self).count(kind) == if taken {
                old(self).count(kind) - 1
            } else {
                old(self).count(kind) as int
            },
    {
        match kind {
            Merch::Banana => {
                if self.bananas > 0 {
                    self.bananas = self.bananas - 1;
                    true
                } else {
                    false
                }
            },
        }
    }
}

/// The cargo a car starts the first level with.
pub fn lv1_ammo() -> (r: Inventory)
    ensures
        r.count(Merch::Banana) == 10,
{
    Inventory { bananas: 10 }
}

/// The player's car. `direction` is its facing, of length about
/// `FACING_SCALE`; the strengths are in millionths.
#[derive(Clone, Copy, Debug, PartialEq, Eq, Structural)]
pub struct Car {
    pub pos: Point,
    pub vel: Point,
    pub direction: Point,
    pub base_acc: i64,
    pub top_speed: i64,
    pub steer_strength: i64,
    pub drift_strength: i64,
    pub projectile_speed: i64,
    pub ammo: Inventory,
    pub frames_elapsed: u64,
    pub hard_mode: bool,
}

/// Which artwork the car is drawn with.
#[derive(Clone, Copy, Debug, PartialEq, Eq, Structural)]
pub enum CarSprite {
    Center,
    Left,
    Right,
}

/// What the trigonometric part of steering yields for one tick: the facing
/// turned by the steering angle, and the drift correction of the velocity.
#[derive(Clone, Copy, Debug, PartialEq, Eq, Structural)]
pub struct Steering {
    pub facing: Point,
    pub drift: Point,
}

pub open spec fn facing_ok(d: Point) -> bool {
    -FACING_SCALE <= d.x <= FACING_SCALE && -FACING_SCALE <= d.y <= FACING_SCALE
}

impl Car {
    pub open spec fn wf(&self) -> bool {
        &&& in_world(self.pos)
        &&& 0 <= self.top_speed <= MAX_SPEED
        &&& -self.top_speed <= self.vel.x <= self.top_speed
        &&& -self.top_speed <= self.vel.y <= self.top_speed
        &&& facing_ok(self.direction)
        &&& 0 <= self.base_acc <= MAX_SPEED
        &&& 0 <= self.projectile_speed <= MAX_SPEED
    }
}

impl Steering {
    pub open spec fn wf(&self) -> bool {
        &&& facing_ok(self.facing)
        &&& -MAX_SPEED <= self.drift.x <= MAX_SPEED
        &&& -MAX_SPEED <= self.drift.y <= MAX_SPEED
    }
}

/// The car the first level starts with, at rest and facing forward.
pub open spec fn fresh_car() -> Car {
    Car {
        pos: Point { x: (100 * UNIT) as i64, y: 0 },
        vel: Point { x: 0, y: 0 },
        direction: Point { x: 0, y: FACING_SCALE },
        base_acc: 700,
        top_speed: (80 * UNIT) as i64,
        steer_strength: 1200,
        drift_strength: 60_000,
        projectile_speed: (100 * UNIT) as i64,
        ammo: Inventory { bananas: 10 },
        frames_elapsed: 0,
        hard_mode: false,
    }
}

pub fn setup_car() -> (r: Car)
    ensures
        r == fresh_car(),
        r.wf(),
        r.ammo.count(Merch::Banana) == 10,
{
    Car {
        pos: Point { x: 100 * UNIT, y: 0 },
        vel: Point { x: 0, y: 0 },
        direction: Point { x: 0, y: FACING_SCALE },
        base_acc: 700,
        top_speed: 80 * UNIT,
        steer_strength: 1200,
        drift_strength: 60_000,
        projectile_speed: 100 * UNIT,
        ammo: lv1_ammo(),
        frames_elapsed: 0,
        hard_mode: false,
    }
}

pub open spec fn is_sqrt_floor(n: nat, r: nat) -> bool {
    r * r <= n < (r + 1) * (r + 1)
}

/// The floor of the square root of `n`.
pub open spec fn sqrt_floor(n: nat) -> nat {
    choose|r: nat| #[trigger] is_sqrt_floor(n, r)
}

/// The ceiling of the square root of `n`.
pub open spec fn sqrt_ceil(n: nat) -> nat {
    if sqrt_floor(n) * sqrt_floor(n) == n {
        sqrt_floor(n)
    } else {
        sqrt_floor(n) + 1
    }
}

proof fn lemma_sqrt_floor(n: nat, r: nat)
    requires
        r * r <= n < (r + 1) * (r + 1),
    ensures
        sqrt_floor(n) == r,
{
    let s = sqrt_floor(n);
    assert(is_sqrt_floor(n, r));
    assert(s * s <= n < (s + 1) * (s + 1));
    if s < r {
        assert((s + 1) * (s + 1) <= r * r) by (nonlinear_arith)
            requires
                s < r,
        ;
    } else if s > r {
        assert((r + 1) * (r + 1) <= s * s) by (nonlinear_arith)
            requires
                r < s,
        ;
    }
}

/// Throttle multiplier in thousandths: a tenth of the speed in world units,
/// held between a tenth and one.
pub open spec fn throttle_per_mille(speed: int) -> int {
    if speed / 10 > 1000 {
        1000
    } else if speed / 10 < 100 {
        100
    } else {
        speed / 10
    }
}

/// Velocity added by holding the accelerator.
pub open spec fn throttle_spec(facing: Point, base_acc: int, vel: Point) -> (int, int) {
    let m = throttle_per_mille(sqrt_floor(norm_sq(vel) as nat) as int);
    (
        trunc_div(facing.x * base_acc * m, FACING_SCALE * 1000),
        trunc_div(facing.y * base_acc * m, FACING_SCALE * 1000),
    )
}

pub open spec fn is_still(v: Point) -> bool {
    v.x == 0 && v.y == 0
}

/// Facing after steering: a moving car turns while a steering key is held.
pub open spec fn steered_facing(car: Car, input: Inputs, steering: Steering) -> Point {
    if (input.steer_left || input.steer_right) && !is_still(car.vel) {
        steering.facing
    } else {
        car.direction
    }
}

/// Velocity after throttle and drift correction, before the speed cap.
pub open spec fn raw_velocity(car: Car, input: Inputs, steering: Steering) -> (int, int) {
    let f = steered_facing(car, input, steering);
    let t = throttle_spec(f, car.base_acc as int, car.vel);
    let (tx, ty) = if input.accelerate {
        t
    } else {
        (0int, 0int)
    };
    let (dx, dy) = if is_still(car.vel) {
        (0int, 0int)
    } else {
        (steering.drift.x as int, steering.drift.y as int)
    };
    (car.vel.x + tx - dx, car.vel.y + ty - dy)
}

/// A velocity rescaled to length `top` when it is longer than that.
pub open spec fn capped(vx: int, vy: int, top: int) -> Point {
    let n = vx * vx + vy * vy;
    if n > top * top {
        let l = sqrt_ceil(n as nat) as int;
        Point { x: trunc_div(vx * top, l) as i64, y: trunc_div(vy * top, l) as i64 }
    } else {
        Point { x: vx as i64, y: vy as i64 }
    }
}

/// The car after one physics tick.
pub open spec fn physics_spec(car: Car, input: Inputs, steering: Steering) -> Car {
    let (vx, vy) = raw_velocity(car, input, steering);
    let vel = capped(vx, vy, car.top_speed as int);
    Car { direction: steered_facing(car, input, steering), vel, pos: step_spec(car.pos, vel), ..car }
}

/// Which way the car turns: 1 to the left, -1 to the right, 0 not at all.
/// Left wins when both are held.
pub open spec fn turn_of(input: Inputs) -> int {
    if input.steer_left {
        1
    } else if input.steer_right {
        -1
    } else {
        0
    }
}

pub fn turn_direction(input: &Inputs) -> (r: i64)
    ensures
        r == turn_of(*input),
{
    if input.steer_left {
        1
    } else if input.steer_right {
        -1
    } else {
        0
    }
}

pub open spec fn sprite_for(input: Inputs) -> CarSprite {
    if input.steer_left {
        CarSprite::Left
    } else if input.steer_right {
        CarSprite::Right
    } else {
        CarSprite::Center
    }
}

proof fn lemma_sq_le_implies_abs_le(a: int, b: int)
    requires
        a * a <= b * b,
        0 <= b,
    ensures
        -b <= a <= b,
{
    if a > b {
        assert(b * b < a * a) by (nonlinear_arith)
            requires
                0 <= b < a,
        ;
    }
    if a < -b {
        assert(b * b < a * a) by (nonlinear_arith)
            requires
                0 <= b,
                a < -b,
        ;
    }
}

pub proof fn lemma_trunc_div_square(a: int, d: int)
    requires
        d > 0,
    ensures
        trunc_div(a, d) * trunc_div(a, d) * (d * d) <= a * a,
{
    let m = if a >= 0 {
        a
    } else {
        -a
    };
    let q = m / d;
    assert(0 <= q * d <= m) by (nonlinear_arith)
        requires
            d > 0,
            m >= 0,
            q == m / d,
    ;
    assert(q * q * (d * d) <= m * m) by (nonlinear_arith)
        requires
            0 <= q * d <= m,
    ;
    assert(m * m == a * a) by (nonlinear_arith)
        requires
            m == a || m == -a,
    ;
    assert(trunc_div(a, d) * trunc_div(a, d) == q * q) by (nonlinear_arith)
        requires
            trunc_div(a, d) == q || trunc_div(a, d) == -q,
    ;
}

/// Rescaling by a length at least the vector's never overshoots `top`.
proof fn lemma_rescaled_bound(vx: int, vy: int, top: int, l: int)
    requires
        0 <= top,
        0 < l,
        vx * vx + vy * vy <= l * l,
    ensures
        trunc_div(vx * top, l) * trunc_div(vx * top, l) + trunc_div(vy * top, l) * trunc_div(vy * top, l)
            <= top * top,
{
    let qx = trunc_div(vx * top, l);
    let qy = trunc_div(vy * top, l);
    lemma_trunc_div_square(vx * top, l);
    lemma_trunc_div_square(vy * top, l);
    assert((vx * top) * (vx * top) + (vy * top) * (vy * top) == (vx * vx + vy * vy) * (top * top))
        by (nonlinear_arith);
    assert((vx * vx + vy * vy) * (top * top) <= (l * l) * (top * top)) by (nonlinear_arith)
        requires
            vx * vx + vy * vy <= l * l,
    ;
    assert(qx * qx + qy * qy <= top * top) by (nonlinear_arith)
        requires
            (qx * qx) * (l * l) + (qy * qy) * (l * l) <= (l * l) * (top * top),
            0 < l,
    ;
}

/// Caps a velocity at `top`, keeping its direction as closely as integers allow.
fn cap_velocity(vx: i128, vy: i128, top: i64) -> (r: Point)
    requires
        -4 * MAX_SPEED <= vx <= 4 * MAX_SPEED,
        -4 * MAX_SPEED <= vy <= 4 * MAX_SPEED,
        0 <= top <= MAX_SPEED,
    ensures
        r == capped(vx as int, vy as int, top as int),
        norm_sq(r) <= top * top,
        -top <= r.x <= top,
        -top <= r.y <= top,
{
    proof {
        crate::geometry::lemma_square_bound(vx as int, 4_000_000_000);
        crate::geometry::lemma_square_bound(vy as int, 4_000_000_000);
        crate::geometry::lemma_square_bound(top as int, 1_000_000_000);
    }
    let n: i128 = vx * vx + vy * vy;
    let t: i128 = top as i128;
    if n > t * t {
        let f: u64 = isqrt(n as u128);
        proof {
            lemma_sqrt_floor(n as nat, f as nat);
            assert(f <= 8 * MAX_SPEED) by {
                if f > 8 * MAX_SPEED {
                    assert(f * f > 64 * MAX_SPEED * MAX_SPEED) by (nonlinear_arith)
                        requires
                            f > 8 * MAX_SPEED,
                    ;
                }
            }
        }
        let l: i128 = if (f as i128) * (f as i128) == n {
            f as i128
        } else {
            f as i128 + 1
        };
        assert(l * l >= n) by (nonlinear_arith)
            requires
                l == f || l == f + 1,
                n < (f + 1) * (f + 1),
                l == f ==> f * f == n,
        ;
        assert(l > 0) by (nonlinear_arith)
            requires
                l * l >= n,
                n > t * t,
                t >= 0,
                l >= 0,
        ;
        proof {
            lemma_rescaled_bound(vx as int, vy as int, top as int, l as int);
            let ex = trunc_div(vx * top, l as int);
            let ey = trunc_div(vy * top, l as int);
            assert(ex * ex >= 0 && ey * ey >= 0) by (nonlinear_arith);
            lemma_sq_le_implies_abs_le(trunc_div(vx * top, l as int), top as int);
            lemma_sq_le_implies_abs_le(trunc_div(vy * top, l as int), top as int);
            assert(-4 * MAX_SPEED * MAX_SPEED <= vx * t <= 4 * MAX_SPEED * MAX_SPEED) by (nonlinear_arith)
                requires
                    -4 * MAX_SPEED <= vx <= 4 * MAX_SPEED,
                    0 <= t <= MAX_SPEED,
            ;
            assert(-4 * MAX_SPEED * MAX_SPEED <= vy * t <= 4 * MAX_SPEED * MAX_SPEED) by (nonlinear_arith)
                requires
                    -4 * MAX_SPEED <= vy <= 4 * MAX_SPEED,
                    0 <= t <= MAX_SPEED,
            ;
        }
        let qx: i128 = trunc_div_i128(vx * t, l);
        let qy: i128 = trunc_div_i128(vy * t, l);
        Point { x: qx as i64, y: qy as i64 }
    } else {
        proof {
            assert(vx * vx <= t * t);
            assert(vy * vy <= t * t);
            lemma_sq_le_implies_abs_le(vx as int, t as int);
            lemma_sq_le_implies_abs_le(vy as int, t as int);
        }
        Point { x: vx as i64, y: vy as i64 }
    }
}

/// One physics tick: steering, throttle, drift correction, speed cap and
/// the move. `steering` carries the trigonometric part of the tick.
pub fn sprite_movement(car: &mut Car, input: &Inputs, steering: &Steering) -> (sprite: CarSprite)
    requires
        old(car).wf(),
        steering.wf(),
    ensures
        *final(car) == physics_spec(*old(car), *input, *steering),
        final(car).wf(),
        norm_sq(final(car).vel) <= old(car).top_speed * old(car).top_speed,
        is_still(old(car).vel) && !input.accelerate ==> final(car).vel == old(car).vel
            && final(car).pos == old(car).pos && final(car).direction == old(car).direction,
        sprite == sprite_for(*input),
{
    let still = car.vel.x == 0 && car.vel.y == 0;
    let sprite = if input.steer_left {
        CarSprite::Left
    } else if input.steer_right {
        CarSprite::Right
    } else {
        CarSprite::Center
    };
    if (input.steer_left || input.steer_right) && !still {
        car.direction = steering.facing;
    }
    let mut vx: i128 = car.vel.x as i128;
    let mut vy: i128 = car.vel.y as i128;
    if input.accelerate {
        proof {
            crate::geometry::lemma_square_bound(vx as int, 1_000_000_000);
            crate::geometry::lemma_square_bound(vy as int, 1_000_000_000);
        }
        let n: u128 = (vx * vx + vy * vy) as u128;
        let speed: u64 = isqrt(n);
        proof {
            lemma_sqrt_floor(n as nat, speed as nat);
        }
        let mut m: i128 = speed as i128 / 10;
        if m > 1000 {
            m = 1000;
        } else if m < 100 {
            m = 100;
        }
        let dx: i128 = car.direction.x as i128;
        let dy: i128 = car.direction.y as i128;
        let acc: i128 = car.base_acc as i128;
        proof {
            assert(-1_000_000_000_000_000 <= dx * acc <= 1_000_000_000_000_000) by (nonlinear_arith)
                requires
                    -1_000_000 <= dx <= 1_000_000,
                    0 <= acc <= 1_000_000_000,
            ;
            assert(-1_000_000_000_000_000 <= dy * acc <= 1_000_000_000_000_000) by (nonlinear_arith)
                requires
                    -1_000_000 <= dy <= 1_000_000,
                    0 <= acc <= 1_000_000_000,
            ;
            assert(-1_000_000_000_000_000_000 <= (dx * acc) * m <= 1_000_000_000_000_000_000) by (nonlinear_arith)
                requires
                    -1_000_000_000_000_000 <= dx * acc <= 1_000_000_000_000_000,
                    100 <= m <= 1000,
            ;
            assert(-1_000_000_000_000_000_000 <= (dy * acc) * m <= 1_000_000_000_000_000_000) by (nonlinear_arith)
                requires
                    -1_000_000_000_000_000 <= dy * acc <= 1_000_000_000_000_000,
                    100 <= m <= 1000,
            ;
        }
        let tx: i128 = trunc_div_i128(dx * acc * m, 1_000_000_000);
        let ty: i128 = trunc_div_i128(dy * acc * m, 1_000_000_000);
        proof {
            assert(-MAX_SPEED <= tx <= MAX_SPEED);
            assert(-MAX_SPEED <= ty <= MAX_SPEED);
        }
        vx = vx + tx;
        vy = vy + ty;
    }
    if !still {
        vx = vx - steering.drift.x as i128;
        vy = vy - steering.drift.y as i128;
    }
    let vel = cap_velocity(vx, vy, car.top_speed);
    car.vel = vel;
    car.pos = step_point(car.pos, vel);
    sprite
}

} // verus!
