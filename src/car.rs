//! Car state, driving input and the per-tick physics update.
use vstd::prelude::*;
use vstd::math::abs;
use crate::fixed::{
    FX_ONE, Vector2, tdiv, fx, clamp_spec, clamp, mul_div, fits_i64, is_ceil_sqrt, ceil_sqrt,
    lemma_tdiv_abs,
};
use crate::track::TrackConfig;

verus! {

/// A full turn, 2π, in micro-radians.
pub const TAU_FX: i64 = 6_283_185;

/// Turn inputs smaller than this (1e-4) count as no input.
pub const DEAD_ZONE: i64 = 100;

/// Upper bound on every physical constant: one million units.
pub const CONFIG_LIMIT: i64 = 1_000_000_000_000;

/// Upper bound on a time step: 1000 seconds, in microseconds.
pub const DT_LIMIT: i64 = 1_000_000_000;

/// Upper bound on a position coordinate, so that a step cannot overflow.
pub const POSITION_LIMIT: i64 = 9_000_000_000_000_000_000;

/// Physical constants of the simulation, all in fixed point.
#[derive(Clone, Copy, Debug, PartialEq, Eq, Structural)]
pub struct CarPhysicsConfig {
    /// Radians per second squared gained while steering.
    pub rotational_acceleration: i64,
    /// Largest rotational speed, radians per second.
    pub max_rotational_velocity: i64,
    /// Units per second squared gained while accelerating.
    pub forward_acceleration: i64,
    /// Fraction of velocity kept each tick, in `[0, 1]`.
    pub friction: i64,
    /// Share of sideways velocity kept each tick, in `[0, 1]`.
    pub drift_factor: i64,
    /// Largest speed, units per second.
    pub max_forward_velocity: i64,
}

impl CarPhysicsConfig {
    /// All constants non-negative and bounded; friction and drift at most one.
    pub open spec fn wf(&self) -> bool {
        &&& 0 <= self.rotational_acceleration <= CONFIG_LIMIT
        &&& 0 <= self.max_rotational_velocity <= CONFIG_LIMIT
        &&& 0 <= self.forward_acceleration <= CONFIG_LIMIT
        &&& 0 <= self.friction <= FX_ONE
        &&& 0 <= self.drift_factor <= FX_ONE
        &&& 0 <= self.max_forward_velocity <= CONFIG_LIMIT
    }

    /// Whether the constants satisfy `wf`.
    pub fn is_valid(&self) -> (r: bool)
        ensures
            r == self.wf(),
    {
        0 <= self.rotational_acceleration && self.rotational_acceleration <= CONFIG_LIMIT
            && 0 <= self.max_rotational_velocity && self.max_rotational_velocity <= CONFIG_LIMIT
            && 0 <= self.forward_acceleration && self.forward_acceleration <= CONFIG_LIMIT
            && 0 <= self.friction && self.friction <= FX_ONE
            && 0 <= self.drift_factor && self.drift_factor <= FX_ONE
            && 0 <= self.max_forward_velocity && self.max_forward_velocity <= CONFIG_LIMIT
    }

    /// The standard tuning.
    pub open spec fn spec_default() -> CarPhysicsConfig {
        CarPhysicsConfig {
            rotational_acceleration: 50_000_000,
            max_rotational_velocity: TAU_FX,
            forward_acceleration: 200_000_000,
            friction: 970_000,
            drift_factor: 990_000,
            max_forward_velocity: 150_000_000,
        }
    }

    /// The standard tuning: rotational acceleration 50, top rotational speed
    /// 2π, forward acceleration 200, friction 0.97, drift 0.99, top speed 150.
    pub fn new_default() -> (r: CarPhysicsConfig)
        ensures
            r == CarPhysicsConfig::spec_default(),
            r.wf(),
    {
        CarPhysicsConfig {
            rotational_acceleration: 50 * FX_ONE,
            max_rotational_velocity: TAU_FX,
            forward_acceleration: 200 * FX_ONE,
            friction: 970_000,
            drift_factor: 990_000,
            max_forward_velocity: 150 * FX_ONE,
        }
    }
}

impl Default for CarPhysicsConfig {
    fn default() -> (r: CarPhysicsConfig)
        ensures
            r == CarPhysicsConfig::spec_default(),
    {
        CarPhysicsConfig::new_default()
    }
}

impl Default for CarControls {
    fn default() -> (r: CarControls)
        ensures
            r.turn.x == 0 && r.turn.y == 0 && r.accel.x == 0 && r.accel.y == 0,
    {
        CarControls::new_default()
    }
}

impl Default for TrackTransform {
    fn default() -> (r: TrackTransform)
        ensures
            r.position.x == 0 && r.position.y == 0,
            r.rotation == 0,
            r.velocity.x == 0 && r.velocity.y == 0,
            r.rotational_velocity == 0,
    {
        TrackTransform::new_default()
    }
}

/// Marks an entity as a car.
#[derive(Clone, Copy, Debug, PartialEq, Eq, Structural)]
pub struct Car;

/// Marks a car that takes input from the user.
#[derive(Clone, Copy, Debug, PartialEq, Eq, Structural)]
pub struct UserControlled;

/// Marks the player's car.
#[derive(Clone, Copy, Debug, PartialEq, Eq, Structural)]
pub struct Player;

/// Driving input of one car, in fixed point, not yet clamped.
#[derive(Clone, Copy, Debug, PartialEq, Eq, Structural)]
pub struct CarControls {
    /// Turning: `x` is left, `y` is right, each meant to lie in `[0, 1]`.
    pub turn: Vector2,
    /// Acceleration: `x` is forward, `y` is backward, each meant to lie in `[0, 1]`.
    pub accel: Vector2,
}

/// `clamp(clamp(a, 0, 1) - clamp(b, 0, 1), -1, 1)`.
pub open spec fn control_axis(a: int, b: int) -> int {
    clamp_spec(
        clamp_spec(a, 0, FX_ONE as int) - clamp_spec(b, 0, FX_ONE as int),
        -FX_ONE,
        FX_ONE as int,
    )
}

/// The acceleration input: forward minus backward, in `[-1, 1]`.
pub open spec fn accel_control_of(c: CarControls) -> int {
    control_axis(c.accel.x as int, c.accel.y as int)
}

/// The turn input, snapped to zero inside the dead zone.
pub open spec fn turn_control_of(c: CarControls) -> int {
    let t = control_axis(c.turn.x as int, c.turn.y as int);
    if abs(t) < DEAD_ZONE {
        0
    } else {
        t
    }
}

fn control_axis_exec(a: i64, b: i64) -> (r: i64)
    ensures
        r == control_axis(a as int, b as int),
        -FX_ONE <= r <= FX_ONE,
{
    clamp(clamp(a, 0, FX_ONE) - clamp(b, 0, FX_ONE), -FX_ONE, FX_ONE)
}

impl CarControls {
    /// No input at all.
    pub fn new_default() -> (r: CarControls)
        ensures
            r.turn.x == 0 && r.turn.y == 0 && r.accel.x == 0 && r.accel.y == 0,
    {
        CarControls { turn: Vector2::zero(), accel: Vector2::zero() }
    }

    /// Controls from four pressed-or-not keys: each pressed key gives 1.
    pub fn from_keys(forward: bool, backward: bool, left: bool, right: bool) -> (r: CarControls)
        ensures
            r.accel.x == (if forward { FX_ONE } else { 0 }),
            r.accel.y == (if backward { FX_ONE } else { 0 }),
            r.turn.x == (if left { FX_ONE } else { 0 }),
            r.turn.y == (if right { FX_ONE } else { 0 }),
    {
        CarControls {
            turn: Vector2 { x: if left { FX_ONE } else { 0 }, y: if right { FX_ONE } else { 0 } },
            accel: Vector2 {
                x: if forward { FX_ONE } else { 0 },
                y: if backward { FX_ONE } else { 0 },
            },
        }
    }

    /// Normalized acceleration input in `[-1, 1]`: forward minus backward.
    pub fn accel_control(&self) -> (r: i64)
        ensures
            r == accel_control_of(*self),
            -FX_ONE <= r <= FX_ONE,
    {
        control_axis_exec(self.accel.x, self.accel.y)
    }

    /// Normalized turn input in `[-1, 1]`: left minus right, zero inside the dead zone.
    pub fn turn_control(&self) -> (r: i64)
        ensures
            r == turn_control_of(*self),
            -FX_ONE <= r <= FX_ONE,
    {
        let t = control_axis_exec(self.turn.x, self.turn.y);
        if -DEAD_ZONE < t && t < DEAD_ZONE {
            0
        } else {
            t
        }
    }
}

/// A heading: a unit vector rounded toward zero (each part in `[-1, 1]`,
/// length at most one).
pub open spec fn is_heading(h: Vector2) -> bool {
    &&& -FX_ONE <= h.x <= FX_ONE
    &&& -FX_ONE <= h.y <= FX_ONE
    &&& h.norm_sq() <= FX_ONE * FX_ONE
}

/// Whether `h` satisfies `is_heading`.
pub fn is_heading_exec(h: Vector2) -> (r: bool)
    ensures
        r == is_heading(h),
{
    if h.x < -FX_ONE || h.x > FX_ONE || h.y < -FX_ONE || h.y > FX_ONE {
        return false;
    }
    assert(0 <= h.x * h.x <= 1_000_000_000_000 && 0 <= h.y * h.y <= 1_000_000_000_000) by (nonlinear_arith)
        requires
            -1_000_000 <= h.x <= 1_000_000,
            -1_000_000 <= h.y <= 1_000_000,
    ;
    h.x * h.x + h.y * h.y <= FX_ONE * FX_ONE
}

/// Squared length of a pair.
pub open spec fn norm2(v: (int, int)) -> int {
    v.0 * v.0 + v.1 * v.1
}

/// Velocity gained along one heading component: `h * accel * dt * forward_acceleration`.
pub open spec fn thrust(h: int, accel: int, dt: int, forward_acceleration: int) -> int {
    fx(fx(fx(h * accel) * dt) * forward_acceleration)
}

/// `v` plus the thrust along heading `h`.
pub open spec fn accelerated(v: Vector2, h: Vector2, accel: int, config: CarPhysicsConfig, dt: int) -> (int, int) {
    (
        v.x + thrust(h.x as int, accel, dt, config.forward_acceleration as int),
        v.y + thrust(h.y as int, accel, dt, config.forward_acceleration as int),
    )
}

/// `v * friction`.
pub open spec fn with_friction(v: (int, int), friction: int) -> (int, int) {
    (fx(v.0 * friction), fx(v.1 * friction))
}

/// `v` projected onto the heading `h`: `h * (v . h)`.
pub open spec fn projected(v: (int, int), h: Vector2) -> (int, int) {
    let d = fx(v.0 * h.x + v.1 * h.y);
    (fx(h.x * d), fx(h.y * d))
}

/// `a + (b - a) * t`, as `a * (1 - t) + b * t`.
pub open spec fn lerp_fx(a: int, b: int, t: int) -> int {
    fx(a * (FX_ONE - t) + b * t)
}

/// The projection of `v` on `h`, blended back toward `v` by the drift factor.
pub open spec fn drifted(v: (int, int), h: Vector2, drift: int) -> (int, int) {
    let p = projected(v, h);
    (lerp_fx(p.0, v.0, drift), lerp_fx(p.1, v.1, drift))
}

/// The smallest `r` with `n <= r * r`.
pub open spec fn ceil_sqrt_of(n: int) -> int {
    choose|r: int| is_ceil_sqrt(n, r)
}

/// `v` scaled down to length `max` when it is longer.
pub open spec fn limited(v: (int, int), max: int) -> (int, int) {
    if norm2(v) <= max * max {
        v
    } else {
        let l = ceil_sqrt_of(norm2(v));
        (tdiv(v.0 * max, l), tdiv(v.1 * max, l))
    }
}

/// Velocity after one tick: thrust, friction, drift blend, speed limit.
pub open spec fn next_velocity(
    v: Vector2,
    controls: CarControls,
    h: Vector2,
    config: CarPhysicsConfig,
    dt: int,
) -> (int, int) {
    limited(
        drifted(
            with_friction(accelerated(v, h, accel_control_of(controls), config, dt), config.friction as int),
            h,
            config.drift_factor as int,
        ),
        config.max_forward_velocity as int,
    )
}

/// Rotational velocity after one tick with turn input `turn`.
pub open spec fn next_rotational_velocity(rv: int, turn: int, config: CarPhysicsConfig, dt: int) -> int {
    if turn == 0 {
        0
    } else {
        clamp_spec(
            rv + fx(fx(turn * config.rotational_acceleration) * dt),
            -config.max_rotational_velocity,
            config.max_rotational_velocity as int,
        )
    }
}

/// Heading after one tick, wrapped into `[0, 2π)`; kept when not turning.
pub open spec fn next_rotation(rotation: int, new_rv: int, turn: int, dt: int) -> int {
    if turn == 0 {
        rotation
    } else {
        (rotation + fx(new_rv * dt)) % (TAU_FX as int)
    }
}

/// Position, heading and velocities of a car on the track, in fixed point.
#[derive(Clone, Copy, Debug, PartialEq, Eq, Structural)]
pub struct TrackTransform {
    /// Position on the track.
    pub position: Vector2,
    /// Heading in micro-radians.
    pub rotation: i64,
    /// Velocity in micro-units per second.
    pub velocity: Vector2,
    /// Rotational velocity in micro-radians per second.
    pub rotational_velocity: i64,
}

/// What the renderer needs to draw a car.
#[derive(Clone, Copy, Debug, PartialEq, Eq, Structural)]
pub struct RenderTransform {
    pub translation: Vector2,
    pub rotation: i64,
    pub scale: i64,
}

impl TrackTransform {
    /// The state's invariant under `config`: heading in `[0, 2π)`, speeds
    /// within their limits, position away from the integer limits.
    pub open spec fn wf(&self, config: CarPhysicsConfig) -> bool {
        &&& 0 <= self.rotation < TAU_FX
        &&& abs(self.rotational_velocity as int) <= config.max_rotational_velocity
        &&& self.velocity.norm_sq() <= config.max_forward_velocity * config.max_forward_velocity
        &&& abs(self.position.x as int) <= POSITION_LIMIT
        &&& abs(self.position.y as int) <= POSITION_LIMIT
    }

    /// Whether the state satisfies `wf` under `config`.
    pub fn is_valid(&self, config: &CarPhysicsConfig) -> (r: bool)
        requires
            config.wf(),
        ensures
            r == self.wf(*config),
    {
        let vx = self.velocity.x as i128;
        let vy = self.velocity.y as i128;
        let m = config.max_forward_velocity as i128;
        if vx < -m || vx > m || vy < -m || vy > m {
            proof {
                assert(vx * vx + vy * vy > m * m) by (nonlinear_arith)
                    requires
                        vx < -m || vx > m || vy < -m || vy > m,
                        m >= 0,
                ;
            }
            return false;
        }
        assert(0 <= vx * vx <= 1_000_000_000_000_000_000_000_000 && 0 <= vy * vy <= 1_000_000_000_000_000_000_000_000
            && 0 <= m * m <= 1_000_000_000_000_000_000_000_000) by (nonlinear_arith)
            requires
                0 <= m <= 1_000_000_000_000,
                -m <= vx <= m,
                -m <= vy <= m,
        ;
        0 <= self.rotation && self.rotation < TAU_FX
            && -config.max_rotational_velocity <= self.rotational_velocity
            && self.rotational_velocity <= config.max_rotational_velocity
            && vx * vx + vy * vy <= m * m
            && -POSITION_LIMIT <= self.position.x && self.position.x <= POSITION_LIMIT
            && -POSITION_LIMIT <= self.position.y && self.position.y <= POSITION_LIMIT
    }

    /// A car at rest at the origin, heading along `x`.
    pub fn new_default() -> (r: TrackTransform)
        ensures
            r.position.x == 0 && r.position.y == 0,
            r.rotation == 0,
            r.velocity.x == 0 && r.velocity.y == 0,
            r.rotational_velocity == 0,
    {
        TrackTransform {
            position: Vector2::zero(),
            rotation: 0,
            velocity: Vector2::zero(),
            rotational_velocity: 0,
        }
    }

    /// The transform the renderer draws this car with: its position mapped to
    /// the world, its heading unchanged, and the track's scale.
    pub fn render_transform(&self, track: &TrackConfig) -> (r: RenderTransform)
        requires
            fits_i64(track.world_of(self.position).0),
            fits_i64(track.world_of(self.position).1),
        ensures
            (r.translation.x as int, r.translation.y as int) == track.world_of(self.position),
            r.rotation == self.rotation,
            r.scale == track.scale,
    {
        RenderTransform {
            translation: track.track_to_world(self.position),
            rotation: self.rotation,
            scale: track.scale,
        }
    }

    /// First half of a physics tick: turn input drives the rotational
    /// velocity (reset to zero without input), which turns the heading.
    pub fn steer(&mut self, controls: &CarControls, config: &CarPhysicsConfig, dt: i64)
        requires
            config.wf(),
            0 <= dt <= DT_LIMIT,
            old(self).wf(*config),
        ensures
            final(self).rotational_velocity == next_rotational_velocity(
                old(self).rotational_velocity as int,
                turn_control_of(*controls),
                *config,
                dt as int,
            ),
            final(self).rotation == next_rotation(
                old(self).rotation as int,
                final(self).rotational_velocity as int,
                turn_control_of(*controls),
                dt as int,
            ),
            final(self).position == old(self).position,
            final(self).velocity == old(self).velocity,
            final(self).wf(*config),
    {
        let turn = controls.turn_control();
        if turn == 0 {
            self.rotational_velocity = 0;
        } else {
            let racc = config.rotational_acceleration;
            proof {
                lemma_fx_product_bound(turn as int, racc as int, FX_ONE as int, CONFIG_LIMIT as int, CONFIG_LIMIT as int);
            }
            let a = mul_div(turn, racc, FX_ONE);
            proof {
                lemma_fx_product_bound(a as int, dt as int, CONFIG_LIMIT as int, DT_LIMIT as int, 1_000_000_000_000_000);
            }
            let gain = mul_div(a, dt, FX_ONE);
            let max = config.max_rotational_velocity;
            let rv = clamp(self.rotational_velocity + gain, -max, max);
            proof {
                lemma_fx_product_bound(rv as int, dt as int, CONFIG_LIMIT as int, DT_LIMIT as int, 1_000_000_000_000_000);
            }
            let turned = self.rotation + mul_div(rv, dt, FX_ONE);
            let wrapped = match turned.checked_rem_euclid(TAU_FX) {
                Some(r) => r,
                None => 0,
            };
            proof {
                vstd::arithmetic::div_mod::lemma_mod_bound(turned as int, TAU_FX as int);
            }
            self.rotational_velocity = rv;
            self.rotation = wrapped;
        }
    }
    /// Second half of a physics tick, along the heading `heading` (the unit
    /// vector of the current rotation): accelerate along it, apply friction,
    /// blend out sideways slip by the drift factor, limit the speed, and move.
    pub fn drive(&mut self, controls: &CarControls, heading: Vector2, config: &CarPhysicsConfig, dt: i64)
        requires
            config.wf(),
            0 <= dt <= DT_LIMIT,
            is_heading(heading),
            old(self).wf(*config),
        ensures
            (final(self).velocity.x as int, final(self).velocity.y as int) == next_velocity(
                old(self).velocity,
                *controls,
                heading,
                *config,
                dt as int,
            ),
            final(self).position.x == old(self).position.x + fx(final(self).velocity.x * dt),
            final(self).position.y == old(self).position.y + fx(final(self).velocity.y * dt),
            final(self).rotation == old(self).rotation,
            final(self).rotational_velocity == old(self).rotational_velocity,
            final(self).velocity.norm_sq() <= config.max_forward_velocity * config.max_forward_velocity,
    {
        let ac = controls.accel_control();
        let max = config.max_forward_velocity;
        proof {
            lemma_component_bound(self.velocity.x as int, self.velocity.y as int, max as int);
        }
        let v0x = self.velocity.x as i128 + thrust_exec(heading.x, ac, dt, config.forward_acceleration) as i128;
        let v0y = self.velocity.y as i128 + thrust_exec(heading.y, ac, dt, config.forward_acceleration) as i128;
        let (v1x, v1y) = (friction_exec(v0x, config.friction), friction_exec(v0y, config.friction));
        let (px, py) = project_exec(v1x, v1y, heading);
        let v2x = lerp_exec(px, v1x, config.drift_factor);
        let v2y = lerp_exec(py, v1y, config.drift_factor);
        let (v3x, v3y) = limit_exec(v2x, v2y, max);
        proof {
            lemma_component_bound(v3x as int, v3y as int, max as int);
            lemma_fx_product_bound(v3x as int, dt as int, CONFIG_LIMIT as int, DT_LIMIT as int, 1_000_000_000_000_000);
            lemma_fx_product_bound(v3y as int, dt as int, CONFIG_LIMIT as int, DT_LIMIT as int, 1_000_000_000_000_000);
        }
        let vx = v3x as i64;
        let vy = v3y as i64;
        self.velocity = Vector2 { x: vx, y: vy };
        self.position = Vector2 {
            x: self.position.x + mul_div(vx, dt, FX_ONE),
            y: self.position.y + mul_div(vy, dt, FX_ONE),
        };
    }
}

/// `|x|, |y| <= max` when `x * x + y * y <= max * max`.
pub proof fn lemma_component_bound(x: int, y: int, max: int)
    requires
        max >= 0,
        x * x + y * y <= max * max,
    ensures
        abs(x) <= max,
        abs(y) <= max,
{
    assert(y * y >= 0) by (nonlinear_arith);
    assert(x * x >= 0) by (nonlinear_arith);
    assert(abs(x) <= max) by (nonlinear_arith)
        requires
            x * x <= max * max,
            max >= 0,
    ;
    assert(abs(y) <= max) by (nonlinear_arith)
        requires
            y * y <= max * max,
            max >= 0,
    ;
}

fn thrust_exec(h: i64, accel: i64, dt: i64, forward_acceleration: i64) -> (r: i64)
    requires
        -FX_ONE <= h <= FX_ONE,
        -FX_ONE <= accel <= FX_ONE,
        0 <= dt <= DT_LIMIT,
        0 <= forward_acceleration <= CONFIG_LIMIT,
    ensures
        r == thrust(h as int, accel as int, dt as int, forward_acceleration as int),
        abs(r as int) <= 1_000_000_000_000_000,
{
    proof {
        lemma_fx_product_bound(h as int, accel as int, FX_ONE as int, FX_ONE as int, FX_ONE as int);
    }
    let a = mul_div(h, accel, FX_ONE);
    proof {
        lemma_fx_product_bound(a as int, dt as int, FX_ONE as int, DT_LIMIT as int, DT_LIMIT as int);
    }
    let b = mul_div(a, dt, FX_ONE);
    proof {
        lemma_fx_product_bound(b as int, forward_acceleration as int, DT_LIMIT as int, CONFIG_LIMIT as int, 1_000_000_000_000_000);
    }
    mul_div(b, forward_acceleration, FX_ONE)
}

/// `fx(a * b)` on wide integers.
fn fx_wide(a: i128, b: i128) -> (r: i128)
    requires
        abs(a * b) <= 0x1000_0000_0000_0000_0000_0000_0000_0000,
    ensures
        r == fx(a * b),
{
    (a * b) / (FX_ONE as i128)
}

fn friction_exec(v: i128, friction: i64) -> (r: i128)
    requires
        abs(v as int) <= 2_000_000_000_000_000,
        0 <= friction <= FX_ONE,
    ensures
        r == fx(v * friction),
        abs(r as int) <= abs(v as int),
{
    proof {
        lemma_fx_product_bound(v as int, friction as int, 2_000_000_000_000_000, FX_ONE as int, 2_000_000_000_000_000);
        lemma_scale_down(v as int, friction as int);
    }
    fx_wide(v, friction as i128)
}

/// Scaling by a factor in `[0, 1]` does not grow a value.
pub proof fn lemma_scale_down(v: int, t: int)
    requires
        0 <= t <= FX_ONE,
    ensures
        abs(fx(v * t)) <= abs(v),
{
    lemma_tdiv_abs(v * t, FX_ONE as int);
    let m = abs(v);
    let q = abs(fx(v * t));
    assert(abs(v * t) == m * t) by (nonlinear_arith)
        requires
            m == abs(v),
            t >= 0,
    ;
    assert(m * t <= m * FX_ONE) by (nonlinear_arith)
        requires
            m >= 0,
            t <= 1_000_000,
    ;
    assert(q <= m) by (nonlinear_arith)
        requires
            q * 1_000_000 <= m * 1_000_000,
    ;
}

fn project_exec(vx: i128, vy: i128, h: Vector2) -> (r: (i128, i128))
    requires
        abs(vx as int) <= 2_000_000_000_000_000,
        abs(vy as int) <= 2_000_000_000_000_000,
        is_heading(h),
    ensures
        (r.0 as int, r.1 as int) == projected((vx as int, vy as int), h),
        abs(r.0 as int) <= 4_000_000_000_000_000,
        abs(r.1 as int) <= 4_000_000_000_000_000,
{
    proof {
        lemma_fx_product_bound(vx as int, h.x as int, 2_000_000_000_000_000, FX_ONE as int, 2_000_000_000_000_000);
        lemma_fx_product_bound(vy as int, h.y as int, 2_000_000_000_000_000, FX_ONE as int, 2_000_000_000_000_000);
    }
    let dot = vx * (h.x as i128) + vy * (h.y as i128);
    let d = dot / (FX_ONE as i128);
    proof {
        lemma_fx_product_bound(dot as int, 1, 4_000_000_000_000_000_000_000, 1, 4_000_000_000_000_000);
        assert(dot * 1 == dot);
        lemma_fx_product_bound(h.x as int, d as int, FX_ONE as int, 4_000_000_000_000_000, 4_000_000_000_000_000);
        lemma_fx_product_bound(h.y as int, d as int, FX_ONE as int, 4_000_000_000_000_000, 4_000_000_000_000_000);
    }
    (fx_wide(h.x as i128, d), fx_wide(h.y as i128, d))
}

fn lerp_exec(a: i128, b: i128, t: i64) -> (r: i128)
    requires
        abs(a as int) <= 4_000_000_000_000_000,
        abs(b as int) <= 2_000_000_000_000_000,
        0 <= t <= FX_ONE,
    ensures
        r == lerp_fx(a as int, b as int, t as int),
        abs(r as int) <= 6_000_000_000_000_000,
{
    let u = FX_ONE - t;
    proof {
        lemma_fx_product_bound(a as int, u as int, 4_000_000_000_000_000, FX_ONE as int, 4_000_000_000_000_000);
        lemma_fx_product_bound(b as int, t as int, 2_000_000_000_000_000, FX_ONE as int, 2_000_000_000_000_000);
    }
    let s = a * (u as i128) + b * (t as i128);
    proof {
        lemma_fx_product_bound(s as int, 1, 6_000_000_000_000_000_000_000, 1, 6_000_000_000_000_000);
        assert(s * 1 == s);
    }
    s / (FX_ONE as i128)
}

/// `ceil_sqrt_of` names the unique smallest root.
pub proof fn lemma_ceil_sqrt_unique(n: int, r: int)
    requires
        is_ceil_sqrt(n, r),
    ensures
        ceil_sqrt_of(n) == r,
{
    let c = ceil_sqrt_of(n);
    assert(is_ceil_sqrt(n, c));
    if c < r {
        assert(c * c <= (r - 1) * (r - 1)) by (nonlinear_arith)
            requires
                0 <= c <= r - 1,
        ;
    } else if r < c {
        assert(r * r <= (c - 1) * (c - 1)) by (nonlinear_arith)
            requires
                0 <= r <= c - 1,
        ;
    }
}

fn limit_exec(x: i128, y: i128, max: i64) -> (r: (i128, i128))
    requires
        abs(x as int) <= 6_000_000_000_000_000,
        abs(y as int) <= 6_000_000_000_000_000,
        0 <= max <= CONFIG_LIMIT,
    ensures
        (r.0 as int, r.1 as int) == limited((x as int, y as int), max as int),
        norm2((r.0 as int, r.1 as int)) <= max * max,
{
    proof {
        lemma_fx_product_bound(x as int, x as int, 6_000_000_000_000_000, 6_000_000_000_000_000, 36_000_000_000_000_000_000_000_000);
        lemma_fx_product_bound(y as int, y as int, 6_000_000_000_000_000, 6_000_000_000_000_000, 36_000_000_000_000_000_000_000_000);
        assert(x * x >= 0 && y * y >= 0) by (nonlinear_arith);
    }
    let n = x * x + y * y;
    let m = max as i128;
    assert(0 <= m * m <= 1_000_000_000_000_000_000_000_000) by (nonlinear_arith)
        requires
            0 <= m <= 1_000_000_000_000,
    ;
    assert(0 <= n <= 0x4000_0000_0000_0000_0000_0000_0000_0000);
    if n <= m * m {
        return (x, y);
    }
    let l = ceil_sqrt(n as u128);
    proof {
        if l == 0 {
            assert(l * l == 0);
        }
        assert(l <= 0x8000_0000_0000_0000) by (nonlinear_arith)
            requires
                l >= 1,
                (l - 1) * (l - 1) < 0x4000_0000_0000_0000_0000_0000_0000_0000,
        ;
        lemma_ceil_sqrt_unique(n as int, l as int);
        lemma_limit_shrinks(x as int, y as int, max as int, l as int);
        lemma_fx_product_bound(x as int, max as int, 6_000_000_000_000_000, CONFIG_LIMIT as int, 6_000_000_000_000_000_000_000);
        lemma_fx_product_bound(y as int, max as int, 6_000_000_000_000_000, CONFIG_LIMIT as int, 6_000_000_000_000_000_000_000);
    }
    let li = l as i128;
    ((x * m) / li, (y * m) / li)
}

/// Scaling `(x, y)` by `max / l`, with `l` at least its length, gives a
/// vector of length at most `max`.
pub proof fn lemma_limit_shrinks(x: int, y: int, max: int, l: int)
    requires
        max >= 0,
        l > 0,
        x * x + y * y <= l * l,
    ensures
        norm2((tdiv(x * max, l), tdiv(y * max, l))) <= max * max,
{
    let a = tdiv(x * max, l);
    let b = tdiv(y * max, l);
    lemma_tdiv_abs(x * max, l);
    lemma_tdiv_abs(y * max, l);
    assert((x * max) * (x * max) == (x * x) * (max * max)) by (nonlinear_arith);
    assert((y * max) * (y * max) == (y * y) * (max * max)) by (nonlinear_arith);
    assert((a * a + b * b) * (l * l) <= (x * x + y * y) * (max * max)) by (nonlinear_arith)
        requires
            a * a * (l * l) <= (x * x) * (max * max),
            b * b * (l * l) <= (y * y) * (max * max),
    ;
    assert((x * x + y * y) * (max * max) <= (l * l) * (max * max)) by (nonlinear_arith)
        requires
            x * x + y * y <= l * l,
    ;
    assert(a * a + b * b <= max * max) by (nonlinear_arith)
        requires
            (a * a + b * b) * (l * l) <= (l * l) * (max * max),
            l > 0,
    ;
}

/// `(a^2 + b^2) (c^2 + d^2) - (a c + b d)^2 = (a d - b c)^2 >= 0`.
proof fn lemma_cauchy_schwarz(a: int, b: int, c: int, d: int)
    ensures
        (a * c + b * d) * (a * c + b * d) <= (a * a + b * b) * (c * c + d * d),
{
    assert((a * a + b * b) * (c * c + d * d) == (a * a) * (c * c) + (a * a) * (d * d) + (b * b) * (c * c)
        + (b * b) * (d * d)) by (nonlinear_arith);
    assert((a * a) * (c * c) == (a * c) * (a * c)) by (nonlinear_arith);
    assert((a * a) * (d * d) == (a * d) * (a * d)) by (nonlinear_arith);
    assert((b * b) * (c * c) == (b * c) * (b * c)) by (nonlinear_arith);
    assert((b * b) * (d * d) == (b * d) * (b * d)) by (nonlinear_arith);
    assert((a * c) * (b * d) == (a * d) * (b * c)) by (nonlinear_arith);
    let p = a * c;
    let q = b * d;
    let m = a * d;
    let n = b * c;
    assert((p + q) * (p + q) == p * p + 2 * (p * q) + q * q) by (nonlinear_arith);
    assert((m - n) * (m - n) == m * m - 2 * (m * n) + n * n) by (nonlinear_arith);
    assert((m - n) * (m - n) >= 0) by (nonlinear_arith);
}

/// `(u + r) (u a^2 + r b^2) - (u a + r b)^2 = u r (a - b)^2`.
proof fn lemma_blend_identity(a: int, b: int, u: int, r: int)
    ensures
        (u + r) * (u * (a * a) + r * (b * b)) - (a * u + b * r) * (a * u + b * r) == r * u * ((a - b) * (a - b)),
{
    let x = a * u;
    let y = b * r;
    assert((x + y) * (x + y) == x * x + 2 * (x * y) + y * y) by (nonlinear_arith);
    assert((u + r) * (u * (a * a) + r * (b * b)) == u * (u * (a * a)) + u * (r * (b * b)) + r * (u * (a * a))
        + r * (r * (b * b))) by (nonlinear_arith);
    assert(u * (u * (a * a)) == x * x) by (nonlinear_arith)
        requires
            x == a * u,
    ;
    assert(r * (r * (b * b)) == y * y) by (nonlinear_arith)
        requires
            y == b * r,
    ;
    assert(u * (r * (b * b)) == (r * u) * (b * b)) by (nonlinear_arith);
    assert(r * (u * (a * a)) == (r * u) * (a * a)) by (nonlinear_arith);
    assert(x * y == (r * u) * (a * b)) by (nonlinear_arith)
        requires
            x == a * u,
            y == b * r,
    ;
    assert((a - b) * (a - b) == a * a - 2 * (a * b) + b * b) by (nonlinear_arith);
    let k = r * u;
    assert(k * (a * a - 2 * (a * b) + b * b) == k * (a * a) - 2 * (k * (a * b)) + k * (b * b)) by (nonlinear_arith);
}

/// `v0 * v0 <= v * v` when `|v0| <= |v|`.
proof fn lemma_sq_le(v0: int, v: int)
    requires
        abs(v0) <= abs(v),
    ensures
        v0 * v0 <= v * v,
{
    let m = abs(v0);
    let n = abs(v);
    assert(m * m <= n * n) by (nonlinear_arith)
        requires
            0 <= m <= n,
    ;
    assert(v0 * v0 == m * m) by (nonlinear_arith)
        requires
            m == v0 || m == -v0,
    ;
    assert(v * v == n * n) by (nonlinear_arith)
        requires
            n == v || n == -v,
    ;
}

/// Projecting onto a heading never makes a vector longer.
pub proof fn lemma_projection_shorter(v: (int, int), h: Vector2)
    requires
        is_heading(h),
    ensures
        norm2(projected(v, h)) <= norm2(v),
{
    let o = FX_ONE as int;
    let a = v.0;
    let b = v.1;
    let hx = h.x as int;
    let hy = h.y as int;
    let dot = a * hx + b * hy;
    let d = fx(dot);
    let p = projected(v, h);
    lemma_tdiv_abs(dot, o);
    lemma_cauchy_schwarz(a, b, hx, hy);
    assert(a * a + b * b >= 0) by (nonlinear_arith);
    assert((a * a + b * b) * (hx * hx + hy * hy) <= (a * a + b * b) * (o * o)) by (nonlinear_arith)
        requires
            a * a + b * b >= 0,
            hx * hx + hy * hy <= o * o,
    ;
    assert(d * d <= a * a + b * b) by (nonlinear_arith)
        requires
            d * d * (o * o) <= (a * a + b * b) * (o * o),
            o > 0,
    ;
    lemma_tdiv_abs(hx * d, o);
    lemma_tdiv_abs(hy * d, o);
    assert((p.0 * p.0 + p.1 * p.1) * (o * o) <= (hx * hx + hy * hy) * (d * d)) by (nonlinear_arith)
        requires
            p.0 * p.0 * (o * o) <= (hx * d) * (hx * d),
            p.1 * p.1 * (o * o) <= (hy * d) * (hy * d),
    ;
    assert((hx * hx + hy * hy) * (d * d) <= (o * o) * (d * d)) by (nonlinear_arith)
        requires
            hx * hx + hy * hy <= o * o,
    ;
    assert(p.0 * p.0 + p.1 * p.1 <= d * d) by (nonlinear_arith)
        requires
            (p.0 * p.0 + p.1 * p.1) * (o * o) <= (o * o) * (d * d),
            o > 0,
    ;
}

/// One axis of the blend: `fx(a * (1 - r) + b * r)^2 * 1^2 <= 1 * ((1 - r) a^2 + r b^2)`.
proof fn lemma_blend_axis(a: int, b: int, r: int)
    requires
        0 <= r <= FX_ONE,
    ensures
        lerp_fx(a, b, r) * lerp_fx(a, b, r) * (FX_ONE * FX_ONE) <= FX_ONE * ((FX_ONE - r) * (a * a) + r * (b * b)),
{
    let o = FX_ONE as int;
    let s = a * (o - r) + b * r;
    lemma_tdiv_abs(s, o);
    lemma_blend_identity(a, b, o - r, r);
    assert(r * (o - r) * ((a - b) * (a - b)) >= 0) by (nonlinear_arith)
        requires
            0 <= r <= o,
    ;
}

/// Blending a shorter vector `a` toward `b` never gives one longer than `b`.
pub proof fn lemma_blend_shorter(a: (int, int), b: (int, int), r: int)
    requires
        0 <= r <= FX_ONE,
        norm2(a) <= norm2(b),
    ensures
        norm2((lerp_fx(a.0, b.0, r), lerp_fx(a.1, b.1, r))) <= norm2(b),
{
    let o = FX_ONE as int;
    let w0 = lerp_fx(a.0, b.0, r);
    let w1 = lerp_fx(a.1, b.1, r);
    lemma_blend_axis(a.0, b.0, r);
    lemma_blend_axis(a.1, b.1, r);
    let u = o - r;
    assert(o * (u * (a.0 * a.0) + r * (b.0 * b.0)) + o * (u * (a.1 * a.1) + r * (b.1 * b.1))
        == o * (u * norm2(a) + r * norm2(b))) by (nonlinear_arith);
    assert((w0 * w0 + w1 * w1) * (o * o) == w0 * w0 * (o * o) + w1 * w1 * (o * o)) by (nonlinear_arith);
    assert(o * ((o - r) * norm2(a) + r * norm2(b)) <= (o * o) * norm2(b)) by (nonlinear_arith)
        requires
            0 <= r <= o,
            o > 0,
            norm2(a) <= norm2(b),
    ;
    assert(w0 * w0 + w1 * w1 <= norm2(b)) by (nonlinear_arith)
        requires
            (w0 * w0 + w1 * w1) * (o * o) <= (o * o) * norm2(b),
            o > 0,
    ;
}

/// The speed limit holds after the limit step, and the step never makes a
/// vector longer.
pub proof fn lemma_limited(v: (int, int), max: int)
    requires
        max >= 0,
    ensures
        norm2(limited(v, max)) <= max * max,
        norm2(limited(v, max)) <= norm2(v),
        norm2(v) <= max * max ==> limited(v, max) == v,
{
    if norm2(v) > max * max {
        let n = norm2(v);
        assert(n >= 0) by (nonlinear_arith)
            requires
                n == v.0 * v.0 + v.1 * v.1,
        ;
        let l = ceil_sqrt_witness(n);
        lemma_ceil_sqrt_unique(n, l);
        if l == 0 {
            assert(l * l == 0);
        }
        lemma_limit_shrinks(v.0, v.1, max, l);
    }
}

/// A root exists for every non-negative `n`.
proof fn ceil_sqrt_witness(n: int) -> (r: int)
    requires
        n >= 0,
    ensures
        is_ceil_sqrt(n, r),
    decreases n,
{
    if n == 0 {
        0
    } else {
        let r0 = ceil_sqrt_witness(n - 1);
        if n <= r0 * r0 {
            r0
        } else {
            assert((r0 + 1) * (r0 + 1) >= n) by (nonlinear_arith)
                requires
                    r0 * r0 < n,
                    n - 1 <= r0 * r0,
                    r0 >= 0,
            ;
            r0 + 1
        }
    }
}

/// Speed clamp: whatever the state, input and step, the velocity after a
/// tick is no longer than the speed limit.
pub proof fn lemma_speed_clamp(v: Vector2, controls: CarControls, h: Vector2, config: CarPhysicsConfig, dt: int)
    requires
        config.wf(),
    ensures
        norm2(next_velocity(v, controls, h, config, dt)) <= config.max_forward_velocity * config.max_forward_velocity,
{
    let w = drifted(
        with_friction(accelerated(v, h, accel_control_of(controls), config, dt), config.friction as int),
        h,
        config.drift_factor as int,
    );
    lemma_limited(w, config.max_forward_velocity as int);
}

/// Zero-input decay: with no acceleration and no turn input, a tick never
/// makes the car faster, so repeated ticks bring the speed down toward zero.
pub proof fn lemma_zero_input_decay(v: Vector2, controls: CarControls, h: Vector2, config: CarPhysicsConfig, dt: int)
    requires
        config.wf(),
        is_heading(h),
        controls.accel.x == 0 && controls.accel.y == 0,
        controls.turn.x == 0 && controls.turn.y == 0,
    ensures
        norm2(next_velocity(v, controls, h, config, dt)) <= v.norm_sq(),
{
    let o = FX_ONE as int;
    assert(accel_control_of(controls) == 0);
    assert(fx(h.x * 0) == 0 && fx(h.y * 0) == 0);
    assert(fx(0 * dt) == 0);
    assert(fx(0 * config.forward_acceleration) == 0);
    let v0 = accelerated(v, h, 0, config, dt);
    assert(v0 == (v.x as int, v.y as int));
    let v1 = with_friction(v0, config.friction as int);
    lemma_scale_down(v0.0, config.friction as int);
    lemma_scale_down(v0.1, config.friction as int);
    lemma_sq_le(v1.0, v0.0);
    lemma_sq_le(v1.1, v0.1);
    lemma_projection_shorter(v1, h);
    lemma_blend_shorter(projected(v1, h), v1, config.drift_factor as int);
    let w = drifted(v1, h, config.drift_factor as int);
    lemma_limited(w, config.max_forward_velocity as int);
}

/// Release stops rotation: a tick without turn input leaves the car with no
/// rotational velocity, whatever it had before.
pub proof fn lemma_release_stops_rotation(rv: int, controls: CarControls, config: CarPhysicsConfig, dt: int)
    requires
        turn_control_of(controls) == 0,
    ensures
        next_rotational_velocity(rv, turn_control_of(controls), config, dt) == 0,
{
}

/// Rotation normalization: starting from a heading in `[0, 2π)`, every
/// tick leaves the heading in `[0, 2π)`.
pub proof fn lemma_rotation_normalized(rotation: int, new_rv: int, turn: int, dt: int)
    requires
        0 <= rotation < TAU_FX,
    ensures
        0 <= next_rotation(rotation, new_rv, turn, dt) < TAU_FX,
{
    if turn != 0 {
        vstd::arithmetic::div_mod::lemma_mod_bound(rotation + fx(new_rv * dt), TAU_FX as int);
    }
}

/// `|fx(a * b)| <= k` when `|a| <= ka`, `|b| <= kb` and `ka * kb <= k * FX_ONE`.
pub proof fn lemma_fx_product_bound(a: int, b: int, ka: int, kb: int, k: int)
    requires
        abs(a) <= ka,
        abs(b) <= kb,
        ka * kb <= k * FX_ONE,
    ensures
        abs(fx(a * b)) <= k,
        abs(a * b) <= k * FX_ONE,
{
    let m = abs(a);
    let n = abs(b);
    assert(abs(a * b) == m * n) by (nonlinear_arith)
        requires
            m == abs(a),
            n == abs(b),
    ;
    assert(m * n <= ka * kb) by (nonlinear_arith)
        requires
            0 <= m <= ka,
            0 <= n <= kb,
    ;
    lemma_tdiv_abs(a * b, FX_ONE as int);
    let q = abs(fx(a * b));
    assert(q <= k) by (nonlinear_arith)
        requires
            q * 1_000_000 <= k * 1_000_000,
    ;
}

} // verus!
