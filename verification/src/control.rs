//! The control loop: what each tick asks of the renderer.
//!
//! Times are in milliseconds since the start, accelerations in
//! millimetres per second squared, velocities in micrometres per second
//! and positions in nanometres, so that every product below is exact.

use crate::crossfade::{crossfade_gains, gain_high, gain_low, lemma_equal_power};
use crate::fixed::{GAIN_ONE, ONE};
use crate::wave::{
    lemma_shapes_bounded,
    phase_at,
    phase_spec,
    shape,
    shape_spec,
    swing,
    swing_spec,
};
use vstd::arithmetic::div_mod::{
    lemma_div_is_ordered,
    lemma_div_multiples_vanish,
    lemma_div_pos_is_pos,
};
use vstd::prelude::*;

verus! {

/// A vector in space.
#[derive(Debug, Clone, Copy, PartialEq, Eq)]
pub struct Vec3 {
    pub x: i128,
    pub y: i128,
    pub z: i128,
}

/// Where the emitter is and how it moves. The two are always handed on
/// together.
#[derive(Debug, Clone, Copy, PartialEq, Eq)]
pub struct SpatialState {
    /// Position, in nanometres.
    pub position: Vec3,
    /// Velocity, in micrometres per second.
    pub velocity: Vec3,
}

/// What the control loop is set up with.
#[derive(Debug, Clone, Copy, PartialEq, Eq)]
pub struct ControlConfig {
    /// The loop stops at this time.
    pub duration_ms: u32,
    /// Length of one cycle of the speed and the mix.
    pub period_ms: u32,
    /// How far into a cycle the loop starts.
    pub offset_ms: u32,
    /// The lowest speed asked for.
    pub rpm_floor: u32,
    /// The highest speed asked for.
    pub rpm_ceiling: u32,
    /// Acceleration of the emitter along each axis.
    pub acceleration: (i32, i32, i32),
}

/// What one tick asks of the renderer.
#[derive(Debug, Clone, Copy, PartialEq, Eq)]
pub struct ControlUpdate {
    /// The emitter's motion.
    pub motion: SpatialState,
    /// The speed asked of both voices.
    pub rpm: u32,
    /// The share of the throttle voice in the power, as a fraction of `ONE`.
    pub mix: u32,
    /// The gain of the throttle voice, as a fraction of `GAIN_ONE`.
    pub throttle_gain: u32,
    /// The gain of the release voice, as a fraction of `GAIN_ONE`.
    pub release_gain: u32,
}

/// What the caller is to do after a tick.
#[derive(Debug, Clone, Copy, PartialEq, Eq)]
pub enum ControlAction {
    /// Hand on the update and tick again.
    Update(ControlUpdate),
    /// The time is up: stop the stream.
    Stop,
}

/// One step of the integration along one axis: first the velocity by the
/// acceleration, then the position by the new velocity.
pub open spec fn step_velocity(velocity: int, acceleration: int, dt: int) -> int {
    velocity + acceleration * dt
}

/// The position after a step.
pub open spec fn step_position(position: int, velocity: int, acceleration: int, dt: int) -> int {
    position + step_velocity(velocity, acceleration, dt) * dt
}

/// The motion after a step of `dt` under `acceleration`.
pub open spec fn moved(s: SpatialState, acceleration: (i32, i32, i32), dt: int) -> SpatialState {
    SpatialState {
        position: Vec3 {
            x: step_position(
                s.position.x as int,
                s.velocity.x as int,
                acceleration.0 as int,
                dt,
            ) as i128,
            y: step_position(
                s.position.y as int,
                s.velocity.y as int,
                acceleration.1 as int,
                dt,
            ) as i128,
            z: step_position(
                s.position.z as int,
                s.velocity.z as int,
                acceleration.2 as int,
                dt,
            ) as i128,
        },
        velocity: Vec3 {
            x: step_velocity(s.velocity.x as int, acceleration.0 as int, dt) as i128,
            y: step_velocity(s.velocity.y as int, acceleration.1 as int, dt) as i128,
            z: step_velocity(s.velocity.z as int, acceleration.2 as int, dt) as i128,
        },
    }
}

/// The velocity after `n` steps of `dt` each.
pub open spec fn coast_velocity(velocity: int, acceleration: int, dt: int, n: nat) -> int
    decreases n,
{
    if n == 0 {
        velocity
    } else {
        step_velocity(coast_velocity(velocity, acceleration, dt, (n - 1) as nat), acceleration, dt)
    }
}

/// The position after `n` steps of `dt` each.
pub open spec fn coast_position(
    position: int,
    velocity: int,
    acceleration: int,
    dt: int,
    n: nat,
) -> int
    decreases n,
{
    if n == 0 {
        position
    } else {
        step_position(
            coast_position(position, velocity, acceleration, dt, (n - 1) as nat),
            coast_velocity(velocity, acceleration, dt, (n - 1) as nat),
            acceleration,
            dt,
        )
    }
}

/// The integration law. After `n` equal steps the velocity is the one of
/// uniform acceleration over the time `n * dt`, and the position is ahead
/// of uniform acceleration's by half the product of the acceleration, the
/// time and one step.
pub proof fn lemma_coast(position: int, velocity: int, acceleration: int, dt: int, n: nat)
    ensures
        coast_velocity(velocity, acceleration, dt, n) == velocity + acceleration * (n * dt),
        2 * (coast_position(position, velocity, acceleration, dt, n) - position - velocity * (n
            * dt)) == acceleration * (n * dt) * (n * dt) + acceleration * (n * dt) * dt,
    decreases n,
{
    if n == 0 {
        assert(acceleration * (0 * dt) == 0) by (nonlinear_arith);
        assert(velocity * (0 * dt) == 0) by (nonlinear_arith);
        assert(acceleration * (0 * dt) * (0 * dt) + acceleration * (0 * dt) * dt == 0)
            by (nonlinear_arith);
    } else {
        let m = (n - 1) as nat;
        lemma_coast(position, velocity, acceleration, dt, m);
        let vm = coast_velocity(velocity, acceleration, dt, m);
        let pm = coast_position(position, velocity, acceleration, dt, m);
        let vn = coast_velocity(velocity, acceleration, dt, n);
        let pn = coast_position(position, velocity, acceleration, dt, n);
        assert(vn == vm + acceleration * dt);
        assert(pn == pm + vn * dt);
        assert(vn == velocity + acceleration * (n * dt)) by (nonlinear_arith)
            requires
                vn == vm + acceleration * dt,
                vm == velocity + acceleration * (m * dt),
                m == n - 1,
        ;
        assert(2 * (pn - position - velocity * (n * dt)) == acceleration * (n * dt) * (n * dt)
            + acceleration * (n * dt) * dt) by (nonlinear_arith)
            requires
                pn == pm + vn * dt,
                vn == velocity + acceleration * (n * dt),
                2 * (pm - position - velocity * (m * dt)) == acceleration * (m * dt) * (m * dt)
                    + acceleration * (m * dt) * dt,
                m == n - 1,
        ;
    }
}

/// The speed asked for at phase `q`: the swing between floor and ceiling.
pub open spec fn rpm_spec(config: ControlConfig, q: int) -> int {
    let span = if config.rpm_ceiling >= config.rpm_floor {
        config.rpm_ceiling - config.rpm_floor
    } else {
        0
    };
    config.rpm_floor + swing_spec(q, config.period_ms as int) * span / (ONE as int)
}

/// What a tick at time `now` asks for, the emitter being in `motion`.
pub open spec fn update_spec(
    config: ControlConfig,
    motion: SpatialState,
    now: int,
) -> ControlUpdate {
    let q = phase_spec(now, config.offset_ms as int, config.period_ms as int);
    let mix = shape_spec(q, config.period_ms as int);
    ControlUpdate {
        motion,
        rpm: rpm_spec(config, q) as u32,
        mix: mix as u32,
        throttle_gain: gain_high(mix) as u32,
        release_gain: gain_low(mix) as u32,
    }
}

/// The speed asked for lies between floor and ceiling.
pub proof fn lemma_rpm_bounded(config: ControlConfig, q: int)
    ensures
        config.rpm_floor <= rpm_spec(config, q),
        config.rpm_floor <= config.rpm_ceiling ==> rpm_spec(config, q) <= config.rpm_ceiling,
        rpm_spec(config, q) <= u32::MAX,
{
    let span: int = if config.rpm_ceiling >= config.rpm_floor {
        config.rpm_ceiling - config.rpm_floor
    } else {
        0
    };
    let w = swing_spec(q, config.period_ms as int);
    lemma_shapes_bounded(q, config.period_ms as int);
    assert(0 <= w * span <= ONE * span) by (nonlinear_arith)
        requires
            0 <= w <= ONE,
            0 <= span,
    ;
    lemma_div_pos_is_pos(w * span, ONE as int);
    lemma_div_is_ordered(w * span, ONE * span, ONE as int);
    lemma_div_multiples_vanish(span, ONE as int);
}

/// The mix law. Whatever the time, the mix asked for is a fraction of
/// one and the speed lies between floor and ceiling; the squares of the
/// two gains sum to one within a millionth; at mix 0 the release voice is
/// at full gain and the throttle voice silent, and at mix one the other
/// way round.
pub proof fn lemma_update_bounded(config: ControlConfig, motion: SpatialState, now: int)
    ensures
        ({
            let u = update_spec(config, motion, now);
            &&& u.mix <= ONE
            &&& u.throttle_gain <= GAIN_ONE
            &&& u.release_gain <= GAIN_ONE
            &&& config.rpm_floor <= u.rpm
            &&& config.rpm_floor <= config.rpm_ceiling ==> u.rpm <= config.rpm_ceiling
            &&& u.throttle_gain * u.throttle_gain + u.release_gain * u.release_gain <= GAIN_ONE
                * GAIN_ONE
            &&& (GAIN_ONE * GAIN_ONE - u.throttle_gain * u.throttle_gain - u.release_gain
                * u.release_gain) * 1_000_000 <= GAIN_ONE * GAIN_ONE
            &&& u.mix == 0 ==> u.release_gain == GAIN_ONE && u.throttle_gain == 0
            &&& u.mix == ONE ==> u.release_gain == 0 && u.throttle_gain == GAIN_ONE
        }),
{
    let period = config.period_ms as int;
    let q = phase_spec(now, config.offset_ms as int, period);
    lemma_shapes_bounded(q, period);
    lemma_rpm_bounded(config, q);
    lemma_equal_power(shape_spec(q, period));
}

/// The speed asked for at phase `q`.
pub fn target_rpm(config: &ControlConfig, q: u32) -> (rpm: u32)
    ensures
        rpm == rpm_spec(*config, q as int),
        config.rpm_floor <= rpm,
        config.rpm_floor <= config.rpm_ceiling ==> rpm <= config.rpm_ceiling,
{
    let span: u64 = if config.rpm_ceiling >= config.rpm_floor {
        (config.rpm_ceiling - config.rpm_floor) as u64
    } else {
        0
    };
    let w = swing(q, config.period_ms) as u64;
    proof {
        lemma_rpm_bounded(*config, q as int);
    }
    assert(w * span <= 0x1_0000 * 0xFFFF_FFFF) by (nonlinear_arith)
        requires
            0 <= w <= 0x1_0000,
            0 <= span <= 0xFFFF_FFFF,
    ;
    (config.rpm_floor as u64 + w * span / 65536) as u32
}

/// The bounds within which an axis stays up to time `t`.
spec fn axis_within(position: i128, velocity: i128, t: int) -> bool {
    &&& -(0x8000_0000_0000_0000 + 0x8000_0000 * t) <= velocity <= 0x8000_0000_0000_0000
        + 0x8000_0000 * t
    &&& -(0x8000_0000_0000_0000 + 0x1_0000_0000_0000_0000 * t) <= position
        <= 0x8000_0000_0000_0000 + 0x1_0000_0000_0000_0000 * t
}

/// One step along one axis.
fn step_axis(position: i128, velocity: i128, acceleration: i32, dt: u32, last: u32) -> (r: (
    i128,
    i128,
))
    requires
        axis_within(position, velocity, last as int),
        last + dt <= u32::MAX,
    ensures
        r.1 == step_velocity(velocity as int, acceleration as int, dt as int),
        r.0 == step_position(position as int, velocity as int, acceleration as int, dt as int),
        axis_within(r.0, r.1, last + dt),
{
    assert(-0x8000_0000 * dt <= acceleration * dt <= 0x8000_0000 * dt) by (nonlinear_arith)
        requires
            -0x8000_0000 <= acceleration <= 0x8000_0000,
            0 <= dt,
    ;
    let gained: i128 = (acceleration as i128) * (dt as i128);
    let v: i128 = velocity + gained;
    assert(-0x1_0000_0000_0000_0000 * dt <= v * dt <= 0x1_0000_0000_0000_0000 * dt)
        by (nonlinear_arith)
        requires
            -0x1_0000_0000_0000_0000 <= v <= 0x1_0000_0000_0000_0000,
            0 <= dt,
    ;
    let travelled: i128 = v * (dt as i128);
    (position + travelled, v)
}

/// The state of the control loop between ticks.
#[derive(Debug, Clone, Copy)]
pub struct ControlLoop {
    config: ControlConfig,
    motion: SpatialState,
    last_ms: u32,
}

impl ControlLoop {
    #[verifier::type_invariant]
    spec fn well_formed(&self) -> bool {
        &&& axis_within(self.motion.position.x, self.motion.velocity.x, self.last_ms as int)
        &&& axis_within(self.motion.position.y, self.motion.velocity.y, self.last_ms as int)
        &&& axis_within(self.motion.position.z, self.motion.velocity.z, self.last_ms as int)
    }

    /// What the loop was set up with.
    pub closed spec fn settings(&self) -> ControlConfig {
        self.config
    }

    /// The emitter's motion at the last tick.
    pub closed spec fn state(&self) -> SpatialState {
        self.motion
    }

    /// The time of the last tick.
    pub closed spec fn last_tick(&self) -> u32 {
        self.last_ms
    }

    /// A loop at time 0, with the emitter at `position`, in nanometres,
    /// moving at `velocity`, in micrometres per second.
    pub fn new(config: ControlConfig, position: (i64, i64, i64), velocity: (i64, i64, i64)) -> (c:
        ControlLoop)
        ensures
            c.settings() == config,
            c.last_tick() == 0,
            c.state() == (SpatialState {
                position: Vec3 {
                    x: position.0 as i128,
                    y: position.1 as i128,
                    z: position.2 as i128,
                },
                velocity: Vec3 {
                    x: velocity.0 as i128,
                    y: velocity.1 as i128,
                    z: velocity.2 as i128,
                },
            }),
    {
        ControlLoop {
            config,
            motion: SpatialState {
                position: Vec3 {
                    x: position.0 as i128,
                    y: position.1 as i128,
                    z: position.2 as i128,
                },
                velocity: Vec3 {
                    x: velocity.0 as i128,
                    y: velocity.1 as i128,
                    z: velocity.2 as i128,
                },
            },
            last_ms: 0,
        }
    }

    /// The emitter's motion at the last tick.
    pub fn motion(&self) -> (m: SpatialState)
        ensures
            m == self.state(),
    {
        self.motion
    }

    /// One tick at time `now_ms`.
    ///
    /// At or after the set duration the loop asks to stop and stays as it
    /// is. Before it, the emitter moves by the time since the last tick (by
    /// none where the clock stood still or ran back), and the update holds
    /// its new motion with the speed, mix and gains of the phase at
    /// `now_ms`. The position moves by exactly the new velocity times the
    /// step.
    pub fn tick(self, now_ms: u32) -> (r: (ControlLoop, ControlAction))
        ensures
            now_ms >= self.settings().duration_ms ==> r.0 == self && r.1 == ControlAction::Stop,
            now_ms < self.settings().duration_ms ==> {
                let dt = if now_ms >= self.last_tick() {
                    now_ms - self.last_tick()
                } else {
                    0
                };
                &&& r.0.settings() == self.settings()
                &&& r.0.last_tick() == self.last_tick() + dt
                &&& r.0.state() == moved(self.state(), self.settings().acceleration, dt)
                &&& r.1 == ControlAction::Update(
                    update_spec(self.settings(), r.0.state(), now_ms as int),
                )
            },
    {
        proof {
            use_type_invariant(&self);
        }
        if now_ms >= self.config.duration_ms {
            return (self, ControlAction::Stop);
        }
        let dt: u32 = if now_ms >= self.last_ms {
            now_ms - self.last_ms
        } else {
            0
        };
        let a = self.config.acceleration;
        let m = self.motion;
        let x = step_axis(m.position.x, m.velocity.x, a.0, dt, self.last_ms);
        let y = step_axis(m.position.y, m.velocity.y, a.1, dt, self.last_ms);
        let z = step_axis(m.position.z, m.velocity.z, a.2, dt, self.last_ms);
        let motion = SpatialState {
            position: Vec3 { x: x.0, y: y.0, z: z.0 },
            velocity: Vec3 { x: x.1, y: y.1, z: z.1 },
        };
        let q = phase_at(now_ms, self.config.offset_ms, self.config.period_ms);
        let rpm = target_rpm(&self.config, q);
        let mix = shape(q, self.config.period_ms);
        let gains = crossfade_gains(mix);
        let update = ControlUpdate {
            motion,
            rpm,
            mix,
            throttle_gain: gains.1,
            release_gain: gains.0,
        };
        let next = ControlLoop { config: self.config, motion, last_ms: self.last_ms + dt };
        (next, ControlAction::Update(update))
    }
}

} // verus!
