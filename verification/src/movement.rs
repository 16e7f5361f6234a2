//! The movement and dash state machine of one player.
//!
//! A tick of length `dt` first advances the two dash timers, then decides
//! whether a dash starts, then resolves the direction of movement and the
//! speed, and at last integrates the position. All of it is a function of the
//! player's state, the pending input, `dt` and the configuration.
//!
//! Quantities are whole numbers. Time is in nanoseconds, positions are in
//! steps of [`POSITION_SCALE`](crate::protocol::POSITION_SCALE) per world
//! unit, the base speed is in thousandths of a world unit per second, and
//! multipliers are in thousandths. A coordinate that would leave the range of
//! `i64` stays at the end of that range.

use vstd::prelude::*;
use vstd::arithmetic::div_mod::lemma_div_is_ordered;
use crate::direction::{Axis, Direction};
use crate::protocol::NetTransform;

verus! {

/// Base speed in thousandths of a world unit per second.
pub const BASE_MOVE_SPEED: u32 = 70_000;

/// Factor on the speed while sprinting, in thousandths.
pub const SPRINT_MULTIPLIER: u32 = 1_500;

/// Factor on the speed while a dash is active, in thousandths.
pub const DASH_SPEED_MULTIPLIER: u32 = 3_000;

/// How long a dash lasts, in nanoseconds.
pub const DASH_DURATION_NANOS: u64 = 180_000_000;

/// The least time between the starts of two dashes, in nanoseconds.
pub const DASH_COOLDOWN_NANOS: u64 = 800_000_000;

/// The multiplier that changes nothing: one thousand thousandths.
pub const PER_MILLE: u32 = 1_000;

/// What a product of unit part, speed factor and nanoseconds is divided by
/// to give position steps: `UNIT` for the unit vector and a thousand for each
/// of base speed and the two multipliers.
pub const TRAVEL_DIVISOR: u64 = 665_857_000_000_000;

/// What steers a player while a dash is active.
#[derive(Debug, Clone, Copy, PartialEq, Eq, Structural)]
pub enum DashPolicy {
    /// The direction captured when the dash started.
    Locked,
    /// The current input while it names a direction, else the direction
    /// last remembered.
    Follow,
}

/// The tuning of movement, one for all players of a server.
#[derive(Debug, Clone, Copy, PartialEq, Eq, Structural)]
pub struct MovementConfig {
    /// Thousandths of a world unit per second.
    pub base_speed: u32,
    /// Thousandths.
    pub sprint_multiplier: u32,
    /// Thousandths.
    pub dash_speed_multiplier: u32,
    /// Nanoseconds.
    pub dash_duration: u64,
    /// Nanoseconds.
    pub dash_cooldown: u64,
    pub dash_policy: DashPolicy,
}

impl MovementConfig {
    /// The standard tuning, with the dash direction locked.
    pub open spec fn standard() -> MovementConfig {
        MovementConfig {
            base_speed: BASE_MOVE_SPEED,
            sprint_multiplier: SPRINT_MULTIPLIER,
            dash_speed_multiplier: DASH_SPEED_MULTIPLIER,
            dash_duration: DASH_DURATION_NANOS,
            dash_cooldown: DASH_COOLDOWN_NANOS,
            dash_policy: DashPolicy::Locked,
        }
    }

    /// The speed factor: base speed times each multiplier that applies.
    /// The multipliers are factors of a product, never summands.
    pub open spec fn speed_factor(self, sprint: bool, dashing: bool) -> nat {
        let sprint_factor = if sprint { self.sprint_multiplier } else { PER_MILLE };
        let dash_factor = if dashing { self.dash_speed_multiplier } else { PER_MILLE };
        self.base_speed as nat * sprint_factor as nat * dash_factor as nat
    }

    /// Computes the speed factor.
    pub fn speed(&self, sprint: bool, dashing: bool) -> (s: u128)
        ensures
            s == self.speed_factor(sprint, dashing),
            s <= 0xffff_ffff_ffff_ffff_ffff_ffff,
    {
        let sprint_factor: u32 = if sprint { self.sprint_multiplier } else { PER_MILLE };
        let dash_factor: u32 = if dashing { self.dash_speed_multiplier } else { PER_MILLE };
        let base: u128 = self.base_speed as u128;
        assert(base * sprint_factor <= 0xffff_ffff_ffff_ffff) by (nonlinear_arith)
            requires
                base <= 0xffff_ffff,
                sprint_factor <= 0xffff_ffff,
        ;
        let with_sprint: u128 = base * (sprint_factor as u128);
        assert(with_sprint * dash_factor <= 0xffff_ffff_ffff_ffff_ffff_ffff) by (nonlinear_arith)
            requires
                with_sprint <= 0xffff_ffff_ffff_ffff,
                dash_factor <= 0xffff_ffff,
        ;
        with_sprint * (dash_factor as u128)
    }
}

impl Default for MovementConfig {
    fn default() -> (c: MovementConfig)
        ensures
            c == MovementConfig::standard(),
    {
        MovementConfig {
            base_speed: BASE_MOVE_SPEED,
            sprint_multiplier: SPRINT_MULTIPLIER,
            dash_speed_multiplier: DASH_SPEED_MULTIPLIER,
            dash_duration: DASH_DURATION_NANOS,
            dash_cooldown: DASH_COOLDOWN_NANOS,
            dash_policy: DashPolicy::Locked,
        }
    }
}

/// The distance covered in `dt` nanoseconds at the given speed factor along
/// a unit vector whose non-zero components measure `part`, in position
/// steps, rounded down.
pub open spec fn travel(part: nat, speed: nat, dt: nat) -> nat {
    (part * speed * dt) / (TRAVEL_DIVISOR as nat)
}

/// The value of `i64` nearest to `v`.
pub open spec fn clamp_coordinate(v: int) -> i64 {
    if v < i64::MIN {
        i64::MIN
    } else if v > i64::MAX {
        i64::MAX
    } else {
        v as i64
    }
}

/// A coordinate after moving `distance` steps along the given sign.
pub open spec fn moved_coordinate(c: i64, sign: int, distance: nat) -> i64 {
    clamp_coordinate(c + sign * distance)
}

/// A position after moving for `dt` nanoseconds in direction `d`: each
/// coordinate moves by the same distance along its own sign.
pub open spec fn advanced(p: NetTransform, d: Direction, speed: nat, dt: nat) -> NetTransform {
    let distance = travel(d.unit_part(), speed, dt);
    NetTransform {
        x: moved_coordinate(p.x, d.x.sign(), distance),
        y: moved_coordinate(p.y, d.y.sign(), distance),
    }
}

/// Computes [`travel`], or `None` where the distance is beyond `u64`.
fn travel_distance(part: u32, speed: u128, dt: u64) -> (distance: Option<u64>)
    ensures
        match distance {
            Some(v) => v == travel(part as nat, speed as nat, dt as nat),
            None => travel(part as nat, speed as nat, dt as nat) > u64::MAX,
        },
{
    let ghost top = 0x1_0000_0000_0000_0000_0000_0000_0000_0000int;
    if dt == 0 {
        assert(part * speed * 0 == 0);
        return Some(0);
    }
    match (part as u128).checked_mul(speed) {
        Some(rate) => match rate.checked_mul(dt as u128) {
            Some(product) => {
                let steps: u128 = product / (TRAVEL_DIVISOR as u128);
                if steps > u64::MAX as u128 {
                    None
                } else {
                    Some(steps as u64)
                }
            },
            None => {
                proof {
                    lemma_div_is_ordered(top, rate as int * dt as int, TRAVEL_DIVISOR as int);
                }
                None
            },
        },
        None => {
            proof {
                let rate = part as int * speed as int;
                assert(rate * dt >= rate) by (nonlinear_arith)
                    requires
                        rate >= 0,
                        dt >= 1,
                ;
                lemma_div_is_ordered(top, rate * dt as int, TRAVEL_DIVISOR as int);
            }
            None
        },
    }
}

/// Computes [`moved_coordinate`]; a distance of `None` is one beyond `u64`.
fn move_coordinate(c: i64, axis: Axis, distance: Option<u64>) -> (r: i64)
    ensures
        distance matches Some(v) ==> r == moved_coordinate(c, axis.sign(), v as nat),
        distance is None ==> forall|far: nat|
            far > u64::MAX ==> r == #[trigger] moved_coordinate(c, axis.sign(), far),
{
    match axis {
        Axis::Neutral => {
            assert forall|far: nat| far > u64::MAX implies c == #[trigger] moved_coordinate(
                c,
                0,
                far,
            ) by {
                assert(0 * far == 0);
            }
            c
        },
        Axis::Positive => match distance {
            Some(v) => {
                let target: i128 = c as i128 + v as i128;
                if target > i64::MAX as i128 {
                    i64::MAX
                } else {
                    target as i64
                }
            },
            None => i64::MAX,
        },
        Axis::Negative => match distance {
            Some(v) => {
                let target: i128 = c as i128 - v as i128;
                if target < i64::MIN as i128 {
                    i64::MIN
                } else {
                    target as i64
                }
            },
            None => i64::MIN,
        },
    }
}

/// Moves a position for `dt` nanoseconds in direction `d` at the given speed
/// factor.
pub fn advance(p: NetTransform, d: Direction, speed: u128, dt: u64) -> (q: NetTransform)
    ensures
        q == advanced(p, d, speed as nat, dt as nat),
{
    let distance = travel_distance(d.part(), speed, dt);
    NetTransform {
        x: move_coordinate(p.x, d.x, distance),
        y: move_coordinate(p.y, d.y, distance),
    }
}

} // verus!
