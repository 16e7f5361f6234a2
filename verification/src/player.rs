//! A simulated player: identity, position, pending input and dash state.

use vstd::prelude::*;
use crate::direction::{lemma_unit_length, Axis, Direction, UNIT};
use crate::movement::{advance, advanced, travel, DashPolicy, MovementConfig};
use crate::protocol::{NetTransform, PlayerInputCommand, ReplicatedPositionRecord};
use crate::timer::{
    timer_expired, timer_is_finished, timer_reset, timer_state, timer_tick, TimerState,
};

verus! {

/// The input that a player's next tick will consume.
#[derive(Debug, Clone, Copy, PartialEq, Eq, Structural)]
pub struct PlayerInput {
    pub move_dir: Direction,
    pub sprint: bool,
    pub dash_pressed: bool,
}

impl PlayerInput {
    /// No intent at all: what a player holds before any command arrives.
    pub open spec fn idle() -> PlayerInput {
        PlayerInput { move_dir: Direction::zero(), sprint: false, dash_pressed: false }
    }

    /// The input that a command stands for. The direction is read without
    /// trust in the sender.
    pub open spec fn of_command(c: PlayerInputCommand) -> PlayerInput {
        PlayerInput {
            move_dir: Direction::of_wire(c.x, c.y),
            sprint: c.sprint,
            dash_pressed: c.dash,
        }
    }

    /// The input once a tick has consumed it: the dash request is spent, so a
    /// request acts on one tick only.
    pub open spec fn consumed(self) -> PlayerInput {
        PlayerInput { dash_pressed: false, ..self }
    }

    /// Turns a command into the input it stands for.
    pub fn from_command(c: &PlayerInputCommand) -> (input: PlayerInput)
        ensures
            input == PlayerInput::of_command(*c),
    {
        PlayerInput {
            move_dir: Direction::from_wire(c.x, c.y),
            sprint: c.sprint,
            dash_pressed: c.dash,
        }
    }
}

/// The dash state of a player, as the contracts see it.
pub ghost struct MovementModel {
    /// Runs while a dash is active.
    pub dash_timer: TimerState,
    /// Runs from the start of a dash until the next dash may start.
    pub dash_cooldown: TimerState,
    /// The direction last moved in; a locked dash follows it.
    pub dash_direction: Direction,
}

impl MovementModel {
    /// Both timers are well-formed, and the remembered direction is a
    /// direction.
    pub open spec fn wf(self) -> bool {
        &&& self.dash_timer.wf()
        &&& self.dash_cooldown.wf()
        &&& !self.dash_direction.is_zero()
    }

    /// The state of a new player: both timers have run out, so that a dash
    /// may start at once, and the remembered direction points east.
    pub open spec fn ready(cfg: MovementConfig) -> MovementModel {
        MovementModel {
            dash_timer: TimerState::fresh(cfg.dash_duration as nat).expired(),
            dash_cooldown: TimerState::fresh(cfg.dash_cooldown as nat).expired(),
            dash_direction: Direction::east(),
        }
    }

    /// A dash is active while its timer has not run out.
    pub open spec fn dash_active(self) -> bool {
        !self.dash_timer.finished
    }

    /// The state after both timers have counted `dt`.
    pub open spec fn counted(self, dt: nat) -> MovementModel {
        MovementModel {
            dash_timer: self.dash_timer.ticked(dt),
            dash_cooldown: self.dash_cooldown.ticked(dt),
            ..self
        }
    }

    /// Whether a dash starts on a tick of length `dt` that consumes `input`:
    /// a dash is requested, the input names a direction, and once the
    /// timers have counted `dt` both have run out.
    pub open spec fn dash_starts(self, input: PlayerInput, dt: nat) -> bool {
        &&& input.dash_pressed
        &&& self.counted(dt).dash_timer.finished
        &&& self.counted(dt).dash_cooldown.finished
        &&& !input.move_dir.is_zero()
    }

    /// The state after the timers have counted `dt` and the dash, if one
    /// starts, has started: both timers start over and the direction of the
    /// input is captured.
    pub open spec fn armed(self, input: PlayerInput, dt: nat) -> MovementModel {
        let counted = self.counted(dt);
        if self.dash_starts(input, dt) {
            MovementModel {
                dash_timer: counted.dash_timer.restarted(),
                dash_cooldown: counted.dash_cooldown.restarted(),
                dash_direction: input.move_dir,
            }
        } else {
            counted
        }
    }

    /// The direction in which the player moves this tick, for a state in
    /// which this tick's dash, if any, has started.
    pub open spec fn heading(self, input: PlayerInput, policy: DashPolicy) -> Direction {
        if self.dash_active() {
            match policy {
                DashPolicy::Locked => self.dash_direction,
                DashPolicy::Follow => if input.move_dir.is_zero() {
                    self.dash_direction
                } else {
                    input.move_dir
                },
            }
        } else {
            input.move_dir
        }
    }

    /// The direction to remember after this tick: the direction of the
    /// input where it names one and no locked dash is active, else the one
    /// remembered before.
    pub open spec fn remembered(self, input: PlayerInput, policy: DashPolicy) -> Direction {
        if input.move_dir.is_zero() || (self.dash_active() && policy == DashPolicy::Locked) {
            self.dash_direction
        } else {
            input.move_dir
        }
    }

    /// The dash state after a whole tick.
    pub open spec fn updated(self, input: PlayerInput, policy: DashPolicy, dt: nat) -> MovementModel {
        let armed = self.armed(input, dt);
        MovementModel { dash_direction: armed.remembered(input, policy), ..armed }
    }
}

/// The dash state of a player.
#[derive(Debug)]
pub struct PlayerMovementState {
    dash_timer: bevy::time::Timer,
    dash_cooldown: bevy::time::Timer,
    dash_direction: Direction,
}

impl View for PlayerMovementState {
    type V = MovementModel;

    closed spec fn view(&self) -> MovementModel {
        MovementModel {
            dash_timer: timer_state(self.dash_timer),
            dash_cooldown: timer_state(self.dash_cooldown),
            dash_direction: self.dash_direction,
        }
    }
}

/// What a tick of the dash state yields for the integration of position.
#[derive(Debug, Clone, Copy, PartialEq, Eq, Structural)]
pub struct Motion {
    /// The direction of movement; zero where the player stands still.
    pub heading: Direction,
    /// Whether a dash is active on this tick.
    pub dashing: bool,
}

impl PlayerMovementState {
    /// The dash state of a new player: ready to dash.
    pub fn new(cfg: &MovementConfig) -> (s: PlayerMovementState)
        ensures
            s@ == MovementModel::ready(*cfg),
            s@.wf(),
            !s@.dash_active(),
            s@.dash_cooldown.finished,
    {
        PlayerMovementState {
            dash_timer: timer_expired(cfg.dash_duration),
            dash_cooldown: timer_expired(cfg.dash_cooldown),
            dash_direction: Direction { x: Axis::Positive, y: Axis::Neutral },
        }
    }

    /// Whether a dash is active.
    pub fn dash_active(&self) -> (b: bool)
        ensures
            b == self@.dash_active(),
    {
        !timer_is_finished(&self.dash_timer)
    }

    /// Whether the time between two dashes has passed.
    pub fn cooldown_finished(&self) -> (b: bool)
        ensures
            b == self@.dash_cooldown.finished,
    {
        timer_is_finished(&self.dash_cooldown)
    }

    /// The direction last remembered.
    pub fn dash_direction(&self) -> (d: Direction)
        ensures
            d == self@.dash_direction,
    {
        self.dash_direction
    }

    /// Runs the dash state through one tick of `dt` nanoseconds that
    /// consumes `input`, and tells in which direction the player moves and
    /// whether it dashes.
    pub fn update(&mut self, input: &PlayerInput, policy: DashPolicy, dt: u64) -> (motion: Motion)
        requires
            old(self)@.wf(),
        ensures
            final(self)@ == old(self)@.updated(*input, policy, dt as nat),
            final(self)@.wf(),
            motion.dashing == old(self)@.armed(*input, dt as nat).dash_active(),
            motion.heading == old(self)@.armed(*input, dt as nat).heading(*input, policy),
    {
        timer_tick(&mut self.dash_timer, dt);
        timer_tick(&mut self.dash_cooldown, dt);

        let moving = !input.move_dir.is_none();
        if input.dash_pressed && moving && timer_is_finished(&self.dash_timer) && timer_is_finished(
            &self.dash_cooldown,
        ) {
            self.dash_direction = input.move_dir;
            timer_reset(&mut self.dash_timer);
            timer_reset(&mut self.dash_cooldown);
        }
        let dashing = !timer_is_finished(&self.dash_timer);
        let locked = match policy {
            DashPolicy::Locked => true,
            DashPolicy::Follow => false,
        };
        let heading = if dashing && (locked || !moving) {
            self.dash_direction
        } else {
            input.move_dir
        };
        if moving && !(dashing && locked) {
            self.dash_direction = input.move_dir;
        }
        Motion { heading, dashing }
    }
}

/// A player, as the contracts see it.
pub ghost struct PlayerModel {
    /// The identity that the network layer gave the connection.
    pub identity: u64,
    /// The handle of the connection that the player belongs to.
    pub owner: u64,
    pub position: NetTransform,
    /// The input that the next tick consumes.
    pub input: PlayerInput,
    pub movement: MovementModel,
}

impl PlayerModel {
    pub open spec fn wf(self) -> bool {
        self.movement.wf()
    }

    /// A player that has just joined: at the origin, with no intent, ready
    /// to dash.
    pub open spec fn joined(identity: u64, owner: u64, cfg: MovementConfig) -> PlayerModel {
        PlayerModel {
            identity,
            owner,
            position: NetTransform::origin(),
            input: PlayerInput::idle(),
            movement: MovementModel::ready(cfg),
        }
    }

    /// The player with another pending input. What was pending is lost:
    /// inputs are never queued.
    pub open spec fn with_input(self, input: PlayerInput) -> PlayerModel {
        PlayerModel { input, ..self }
    }

    /// Whether the tick of length `dt` starts a dash.
    pub open spec fn dash_starts(self, dt: nat) -> bool {
        self.movement.dash_starts(self.input, dt)
    }

    /// Whether a dash is active on the tick of length `dt`.
    pub open spec fn dashes(self, dt: nat) -> bool {
        self.movement.armed(self.input, dt).dash_active()
    }

    /// The direction in which the tick of length `dt` moves the player.
    pub open spec fn heading(self, cfg: MovementConfig, dt: nat) -> Direction {
        self.movement.armed(self.input, dt).heading(self.input, cfg.dash_policy)
    }

    /// The speed factor of the tick of length `dt`.
    pub open spec fn speed(self, cfg: MovementConfig, dt: nat) -> nat {
        cfg.speed_factor(self.input.sprint, self.dashes(dt))
    }

    /// The player after one tick of `dt` nanoseconds: the dash state is
    /// updated, the position moves along the heading at the speed of the
    /// tick, and the dash request of the input is spent.
    pub open spec fn stepped(self, cfg: MovementConfig, dt: nat) -> PlayerModel {
        PlayerModel {
            identity: self.identity,
            owner: self.owner,
            position: advanced(self.position, self.heading(cfg, dt), self.speed(cfg, dt), dt),
            input: self.input.consumed(),
            movement: self.movement.updated(self.input, cfg.dash_policy, dt),
        }
    }

    /// What clients see of the player.
    pub open spec fn record(self) -> ReplicatedPositionRecord {
        ReplicatedPositionRecord {
            identity: self.identity,
            x: self.position.x,
            y: self.position.y,
        }
    }
}

/// One connected player, owned by the server.
#[derive(Debug)]
pub struct SimulatedPlayer {
    identity: u64,
    owner: u64,
    position: NetTransform,
    input: PlayerInput,
    movement: PlayerMovementState,
}

impl View for SimulatedPlayer {
    type V = PlayerModel;

    closed spec fn view(&self) -> PlayerModel {
        PlayerModel {
            identity: self.identity,
            owner: self.owner,
            position: self.position,
            input: self.input,
            movement: self.movement@,
        }
    }
}

impl SimulatedPlayer {
    /// The player of a connection that has just been made.
    pub fn new(identity: u64, owner: u64, cfg: &MovementConfig) -> (p: SimulatedPlayer)
        ensures
            p@ == PlayerModel::joined(identity, owner, *cfg),
            p@.wf(),
    {
        SimulatedPlayer {
            identity,
            owner,
            position: NetTransform { x: 0, y: 0 },
            input: PlayerInput {
                move_dir: Direction { x: Axis::Neutral, y: Axis::Neutral },
                sprint: false,
                dash_pressed: false,
            },
            movement: PlayerMovementState::new(cfg),
        }
    }

    /// The identity that the network layer gave the connection.
    pub fn identity(&self) -> (id: u64)
        ensures
            id == self@.identity,
    {
        self.identity
    }

    /// The handle of the connection that the player belongs to.
    pub fn owner(&self) -> (owner: u64)
        ensures
            owner == self@.owner,
    {
        self.owner
    }

    /// The authoritative position.
    pub fn position(&self) -> (p: NetTransform)
        ensures
            p == self@.position,
    {
        self.position
    }

    /// The input that the next tick consumes.
    pub fn input(&self) -> (input: PlayerInput)
        ensures
            input == self@.input,
    {
        self.input
    }

    /// The dash state.
    pub fn movement(&self) -> (m: &PlayerMovementState)
        ensures
            m@ == self@.movement,
    {
        &self.movement
    }

    /// What clients see of the player.
    pub fn record(&self) -> (r: ReplicatedPositionRecord)
        ensures
            r == self@.record(),
    {
        ReplicatedPositionRecord { identity: self.identity, x: self.position.x, y: self.position.y }
    }

    /// Replaces the pending input.
    pub fn set_input(&mut self, input: PlayerInput)
        ensures
            final(self)@ == old(self)@.with_input(input),
    {
        self.input = input;
    }

    /// Runs the player through one tick of `dt` nanoseconds.
    pub fn apply_movement(&mut self, cfg: &MovementConfig, dt: u64)
        requires
            old(self)@.wf(),
        ensures
            final(self)@ == old(self)@.stepped(*cfg, dt as nat),
            final(self)@.wf(),
    {
        let input = self.input;
        let motion = self.movement.update(&input, cfg.dash_policy, dt);
        if !motion.heading.is_none() {
            let speed = cfg.speed(input.sprint, motion.dashing);
            self.position = advance(self.position, motion.heading, speed, dt);
        } else {
            proof {
                lemma_standing_still(
                    self.position,
                    motion.heading,
                    old(self)@.speed(*cfg, dt as nat),
                    dt as nat,
                );
            }
        }
        self.input.dash_pressed = false;
    }
}

/// Moving in no direction leaves the position where it is.
pub proof fn lemma_standing_still(p: NetTransform, d: Direction, speed: nat, dt: nat)
    requires
        d.is_zero(),
    ensures
        advanced(p, d, speed, dt) == p,
{
    let distance = travel(d.unit_part(), speed, dt);
    assert(0 * distance == 0);
}

/// A direction that arrives as a pair of -1, 0 and 1, not both zero, is
/// applied as a vector of unit length, whether it runs along an axis or
/// along a diagonal.
pub proof fn lemma_command_direction_is_unit(c: PlayerInputCommand)
    requires
        -1 <= c.x <= 1,
        -1 <= c.y <= 1,
        c.x != 0 || c.y != 0,
    ensures
        ({
            let d = PlayerInput::of_command(c).move_dir;
            &&& d.x.sign() == c.x
            &&& d.y.sign() == c.y
            &&& UNIT * UNIT - 1 <= d.unit_length_squared() <= UNIT * UNIT
        }),
{
    lemma_unit_length(PlayerInput::of_command(c).move_dir);
}

/// What happens on one tick: the input that arrives, and the length of the
/// tick in nanoseconds.
pub ghost struct TickInput {
    pub input: PlayerInput,
    pub dt: nat,
}

/// The time that a run of ticks takes.
pub open spec fn total_time(ticks: Seq<TickInput>) -> nat
    decreases ticks.len(),
{
    if ticks.len() == 0 {
        0
    } else {
        total_time(ticks.drop_last()) + ticks.last().dt
    }
}

impl PlayerModel {
    /// The player after a run of ticks, each of which first takes in its
    /// input and then moves the player.
    pub open spec fn run(self, cfg: MovementConfig, ticks: Seq<TickInput>) -> PlayerModel
        decreases ticks.len(),
    {
        if ticks.len() == 0 {
            self
        } else {
            let t = ticks.last();
            self.run(cfg, ticks.drop_last()).with_input(t.input).stepped(cfg, t.dt)
        }
    }

    /// The player after `n` ticks of the same length with the same input.
    pub open spec fn repeated(self, cfg: MovementConfig, input: PlayerInput, dt: nat, n: nat) -> PlayerModel
        decreases n,
    {
        if n == 0 {
            self
        } else {
            self.repeated(cfg, input, dt, (n - 1) as nat).with_input(input).stepped(cfg, dt)
        }
    }
}

/// A tick keeps a player well-formed, and changes neither its identity nor
/// its connection.
pub proof fn lemma_stepped_wf(p: PlayerModel, cfg: MovementConfig, dt: nat)
    requires
        p.wf(),
    ensures
        p.stepped(cfg, dt).wf(),
        p.stepped(cfg, dt).identity == p.identity,
        p.stepped(cfg, dt).owner == p.owner,
        !p.stepped(cfg, dt).input.dash_pressed,
{
}

/// A dash starts on a tick exactly when a dash is requested, the input
/// names a direction, and both timers have run out by that tick. On no
/// other tick are the timers started over.
pub proof fn lemma_dash_start(p: PlayerModel, cfg: MovementConfig, dt: nat)
    requires
        p.wf(),
    ensures
        p.dash_starts(dt) <==> (p.input.dash_pressed && !p.input.move_dir.is_zero()
            && p.movement.dash_timer.ticked(dt).finished
            && p.movement.dash_cooldown.ticked(dt).finished),
        p.dash_starts(dt) ==> {
            &&& p.stepped(cfg, dt).movement.dash_timer == p.movement.dash_timer.ticked(dt).restarted()
            &&& p.stepped(cfg, dt).movement.dash_cooldown == p.movement.dash_cooldown.ticked(
                dt,
            ).restarted()
            &&& p.dashes(dt)
        },
        !p.dash_starts(dt) ==> {
            &&& p.stepped(cfg, dt).movement.dash_timer == p.movement.dash_timer.ticked(dt)
            &&& p.stepped(cfg, dt).movement.dash_cooldown == p.movement.dash_cooldown.ticked(dt)
        },
{
}

/// While either dash timer is still running, no dash starts, whatever is
/// requested: if the dash timer or the cooldown timer of a player has not
/// run out and will not have run out by the end of tick `k` of a run, then
/// tick `k` starts no dash.
pub proof fn lemma_no_dash_while_timer_runs(
    p: PlayerModel,
    cfg: MovementConfig,
    ticks: Seq<TickInput>,
    k: int,
)
    requires
        p.wf(),
        0 <= k < ticks.len(),
        ({
            ||| (!p.movement.dash_timer.finished && p.movement.dash_timer.elapsed + total_time(
                ticks.take(k + 1),
            ) < p.movement.dash_timer.duration)
            ||| (!p.movement.dash_cooldown.finished && p.movement.dash_cooldown.elapsed
                + total_time(ticks.take(k + 1)) < p.movement.dash_cooldown.duration)
        }),
    ensures
        !p.run(cfg, ticks.take(k)).with_input(ticks[k].input).dash_starts(ticks[k].dt),
{
    assert(ticks.take(k + 1).drop_last() =~= ticks.take(k));
    assert(ticks.take(k + 1).last() == ticks[k]);
    lemma_running_timers_count(p, cfg, ticks, k);
}

/// Over a run of ticks that ends before a running timer runs out, that
/// timer counts the whole time of the run and does not finish.
pub proof fn lemma_running_timers_count(
    p: PlayerModel,
    cfg: MovementConfig,
    ticks: Seq<TickInput>,
    k: int,
)
    requires
        p.wf(),
        0 <= k <= ticks.len(),
    ensures
        p.run(cfg, ticks.take(k)).wf(),
        (!p.movement.dash_timer.finished && p.movement.dash_timer.elapsed + total_time(
            ticks.take(k),
        ) < p.movement.dash_timer.duration) ==> ({
            let q = p.run(cfg, ticks.take(k)).movement.dash_timer;
            &&& !q.finished
            &&& q.duration == p.movement.dash_timer.duration
            &&& q.elapsed == p.movement.dash_timer.elapsed + total_time(ticks.take(k))
        }),
        (!p.movement.dash_cooldown.finished && p.movement.dash_cooldown.elapsed + total_time(
            ticks.take(k),
        ) < p.movement.dash_cooldown.duration) ==> ({
            let q = p.run(cfg, ticks.take(k)).movement.dash_cooldown;
            &&& !q.finished
            &&& q.duration == p.movement.dash_cooldown.duration
            &&& q.elapsed == p.movement.dash_cooldown.elapsed + total_time(ticks.take(k))
        }),
    decreases k,
{
    if k > 0 {
        lemma_running_timers_count(p, cfg, ticks, k - 1);
        assert(ticks.take(k).drop_last() =~= ticks.take(k - 1));
        assert(ticks.take(k).last() == ticks[k - 1]);
        let before = p.run(cfg, ticks.take(k - 1));
        let t = ticks[k - 1];
        lemma_stepped_wf(before.with_input(t.input), cfg, t.dt);
    }
}

/// How far one tick moves a walking player along x, in position steps.
pub open spec fn stride_x(cfg: MovementConfig, input: PlayerInput, dt: nat) -> int {
    input.move_dir.x.sign() * travel(
        input.move_dir.unit_part(),
        cfg.speed_factor(input.sprint, false),
        dt,
    )
}

/// How far one tick moves a walking player along y, in position steps.
pub open spec fn stride_y(cfg: MovementConfig, input: PlayerInput, dt: nat) -> int {
    input.move_dir.y.sign() * travel(
        input.move_dir.unit_part(),
        cfg.speed_factor(input.sprint, false),
        dt,
    )
}

/// Walking is steady: a player that is not dashing and receives the same
/// input without a dash request on each of `n` ticks of the same length
/// moves by exactly `n` times the stride of one tick, as long as that keeps
/// it within the range of coordinates.
pub proof fn lemma_steady_walk(
    p: PlayerModel,
    cfg: MovementConfig,
    input: PlayerInput,
    dt: nat,
    n: nat,
)
    requires
        p.wf(),
        !p.movement.dash_active(),
        !input.dash_pressed,
        i64::MIN <= p.position.x + n * stride_x(cfg, input, dt) <= i64::MAX,
        i64::MIN <= p.position.y + n * stride_y(cfg, input, dt) <= i64::MAX,
    ensures
        ({
            let q = p.repeated(cfg, input, dt, n);
            &&& q.wf()
            &&& !q.movement.dash_active()
            &&& q.position.x == p.position.x + n * stride_x(cfg, input, dt)
            &&& q.position.y == p.position.y + n * stride_y(cfg, input, dt)
        }),
    decreases n,
{
    let dx = stride_x(cfg, input, dt);
    let dy = stride_y(cfg, input, dt);
    if n > 0 {
        let m = (n - 1) as nat;
        lemma_partial_sum_between(p.position.x as int, dx, m as int, n as int);
        lemma_partial_sum_between(p.position.y as int, dy, m as int, n as int);
        lemma_steady_walk(p, cfg, input, dt, m);
        let before = p.repeated(cfg, input, dt, m).with_input(input);
        assert(!before.dash_starts(dt));
        assert(before.heading(cfg, dt) == input.move_dir);
        assert(m * dx + dx == n * dx) by (nonlinear_arith)
            requires
                m + 1 == n,
        ;
        assert(m * dy + dy == n * dy) by (nonlinear_arith)
            requires
                m + 1 == n,
        ;
    } else {
        assert(0 * dx == 0);
        assert(0 * dy == 0);
    }
}

/// A part of a walk lies between its start and its end.
proof fn lemma_partial_sum_between(start: int, stride: int, m: int, n: int)
    requires
        0 <= m <= n,
        i64::MIN <= start <= i64::MAX,
        i64::MIN <= start + n * stride <= i64::MAX,
    ensures
        i64::MIN <= start + m * stride <= i64::MAX,
{
    assert(stride >= 0 ==> 0 <= m * stride <= n * stride) by (nonlinear_arith)
        requires
            0 <= m <= n,
    ;
    assert(stride <= 0 ==> n * stride <= m * stride <= 0) by (nonlinear_arith)
        requires
            0 <= m <= n,
    ;
}

} // verus!
