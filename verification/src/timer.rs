//! One-shot countdown timers, kept by `bevy::time::Timer`.
//!
//! The timer itself is opaque to the verifier. What the rest of the crate
//! needs to know about it is a [`TimerState`]: how long it runs, how far it
//! has counted, and whether it has reported completion.

use vstd::prelude::*;

verus! {

/// `bevy::time::Timer`, of which the verifier sees nothing but
/// [`timer_state`].
#[verifier::external_type_specification]
#[verifier::external_body]
pub struct ExTimer(bevy::time::Timer);

/// What a timer holds, with times in nanoseconds.
pub ghost struct TimerState {
    /// The time after which the timer finishes.
    pub duration: nat,
    /// The time counted so far.
    pub elapsed: nat,
    /// Whether the timer has reported that it finished.
    pub finished: bool,
    /// Whether the timer counts once (it does not repeat) and is not paused.
    pub one_shot: bool,
}

/// What a `bevy::time::Timer` holds: its duration and elapsed time in whole
/// nanoseconds, what `is_finished` reports, and whether it is in
/// `TimerMode::Once` and not paused.
pub uninterp spec fn timer_state(t: bevy::time::Timer) -> TimerState;

impl TimerState {
    /// A one-shot timer never counts past its duration, and once finished it
    /// rests exactly there.
    pub open spec fn wf(self) -> bool {
        &&& self.one_shot
        &&& self.elapsed <= self.duration
        &&& self.finished ==> self.elapsed == self.duration
    }

    /// A timer of the given duration that has not started counting.
    pub open spec fn fresh(duration: nat) -> TimerState {
        TimerState { duration, elapsed: 0, finished: false, one_shot: true }
    }

    /// The state after counting `delta` more nanoseconds. A finished timer
    /// stays as it is; one that reaches its duration stops there, finished.
    pub open spec fn ticked(self, delta: nat) -> TimerState {
        if self.finished {
            self
        } else if self.elapsed + delta >= self.duration {
            TimerState { elapsed: self.duration, finished: true, ..self }
        } else {
            TimerState { elapsed: self.elapsed + delta, ..self }
        }
    }

    /// The state after starting over: nothing counted, not finished.
    pub open spec fn restarted(self) -> TimerState {
        TimerState { elapsed: 0, finished: false, ..self }
    }

    /// The state after running out the remaining time.
    pub open spec fn expired(self) -> TimerState {
        self.ticked((self.duration - self.elapsed) as nat)
    }
}

/// Calls `Timer::new` with `TimerMode::Once`: the timer has the given
/// duration, has counted nothing, is not finished and is not paused.
#[verifier::external_body]
pub(crate) fn timer_new(duration_nanos: u64) -> (t: bevy::time::Timer)
    ensures
        timer_state(t) == TimerState::fresh(duration_nanos as nat),
{
    bevy::time::Timer::new(
        std::time::Duration::from_nanos(duration_nanos),
        bevy::time::TimerMode::Once,
    )
}

/// Calls `Timer::tick`. For a one-shot, unpaused timer this adds `delta` to
/// the elapsed time unless the timer is already finished, and finishes it
/// at its duration once that is reached.
#[verifier::external_body]
pub(crate) fn timer_tick(t: &mut bevy::time::Timer, delta_nanos: u64)
    requires
        timer_state(*old(t)).one_shot,
    ensures
        timer_state(*final(t)) == timer_state(*old(t)).ticked(delta_nanos as nat),
{
    t.tick(std::time::Duration::from_nanos(delta_nanos));
}

/// Calls `Timer::finish`, which ticks the timer by its remaining time.
/// The remaining time is a subtraction of durations, so the elapsed time
/// must not exceed the duration.
#[verifier::external_body]
pub(crate) fn timer_finish(t: &mut bevy::time::Timer)
    requires
        timer_state(*old(t)).one_shot,
        timer_state(*old(t)).elapsed <= timer_state(*old(t)).duration,
    ensures
        timer_state(*final(t)) == timer_state(*old(t)).expired(),
{
    t.finish();
}

/// Calls `Timer::reset`: the elapsed time returns to zero and the timer is
/// no longer finished; duration, mode and pause state are untouched.
#[verifier::external_body]
pub(crate) fn timer_reset(t: &mut bevy::time::Timer)
    ensures
        timer_state(*final(t)) == timer_state(*old(t)).restarted(),
{
    t.reset();
}

/// Calls `Timer::is_finished`.
#[verifier::external_body]
pub(crate) fn timer_is_finished(t: &bevy::time::Timer) -> (b: bool)
    ensures
        b == timer_state(*t).finished,
{
    t.is_finished()
}

/// A timer of the given duration that has already run out.
pub(crate) fn timer_expired(duration_nanos: u64) -> (t: bevy::time::Timer)
    ensures
        timer_state(t) == TimerState::fresh(duration_nanos as nat).expired(),
        timer_state(t).wf(),
        timer_state(t).finished,
{
    let mut t = timer_new(duration_nanos);
    timer_finish(&mut t);
    t
}

} // verus!
