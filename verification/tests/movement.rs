use alcatraz::direction::{Axis, Direction, DIAGONAL, UNIT};
use alcatraz::movement::{
    advance, DashPolicy, MovementConfig, BASE_MOVE_SPEED, DASH_COOLDOWN_NANOS,
    DASH_DURATION_NANOS, DASH_SPEED_MULTIPLIER, SPRINT_MULTIPLIER,
};
use alcatraz::player::{PlayerInput, PlayerMovementState, SimulatedPlayer};
use alcatraz::protocol::{NetTransform, PlayerInputCommand, POSITION_SCALE};

const SECOND: u64 = 1_000_000_000;

fn command(x: i8, y: i8, sprint: bool, dash: bool) -> PlayerInputCommand {
    PlayerInputCommand { x, y, sprint, dash }
}

fn fresh_player() -> SimulatedPlayer {
    SimulatedPlayer::new(7, 1, &MovementConfig::default())
}

fn tick(p: &mut SimulatedPlayer, cfg: &MovementConfig, c: PlayerInputCommand, dt: u64) {
    p.set_input(PlayerInput::from_command(&c));
    p.apply_movement(cfg, dt);
}

#[test]
fn default_config_holds_the_standard_tuning() {
    let cfg = MovementConfig::default();
    assert_eq!(cfg.base_speed, 70_000);
    assert_eq!(cfg.sprint_multiplier, 1_500);
    assert_eq!(cfg.dash_speed_multiplier, 3_000);
    assert_eq!(cfg.dash_duration, 180_000_000);
    assert_eq!(cfg.dash_cooldown, 800_000_000);
    assert_eq!(cfg.dash_policy, DashPolicy::Locked);
    assert_eq!(BASE_MOVE_SPEED, 70_000);
    assert_eq!(SPRINT_MULTIPLIER, 1_500);
    assert_eq!(DASH_SPEED_MULTIPLIER, 3_000);
    assert_eq!(DASH_DURATION_NANOS, 180_000_000);
    assert_eq!(DASH_COOLDOWN_NANOS, 800_000_000);
}

#[test]
fn speed_multipliers_stack_as_factors() {
    let cfg = MovementConfig::default();
    assert_eq!(cfg.speed(false, false), 70_000 * 1_000 * 1_000);
    assert_eq!(cfg.speed(true, false), 70_000 * 1_500 * 1_000);
    assert_eq!(cfg.speed(false, true), 70_000 * 1_000 * 3_000);
    assert_eq!(cfg.speed(true, true), 70_000 * 1_500 * 3_000);
}

#[test]
fn walking_east_for_a_second_covers_seventy_units() {
    let cfg = MovementConfig::default();
    let mut p = fresh_player();
    assert_eq!(p.position(), NetTransform { x: 0, y: 0 });
    tick(&mut p, &cfg, command(1, 0, false, false), SECOND);
    assert_eq!(p.position(), NetTransform { x: 70 * POSITION_SCALE, y: 0 });
}

#[test]
fn a_dash_triples_the_speed_and_does_not_retrigger_in_cooldown() {
    let cfg = MovementConfig::default();
    let mut p = fresh_player();
    tick(&mut p, &cfg, command(1, 0, false, true), 180_000_000);
    assert_eq!(p.position(), NetTransform { x: 37_800_000_000, y: 0 });
    assert!(p.movement().dash_active());
    assert!(!p.movement().cooldown_finished());

    tick(&mut p, &cfg, command(1, 0, false, true), 180_000_000);
    assert_eq!(p.position(), NetTransform { x: 37_800_000_000 + 12_600_000_000, y: 0 });
    assert!(!p.movement().dash_active());
    assert!(!p.movement().cooldown_finished());
}

#[test]
fn a_diagonal_step_is_as_long_as_a_straight_one() {
    let cfg = MovementConfig::default();
    let mut p = fresh_player();
    tick(&mut p, &cfg, command(1, 1, false, false), SECOND);
    let at = p.position();
    assert_eq!(at, NetTransform { x: 49_497_474_683, y: 49_497_474_683 });
    let length = ((at.x as f64).powi(2) + (at.y as f64).powi(2)).sqrt() / POSITION_SCALE as f64;
    assert!((length - 70.0).abs() < 1e-6);
    assert!(length <= 70.0);
}

#[test]
fn unit_vectors_have_unit_length() {
    let unit = UNIT as u64;
    let diagonal = DIAGONAL as u64;
    assert_eq!(2 * diagonal * diagonal + 1, unit * unit);
    for x in [-1i8, 0, 1] {
        for y in [-1i8, 0, 1] {
            let d = Direction::from_wire(x, y);
            let part = d.part() as u64;
            let squared = (x as i64).unsigned_abs() * part * part
                + (y as i64).unsigned_abs() * part * part;
            if x == 0 && y == 0 {
                assert!(d.is_none());
            } else {
                assert!(!d.is_none());
                assert!(squared == unit * unit || squared == unit * unit - 1);
            }
        }
    }
}

#[test]
fn every_direction_moves_along_its_signs() {
    let cfg = MovementConfig::default();
    for x in [-1i8, 0, 1] {
        for y in [-1i8, 0, 1] {
            let mut p = fresh_player();
            tick(&mut p, &cfg, command(x, y, false, false), SECOND);
            let straight = 70 * POSITION_SCALE;
            let slanted = 49_497_474_683i64;
            let each = if x != 0 && y != 0 { slanted } else { straight };
            assert_eq!(p.position(), NetTransform { x: x as i64 * each, y: y as i64 * each });
        }
    }
}

#[test]
fn out_of_range_directions_are_no_intent() {
    for (x, y) in [(2i8, 0i8), (0, -2), (1, 2), (-128, 127), (127, 1), (3, 3)] {
        let input = PlayerInput::from_command(&command(x, y, true, true));
        assert_eq!(input.move_dir, Direction { x: Axis::Neutral, y: Axis::Neutral });
        assert!(input.sprint);
        assert!(input.dash_pressed);

        let cfg = MovementConfig::default();
        let mut p = fresh_player();
        tick(&mut p, &cfg, command(x, y, true, true), SECOND);
        assert_eq!(p.position(), NetTransform { x: 0, y: 0 });
        assert!(!p.movement().dash_active());
    }
}

#[test]
fn wire_values_map_to_axes() {
    assert_eq!(Axis::from_wire(-1), Some(Axis::Negative));
    assert_eq!(Axis::from_wire(0), Some(Axis::Neutral));
    assert_eq!(Axis::from_wire(1), Some(Axis::Positive));
    assert_eq!(Axis::from_wire(2), None);
    assert_eq!(Axis::from_wire(-2), None);
    assert_eq!(Axis::Negative.to_wire(), -1);
    assert_eq!(Axis::Neutral.to_wire(), 0);
    assert_eq!(Axis::Positive.to_wire(), 1);
    assert!(Direction::none().is_none());
}

#[test]
fn a_new_player_is_ready_to_dash() {
    let state = PlayerMovementState::new(&MovementConfig::default());
    assert!(!state.dash_active());
    assert!(state.cooldown_finished());
    assert_eq!(state.dash_direction(), Direction { x: Axis::Positive, y: Axis::Neutral });

    let p = fresh_player();
    assert_eq!(p.identity(), 7);
    assert_eq!(p.owner(), 1);
    assert_eq!(p.input().move_dir, Direction::none());
    assert!(!p.input().sprint);
    assert!(!p.input().dash_pressed);
}

#[test]
fn a_dash_needs_a_direction() {
    let cfg = MovementConfig::default();
    let mut p = fresh_player();
    tick(&mut p, &cfg, command(0, 0, false, true), 16_000_000);
    assert!(!p.movement().dash_active());
    assert!(p.movement().cooldown_finished());
    assert_eq!(p.position(), NetTransform { x: 0, y: 0 });
}

#[test]
fn the_dash_request_is_spent_by_the_tick() {
    let cfg = MovementConfig::default();
    let mut p = fresh_player();
    p.set_input(PlayerInput::from_command(&command(0, 1, false, true)));
    assert!(p.input().dash_pressed);
    p.apply_movement(&cfg, 16_000_000);
    assert!(!p.input().dash_pressed);
    assert_eq!(p.input().move_dir, Direction { x: Axis::Neutral, y: Axis::Positive });
}

#[test]
fn a_held_dash_key_starts_one_dash_per_cooldown() {
    let cfg = MovementConfig::default();
    let mut p = fresh_player();
    let dt = 20_000_000u64;
    let mut starts = 0;
    let mut was_active = false;
    let mut elapsed = 0u64;
    let mut active_ticks = 0;
    while elapsed < 800_000_000 {
        tick(&mut p, &cfg, command(1, 0, false, true), dt);
        let active = p.movement().dash_active();
        if active && !was_active {
            starts += 1;
        }
        if active {
            active_ticks += 1;
        }
        was_active = active;
        elapsed += dt;
    }
    assert_eq!(starts, 1);
    // The dash is active on the tick that starts it and until its timer has counted 180 ms.
    assert_eq!(active_ticks, 9);

    // The cooldown has counted 780 ms by now; the next tick completes it and dashes again.
    tick(&mut p, &cfg, command(1, 0, false, true), dt);
    assert!(p.movement().dash_active());
}

#[test]
fn a_locked_dash_keeps_its_direction() {
    let cfg = MovementConfig::default();
    let mut p = fresh_player();
    tick(&mut p, &cfg, command(1, 0, false, true), 10_000_000);
    assert_eq!(p.position(), NetTransform { x: 2_100_000_000, y: 0 });
    // Steering north during the dash changes nothing: the dash goes on eastwards.
    tick(&mut p, &cfg, command(0, 1, false, false), 10_000_000);
    assert_eq!(p.position(), NetTransform { x: 4_200_000_000, y: 0 });
    assert_eq!(p.movement().dash_direction(), Direction { x: Axis::Positive, y: Axis::Neutral });
    // Letting go of the keys does not stop it either.
    tick(&mut p, &cfg, command(0, 0, false, false), 10_000_000);
    assert_eq!(p.position(), NetTransform { x: 6_300_000_000, y: 0 });
}

#[test]
fn a_following_dash_steers_with_the_input() {
    let cfg = MovementConfig { dash_policy: DashPolicy::Follow, ..MovementConfig::default() };
    let mut p = SimulatedPlayer::new(7, 1, &cfg);
    tick(&mut p, &cfg, command(1, 0, false, true), 10_000_000);
    assert_eq!(p.position(), NetTransform { x: 2_100_000_000, y: 0 });
    tick(&mut p, &cfg, command(0, 1, false, false), 10_000_000);
    assert_eq!(p.position(), NetTransform { x: 2_100_000_000, y: 2_100_000_000 });
    assert_eq!(p.movement().dash_direction(), Direction { x: Axis::Neutral, y: Axis::Positive });
    // Without input the dash goes on in the direction last remembered.
    tick(&mut p, &cfg, command(0, 0, false, false), 10_000_000);
    assert_eq!(p.position(), NetTransform { x: 2_100_000_000, y: 4_200_000_000 });
}

#[test]
fn sprint_and_dash_multiply() {
    let cfg = MovementConfig::default();
    let mut p = fresh_player();
    tick(&mut p, &cfg, command(1, 0, true, false), SECOND);
    assert_eq!(p.position(), NetTransform { x: 105 * POSITION_SCALE, y: 0 });

    let mut q = fresh_player();
    tick(&mut q, &cfg, command(-1, -1, true, true), 16_000_000);
    assert_eq!(q.position(), NetTransform { x: -3_563_818_177, y: -3_563_818_177 });
}

#[test]
fn steady_walking_adds_up() {
    let cfg = MovementConfig::default();
    let mut p = fresh_player();
    for _ in 0..10 {
        tick(&mut p, &cfg, command(0, -1, false, false), 16_666_667);
    }
    assert_eq!(p.position(), NetTransform { x: 0, y: -11_666_666_900 });
}

#[test]
fn equal_inputs_give_equal_outcomes() {
    let cfg = MovementConfig::default();
    let mut a = fresh_player();
    let mut b = fresh_player();
    let script = [
        (command(1, 1, true, true), 16_000_000u64),
        (command(1, 0, false, true), 200_000_000),
        (command(0, 0, false, false), 700_000_000),
        (command(-1, 1, true, true), 33_000_000),
    ];
    for (c, dt) in script {
        tick(&mut a, &cfg, c, dt);
        tick(&mut b, &cfg, c, dt);
        assert_eq!(a.position(), b.position());
        assert_eq!(a.movement().dash_active(), b.movement().dash_active());
        assert_eq!(a.movement().cooldown_finished(), b.movement().cooldown_finished());
    }
}

#[test]
fn a_tick_of_no_length_moves_nothing() {
    let cfg = MovementConfig::default();
    let mut p = fresh_player();
    tick(&mut p, &cfg, command(1, 1, true, false), 0);
    assert_eq!(p.position(), NetTransform { x: 0, y: 0 });
}

#[test]
fn positions_stop_at_the_end_of_the_range() {
    let far = NetTransform { x: i64::MAX - 5, y: i64::MIN + 5 };
    let south_east = Direction { x: Axis::Positive, y: Axis::Negative };
    let cfg = MovementConfig::default();
    let moved = advance(far, south_east, cfg.speed(false, false), SECOND);
    assert_eq!(moved, NetTransform { x: i64::MAX, y: i64::MIN });

    // A distance far beyond the range of coordinates.
    let fastest = MovementConfig {
        base_speed: u32::MAX,
        sprint_multiplier: u32::MAX,
        dash_speed_multiplier: u32::MAX,
        ..cfg
    };
    let start = NetTransform { x: 0, y: 0 };
    let flung = advance(start, south_east, fastest.speed(true, true), u64::MAX);
    assert_eq!(flung, NetTransform { x: i64::MAX, y: i64::MIN });
    let north = Direction { x: Axis::Neutral, y: Axis::Positive };
    let up = advance(start, north, fastest.speed(true, true), u64::MAX);
    assert_eq!(up, NetTransform { x: 0, y: i64::MAX });
}

#[test]
fn a_zero_length_dash_lasts_one_tick() {
    let cfg = MovementConfig { dash_duration: 0, dash_cooldown: 0, ..MovementConfig::default() };
    let mut p = SimulatedPlayer::new(7, 1, &cfg);
    tick(&mut p, &cfg, command(1, 0, false, true), 10_000_000);
    assert!(p.movement().dash_active());
    assert_eq!(p.position(), NetTransform { x: 2_100_000_000, y: 0 });
    tick(&mut p, &cfg, command(1, 0, false, false), 10_000_000);
    assert!(!p.movement().dash_active());
    assert_eq!(p.position(), NetTransform { x: 2_800_000_000, y: 0 });
}

#[test]
fn a_record_shows_identity_and_position_only() {
    let cfg = MovementConfig::default();
    let mut p = fresh_player();
    tick(&mut p, &cfg, command(-1, 0, false, false), SECOND);
    let r = p.record();
    assert_eq!(r.identity, 7);
    assert_eq!(r.x, -70 * POSITION_SCALE);
    assert_eq!(r.y, 0);
    assert_eq!(r.player().network_id, 7);
    assert_eq!(r.transform(), NetTransform { x: -70 * POSITION_SCALE, y: 0 });
    assert_eq!(NetTransform::default(), NetTransform { x: 0, y: 0 });
}
