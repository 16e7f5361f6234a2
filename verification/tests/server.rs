use alcatraz::direction::{Axis, Direction};
use alcatraz::movement::MovementConfig;
use alcatraz::protocol::{
    ClientId, FromClient, NetTransform, PlayerInputCommand, ReplicatedPositionRecord,
    MAX_CLIENTS, POSITION_SCALE, PROTOCOL_ID,
};
use alcatraz::server::{Connection, ServerWorld};

const SECOND: u64 = 1_000_000_000;

fn from(client: u64, x: i8, y: i8) -> FromClient {
    FromClient {
        client_id: ClientId::Client(client),
        message: PlayerInputCommand { x, y, sprint: false, dash: false },
    }
}

fn world() -> ServerWorld {
    ServerWorld::new(MovementConfig::default())
}

#[test]
fn the_protocol_tag_is_fixed() {
    assert_eq!(PROTOCOL_ID, 0xA1CA_74A5_0000_0001);
    assert_eq!(POSITION_SCALE, 1_000_000_000);
    assert_eq!(MAX_CLIENTS, 32);
}

#[test]
fn a_new_world_is_empty() {
    let w = world();
    assert_eq!(w.player_count(), 0);
    assert!(w.player(0).is_none());
    assert!(w.snapshot().is_empty());
    assert_eq!(w.config(), MovementConfig::default());
}

#[test]
fn a_connection_gets_a_player_at_the_origin() {
    let mut w = world();
    w.spawn_player_on_connect(11, 9001);
    assert_eq!(w.player_count(), 1);
    let p = w.player(0).unwrap();
    assert_eq!(p.identity(), 9001);
    assert_eq!(p.owner(), 11);
    assert_eq!(p.position(), NetTransform { x: 0, y: 0 });
    assert!(!p.movement().dash_active());
    assert!(p.movement().cooldown_finished());
    assert_eq!(w.snapshot(), vec![ReplicatedPositionRecord { identity: 9001, x: 0, y: 0 }]);
    assert_eq!(w.find_owner(11), Some(0));
    assert_eq!(w.find_identity(9001), Some(0));
    assert_eq!(w.find_owner(9001), None);
    assert_eq!(w.find_identity(11), None);
}

#[test]
fn connect_then_disconnect_leaves_nothing() {
    let mut w = world();
    w.spawn_player_on_connect(11, 9001);
    w.despawn_player_on_disconnect(11);
    assert_eq!(w.player_count(), 0);
    assert!(w.snapshot().is_empty());
    // A second disconnection of the same connection is no error.
    w.despawn_player_on_disconnect(11);
    assert_eq!(w.player_count(), 0);
}

#[test]
fn a_disconnection_removes_only_its_own_player() {
    let mut w = world();
    w.spawn_player_on_connect(11, 9001);
    w.spawn_player_on_connect(12, 9002);
    w.spawn_player_on_connect(13, 9003);
    w.receive_player_input(&from(12, 1, 0));
    w.receive_player_input(&from(13, 0, 1));
    w.apply_player_movement(SECOND);

    w.despawn_player_on_disconnect(12);
    assert_eq!(
        w.snapshot(),
        vec![
            ReplicatedPositionRecord { identity: 9001, x: 0, y: 0 },
            ReplicatedPositionRecord { identity: 9003, x: 0, y: 70 * POSITION_SCALE },
        ]
    );
    w.despawn_player_on_disconnect(99);
    assert_eq!(w.player_count(), 2);
    w.despawn_player_on_disconnect(11);
    assert_eq!(
        w.snapshot(),
        vec![ReplicatedPositionRecord { identity: 9003, x: 0, y: 70 * POSITION_SCALE }]
    );
}

#[test]
fn commands_reach_the_player_of_their_connection() {
    let mut w = world();
    w.spawn_player_on_connect(11, 9001);
    w.spawn_player_on_connect(12, 9002);
    assert_eq!(w.find_recipient(&ClientId::Client(12)), Some(1));
    assert_eq!(w.find_recipient(&ClientId::Client(11)), Some(0));
    w.receive_player_input(&from(12, -1, 0));
    let west = Direction { x: Axis::Negative, y: Axis::Neutral };
    assert_eq!(w.player(1).unwrap().input().move_dir, west);
    assert_eq!(w.player(0).unwrap().input().move_dir, Direction::none());
    w.apply_player_movement(SECOND);
    assert_eq!(
        w.snapshot(),
        vec![
            ReplicatedPositionRecord { identity: 9001, x: 0, y: 0 },
            ReplicatedPositionRecord { identity: 9002, x: -70 * POSITION_SCALE, y: 0 },
        ]
    );
}

#[test]
fn commands_without_a_player_are_dropped() {
    let mut w = world();
    w.spawn_player_on_connect(11, 9001);
    assert_eq!(w.find_recipient(&ClientId::Server), None);
    assert_eq!(w.find_recipient(&ClientId::Client(77)), None);
    let from_server = FromClient {
        client_id: ClientId::Server,
        message: PlayerInputCommand { x: 1, y: 0, sprint: false, dash: false },
    };
    w.receive_player_input(&from_server);
    w.receive_player_input(&from(77, 1, 0));
    // The identity of a player is not the handle of its connection.
    w.receive_player_input(&from(9001, 1, 0));
    assert_eq!(w.player(0).unwrap().input().move_dir, Direction::none());

    w.despawn_player_on_disconnect(11);
    w.receive_player_input(&from(11, 1, 0));
    w.apply_player_movement(SECOND);
    assert_eq!(w.player_count(), 0);
}

#[test]
fn a_burst_of_commands_collapses_to_the_last() {
    let mut w = world();
    w.spawn_player_on_connect(11, 9001);
    let burst = vec![from(11, 1, 0), from(11, 0, 1), from(12, 1, 1), from(11, 0, -1)];
    w.receive_player_inputs(&burst);
    w.apply_player_movement(SECOND);
    assert_eq!(
        w.snapshot(),
        vec![ReplicatedPositionRecord { identity: 9001, x: 0, y: -70 * POSITION_SCALE }]
    );
}

#[test]
fn an_input_is_kept_until_the_next_one_arrives() {
    let mut w = world();
    w.spawn_player_on_connect(11, 9001);
    w.receive_player_input(&FromClient {
        client_id: ClientId::Client(11),
        message: PlayerInputCommand { x: 1, y: 0, sprint: false, dash: true },
    });
    w.apply_player_movement(10_000_000);
    w.apply_player_movement(10_000_000);
    // The direction stays, the dash request was spent by the first tick.
    let p = w.player(0).unwrap();
    assert_eq!(p.input().move_dir, Direction { x: Axis::Positive, y: Axis::Neutral });
    assert!(!p.input().dash_pressed);
    assert_eq!(p.position(), NetTransform { x: 4_200_000_000, y: 0 });
}

#[test]
fn a_tick_runs_its_phases_in_order() {
    let mut w = world();
    w.spawn_player_on_connect(11, 9001);
    w.spawn_player_on_connect(12, 9002);
    let connected = vec![Connection { client: 13, network_id: 9003 }];
    let disconnected = vec![11u64];
    let inputs = vec![from(11, 1, 0), from(13, 1, 0), from(12, 0, 1)];
    w.run_tick(&connected, &disconnected, &inputs, SECOND);
    // The player that joined on this tick moves on it; the one that left gets no command.
    assert_eq!(
        w.snapshot(),
        vec![
            ReplicatedPositionRecord { identity: 9002, x: 0, y: 70 * POSITION_SCALE },
            ReplicatedPositionRecord { identity: 9003, x: 70 * POSITION_SCALE, y: 0 },
        ]
    );

    // Connected and dropped on the same tick: no player, and no error.
    let both = vec![Connection { client: 14, network_id: 9004 }];
    w.run_tick(&both, &vec![14u64], &vec![from(14, 1, 1)], SECOND);
    assert_eq!(w.player_count(), 2);
    assert_eq!(w.find_owner(14), None);
}

#[test]
fn batches_of_connections_are_handled_one_by_one() {
    let mut w = world();
    w.spawn_players(&vec![
        Connection { client: 1, network_id: 100 },
        Connection { client: 2, network_id: 200 },
        Connection { client: 3, network_id: 300 },
    ]);
    assert_eq!(w.player_count(), 3);
    w.despawn_players(&vec![3u64, 1, 5]);
    assert_eq!(w.player_count(), 1);
    assert_eq!(w.player(0).unwrap().identity(), 200);
}
