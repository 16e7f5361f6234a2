//! The server's world: the players of all live connections.
//!
//! A tick of the server has four phases in a fixed order: new connections
//! get their players, dropped connections lose theirs, the commands that
//! arrived are attributed, and every player moves.

use vstd::prelude::*;
use vstd::seq_lib::lemma_filter_view_commute;
use crate::movement::MovementConfig;
use crate::player::{PlayerInput, PlayerModel, SimulatedPlayer};
use crate::protocol::{ClientId, FromClient, ReplicatedPositionRecord};

verus! {

/// Whether `i` is the first place in `keys` that holds `key`.
pub open spec fn is_first_at(keys: Seq<u64>, key: u64, i: int) -> bool {
    &&& 0 <= i < keys.len()
    &&& keys[i] == key
    &&& forall|j: int| 0 <= j < i ==> keys[j] != key
}

/// The first place in `keys` that holds `key`, if any does.
pub open spec fn first_index(keys: Seq<u64>, key: u64) -> Option<int> {
    if exists|i: int| is_first_at(keys, key, i) {
        Some(choose|i: int| is_first_at(keys, key, i))
    } else {
        None
    }
}

/// There is at most one first place.
pub proof fn lemma_first_index_found(keys: Seq<u64>, key: u64, i: int)
    requires
        is_first_at(keys, key, i),
    ensures
        first_index(keys, key) == Some(i),
{
    let c = choose|c: int| is_first_at(keys, key, c);
    assert(is_first_at(keys, key, c));
    if c < i {
        assert(keys[c] != key);
    } else if i < c {
        assert(keys[i] != key);
    }
}

/// A key that occurs nowhere has no first place.
pub proof fn lemma_first_index_absent(keys: Seq<u64>, key: u64)
    requires
        forall|j: int| 0 <= j < keys.len() ==> keys[j] != key,
    ensures
        first_index(keys, key) is None,
{
}

/// The players that do not belong to the connection `client`.
pub open spec fn not_owned_by(client: u64) -> spec_fn(PlayerModel) -> bool {
    |p: PlayerModel| p.owner != client
}

/// A connection that has just been made.
#[derive(Debug, Clone, Copy, PartialEq, Eq, Structural)]
pub struct Connection {
    /// The handle of the connection.
    pub client: u64,
    /// The identity that the network layer gave it.
    pub network_id: u64,
}

/// The world, as the contracts see it.
pub ghost struct WorldModel {
    pub config: MovementConfig,
    /// The players in the order in which they joined.
    pub players: Seq<PlayerModel>,
}

impl WorldModel {
    pub open spec fn wf(self) -> bool {
        forall|i: int| 0 <= i < self.players.len() ==> (#[trigger] self.players[i]).wf()
    }

    /// A world without players.
    pub open spec fn empty(config: MovementConfig) -> WorldModel {
        WorldModel { config, players: Seq::empty() }
    }

    /// The connection handle of each player.
    pub open spec fn owners(self) -> Seq<u64> {
        self.players.map_values(|p: PlayerModel| p.owner)
    }

    /// The identity of each player.
    pub open spec fn identities(self) -> Seq<u64> {
        self.players.map_values(|p: PlayerModel| p.identity)
    }

    /// The world after a connection has been made: a new player joins
    /// behind all others.
    pub open spec fn spawned(self, client: u64, network_id: u64) -> WorldModel {
        WorldModel {
            players: self.players.push(PlayerModel::joined(network_id, client, self.config)),
            ..self
        }
    }

    /// The world after a connection has dropped: the players of that
    /// connection are gone, and all others are as they were.
    pub open spec fn despawned(self, client: u64) -> WorldModel {
        WorldModel { players: self.players.filter(not_owned_by(client)), ..self }
    }

    /// The player that a command from `source` is meant for. The source must
    /// be a connection that has a player; the identity of that player is
    /// the identity of the connection, and the command goes to the first
    /// player with that identity. There is none for any other source.
    pub open spec fn recipient(self, source: ClientId) -> Option<int> {
        match source {
            ClientId::Server => None,
            ClientId::Client(client) => match first_index(self.owners(), client) {
                None => None,
                Some(i) => first_index(self.identities(), self.players[i].identity),
            },
        }
    }

    /// The world after a command has arrived: it replaces the pending input
    /// of its recipient, or is dropped where it has none.
    pub open spec fn received(self, input: FromClient) -> WorldModel {
        match self.recipient(input.client_id) {
            None => self,
            Some(i) => WorldModel {
                players: self.players.update(
                    i,
                    self.players[i].with_input(PlayerInput::of_command(input.message)),
                ),
                ..self
            },
        }
    }

    /// The world after every player has moved for `dt` nanoseconds.
    pub open spec fn moved(self, dt: nat) -> WorldModel {
        WorldModel {
            players: self.players.map_values(|p: PlayerModel| p.stepped(self.config, dt)),
            ..self
        }
    }

    /// The world after the connections in `connected` have been made, in
    /// their order.
    pub open spec fn spawned_all(self, connected: Seq<Connection>) -> WorldModel
        decreases connected.len(),
    {
        if connected.len() == 0 {
            self
        } else {
            let last = connected.last();
            self.spawned_all(connected.drop_last()).spawned(last.client, last.network_id)
        }
    }

    /// The world after the connections in `disconnected` have dropped.
    pub open spec fn despawned_all(self, disconnected: Seq<u64>) -> WorldModel
        decreases disconnected.len(),
    {
        if disconnected.len() == 0 {
            self
        } else {
            self.despawned_all(disconnected.drop_last()).despawned(disconnected.last())
        }
    }

    /// The world after the commands in `inputs` have arrived, in their
    /// order.
    pub open spec fn received_all(self, inputs: Seq<FromClient>) -> WorldModel
        decreases inputs.len(),
    {
        if inputs.len() == 0 {
            self
        } else {
            self.received_all(inputs.drop_last()).received(inputs.last())
        }
    }

    /// The world after a whole tick of the server.
    pub open spec fn ticked(
        self,
        connected: Seq<Connection>,
        disconnected: Seq<u64>,
        inputs: Seq<FromClient>,
        dt: nat,
    ) -> WorldModel {
        self.spawned_all(connected).despawned_all(disconnected).received_all(inputs).moved(dt)
    }

    /// What clients see of the world: one record for each player.
    pub open spec fn records(self) -> Seq<ReplicatedPositionRecord> {
        self.players.map_values(|p: PlayerModel| p.record())
    }
}

/// The players of a server.
#[derive(Debug)]
pub struct ServerWorld {
    config: MovementConfig,
    players: Vec<SimulatedPlayer>,
}

impl View for ServerWorld {
    type V = WorldModel;

    closed spec fn view(&self) -> WorldModel {
        WorldModel {
            config: self.config,
            players: self.players@.map_values(|p: SimulatedPlayer| p@),
        }
    }
}

impl ServerWorld {
    /// A world without players.
    pub fn new(config: MovementConfig) -> (w: ServerWorld)
        ensures
            w@ == WorldModel::empty(config),
            w@.wf(),
    {
        let w = ServerWorld { config, players: Vec::new() };
        assert(w@.players =~= Seq::empty());
        w
    }

    /// The tuning of movement.
    pub fn config(&self) -> (c: MovementConfig)
        ensures
            c == self@.config,
    {
        self.config
    }

    /// The number of players.
    pub fn player_count(&self) -> (n: usize)
        ensures
            n == self@.players.len(),
    {
        self.players.len()
    }

    /// The player at place `i`, if there is one.
    pub fn player(&self, i: usize) -> (p: Option<&SimulatedPlayer>)
        ensures
            i < self@.players.len() ==> p is Some && p->0@ == self@.players[i as int],
            i >= self@.players.len() ==> p is None,
    {
        if i < self.players.len() {
            Some(&self.players[i])
        } else {
            None
        }
    }

    /// The place of the first player that belongs to the connection.
    pub fn find_owner(&self, client: u64) -> (found: Option<usize>)
        ensures
            match found {
                Some(i) => first_index(self@.owners(), client) == Some(i as int),
                None => first_index(self@.owners(), client) is None,
            },
    {
        let mut i: usize = 0;
        while i < self.players.len()
            invariant
                i <= self.players@.len(),
                forall|j: int| 0 <= j < i ==> self@.owners()[j] != client,
            decreases self.players@.len() - i,
        {
            if self.players[i].owner() == client {
                proof {
                    lemma_first_index_found(self@.owners(), client, i as int);
                }
                return Some(i);
            }
            i += 1;
        }
        proof {
            lemma_first_index_absent(self@.owners(), client);
        }
        None
    }

    /// The place of the first player with the identity.
    pub fn find_identity(&self, network_id: u64) -> (found: Option<usize>)
        ensures
            match found {
                Some(i) => first_index(self@.identities(), network_id) == Some(i as int),
                None => first_index(self@.identities(), network_id) is None,
            },
    {
        let mut i: usize = 0;
        while i < self.players.len()
            invariant
                i <= self.players@.len(),
                forall|j: int| 0 <= j < i ==> self@.identities()[j] != network_id,
            decreases self.players@.len() - i,
        {
            if self.players[i].identity() == network_id {
                proof {
                    lemma_first_index_found(self@.identities(), network_id, i as int);
                }
                return Some(i);
            }
            i += 1;
        }
        proof {
            lemma_first_index_absent(self@.identities(), network_id);
        }
        None
    }

    /// Gives a new connection its player: at the origin, ready to dash, and
    /// seen by the next snapshot.
    pub fn spawn_player_on_connect(&mut self, client: u64, network_id: u64)
        requires
            old(self)@.wf(),
        ensures
            final(self)@ == old(self)@.spawned(client, network_id),
            final(self)@.wf(),
    {
        let player = SimulatedPlayer::new(network_id, client, &self.config);
        self.players.push(player);
        assert(self@.players =~= old(self)@.spawned(client, network_id).players);
    }

    /// Removes the players of a dropped connection. A connection without a
    /// player is no error: nothing changes.
    pub fn despawn_player_on_disconnect(&mut self, client: u64)
        requires
            old(self)@.wf(),
        ensures
            final(self)@ == old(self)@.despawned(client),
            final(self)@.wf(),
    {
        let ghost before = self.players@;
        let ghost stays = |p: SimulatedPlayer| not_owned_by(client)(p@);
        let mut i: usize = 0;
        let mut seen: usize = 0;
        let total = self.players.len();
        proof {
            assert(before.take(0) =~= Seq::empty());
            assert(before.take(0).filter(stays) =~= Seq::empty()) by {
                reveal(Seq::filter);
            }
            assert(before.skip(0) =~= before);
        }
        while seen < total
            invariant
                seen <= total,
                total == before.len(),
                self.config == old(self).config,
                i == before.take(seen as int).filter(stays).len(),
                self.players@ =~= before.take(seen as int).filter(stays) + before.skip(seen as int),
                forall|p: SimulatedPlayer| #[trigger] stays(p) <==> p@.owner != client,
            decreases total - seen,
        {
            let ghost kept = before.take(seen as int).filter(stays);
            let ghost next = before[seen as int];
            proof {
                assert(before.take(seen as int + 1) =~= before.take(seen as int).push(next));
                before.take(seen as int).lemma_filter_push(next, stays);
                assert(self.players@[i as int] == next);
                assert(stays(next) <==> next@.owner != client);
            }
            if self.players[i].owner() == client {
                self.players.remove(i);
                assert(self.players@ =~= kept + before.skip(seen as int + 1));
            } else {
                assert(self.players@ =~= kept.push(next) + before.skip(seen as int + 1));
                i += 1;
            }
            seen += 1;
        }
        proof {
            assert(before.take(total as int) =~= before);
            assert(before.skip(total as int) =~= Seq::empty());
            assert(self.players@ =~= before.filter(stays));
            lemma_filter_view_commute(before, stays, not_owned_by(client));
            let kept = before.filter(stays);
            assert forall|k: int| 0 <= k < kept.len() implies (#[trigger] kept[k])@.wf() by {
                assert(kept.contains(kept[k]));
                before.lemma_filter_contains_rev(stays, kept[k]);
                let j = choose|j: int| 0 <= j < before.len() && before[j] == kept[k];
                assert(old(self)@.players[j].wf());
            }
        }
    }

    /// The place of the player that a command from `source` is meant for.
    pub fn find_recipient(&self, source: &ClientId) -> (found: Option<usize>)
        ensures
            match found {
                Some(i) => self@.recipient(*source) == Some(i as int) && i < self@.players.len(),
                None => self@.recipient(*source) is None,
            },
    {
        match source {
            ClientId::Server => None,
            ClientId::Client(client) => match self.find_owner(*client) {
                None => None,
                Some(i) => {
                    let identity = self.players[i].identity();
                    let found = self.find_identity(identity);
                    proof {
                        assert(self@.identities()[i as int] == identity);
                    }
                    found
                },
            },
        }
    }

    /// Takes in one command: it replaces the pending input of the player it
    /// is meant for. A command that cannot be attributed is dropped, which
    /// is no error.
    pub fn receive_player_input(&mut self, input: &FromClient)
        requires
            old(self)@.wf(),
        ensures
            final(self)@ == old(self)@.received(*input),
            final(self)@.wf(),
    {
        match self.find_recipient(&input.client_id) {
            None => {},
            Some(i) => {
                self.players[i].set_input(PlayerInput::from_command(&input.message));
                assert(self@.players =~= old(self)@.received(*input).players);
            },
        }
    }

    /// Takes in the commands of one tick, in their order. Of several
    /// commands for one player the last one stays.
    pub fn receive_player_inputs(&mut self, inputs: &Vec<FromClient>)
        requires
            old(self)@.wf(),
        ensures
            final(self)@ == old(self)@.received_all(inputs@),
            final(self)@.wf(),
    {
        let mut k: usize = 0;
        assert(inputs@.take(0) =~= Seq::empty());
        while k < inputs.len()
            invariant
                k <= inputs@.len(),
                self@.wf(),
                self@ == old(self)@.received_all(inputs@.take(k as int)),
            decreases inputs@.len() - k,
        {
            proof {
                let upto = inputs@.take(k as int + 1);
                assert(upto.drop_last() =~= inputs@.take(k as int));
                assert(upto.last() == inputs@[k as int]);
            }
            self.receive_player_input(&inputs[k]);
            k += 1;
        }
        assert(inputs@.take(k as int) =~= inputs@);
    }

    /// Moves every player for `dt` nanoseconds and spends the dash
    /// requests.
    pub fn apply_player_movement(&mut self, dt: u64)
        requires
            old(self)@.wf(),
        ensures
            final(self)@ == old(self)@.moved(dt as nat),
            final(self)@.wf(),
    {
        let cfg = self.config;
        let ghost before = self@.players;
        let mut i: usize = 0;
        while i < self.players.len()
            invariant
                i <= self.players@.len(),
                self.players@.len() == before.len(),
                self.config == cfg,
                old(self)@.config == cfg,
                before == old(self)@.players,
                forall|j: int| i <= j < before.len() ==> (#[trigger] self.players@[j])@ == before[j],
                forall|j: int|
                    0 <= j < i ==> (#[trigger] self.players@[j])@ == before[j].stepped(
                        cfg,
                        dt as nat,
                    ),
                forall|j: int| 0 <= j < before.len() ==> (#[trigger] before[j]).wf(),
                forall|j: int| 0 <= j < i ==> (#[trigger] self.players@[j])@.wf(),
            decreases self.players@.len() - i,
        {
            assert(before[i as int].wf());
            self.players[i].apply_movement(&cfg, dt);
            i += 1;
        }
        assert(self@.players =~= old(self)@.moved(dt as nat).players);
    }

    /// Gives each of the new connections its player, in their order.
    pub fn spawn_players(&mut self, connected: &Vec<Connection>)
        requires
            old(self)@.wf(),
        ensures
            final(self)@ == old(self)@.spawned_all(connected@),
            final(self)@.wf(),
    {
        let mut k: usize = 0;
        assert(connected@.take(0) =~= Seq::empty());
        while k < connected.len()
            invariant
                k <= connected@.len(),
                self@.wf(),
                self@ == old(self)@.spawned_all(connected@.take(k as int)),
            decreases connected@.len() - k,
        {
            proof {
                let upto = connected@.take(k as int + 1);
                assert(upto.drop_last() =~= connected@.take(k as int));
                assert(upto.last() == connected@[k as int]);
            }
            let c = connected[k];
            self.spawn_player_on_connect(c.client, c.network_id);
            k += 1;
        }
        assert(connected@.take(k as int) =~= connected@);
    }

    /// Removes the players of each of the dropped connections.
    pub fn despawn_players(&mut self, disconnected: &Vec<u64>)
        requires
            old(self)@.wf(),
        ensures
            final(self)@ == old(self)@.despawned_all(disconnected@),
            final(self)@.wf(),
    {
        let mut k: usize = 0;
        assert(disconnected@.take(0) =~= Seq::empty());
        while k < disconnected.len()
            invariant
                k <= disconnected@.len(),
                self@.wf(),
                self@ == old(self)@.despawned_all(disconnected@.take(k as int)),
            decreases disconnected@.len() - k,
        {
            proof {
                let upto = disconnected@.take(k as int + 1);
                assert(upto.drop_last() =~= disconnected@.take(k as int));
                assert(upto.last() == disconnected@[k as int]);
            }
            self.despawn_player_on_disconnect(disconnected[k]);
            k += 1;
        }
        assert(disconnected@.take(k as int) =~= disconnected@);
    }

    /// Runs one tick of the server: connections made, connections dropped,
    /// commands taken in, and every player moved for `dt` nanoseconds, in
    /// this order.
    pub fn run_tick(
        &mut self,
        connected: &Vec<Connection>,
        disconnected: &Vec<u64>,
        inputs: &Vec<FromClient>,
        dt: u64,
    )
        requires
            old(self)@.wf(),
        ensures
            final(self)@ == old(self)@.ticked(connected@, disconnected@, inputs@, dt as nat),
            final(self)@.wf(),
    {
        self.spawn_players(connected);
        self.despawn_players(disconnected);
        self.receive_player_inputs(inputs);
        self.apply_player_movement(dt);
    }

    /// What clients are sent: the identity and position of every player,
    /// and nothing else.
    pub fn snapshot(&self) -> (records: Vec<ReplicatedPositionRecord>)
        ensures
            records@ == self@.records(),
    {
        let mut records: Vec<ReplicatedPositionRecord> = Vec::new();
        let mut i: usize = 0;
        while i < self.players.len()
            invariant
                i <= self.players@.len(),
                records@.len() == i,
                forall|j: int| 0 <= j < i ==> records@[j] == self@.players[j].record(),
            decreases self.players@.len() - i,
        {
            records.push(self.players[i].record());
            i += 1;
        }
        assert(records@ =~= self@.records());
        records
    }
}

impl WorldModel {
    /// No two players share a connection, and no two share an identity.
    pub open spec fn distinct(self) -> bool {
        forall|i: int, j: int|
            0 <= i < j < self.players.len() ==> {
                &&& (#[trigger] self.players[i]).owner != (#[trigger] self.players[j]).owner
                &&& self.players[i].identity != self.players[j].identity
            }
    }

    /// Whether some player belongs to the connection.
    pub open spec fn has_owner(self, client: u64) -> bool {
        exists|i: int| 0 <= i < self.players.len() && (#[trigger] self.players[i]).owner == client
    }

    /// Whether some player has the identity.
    pub open spec fn has_identity(self, network_id: u64) -> bool {
        exists|i: int|
            0 <= i < self.players.len() && (#[trigger] self.players[i]).identity == network_id
    }
}

/// A disconnection removes the players of the dropped connection and no
/// others: what is left are exactly the players of other connections, each
/// as it was.
pub proof fn lemma_despawn_removes_exactly(w: WorldModel, client: u64)
    ensures
        !w.despawned(client).has_owner(client),
        forall|i: int|
            0 <= i < w.despawned(client).players.len() ==> w.players.contains(
                #[trigger] w.despawned(client).players[i],
            ),
        forall|i: int|
            0 <= i < w.players.len() && w.players[i].owner != client ==> w.despawned(
                client,
            ).players.contains(#[trigger] w.players[i]),
        w.despawned(client).players.len() <= w.players.len(),
        w.despawned(client).config == w.config,
{
    let keep = not_owned_by(client);
    let d = w.despawned(client).players;
    broadcast use Seq::lemma_filter_len, Seq::lemma_filter_pred, Seq::lemma_filter_contains;

    assert forall|i: int| 0 <= i < d.len() implies w.players.contains(#[trigger] d[i]) by {
        assert(d.contains(d[i]));
        w.players.lemma_filter_contains_rev(keep, d[i]);
    }
    assert forall|i: int| 0 <= i < w.players.len() && w.players[i].owner != client implies d.contains(
        #[trigger] w.players[i],
    ) by {
        assert(keep(w.players[i]));
    }
    assert forall|i: int| 0 <= i < d.len() implies (#[trigger] d[i]).owner != client by {
        assert(keep(d[i]));
    }
}

/// The disconnection of a connection without a player changes nothing.
pub proof fn lemma_despawn_absent(w: WorldModel, client: u64)
    requires
        !w.has_owner(client),
    ensures
        w.despawned(client) == w,
    decreases w.players.len(),
{
    reveal(Seq::filter);
    if w.players.len() > 0 {
        let rest = WorldModel { players: w.players.drop_last(), ..w };
        assert forall|i: int| 0 <= i < rest.players.len() implies (#[trigger] rest.players[i]).owner
            != client by {
            assert(w.players[i].owner != client);
        }
        lemma_despawn_absent(rest, client);
        assert(w.players.last().owner != client);
        assert(w.players =~= w.players.drop_last().push(w.players.last()));
    } else {
        assert(w.players.filter(not_owned_by(client)) =~= w.players);
    }
}

/// Players with overlapping lifetimes do not disturb each other: when two
/// connections are made one after the other and the first one drops, the
/// player of the second is still there, as it joined.
pub proof fn lemma_despawn_spares_later_player(
    w: WorldModel,
    first: Connection,
    second: Connection,
)
    requires
        first.client != second.client,
    ensures
        w.spawned(first.client, first.network_id).spawned(
            second.client,
            second.network_id,
        ).despawned(first.client).players == w.despawned(first.client).players.push(
            PlayerModel::joined(second.network_id, second.client, w.config),
        ),
{
    broadcast use Seq::lemma_filter_push;

    let keep = not_owned_by(first.client);
    let a = PlayerModel::joined(first.network_id, first.client, w.config);
    let b = PlayerModel::joined(second.network_id, second.client, w.config);
    assert(!keep(a));
    assert(keep(b));
}

/// A connection that is made and dropped before anything else happens
/// leaves no player behind: the world is as if the connection had only
/// dropped.
pub proof fn lemma_connect_then_disconnect(w: WorldModel, client: u64, network_id: u64)
    ensures
        w.spawned(client, network_id).despawned(client) == w.despawned(client),
        !w.has_owner(client) ==> w.spawned(client, network_id).despawned(client) == w,
{
    broadcast use Seq::lemma_filter_push;

    let a = PlayerModel::joined(network_id, client, w.config);
    assert(!not_owned_by(client)(a));
    if !w.has_owner(client) {
        lemma_despawn_absent(w, client);
    }
}

/// A command from the server itself, or from a connection without a
/// player, is dropped.
pub proof fn lemma_unattributed_input_is_dropped(w: WorldModel, input: FromClient)
    requires
        input.client_id matches ClientId::Client(client) ==> !w.has_owner(client),
    ensures
        w.recipient(input.client_id) is None,
        w.received(input) == w,
{
    match input.client_id {
        ClientId::Server => {},
        ClientId::Client(client) => {
            assert forall|j: int| 0 <= j < w.owners().len() implies w.owners()[j] != client by {
                assert(w.players[j].owner != client);
            }
            lemma_first_index_absent(w.owners(), client);
        },
    }
}

/// Where no two players share a connection or an identity, a command goes
/// to the player of the connection it came from.
pub proof fn lemma_recipient_is_owned(w: WorldModel, client: u64, i: int)
    requires
        w.distinct(),
        0 <= i < w.players.len(),
        w.players[i].owner == client,
    ensures
        w.recipient(ClientId::Client(client)) == Some(i),
{
    assert(is_first_at(w.owners(), client, i)) by {
        assert forall|j: int| 0 <= j < i implies w.owners()[j] != client by {
            assert(w.players[j].owner != w.players[i].owner);
        }
    }
    lemma_first_index_found(w.owners(), client, i);
    let id = w.players[i].identity;
    assert(is_first_at(w.identities(), id, i)) by {
        assert forall|j: int| 0 <= j < i implies w.identities()[j] != id by {
            assert(w.players[j].identity != w.players[i].identity);
        }
    }
    lemma_first_index_found(w.identities(), id, i);
}

/// Commands are not queued: of two commands that arrive from one
/// connection before a tick, only the second one counts.
pub proof fn lemma_last_input_wins(w: WorldModel, first: FromClient, second: FromClient)
    requires
        first.client_id == second.client_id,
    ensures
        w.received(first).received(second) == w.received(second),
{
    let mid = w.received(first);
    assert(mid.owners() =~= w.owners());
    assert(mid.identities() =~= w.identities());
    match w.recipient(first.client_id) {
        None => {},
        Some(i) => {
            match first.client_id {
                ClientId::Server => {},
                ClientId::Client(client) => {
                    let k = first_index(w.owners(), client).unwrap();
                    assert(is_first_at(w.owners(), client, k));
                    let id = w.players[k].identity;
                    assert(w.identities()[k] == id);
                    assert(is_first_at(w.identities(), id, i));
                    assert(mid.players[k].identity == id);
                    assert(mid.recipient(second.client_id) == Some(i));
                    assert(w.received(first).received(second).players =~= w.received(
                        second,
                    ).players);
                },
            }
        },
    }
}

/// A disconnection keeps the players distinct.
pub proof fn lemma_despawn_keeps_distinct(w: WorldModel, client: u64)
    requires
        w.distinct(),
    ensures
        w.despawned(client).distinct(),
    decreases w.players.len(),
{
    reveal(Seq::filter);
    let keep = not_owned_by(client);
    if w.players.len() > 0 {
        let rest = WorldModel { players: w.players.drop_last(), ..w };
        let last = w.players.last();
        assert forall|i: int, j: int| 0 <= i < j < rest.players.len() implies {
            &&& (#[trigger] rest.players[i]).owner != (#[trigger] rest.players[j]).owner
            &&& rest.players[i].identity != rest.players[j].identity
        } by {
            assert(rest.players[i] == w.players[i]);
            assert(rest.players[j] == w.players[j]);
        }
        lemma_despawn_keeps_distinct(rest, client);
        let d = w.despawned(client).players;
        let dr = rest.despawned(client).players;
        if keep(last) {
            assert(d == dr.push(last));
            assert forall|i: int, j: int| 0 <= i < j < d.len() implies {
                &&& (#[trigger] d[i]).owner != (#[trigger] d[j]).owner
                &&& d[i].identity != d[j].identity
            } by {
                if j < dr.len() {
                    assert(d[i] == dr[i]);
                    assert(d[j] == dr[j]);
                } else {
                    assert(dr.contains(dr[i]));
                    rest.players.lemma_filter_contains_rev(keep, dr[i]);
                    let k = choose|k: int| 0 <= k < rest.players.len() && rest.players[k] == dr[i];
                    assert(w.players[k] == dr[i]);
                    assert(w.players[w.players.len() - 1] == last);
                }
            }
        } else {
            assert(d == dr);
        }
    }
}

/// A new connection with a handle and an identity that no player has keeps
/// the players distinct; so do a command and a tick.
pub proof fn lemma_distinct_is_kept(w: WorldModel, c: Connection, input: FromClient, dt: nat)
    requires
        w.distinct(),
    ensures
        !w.has_owner(c.client) && !w.has_identity(c.network_id) ==> w.spawned(
            c.client,
            c.network_id,
        ).distinct(),
        w.received(input).distinct(),
        w.moved(dt).distinct(),
{
    if !w.has_owner(c.client) && !w.has_identity(c.network_id) {
        let s = w.spawned(c.client, c.network_id);
        assert forall|i: int, j: int| 0 <= i < j < s.players.len() implies {
            &&& (#[trigger] s.players[i]).owner != (#[trigger] s.players[j]).owner
            &&& s.players[i].identity != s.players[j].identity
        } by {
            if j < w.players.len() {
                assert(s.players[i] == w.players[i]);
                assert(s.players[j] == w.players[j]);
            } else {
                assert(s.players[i] == w.players[i]);
            }
        }
    }
    let r = w.received(input);
    assert forall|i: int, j: int| 0 <= i < j < r.players.len() implies {
        &&& (#[trigger] r.players[i]).owner != (#[trigger] r.players[j]).owner
        &&& r.players[i].identity != r.players[j].identity
    } by {
        assert(r.players[i].owner == w.players[i].owner);
        assert(r.players[j].owner == w.players[j].owner);
        assert(r.players[i].identity == w.players[i].identity);
        assert(r.players[j].identity == w.players[j].identity);
    }
    let m = w.moved(dt);
    assert forall|i: int, j: int| 0 <= i < j < m.players.len() implies {
        &&& (#[trigger] m.players[i]).owner != (#[trigger] m.players[j]).owner
        &&& m.players[i].identity != m.players[j].identity
    } by {
        assert(m.players[i].owner == w.players[i].owner);
        assert(m.players[j].owner == w.players[j].owner);
    }
}

/// A client finds itself exactly once: where no two players share an
/// identity, the snapshot holds one record with the identity of a connected
/// client and no second one.
pub proof fn lemma_identity_resolves_once(w: WorldModel, i: int)
    requires
        w.distinct(),
        0 <= i < w.players.len(),
    ensures
        w.records().len() == w.players.len(),
        w.records()[i].identity == w.players[i].identity,
        forall|j: int|
            0 <= j < w.records().len() && j != i ==> (#[trigger] w.records()[j]).identity
                != w.players[i].identity,
{
    assert forall|j: int| 0 <= j < w.records().len() && j != i implies (#[trigger] w.records()[j]).identity
        != w.players[i].identity by {
        if j < i {
            assert(w.players[j].identity != w.players[i].identity);
        } else {
            assert(w.players[i].identity != w.players[j].identity);
        }
    }
}

/// Commands change no player's connection.
pub proof fn lemma_received_all_keeps_owners(w: WorldModel, inputs: Seq<FromClient>)
    ensures
        w.received_all(inputs).owners() == w.owners(),
    decreases inputs.len(),
{
    if inputs.len() > 0 {
        lemma_received_all_keeps_owners(w, inputs.drop_last());
        let before = w.received_all(inputs.drop_last());
        assert(before.received(inputs.last()).owners() =~= before.owners());
    }
}

/// A disconnection brings no player back: a connection without a player
/// has none after another connection has dropped.
pub proof fn lemma_despawn_keeps_absent(w: WorldModel, dropped: u64, client: u64)
    requires
        !w.has_owner(client),
    ensures
        !w.despawned(dropped).has_owner(client),
{
    let after = w.despawned(dropped);
    lemma_despawn_removes_exactly(w, dropped);
    if after.has_owner(client) {
        let i = choose|i: int|
            0 <= i < after.players.len() && (#[trigger] after.players[i]).owner == client;
        assert(w.players.contains(after.players[i]));
        let k = choose|k: int| 0 <= k < w.players.len() && w.players[k] == after.players[i];
        assert(w.players[k].owner == client);
    }
}

/// After a run of disconnections none of the dropped connections has a
/// player.
pub proof fn lemma_despawned_all_drops(w: WorldModel, disconnected: Seq<u64>, k: int)
    requires
        0 <= k < disconnected.len(),
    ensures
        !w.despawned_all(disconnected).has_owner(disconnected[k]),
    decreases disconnected.len(),
{
    let front = disconnected.drop_last();
    let before = w.despawned_all(front);
    if k == disconnected.len() - 1 {
        lemma_despawn_removes_exactly(before, disconnected.last());
    } else {
        lemma_despawned_all_drops(w, front, k);
        lemma_despawn_keeps_absent(before, disconnected.last(), disconnected[k]);
    }
}

/// A connection that drops on a tick has no player after that tick,
/// whether it was made long before or on the same tick, and whatever
/// commands arrived from it.
pub proof fn lemma_tick_drops_disconnected(
    w: WorldModel,
    connected: Seq<Connection>,
    disconnected: Seq<u64>,
    inputs: Seq<FromClient>,
    dt: nat,
    k: int,
)
    requires
        0 <= k < disconnected.len(),
    ensures
        !w.ticked(connected, disconnected, inputs, dt).has_owner(disconnected[k]),
{
    let client = disconnected[k];
    let left = w.spawned_all(connected).despawned_all(disconnected);
    lemma_despawned_all_drops(w.spawned_all(connected), disconnected, k);
    lemma_received_all_keeps_owners(left, inputs);
    let heard = left.received_all(inputs);
    let after = heard.moved(dt);
    if after.has_owner(client) {
        let i = choose|i: int|
            0 <= i < after.players.len() && (#[trigger] after.players[i]).owner == client;
        assert(heard.players[i].owner == client);
        assert(heard.owners().len() == heard.players.len());
        assert(left.owners().len() == left.players.len());
        assert(heard.owners()[i] == client);
        assert(left.owners()[i] == client);
        assert(left.players[i].owner == client);
    }
}

} // verus!
