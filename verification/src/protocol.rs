//! The records exchanged between server and clients.

use vstd::prelude::*;

verus! {

/// Tag that client and server must share; a peer with another tag is refused
/// by the transport before any of its messages is seen.
pub const PROTOCOL_ID: u64 = 0xA1CA_74A5_0000_0001;

/// The most connections that a server accepts at a time.
pub const MAX_CLIENTS: usize = 32;

/// Position steps per world unit: coordinates are whole numbers of
/// billionths of a world unit.
pub const POSITION_SCALE: i64 = 1_000_000_000;

/// The authoritative position of a player, in position steps.
#[derive(Clone, Copy, Debug, PartialEq, Eq, Structural)]
pub struct NetTransform {
    pub x: i64,
    pub y: i64,
}

impl NetTransform {
    /// The world origin, where every player starts.
    pub open spec fn origin() -> NetTransform {
        NetTransform { x: 0, y: 0 }
    }
}

impl Default for NetTransform {
    fn default() -> (t: NetTransform)
        ensures
            t == NetTransform::origin(),
    {
        NetTransform { x: 0, y: 0 }
    }
}

/// Marks a replicated entity as the player of one connection.
#[derive(Clone, Copy, Debug, PartialEq, Eq, Structural)]
pub struct Player {
    /// The identity that the network layer gave the connection. A client
    /// finds its own player by comparing this with its own identity.
    pub network_id: u64,
}

/// What a client asks of its player for one tick.
#[derive(Clone, Copy, Debug, PartialEq, Eq, Structural)]
pub struct PlayerInputCommand {
    /// Direction along x: -1, 0 or 1.
    pub x: i8,
    /// Direction along y: -1, 0 or 1.
    pub y: i8,
    pub sprint: bool,
    /// Set only on the tick on which the dash key went down.
    pub dash: bool,
}

/// Where a message that reached the server came from.
#[derive(Clone, Copy, Debug, PartialEq, Eq, Structural)]
pub enum ClientId {
    /// The server itself.
    Server,
    /// The connection with the given handle.
    Client(u64),
}

/// A command together with its origin.
#[derive(Clone, Copy, Debug, PartialEq, Eq, Structural)]
pub struct FromClient {
    pub client_id: ClientId,
    pub message: PlayerInputCommand,
}

/// All that clients ever learn of a player: who it is and where it is.
#[derive(Clone, Copy, Debug, PartialEq, Eq, Structural)]
pub struct ReplicatedPositionRecord {
    pub identity: u64,
    pub x: i64,
    pub y: i64,
}

impl ReplicatedPositionRecord {
    /// The identity part of the record.
    pub fn player(&self) -> (p: Player)
        ensures
            p.network_id == self.identity,
    {
        Player { network_id: self.identity }
    }

    /// The position part of the record.
    pub fn transform(&self) -> (t: NetTransform)
        ensures
            t.x == self.x,
            t.y == self.y,
    {
        NetTransform { x: self.x, y: self.y }
    }
}

} // verus!
