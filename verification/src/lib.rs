//! Authoritative movement for a top-down multiplayer prototype.
//!
//! The server owns the position of every connected player. Clients send
//! directional commands; the server attributes each command to a player,
//! moves all players once per tick, and replicates identity and position.
//!
//! - [`protocol`]: the records that travel between server and clients.
//! - [`direction`]: eight-way directions and their unit vectors.
//! - [`timer`]: the one-shot timers behind the dash.
//! - [`movement`]: the tuning of movement and the integration of position.
//! - [`player`]: the movement and dash state machine of one player.
//! - [`server`]: the players of all connections and the phases of a tick.
//! - [`client`]: what a client decides from keys, snapshots and its window.
//! - [`hashing`], [`manifest`], [`schema`]: content mods, their data
//!   definitions and the hash over their files.
//!
//! All quantities are whole numbers: time in nanoseconds, positions in
//! billionths of a world unit, speeds and multipliers in thousandths.

pub mod client;
pub mod direction;
pub mod hashing;
pub mod manifest;
pub mod movement;
pub mod player;
pub mod protocol;
pub mod schema;
pub mod server;
pub mod timer;
