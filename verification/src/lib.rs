//! The core of an authoritative multiplayer game server, with a
//! machine-checked contract on every function.
//!
//! Clients send movement intents; one authority applies them, advances the
//! world at a fixed rate, resolves collisions and tells every client the
//! state of the world. This crate holds what that authority decides and
//! computes. Sockets, threads and the encoding of messages are the caller's:
//! it hands events in as values, gets the messages to send back as values,
//! and gives their encoded bytes to the authority, which puts them on the
//! outbound channel of each connection and removes a connection whose
//! channel fails.
//!
//! Coordinates, speeds and scalar factors are fixed-point integers with
//! [`fixed::UNIT`] sub-units per world unit, so that every result is exact
//! and the same on every machine.
//!
//! - [`types`]: timestamps, vectors and the state of a player
//! - [`fixed`]: the arithmetic of fixed-point numbers
//! - [`roster`]: the insertion-ordered map from player id to value
//! - [`order`]: the order of player ids
//! - [`game`]: the world and one tick of its physics
//! - [`physics_laws`]: what holds of every tick
//! - [`messages`]: what clients, server and connections tell each other
//! - [`framing`]: one message per line
//! - [`channel`]: the sending end of a connection's outbound channel
//! - [`network`]: what a connection's reader does with each read
//! - [`server`]: the authority and its tick
//! - [`server_laws`]: what holds of the authority whatever the events
//! - [`client`]: the client's side of the protocol
//! - [`report`]: numbers and points as text
//! - [`errors`]: the errors reported

pub mod channel;
pub mod client;
pub mod errors;
pub mod fixed;
pub mod framing;
pub mod game;
pub mod messages;
pub mod network;
pub mod order;
pub mod physics_laws;
pub mod report;
pub mod roster;
pub mod server;
pub mod server_laws;
pub mod types;
