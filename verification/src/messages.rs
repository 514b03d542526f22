//! The messages that clients and the server exchange, and the events that
//! reach the authority from the connections.

use std::sync::mpsc::Sender;
use vstd::prelude::*;

use crate::roster::Roster;
use crate::types::PlayerState;
use crate::types::Timestamp;
use crate::types::Vector2;

verus! {

/// What a client tells the server.
#[derive(Clone, Copy, Debug, PartialEq, Eq, Structural)]
pub enum ClientMessage {
    /// The player asks to enter the game.
    Join,
    /// The player asks to move; `direction` becomes its velocity as it is.
    Move { direction: Vector2 },
    /// The player leaves.
    Disconnect,
}

/// The world as every client is told it: the tick, every player's state and
/// the server's clock.
pub struct GameStateUpdate {
    pub tick: u64,
    pub players: Roster<PlayerState>,
    pub server_time: Timestamp,
}

/// What a `GameStateUpdate` holds, with the players as `(id, state)` pairs.
pub struct GameStateUpdateView {
    pub tick: u64,
    pub players: Seq<(Seq<char>, PlayerState)>,
    pub server_time: Timestamp,
}

impl View for GameStateUpdate {
    type V = GameStateUpdateView;

    open spec fn view(&self) -> GameStateUpdateView {
        GameStateUpdateView {
            tick: self.tick,
            players: self.players@,
            server_time: self.server_time,
        }
    }
}

/// What the server tells a client.
pub enum ServerMessage {
    /// The player named is in the game.
    JoinAccepted { player_id: String },
    /// The state of the world after a tick.
    GameState(GameStateUpdate),
    /// Something went wrong on the server's side.
    Error { message: String },
}

/// What a `ServerMessage` holds, with texts as sequences of characters.
pub enum ServerMessageView {
    JoinAccepted { player_id: Seq<char> },
    GameState(GameStateUpdateView),
    Error { message: Seq<char> },
}

impl View for ServerMessage {
    type V = ServerMessageView;

    open spec fn view(&self) -> ServerMessageView {
        match self {
            ServerMessage::JoinAccepted { player_id } => ServerMessageView::JoinAccepted {
                player_id: player_id@,
            },
            ServerMessage::GameState(update) => ServerMessageView::GameState(update@),
            ServerMessage::Error { message } => ServerMessageView::Error { message: message@ },
        }
    }
}

/// An event on the authority's input channel: a connection registers, with
/// the sending end of its outbound channel, or a registered connection
/// passes on what its client said.
pub enum InternalMessage {
    NewConnection { player_id: String, sender: Sender<Vec<u8>> },
    ClientMessage { player_id: String, message: ClientMessage },
}

/// What an `InternalMessage` holds, with the id as a sequence of characters.
pub enum InternalMessageView {
    NewConnection { player_id: Seq<char> },
    ClientMessage { player_id: Seq<char>, message: ClientMessage },
}

impl View for InternalMessage {
    type V = InternalMessageView;

    open spec fn view(&self) -> InternalMessageView {
        match self {
            InternalMessage::NewConnection { player_id, sender } => {
                InternalMessageView::NewConnection { player_id: player_id@ }
            },
            InternalMessage::ClientMessage { player_id, message } => {
                InternalMessageView::ClientMessage { player_id: player_id@, message: *message }
            },
        }
    }
}

/// A message owed to one connection, with a sending end of the channel
/// that the connection had when the message became owed. The message can
/// so be delivered even if the connection has left the registry since.
pub struct Outbound {
    pub recipient: String,
    pub message: ServerMessage,
    pub sender: Sender<Vec<u8>>,
}

impl View for Outbound {
    type V = (Seq<char>, ServerMessageView);

    open spec fn view(&self) -> (Seq<char>, ServerMessageView) {
        (self.recipient@, self.message@)
    }
}

} // verus!
