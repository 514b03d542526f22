//! The client's side of the protocol: what a client knows of itself and of
//! the world, how the join handshake goes, and what each message from the
//! server changes. Sending and receiving are left to the caller.

use vstd::prelude::*;
use vstd::string::*;

use crate::errors::GameError;
use crate::messages::ClientMessage;
use crate::messages::ServerMessage;
use crate::messages::ServerMessageView;
use crate::roster::has_id;
use crate::roster::lookup;
use crate::report::append_point;
use crate::report::decimal;
use crate::report::decimal_text;
use crate::report::point_text;
use crate::roster::Roster;
use crate::types::PlayerState;
use crate::types::Vector2;

verus! {

/// How long a client waits for the answer to its `Join`, in milliseconds.
/// A client that has no answer by then gives the connection up.
pub const JOIN_TIMEOUT_MILLIS: u64 = 5000;

/// How long a client sleeps between two looks at its inbox while it waits
/// for the answer to its `Join`, in milliseconds.
pub const JOIN_POLL_MILLIS: u64 = 100;

/// How the join handshake goes on after one look at the inbox.
pub enum ConnectStep {
    /// The server has accepted the player.
    Connected,
    /// The handshake has failed, with the reason.
    Failed(GameError),
    /// The message was not about the handshake: look again at once.
    Retry,
    /// The inbox was empty: sleep `JOIN_POLL_MILLIS`, then look again.
    Sleep,
}

/// The players that the last `GameState` message of `messages` reports, if
/// there is such a message.
pub open spec fn last_reported(messages: Seq<ServerMessageView>) -> Option<
    Seq<(Seq<char>, PlayerState)>,
>
    decreases messages.len(),
{
    if messages.len() == 0 {
        None
    } else {
        match messages.last() {
            ServerMessageView::GameState(update) => Some(update.players),
            _ => last_reported(messages.drop_last()),
        }
    }
}

/// The contents of a vector of messages from the server.
pub open spec fn received_of(messages: Seq<ServerMessage>) -> Seq<ServerMessageView> {
    Seq::new(messages.len(), |i: int| messages[i]@)
}

/// Every snapshot among `messages` holds each player once.
pub open spec fn snapshots_well_formed(messages: Seq<ServerMessage>) -> bool {
    forall|i: int|
        0 <= i < messages.len() ==> (#[trigger] messages[i] matches ServerMessage::GameState(update)
            ==> update.players.well_formed())
}

/// One line for each of the first `upto` players but the client's own: the
/// id and the position.
pub open spec fn others_text(
    players: Seq<(Seq<char>, PlayerState)>,
    own: Option<Seq<char>>,
    upto: int,
) -> Seq<char>
    decreases upto,
{
    if upto <= 0 {
        Seq::empty()
    } else {
        let entry = players[upto - 1];
        others_text(players, own, upto - 1) + if own == Some(entry.0) {
            Seq::empty()
        } else {
            "  "@ + entry.0 + " at "@ + point_text(entry.1.position) + "\n"@
        }
    }
}

/// The client's own lines of the report: its id and, where the last
/// snapshot holds it, its position and velocity.
pub open spec fn own_text(
    own: Option<Seq<char>>,
    known: Option<Seq<(Seq<char>, PlayerState)>>,
) -> Seq<char> {
    match own {
        Some(id) => "Player ID: "@ + id + "\n"@ + match known {
            Some(players) => match lookup(players, id) {
                Some(state) => "Position: "@ + point_text(state.position) + "\n"@ + "Velocity: "@
                    + point_text(state.velocity) + "\n"@,
                None => Seq::empty(),
            },
            None => Seq::empty(),
        },
        None => Seq::empty(),
    }
}

/// The report of what a client knows: whether it is connected, its own
/// lines, and, once a snapshot has arrived, the number of the other players
/// and a line for each of them.
pub open spec fn debug_text(
    own: Option<Seq<char>>,
    known: Option<Seq<(Seq<char>, PlayerState)>>,
) -> Seq<char> {
    "Connection: "@ + (if own is Some {
        "Connected"@
    } else {
        "Disconnected"@
    }) + "\n"@ + own_text(own, known) + match known {
        Some(players) => "Other players: "@ + decimal(
            if players.len() > 0 {
                (players.len() - 1) as nat
            } else {
                0
            },
        ) + "\n"@ + others_text(players, own, players.len() as int),
        None => Seq::empty(),
    }
}

/// What a client knows: its own id, once the server has accepted it, and
/// the players that the last snapshot reported.
pub struct GameClient {
    player_id: Option<String>,
    current_state: Option<Roster<PlayerState>>,
}

impl GameClient {
    /// The snapshot held, if any, holds each player once.
    pub closed spec fn well_formed(&self) -> bool {
        self.current_state matches Some(players) ==> players.well_formed()
    }

    /// The id under which the server accepted this client, if it has.
    pub closed spec fn own_id(&self) -> Option<Seq<char>> {
        match self.player_id {
            Some(id) => Some(id@),
            None => None,
        }
    }

    /// The players that the last snapshot reported, if one has arrived.
    pub closed spec fn known(&self) -> Option<Seq<(Seq<char>, PlayerState)>> {
        match self.current_state {
            Some(players) => Some(players@),
            None => None,
        }
    }

    /// A client that has not joined and has seen no snapshot.
    pub fn new() -> (client: Self)
        ensures
            client.well_formed(),
            client.own_id() is None,
            client.known() is None,
    {
        GameClient { player_id: None, current_state: None }
    }

    /// One step of the join handshake, `elapsed_millis` after the `Join` was
    /// sent, with the message found in the inbox, if there was one. After
    /// `JOIN_TIMEOUT_MILLIS` the handshake has failed, whatever has arrived.
    /// Before that a `JoinAccepted` completes it and gives the client its id,
    /// an `Error` fails it with the server's words, any other message is
    /// passed over, and an empty inbox means sleep.
    pub fn connect(&mut self, elapsed_millis: u64, received: Option<ServerMessage>) -> (step:
        ConnectStep)
        requires
            old(self).well_formed(),
        ensures
            final(self).well_formed(),
            final(self).known() == old(self).known(),
            elapsed_millis >= JOIN_TIMEOUT_MILLIS ==> {
                &&& step matches ConnectStep::Failed(GameError::NetworkError(text))
                &&& text@ == "Connection timeout"@
                &&& final(self).own_id() == old(self).own_id()
            },
            elapsed_millis < JOIN_TIMEOUT_MILLIS ==> match received {
                Some(ServerMessage::JoinAccepted { player_id }) => {
                    &&& step is Connected
                    &&& final(self).own_id() == Some(player_id@)
                },
                Some(ServerMessage::Error { message }) => {
                    &&& step matches ConnectStep::Failed(GameError::NetworkError(text))
                    &&& text@ == message@
                    &&& final(self).own_id() == old(self).own_id()
                },
                Some(ServerMessage::GameState(_)) => {
                    &&& step is Retry
                    &&& final(self).own_id() == old(self).own_id()
                },
                None => {
                    &&& step is Sleep
                    &&& final(self).own_id() == old(self).own_id()
                },
            },
    {
        if elapsed_millis >= JOIN_TIMEOUT_MILLIS {
            return ConnectStep::Failed(
                GameError::NetworkError(String::from_str("Connection timeout")),
            );
        }
        match received {
            Some(ServerMessage::JoinAccepted { player_id }) => {
                self.player_id = Some(player_id);
                ConnectStep::Connected
            },
            Some(ServerMessage::Error { message }) => ConnectStep::Failed(
                GameError::NetworkError(message),
            ),
            Some(ServerMessage::GameState(_)) => ConnectStep::Retry,
            None => ConnectStep::Sleep,
        }
    }

    /// The message that opens the join handshake.
    pub fn join_request(&self) -> (message: ClientMessage)
        ensures
            message == ClientMessage::Join,
    {
        ClientMessage::Join
    }

    /// The message that asks the server to move this player; `direction`
    /// goes out as it is.
    pub fn move_player(&self, direction: Vector2) -> (message: ClientMessage)
        ensures
            message == (ClientMessage::Move { direction }),
    {
        ClientMessage::Move { direction }
    }

    /// The message that tells the server that this player leaves.
    pub fn disconnect(&self) -> (message: ClientMessage)
        ensures
            message == ClientMessage::Disconnect,
    {
        ClientMessage::Disconnect
    }

    /// Takes in the messages that have arrived, oldest first. The last
    /// snapshot among them replaces what the client knew of the world; if
    /// there is none, what it knew stays. Other messages change nothing.
    pub fn update(&mut self, messages: Vec<ServerMessage>) -> (done: Result<(), GameError>)
        requires
            old(self).well_formed(),
            snapshots_well_formed(messages@),
        ensures
            done is Ok,
            final(self).well_formed(),
            final(self).own_id() == old(self).own_id(),
            final(self).known() == match last_reported(received_of(messages@)) {
                Some(players) => Some(players),
                None => old(self).known(),
            },
    {
        let mut messages = messages;
        let ghost all = received_of(messages@);
        let mut found = false;
        while messages.len() > 0 && !found
            invariant
                self.well_formed(),
                snapshots_well_formed(messages@),
                self.own_id() == old(self).own_id(),
                !found ==> self.known() == old(self).known(),
                !found ==> last_reported(all) == last_reported(received_of(messages@)),
                found ==> last_reported(all) is Some && self.known() == last_reported(all),
            decreases messages@.len(),
        {
            let ghost before = messages@;
            let message = messages.pop().unwrap();
            proof {
                assert(received_of(before).drop_last() =~= received_of(messages@));
                assert(received_of(before).last() == message@);
                assert(message == before[before.len() - 1]);
            }
            match message {
                ServerMessage::GameState(update) => {
                    self.current_state = Some(update.players);
                    found = true;
                },
                _ => {},
            }
        }
        Ok(())
    }

    /// What the last snapshot says of a player, if it holds that player.
    pub fn get_player_state(&self, player_id: &str) -> (state: Option<&PlayerState>)
        requires
            self.well_formed(),
        ensures
            state is Some <==> (self.known() matches Some(players) && has_id(players, player_id@)),
            state matches Some(s) ==> lookup(self.known().unwrap(), player_id@) == Some(*s),
    {
        match &self.current_state {
            Some(players) => {
                let id = player_id.to_owned();
                players.get(&id)
            },
            None => None,
        }
    }

    /// What the last snapshot says of this client's own player.
    pub fn get_own_state(&self) -> (state: Option<&PlayerState>)
        requires
            self.well_formed(),
        ensures
            state is Some <==> (self.own_id() matches Some(id) && self.known() matches Some(
                players,
            ) && has_id(players, id)),
            state matches Some(s) ==> lookup(self.known().unwrap(), self.own_id().unwrap())
                == Some(*s),
    {
        match &self.player_id {
            Some(id) => self.get_player_state(id.as_str()),
            None => None,
        }
    }

    /// The id under which the server accepted this client, if it has.
    pub fn player_id(&self) -> (id: Option<&String>)
        ensures
            match id {
                Some(text) => Some(text@),
                None => None,
            } == self.own_id(),
    {
        self.player_id.as_ref()
    }

    /// The players that the last snapshot reported, if one has arrived.
    pub fn current_state(&self) -> (players: Option<&Roster<PlayerState>>)
        ensures
            match players {
                Some(roster) => Some(roster@),
                None => None,
            } == self.known(),
            self.well_formed() ==> (players matches Some(roster) ==> roster.well_formed()),
    {
        self.current_state.as_ref()
    }

    /// The report of what the client knows, as text.
    pub fn debug_info(&self) -> (info: String)
        requires
            self.well_formed(),
        ensures
            info@ == debug_text(self.own_id(), self.known()),
    {
        let mut info = String::new();
        info.append("Connection: ");
        match &self.player_id {
            Some(_) => info.append("Connected"),
            None => info.append("Disconnected"),
        }
        info.append("\n");
        let ghost head = info@;

        match &self.player_id {
            Some(player_id) => {
                info.append("Player ID: ");
                info.append(player_id.as_str());
                info.append("\n");
                match self.get_own_state() {
                    Some(state) => {
                        info.append("Position: ");
                        append_point(&mut info, state.position);
                        info.append("\n");
                        info.append("Velocity: ");
                        append_point(&mut info, state.velocity);
                        info.append("\n");
                    },
                    None => {},
                }
            },
            None => {},
        }
        assert(info@ =~= head + own_text(self.own_id(), self.known()));
        let ghost middle = info@;

        match &self.current_state {
            Some(players) => {
                let n = players.len();
                info.append("Other players: ");
                let others: usize = if n > 0 {
                    n - 1
                } else {
                    0
                };
                let count = decimal_text(others as u64);
                info.append(count.as_str());
                info.append("\n");
                let ghost top = info@;
                let mut i: usize = 0;
                while i < n
                    invariant
                        players.well_formed(),
                        players@.len() == n,
                        self.current_state == Some(*players),
                        i <= n,
                        info@ == top + others_text(players@, self.own_id(), i as int),
                    decreases n - i,
                {
                    let id = players.id_at(i);
                    let own = match &self.player_id {
                        Some(own_id) => *own_id == *id,
                        None => false,
                    };
                    let ghost before = info@;
                    if !own {
                        info.append("  ");
                        info.append(id.as_str());
                        info.append(" at ");
                        append_point(&mut info, players.value_at(i).position);
                        info.append("\n");
                    }
                    assert(info@ =~= top + others_text(players@, self.own_id(), i + 1));
                    i += 1;
                }
                assert(info@ =~= middle + ("Other players: "@ + decimal(others as nat) + "\n"@
                    + others_text(players@, self.own_id(), n as int)));
            },
            None => {},
        }
        assert(info@ =~= debug_text(self.own_id(), self.known()));
        info
    }
}

} // verus!
