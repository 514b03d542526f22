//! The authority: the one owner of the world and of the connection
//! registry. It applies what the connections report, advances the world
//! once per tick, and puts what is to be sent on the outbound channel of
//! each connection. Events come in as values, and messages go out as the
//! bytes that the caller has encoded them to; a connection whose channel
//! does not take them is removed at once.

use std::collections::VecDeque;
use std::sync::mpsc::Sender;
use std::time::Duration;
use vstd::prelude::*;

use crate::channel::another;
use crate::channel::deliver;
use crate::errors::GameError;
use crate::framing::frame;
use crate::game::ticked;
use crate::game::with_velocity;
use crate::game::GameRules;
use crate::game::GameState;
use crate::messages::ClientMessage;
use crate::messages::GameStateUpdate;
use crate::messages::InternalMessage;
use crate::messages::InternalMessageView;
use crate::messages::Outbound;
use crate::messages::ServerMessage;
use crate::messages::ServerMessageView;
use crate::roster::distinct_ids;
use crate::roster::has_id;
use crate::roster::ids_of;
use crate::roster::index_of;
use crate::roster::lookup;
use crate::roster::texts_of;
use crate::roster::with_entry;
use crate::server_laws::law_event_keeps_registry_consistent;
use crate::server_laws::law_tick_keeps_players;
use crate::roster::without_id;
use crate::roster::Roster;
use crate::types::duration_from_millis;
use crate::types::duration_micros;
use crate::types::PlayerState;
use crate::types::Timestamp;
use crate::types::Vector2;

verus! {

/// The greatest number of inputs that wait for one connection. A queue that
/// is full takes no more, so that a flooding client cannot make it grow.
pub const MAX_PENDING_INPUTS: usize = 1024;

/// The tick length of a server made with `GameServer::new`, in milliseconds.
pub const DEFAULT_TICK_MILLIS: u64 = 16;

/// What a client said, and when it was received.
#[derive(Clone, Copy, Debug)]
pub struct PlayerInput {
    pub timestamp: Timestamp,
    pub message: ClientMessage,
}

/// The authority's record of one connection: the sending end of its
/// outbound channel, the inputs that wait to be applied, in the order of
/// their arrival, and the state last known of the player.
pub struct Player {
    sender: Sender<Vec<u8>>,
    input_queue: VecDeque<PlayerInput>,
    state: PlayerState,
}

/// What a `Player` record holds, but for the channel.
pub struct PlayerView {
    pub input_queue: Seq<PlayerInput>,
    pub state: PlayerState,
}

impl View for Player {
    type V = PlayerView;

    closed spec fn view(&self) -> PlayerView {
        PlayerView { input_queue: self.input_queue@, state: self.state }
    }
}

/// The state in which a player enters the game: at the origin, at rest.
pub open spec fn spawn_state(now: Timestamp) -> PlayerState {
    PlayerState {
        position: Vector2 { x: 0, y: 0 },
        velocity: Vector2 { x: 0, y: 0 },
        last_update: now,
    }
}

/// The record of a connection that has just registered.
pub open spec fn fresh_player(now: Timestamp) -> PlayerView {
    PlayerView { input_queue: Seq::empty(), state: spawn_state(now) }
}

/// What the authority owns: the connection registry and the players of the
/// game, each as `(id, value)` pairs in the order of their arrival.
pub struct World {
    pub connections: Seq<(Seq<char>, PlayerView)>,
    pub game: Seq<(Seq<char>, PlayerState)>,
}

/// Every player of the game has a connection in the registry.
pub open spec fn consistent(w: World) -> bool {
    forall|id: Seq<char>| has_id(w.game, id) ==> has_id(w.connections, id)
}

/// Neither the registry nor the game holds an id twice.
pub open spec fn world_well_formed(w: World) -> bool {
    &&& distinct_ids(w.connections)
    &&& distinct_ids(w.game)
}

/// The world after the client of connection `id` said `message`.
/// `Join` puts the player into the game if the connection is registered
/// and the player is not in the game yet, and does nothing otherwise.
/// `Move` makes the direction the player's velocity, as it is, if the
/// player is in the game, and does nothing otherwise. `Disconnect` takes
/// the player out of the registry and out of the game.
pub open spec fn after_client_message(
    w: World,
    id: Seq<char>,
    message: ClientMessage,
    now: Timestamp,
) -> World {
    match message {
        ClientMessage::Join => World {
            connections: w.connections,
            game: if has_id(w.connections, id) && !has_id(w.game, id) {
                w.game.push((id, spawn_state(now)))
            } else {
                w.game
            },
        },
        ClientMessage::Move { direction } => World {
            connections: w.connections,
            game: with_velocity(w.game, id, direction, now),
        },
        ClientMessage::Disconnect => World {
            connections: without_id(w.connections, id),
            game: without_id(w.game, id),
        },
    }
}

/// What is sent in answer to `message` from connection `id`: a
/// `JoinAccepted` to that connection for a `Join`, if the connection is
/// registered, and nothing in every other case.
pub open spec fn reply_to_client_message(w: World, id: Seq<char>, message: ClientMessage) -> Option<
    ServerMessageView,
> {
    if message is Join && has_id(w.connections, id) {
        Some(ServerMessageView::JoinAccepted { player_id: id })
    } else {
        None
    }
}

/// The world after one event from the input channel. A registration puts a
/// fresh record into the registry and leaves the game as it is.
pub open spec fn after_event(w: World, event: InternalMessageView, now: Timestamp) -> World {
    match event {
        InternalMessageView::NewConnection { player_id } => World {
            connections: with_entry(w.connections, player_id, fresh_player(now)),
            game: w.game,
        },
        InternalMessageView::ClientMessage { player_id, message } => after_client_message(
            w,
            player_id,
            message,
            now,
        ),
    }
}

/// What is sent in answer to one event, and to whom.
pub open spec fn reply_to_event(w: World, event: InternalMessageView) -> Option<
    (Seq<char>, ServerMessageView),
> {
    match event {
        InternalMessageView::NewConnection { player_id } => None,
        InternalMessageView::ClientMessage { player_id, message } => match reply_to_client_message(
            w,
            player_id,
            message,
        ) {
            Some(reply) => Some((player_id, reply)),
            None => None,
        },
    }
}

/// The world after the events of `events`, applied in order.
pub open spec fn after_events(w: World, events: Seq<InternalMessageView>, now: Timestamp) -> World
    decreases events.len(),
{
    if events.len() == 0 {
        w
    } else {
        after_event(after_events(w, events.drop_last(), now), events.last(), now)
    }
}

/// What is sent in answer to the events of `events`, in their order.
pub open spec fn replies_to_events(
    w: World,
    events: Seq<InternalMessageView>,
    now: Timestamp,
) -> Seq<(Seq<char>, ServerMessageView)>
    decreases events.len(),
{
    if events.len() == 0 {
        Seq::empty()
    } else {
        let before = replies_to_events(w, events.drop_last(), now);
        match reply_to_event(after_events(w, events.drop_last(), now), events.last()) {
            Some(reply) => before.push(reply),
            None => before,
        }
    }
}

/// The world without the connections of `ids`: each is taken out of the
/// registry and out of the game.
pub open spec fn without_ids(w: World, ids: Seq<Seq<char>>) -> World
    decreases ids.len(),
{
    if ids.len() == 0 {
        w
    } else {
        let rest = without_ids(w, ids.drop_last());
        World {
            connections: without_id(rest.connections, ids.last()),
            game: without_id(rest.game, ids.last()),
        }
    }
}

/// The registry with `input` at the end of the queue of connection `id`. A
/// connection that is not registered has no queue, and a queue that holds
/// `MAX_PENDING_INPUTS` inputs takes no more: the registry is then as it was.
pub open spec fn with_queued_input(
    connections: Seq<(Seq<char>, PlayerView)>,
    id: Seq<char>,
    input: PlayerInput,
) -> Seq<(Seq<char>, PlayerView)> {
    if accepts_input(connections, id) {
        let at = index_of(connections, id);
        connections.update(
            at,
            (
                id,
                PlayerView {
                    input_queue: connections[at].1.input_queue.push(input),
                    state: connections[at].1.state,
                },
            ),
        )
    } else {
        connections
    }
}

/// Connection `id` is registered and its queue has room.
pub open spec fn accepts_input(connections: Seq<(Seq<char>, PlayerView)>, id: Seq<char>) -> bool {
    has_id(connections, id) && connections[index_of(connections, id)].1.input_queue.len()
        < MAX_PENDING_INPUTS
}

/// The world after the inputs of `queue`, which waited for connection
/// `id`, have been applied in the order of their arrival, each as a message
/// from that connection is.
pub open spec fn after_inputs(
    w: World,
    id: Seq<char>,
    queue: Seq<PlayerInput>,
    now: Timestamp,
) -> World
    decreases queue.len(),
{
    if queue.len() == 0 {
        w
    } else {
        after_client_message(
            after_inputs(w, id, queue.drop_last(), now),
            id,
            queue.last().message,
            now,
        )
    }
}

/// What is owed in answer to the inputs of `queue`, in their order.
pub open spec fn replies_to_inputs(
    w: World,
    id: Seq<char>,
    queue: Seq<PlayerInput>,
    now: Timestamp,
) -> Seq<(Seq<char>, ServerMessageView)>
    decreases queue.len(),
{
    if queue.len() == 0 {
        Seq::empty()
    } else {
        let before = replies_to_inputs(w, id, queue.drop_last(), now);
        match reply_to_event(
            after_inputs(w, id, queue.drop_last(), now),
            InternalMessageView::ClientMessage { player_id: id, message: queue.last().message },
        ) {
            Some(reply) => before.push(reply),
            None => before,
        }
    }
}

/// The registry with the queue of connection `id` emptied.
pub open spec fn with_empty_queue(
    connections: Seq<(Seq<char>, PlayerView)>,
    id: Seq<char>,
) -> Seq<(Seq<char>, PlayerView)> {
    if has_id(connections, id) {
        let at = index_of(connections, id);
        connections.update(
            at,
            (id, PlayerView { input_queue: Seq::empty(), state: connections[at].1.state }),
        )
    } else {
        connections
    }
}

/// The inputs that wait for connection `id`; none for an id that is not
/// registered.
pub open spec fn queue_of(connections: Seq<(Seq<char>, PlayerView)>, id: Seq<char>) -> Seq<
    PlayerInput,
> {
    if has_id(connections, id) {
        connections[index_of(connections, id)].1.input_queue
    } else {
        Seq::empty()
    }
}

/// The world after the queue of connection `id` has been drained: the
/// queue is empty, and what waited there has been applied in order.
pub open spec fn after_drain(w: World, id: Seq<char>, now: Timestamp) -> World {
    after_inputs(
        World { connections: with_empty_queue(w.connections, id), game: w.game },
        id,
        queue_of(w.connections, id),
        now,
    )
}

/// What is owed in answer to the inputs that waited for connection `id`.
pub open spec fn replies_to_drain(w: World, id: Seq<char>, now: Timestamp) -> Seq<
    (Seq<char>, ServerMessageView),
> {
    replies_to_inputs(
        World { connections: with_empty_queue(w.connections, id), game: w.game },
        id,
        queue_of(w.connections, id),
        now,
    )
}

/// The world after the queues of the connections `ids` have been drained,
/// one after another.
pub open spec fn after_drains(w: World, ids: Seq<Seq<char>>, now: Timestamp) -> World
    decreases ids.len(),
{
    if ids.len() == 0 {
        w
    } else {
        after_drain(after_drains(w, ids.drop_last(), now), ids.last(), now)
    }
}

/// What is owed in answer to the inputs that waited for the connections
/// `ids`, queue after queue.
pub open spec fn replies_to_drains(w: World, ids: Seq<Seq<char>>, now: Timestamp) -> Seq<
    (Seq<char>, ServerMessageView),
>
    decreases ids.len(),
{
    if ids.len() == 0 {
        Seq::empty()
    } else {
        replies_to_drains(w, ids.drop_last(), now) + replies_to_drain(
            after_drains(w, ids.drop_last(), now),
            ids.last(),
            now,
        )
    }
}

/// The world after every connection's queue has been drained, in the order
/// of the registry. Each input is applied as a message from its connection
/// is: a queued `Disconnect` removes the player, a queued `Join` lets it in.
pub open spec fn after_pending_inputs(w: World, now: Timestamp) -> World {
    after_drains(w, ids_of(w.connections), now)
}

/// What is owed in answer to the inputs that waited in the queues.
pub open spec fn replies_to_pending_inputs(w: World, now: Timestamp) -> Seq<
    (Seq<char>, ServerMessageView),
> {
    replies_to_drains(w, ids_of(w.connections), now)
}

/// What became of a message on its way to one connection.
pub struct Delivery {
    /// The connection.
    pub player_id: String,
    /// Whether the connection's channel took the message.
    pub delivered: bool,
}

impl View for Delivery {
    type V = (Seq<char>, bool);

    open spec fn view(&self) -> (Seq<char>, bool) {
        (self.player_id@, self.delivered)
    }
}

/// The contents of a delivery report.
pub open spec fn report_of(report: Seq<Delivery>) -> Seq<(Seq<char>, bool)> {
    Seq::new(report.len(), |i: int| report[i]@)
}

/// The ids of a delivery report whose channel did not take the message, in
/// the order of the report.
pub open spec fn undelivered(report: Seq<(Seq<char>, bool)>) -> Seq<Seq<char>>
    decreases report.len(),
{
    if report.len() == 0 {
        Seq::empty()
    } else if report.last().1 {
        undelivered(report.drop_last())
    } else {
        undelivered(report.drop_last()).push(report.last().0)
    }
}

/// The contents of a vector of events.
pub open spec fn events_of(messages: Seq<InternalMessage>) -> Seq<InternalMessageView> {
    Seq::new(messages.len(), |i: int| messages[i]@)
}

/// The contents of a vector of outbound messages.
pub open spec fn outbound_of(out: Seq<Outbound>) -> Seq<(Seq<char>, ServerMessageView)> {
    Seq::new(out.len(), |i: int| out[i]@)
}

impl Player {
    /// The record of a connection that has just registered.
    pub fn new(sender: Sender<Vec<u8>>, now: Timestamp) -> (player: Self)
        ensures
            player@ == fresh_player(now),
    {
        Player {
            sender,
            input_queue: VecDeque::new(),
            state: PlayerState {
                position: Vector2 { x: 0, y: 0 },
                velocity: Vector2 { x: 0, y: 0 },
                last_update: now,
            },
        }
    }

    /// The state last known of the player.
    pub fn state(&self) -> (state: PlayerState)
        ensures
            state == self@.state,
    {
        self.state
    }

    /// The number of inputs that wait.
    pub fn pending(&self) -> (count: usize)
        ensures
            count == self@.input_queue.len(),
    {
        self.input_queue.len()
    }
}

/// What the authority does next.
pub enum Schedule {
    /// A tick is due; `delta_time` has passed since the last one.
    Run { delta_time: Duration },
    /// No tick is due for `remaining`.
    Wait { remaining: Duration },
}

/// What one tick asks to have sent: the answers to the events, each to its
/// connection, and the snapshot of the world, to every connection.
pub struct TickOutput {
    pub replies: Vec<Outbound>,
    pub update: GameStateUpdate,
}

/// The authority.
pub struct GameServer {
    game_state: GameState,
    players: Roster<Player>,
    tick_millis: u64,
    address: String,
    current_tick: u64,
    last_tick: Timestamp,
}

impl GameServer {
    /// No id occurs twice in the registry, nor in the game, and every
    /// player of the game has a connection in the registry.
    pub closed spec fn well_formed(&self) -> bool {
        &&& self.game_state.well_formed()
        &&& self.players.well_formed()
        &&& consistent(self.world())
    }

    /// The registry and the game.
    pub closed spec fn world(&self) -> World {
        World { connections: self.players@, game: self.game_state@ }
    }

    /// The number that the next snapshot carries.
    pub closed spec fn next_tick(&self) -> u64 {
        self.current_tick
    }

    /// The time of the last tick.
    pub closed spec fn last_tick(&self) -> Timestamp {
        self.last_tick
    }

    /// The length of a tick, in milliseconds.
    pub closed spec fn tick_millis(&self) -> u64 {
        self.tick_millis
    }

    /// The address on which the server is to listen.
    pub closed spec fn bind_address(&self) -> Seq<char> {
        self.address@
    }

    /// The time with which the game was last stamped: that of the last
    /// tick that advanced it.
    pub closed spec fn game_updated_at(&self) -> Timestamp {
        self.game_state.updated_at()
    }

    /// In a well-formed server the registry and the game hold each id
    /// once, and every player of the game has a connection.
    pub proof fn lemma_distinct(&self)
        requires
            self.well_formed(),
        ensures
            distinct_ids(self.world().connections),
            distinct_ids(self.world().game),
            world_well_formed(self.world()),
            consistent(self.world()),
    {
        self.players.lemma_distinct();
        self.game_state.lemma_distinct();
    }

    /// A server for `address` that ticks every `tick_millis` milliseconds,
    /// with nobody connected and nobody in the game. Its first snapshot
    /// carries the tick number 1.
    pub fn with_tick_rate(address: &str, tick_millis: u64) -> (server: Self)
        ensures
            server.well_formed(),
            server.world().connections == Seq::<(Seq<char>, PlayerView)>::empty(),
            server.world().game == Seq::<(Seq<char>, PlayerState)>::empty(),
            server.next_tick() == 1,
            server.tick_millis() == tick_millis,
            server.bind_address() == address@,
    {
        GameServer {
            game_state: GameState::new(),
            players: Roster::new(),
            tick_millis,
            address: address.to_owned(),
            current_tick: 1,
            last_tick: Timestamp::now(),
        }
    }

    /// A server for `address` with the default tick of 16 milliseconds.
    /// Making one never fails.
    pub fn new(address: &str) -> (server: Result<Self, GameError>)
        ensures
            server matches Ok(s) && s.well_formed() && s.world().connections == Seq::<
                (Seq<char>, PlayerView),
            >::empty() && s.world().game == Seq::<(Seq<char>, PlayerState)>::empty()
                && s.next_tick() == 1 && s.tick_millis() == DEFAULT_TICK_MILLIS
                && s.bind_address() == address@,
    {
        Ok(GameServer::with_tick_rate(address, DEFAULT_TICK_MILLIS))
    }

    /// The address on which the server is to listen.
    pub fn address(&self) -> (address: &String)
        ensures
            address@ == self.bind_address(),
    {
        &self.address
    }

    /// The number that the next snapshot carries.
    pub fn current_tick(&self) -> (tick: u64)
        ensures
            tick == self.next_tick(),
    {
        self.current_tick
    }

    /// The game as it stands.
    pub fn game_state(&self) -> (game: &GameState)
        ensures
            game@ == self.world().game,
            game.updated_at() == self.game_updated_at(),
            self.well_formed() ==> game.well_formed(),
    {
        &self.game_state
    }

    /// Whether a connection is registered.
    pub fn is_connected(&self, player_id: &str) -> (connected: bool)
        requires
            self.well_formed(),
        ensures
            connected == has_id(self.world().connections, player_id@),
    {
        let id = player_id.to_owned();
        self.players.position(&id).is_some()
    }

    /// The record of a connection, if it is registered.
    pub fn player(&self, player_id: &str) -> (record: Option<&Player>)
        requires
            self.well_formed(),
        ensures
            record is Some <==> has_id(self.world().connections, player_id@),
            record matches Some(p) ==> lookup(self.world().connections, player_id@) == Some(p@),
    {
        let id = player_id.to_owned();
        self.players.get(&id)
    }

    /// The number of registered connections.
    pub fn connection_count(&self) -> (count: usize)
        requires
            self.well_formed(),
        ensures
            count == self.world().connections.len(),
    {
        self.players.len()
    }

    /// Registers a connection under `player_id` with a fresh record. A
    /// record that was there under that id is replaced. The game is left as
    /// it is: a connection is not yet a player.
    pub fn add_connection(&mut self, player_id: String, sender: Sender<Vec<u8>>, now: Timestamp)
        requires
            old(self).well_formed(),
        ensures
            final(self).well_formed(),
            final(self).world() == after_event(
                old(self).world(),
                InternalMessageView::NewConnection { player_id: player_id@ },
                now,
            ),
            final(self).next_tick() == old(self).next_tick(),
            final(self).last_tick() == old(self).last_tick(),
            final(self).tick_millis() == old(self).tick_millis(),
            final(self).bind_address() == old(self).bind_address(),
            final(self).game_updated_at() == old(self).game_updated_at(),
    {
        proof {
            self.lemma_distinct();
            law_event_keeps_registry_consistent(
                self.world(),
                InternalMessageView::NewConnection { player_id: player_id@ },
                now,
            );
        }
        self.players.insert(player_id, Player::new(sender, now));
    }

    /// Takes a connection out of the registry and its player out of the
    /// game, both at once. Nothing happens to what is not there.
    pub fn remove_player(&mut self, player_id: &str)
        requires
            old(self).well_formed(),
        ensures
            final(self).well_formed(),
            final(self).world().connections == without_id(
                old(self).world().connections,
                player_id@,
            ),
            final(self).world().game == without_id(old(self).world().game, player_id@),
            final(self).next_tick() == old(self).next_tick(),
            final(self).last_tick() == old(self).last_tick(),
            final(self).tick_millis() == old(self).tick_millis(),
            final(self).bind_address() == old(self).bind_address(),
            final(self).game_updated_at() == old(self).game_updated_at(),
    {
        proof {
            self.lemma_distinct();
            law_event_keeps_registry_consistent(
                self.world(),
                InternalMessageView::ClientMessage {
                    player_id: player_id@,
                    message: ClientMessage::Disconnect,
                },
                self.last_tick,
            );
        }
        let id = player_id.to_owned();
        self.players.remove(&id);
        self.game_state.remove_player(player_id);
    }

    /// A player asks to enter the game. If its connection is registered, it
    /// is put there, at the origin and at rest, unless it is in the game
    /// already, and a `JoinAccepted` is owed to that connection alone. From
    /// an id that is not registered the request changes nothing and nothing
    /// is owed.
    pub fn handle_player_join(&mut self, player_id: &str, now: Timestamp) -> (reply: Option<
        Outbound,
    >)
        requires
            old(self).well_formed(),
        ensures
            final(self).well_formed(),
            final(self).world() == after_client_message(
                old(self).world(),
                player_id@,
                ClientMessage::Join,
                now,
            ),
            match reply {
                Some(owed) => Some(owed@),
                None => None,
            } == reply_to_event(
                old(self).world(),
                InternalMessageView::ClientMessage {
                    player_id: player_id@,
                    message: ClientMessage::Join,
                },
            ),
            final(self).next_tick() == old(self).next_tick(),
            final(self).last_tick() == old(self).last_tick(),
            final(self).tick_millis() == old(self).tick_millis(),
            final(self).bind_address() == old(self).bind_address(),
            final(self).game_updated_at() == old(self).game_updated_at(),
    {
        let id = player_id.to_owned();
        match self.players.position(&id) {
            Some(i) => {
                if !self.game_state.has_player(&id) {
                    let state = PlayerState {
                        position: Vector2 { x: 0, y: 0 },
                        velocity: Vector2 { x: 0, y: 0 },
                        last_update: now,
                    };
                    self.game_state.add_player(player_id.to_owned(), state);
                }
                let sender = another(&self.players.value_at(i).sender);
                Some(
                    Outbound {
                        recipient: player_id.to_owned(),
                        message: ServerMessage::JoinAccepted { player_id: id },
                        sender,
                    },
                )
            },
            None => None,
        }
    }

    /// Applies what the client of one connection said, and gives the
    /// answer that is owed to it, if any.
    pub fn handle_client_message(
        &mut self,
        player_id: &str,
        message: ClientMessage,
        now: Timestamp,
    ) -> (reply: Option<Outbound>)
        requires
            old(self).well_formed(),
        ensures
            final(self).well_formed(),
            final(self).world() == after_client_message(
                old(self).world(),
                player_id@,
                message,
                now,
            ),
            match reply {
                Some(owed) => Some(owed@),
                None => None,
            } == reply_to_event(
                old(self).world(),
                InternalMessageView::ClientMessage { player_id: player_id@, message },
            ),
            final(self).next_tick() == old(self).next_tick(),
            final(self).last_tick() == old(self).last_tick(),
            final(self).tick_millis() == old(self).tick_millis(),
            final(self).bind_address() == old(self).bind_address(),
            final(self).game_updated_at() == old(self).game_updated_at(),
    {
        match message {
            ClientMessage::Join => self.handle_player_join(player_id, now),
            ClientMessage::Move { direction } => {
                proof {
                    self.lemma_distinct();
                    law_event_keeps_registry_consistent(
                        self.world(),
                        InternalMessageView::ClientMessage { player_id: player_id@, message },
                        now,
                    );
                }
                let id = player_id.to_owned();
                self.game_state.set_velocity(&id, direction, now);
                None
            },
            ClientMessage::Disconnect => {
                self.remove_player(player_id);
                None
            },
        }
    }

    /// Applies the events drained from the input channel, in their order,
    /// and collects the answers that are owed, each with its connection.
    pub fn process_messages(&mut self, messages: Vec<InternalMessage>, now: Timestamp) -> (replies:
        Vec<Outbound>)
        requires
            old(self).well_formed(),
        ensures
            final(self).well_formed(),
            final(self).world() == after_events(old(self).world(), events_of(messages@), now),
            outbound_of(replies@) == replies_to_events(
                old(self).world(),
                events_of(messages@),
                now,
            ),
            final(self).next_tick() == old(self).next_tick(),
            final(self).last_tick() == old(self).last_tick(),
            final(self).tick_millis() == old(self).tick_millis(),
            final(self).bind_address() == old(self).bind_address(),
            final(self).game_updated_at() == old(self).game_updated_at(),
    {
        let mut replies: Vec<Outbound> = Vec::new();
        let ghost start = self.world();
        let ghost events = events_of(messages@);
        assert(outbound_of(replies@) =~= replies_to_events(start, events.subrange(0, 0), now));
        for message in it: messages
            invariant
                self.well_formed(),
                it.seq() == messages@,
                events == events_of(messages@),
                self.world() == after_events(start, events.subrange(0, it.index() as int), now),
                outbound_of(replies@) == replies_to_events(
                    start,
                    events.subrange(0, it.index() as int),
                    now,
                ),
                self.next_tick() == old(self).next_tick(),
                self.last_tick() == old(self).last_tick(),
                self.tick_millis() == old(self).tick_millis(),
                self.bind_address() == old(self).bind_address(),
                self.game_updated_at() == old(self).game_updated_at(),
        {
            let ghost sent = outbound_of(replies@);
            let ghost i = it.index() as int;
            proof {
                assert(events.subrange(0, i + 1).drop_last() =~= events.subrange(0, i));
                assert(events.subrange(0, i + 1).last() == message@);
            }
            match message {
                InternalMessage::NewConnection { player_id, sender } => {
                    self.add_connection(player_id, sender, now);
                },
                InternalMessage::ClientMessage { player_id, message } => {
                    match self.handle_client_message(player_id.as_str(), message, now) {
                        Some(reply) => {
                            let ghost owed = reply@;
                            replies.push(reply);
                            assert(outbound_of(replies@) =~= sent.push(owed));
                        },
                        None => {},
                    }
                },
            }
        }
        assert(events.subrange(0, events.len() as int) =~= events);
        replies
    }

    /// Advances the game by one tick of `delta_time`, stamped `now`.
    pub fn update_game_state(&mut self, delta_time: Duration, now: Timestamp)
        requires
            old(self).well_formed(),
        ensures
            final(self).well_formed(),
            final(self).world().connections == old(self).world().connections,
            final(self).world().game == ticked(
                old(self).world().game,
                duration_micros(delta_time) as int,
                GameRules::standard(),
                now,
            ),
            final(self).game_updated_at() == now,
            final(self).next_tick() == old(self).next_tick(),
            final(self).last_tick() == old(self).last_tick(),
            final(self).tick_millis() == old(self).tick_millis(),
            final(self).bind_address() == old(self).bind_address(),
    {
        self.game_state.update_at(delta_time, now);
        proof {
            assert forall|id: Seq<char>| has_id(self.world().game, id) implies has_id(
                self.world().connections,
                id,
            ) by {
                law_tick_keeps_players(
                    old(self).world().game,
                    duration_micros(delta_time) as int,
                    GameRules::standard(),
                    now,
                    id,
                );
            }
        }
    }

    /// The snapshot of the world that tick number `tick` sends.
    pub fn state_update(&self, tick: u64, now: Timestamp) -> (update: GameStateUpdate)
        requires
            self.well_formed(),
        ensures
            update.tick == tick,
            update.players@ == self.world().game,
            update.players.well_formed(),
            update.server_time == now,
    {
        GameStateUpdate { tick, players: self.game_state.players(), server_time: now }
    }

    /// Puts one encoded message, framed as a line, on the outbound channel
    /// of one connection, and says whether the channel took it. A
    /// connection whose channel does not take it is removed at once, from
    /// the registry and from the game. For a connection that is not
    /// registered nothing is sent and nothing changes.
    pub fn send_to(&mut self, player_id: &str, payload: &[u8]) -> (delivered: bool)
        requires
            old(self).well_formed(),
        ensures
            final(self).well_formed(),
            delivered ==> has_id(old(self).world().connections, player_id@),
            final(self).world() == if delivered || !has_id(
                old(self).world().connections,
                player_id@,
            ) {
                old(self).world()
            } else {
                without_ids(old(self).world(), seq![player_id@])
            },
            final(self).next_tick() == old(self).next_tick(),
            final(self).last_tick() == old(self).last_tick(),
            final(self).tick_millis() == old(self).tick_millis(),
            final(self).bind_address() == old(self).bind_address(),
            final(self).game_updated_at() == old(self).game_updated_at(),
    {
        let id = player_id.to_owned();
        match self.players.position(&id) {
            Some(i) => {
                let delivered = deliver(&self.players.value_at(i).sender, frame(payload));
                if !delivered {
                    proof {
                        let one = seq![player_id@];
                        assert(one.drop_last() =~= Seq::<Seq<char>>::empty());
                        assert(without_ids(self.world(), one.drop_last()) == self.world());
                    }
                    self.remove_player(player_id);
                }
                delivered
            },
            None => false,
        }
    }

    /// Puts the encoded form of an owed message, framed as a line, on the
    /// channel that the message carries, and says whether the channel took
    /// it. If it did not, the connection of that id is removed at once, from
    /// the registry and from the game. The channel is the one that the
    /// connection had when the message became owed, so an answer still
    /// reaches a client that has left the registry since.
    pub fn send_reply(&mut self, reply: &Outbound, payload: &[u8]) -> (delivered: bool)
        requires
            old(self).well_formed(),
        ensures
            final(self).well_formed(),
            final(self).world() == if delivered {
                old(self).world()
            } else {
                without_ids(old(self).world(), seq![reply.recipient@])
            },
            final(self).next_tick() == old(self).next_tick(),
            final(self).last_tick() == old(self).last_tick(),
            final(self).tick_millis() == old(self).tick_millis(),
            final(self).bind_address() == old(self).bind_address(),
            final(self).game_updated_at() == old(self).game_updated_at(),
    {
        let delivered = deliver(&reply.sender, frame(payload));
        if !delivered {
            proof {
                let one = seq![reply.recipient@];
                assert(one.drop_last() =~= Seq::<Seq<char>>::empty());
                assert(without_ids(self.world(), one.drop_last()) == self.world());
            }
            self.remove_player(reply.recipient.as_str());
        }
        delivered
    }

    /// Puts one encoded message, framed as a line, on the outbound channel
    /// of every connection, in the order of the registry, and reports for
    /// each connection whether its channel took the line. The connections
    /// whose channel did not are removed before the call returns, each from
    /// the registry and from the game.
    pub fn broadcast_state(&mut self, payload: &[u8]) -> (report: Vec<Delivery>)
        requires
            old(self).well_formed(),
        ensures
            final(self).well_formed(),
            report@.len() == old(self).world().connections.len(),
            forall|k: int|
                0 <= k < report@.len() ==> (#[trigger] report@[k]).player_id@
                    == old(self).world().connections[k].0,
            final(self).world() == without_ids(old(self).world(), undelivered(report_of(report@))),
            final(self).next_tick() == old(self).next_tick(),
            final(self).last_tick() == old(self).last_tick(),
            final(self).tick_millis() == old(self).tick_millis(),
            final(self).bind_address() == old(self).bind_address(),
            final(self).game_updated_at() == old(self).game_updated_at(),
    {
        let line = frame(payload);
        let mut report: Vec<Delivery> = Vec::new();
        let mut failed: Vec<String> = Vec::new();
        let n = self.players.len();
        let mut i: usize = 0;
        assert(texts_of(failed@) =~= undelivered(report_of(report@)));
        while i < n
            invariant
                self.well_formed(),
                self.world() == old(self).world(),
                self.players@.len() == n,
                i <= n,
                report@.len() == i,
                forall|k: int|
                    0 <= k < i ==> (#[trigger] report@[k]).player_id@
                        == self.world().connections[k].0,
                texts_of(failed@) == undelivered(report_of(report@)),
            decreases n - i,
        {
            let ghost told = report_of(report@);
            let ghost lost = texts_of(failed@);
            let delivered = deliver(&self.players.value_at(i).sender, line.clone());
            let player_id = self.players.id_at(i).clone();
            if !delivered {
                failed.push(player_id.clone());
            }
            report.push(Delivery { player_id, delivered });
            proof {
                let now = report_of(report@);
                assert(now.drop_last() =~= told);
                assert(now.last() == (player_id@, delivered));
                if delivered {
                    assert(texts_of(failed@) =~= lost);
                } else {
                    assert(texts_of(failed@) =~= lost.push(player_id@));
                }
            }
            i += 1;
        }
        self.remove_failed(&failed);
        report
    }

    /// Takes out the connections to which the snapshot could not be
    /// delivered, each from the registry and from the game.
    pub fn remove_failed(&mut self, failed: &Vec<String>)
        requires
            old(self).well_formed(),
        ensures
            final(self).well_formed(),
            final(self).world() == without_ids(old(self).world(), texts_of(failed@)),
            final(self).next_tick() == old(self).next_tick(),
            final(self).last_tick() == old(self).last_tick(),
            final(self).tick_millis() == old(self).tick_millis(),
            final(self).bind_address() == old(self).bind_address(),
            final(self).game_updated_at() == old(self).game_updated_at(),
    {
        let ghost start = self.world();
        let ghost ids = texts_of(failed@);
        let mut i: usize = 0;
        while i < failed.len()
            invariant
                self.well_formed(),
                i <= failed@.len(),
                ids == texts_of(failed@),
                self.world() == without_ids(start, ids.subrange(0, i as int)),
                self.next_tick() == old(self).next_tick(),
                self.last_tick() == old(self).last_tick(),
                self.tick_millis() == old(self).tick_millis(),
                self.bind_address() == old(self).bind_address(),
                self.game_updated_at() == old(self).game_updated_at(),
            decreases failed@.len() - i,
        {
            proof {
                assert(ids.subrange(0, i + 1).drop_last() =~= ids.subrange(0, i as int));
                assert(ids.subrange(0, i + 1).last() == failed@[i as int]@);
            }
            self.remove_player(failed[i].as_str());
            i += 1;
        }
        assert(ids.subrange(0, i as int) =~= ids);
    }

    /// Puts an input at the end of the queue of a connection, and says
    /// whether it was taken. It is not taken if the connection is not
    /// registered or its queue is full.
    pub fn queue_input(&mut self, player_id: &str, input: PlayerInput) -> (taken: bool)
        requires
            old(self).well_formed(),
        ensures
            final(self).well_formed(),
            taken == accepts_input(old(self).world().connections, player_id@),
            final(self).world().connections == with_queued_input(
                old(self).world().connections,
                player_id@,
                input,
            ),
            final(self).world().game == old(self).world().game,
            final(self).next_tick() == old(self).next_tick(),
            final(self).last_tick() == old(self).last_tick(),
            final(self).tick_millis() == old(self).tick_millis(),
            final(self).bind_address() == old(self).bind_address(),
            final(self).game_updated_at() == old(self).game_updated_at(),
    {
        let id = player_id.to_owned();
        match self.players.position(&id) {
            Some(i) => {
                if self.players.value_at(i).input_queue.len() < MAX_PENDING_INPUTS {
                    let player = self.players.value_at_mut(i);
                    player.input_queue.push_back(input);
                    assert(self.players@ =~= with_queued_input(
                        old(self).world().connections,
                        player_id@,
                        input,
                    ));
                    proof {
                        assert forall|x: Seq<char>| has_id(self.world().game, x) implies has_id(
                            self.world().connections,
                            x,
                        ) by {
                            assert(has_id(old(self).world().game, x));
                            assert(has_id(old(self).world().connections, x));
                            let k = index_of(old(self).world().connections, x);
                            assert(self.world().connections[k].0 == x);
                        }
                    }
                    true
                } else {
                    false
                }
            },
            None => false,
        }
    }

    /// Drains the queue of one connection: what waited there is applied in
    /// the order of its arrival, each input as a message from that
    /// connection is, and the answers that are owed are collected. Nothing
    /// happens for an id that is not registered.
    pub fn drain_queue(&mut self, player_id: &str, now: Timestamp) -> (replies: Vec<Outbound>)
        requires
            old(self).well_formed(),
        ensures
            final(self).well_formed(),
            final(self).world() == after_drain(old(self).world(), player_id@, now),
            outbound_of(replies@) == replies_to_drain(old(self).world(), player_id@, now),
            final(self).next_tick() == old(self).next_tick(),
            final(self).last_tick() == old(self).last_tick(),
            final(self).tick_millis() == old(self).tick_millis(),
            final(self).bind_address() == old(self).bind_address(),
            final(self).game_updated_at() == old(self).game_updated_at(),
    {
        let mut replies: Vec<Outbound> = Vec::new();
        let id = player_id.to_owned();
        let mut queue: VecDeque<PlayerInput> = VecDeque::new();
        match self.players.position(&id) {
            Some(i) => {
                let player = self.players.value_at_mut(i);
                std::mem::swap(&mut queue, &mut player.input_queue);
                assert(self.players@ =~= with_empty_queue(old(self).world().connections, player_id@));
                proof {
                    assert forall|x: Seq<char>| has_id(self.world().game, x) implies has_id(
                        self.world().connections,
                        x,
                    ) by {
                        assert(has_id(old(self).world().game, x));
                        assert(has_id(old(self).world().connections, x));
                        let k = index_of(old(self).world().connections, x);
                        assert(self.world().connections[k].0 == x);
                    }
                }
            },
            None => {},
        }
        let ghost base = self.world();
        assert(queue@ == queue_of(old(self).world().connections, player_id@));
        assert(outbound_of(replies@) =~= replies_to_inputs(
            base,
            player_id@,
            queue@.subrange(0, 0),
            now,
        ));
        let mut j: usize = 0;
        while j < queue.len()
            invariant
                self.well_formed(),
                j <= queue@.len(),
                self.world() == after_inputs(base, player_id@, queue@.subrange(0, j as int), now),
                outbound_of(replies@) == replies_to_inputs(
                    base,
                    player_id@,
                    queue@.subrange(0, j as int),
                    now,
                ),
                self.next_tick() == old(self).next_tick(),
                self.last_tick() == old(self).last_tick(),
                self.tick_millis() == old(self).tick_millis(),
                self.bind_address() == old(self).bind_address(),
                self.game_updated_at() == old(self).game_updated_at(),
            decreases queue@.len() - j,
        {
            let ghost sent = outbound_of(replies@);
            proof {
                assert(queue@.subrange(0, j + 1).drop_last() =~= queue@.subrange(0, j as int));
                assert(queue@.subrange(0, j + 1).last() == queue@[j as int]);
            }
            match self.handle_client_message(player_id, queue[j].message, now) {
                Some(reply) => {
                    let ghost owed = reply@;
                    replies.push(reply);
                    assert(outbound_of(replies@) =~= sent.push(owed));
                },
                None => {},
            }
            j += 1;
        }
        assert(queue@.subrange(0, queue@.len() as int) =~= queue@);
        replies
    }

    /// Drains the queue of every connection, in the order of the registry,
    /// and applies what waited there, each queue in the order of its
    /// arrival and each input as a message from its connection is. The
    /// answers that are owed are collected in that order.
    pub fn process_pending_inputs(&mut self, now: Timestamp) -> (replies: Vec<Outbound>)
        requires
            old(self).well_formed(),
        ensures
            final(self).well_formed(),
            final(self).world() == after_pending_inputs(old(self).world(), now),
            outbound_of(replies@) == replies_to_pending_inputs(old(self).world(), now),
            final(self).next_tick() == old(self).next_tick(),
            final(self).last_tick() == old(self).last_tick(),
            final(self).tick_millis() == old(self).tick_millis(),
            final(self).bind_address() == old(self).bind_address(),
            final(self).game_updated_at() == old(self).game_updated_at(),
    {
        let mut replies: Vec<Outbound> = Vec::new();
        let ids = self.players.ids();
        let ghost start = self.world();
        let ghost texts = ids_of(start.connections);
        assert(texts_of(ids@) =~= texts);
        assert(outbound_of(replies@) =~= replies_to_drains(start, texts.subrange(0, 0), now));
        let mut k: usize = 0;
        while k < ids.len()
            invariant
                self.well_formed(),
                k <= ids@.len(),
                texts_of(ids@) == texts,
                self.world() == after_drains(start, texts.subrange(0, k as int), now),
                outbound_of(replies@) == replies_to_drains(start, texts.subrange(0, k as int), now),
                self.next_tick() == old(self).next_tick(),
                self.last_tick() == old(self).last_tick(),
                self.tick_millis() == old(self).tick_millis(),
                self.bind_address() == old(self).bind_address(),
                self.game_updated_at() == old(self).game_updated_at(),
            decreases ids@.len() - k,
        {
            let ghost sent = outbound_of(replies@);
            proof {
                assert(texts.subrange(0, k + 1).drop_last() =~= texts.subrange(0, k as int));
                assert(texts.subrange(0, k + 1).last() == ids@[k as int]@);
            }
            let mut more = self.drain_queue(ids[k].as_str(), now);
            let ghost owed = outbound_of(more@);
            replies.append(&mut more);
            assert(outbound_of(replies@) =~= sent + owed);
            k += 1;
        }
        assert(texts.subrange(0, texts.len() as int) =~= texts);
        replies
    }

    /// Whether a tick is due at `now`. One is due when at least the tick
    /// length has passed since the last; otherwise the rest of it is to be
    /// waited for.
    pub fn poll(&self, now: Timestamp) -> (next: Schedule)
        ensures
            ({
                let elapsed: int = if now@ >= self.last_tick()@ {
                    now@ - self.last_tick()@
                } else {
                    0
                };
                match next {
                    Schedule::Run { delta_time } => elapsed >= self.tick_millis()
                        && duration_micros(delta_time) == 1000 * elapsed,
                    Schedule::Wait { remaining } => elapsed < self.tick_millis()
                        && duration_micros(remaining) == 1000 * (self.tick_millis() - elapsed),
                }
            }),
    {
        let elapsed = now.as_millis().saturating_sub(self.last_tick.as_millis());
        if elapsed >= self.tick_millis {
            Schedule::Run { delta_time: now.duration_since(&self.last_tick) }
        } else {
            Schedule::Wait { remaining: duration_from_millis(self.tick_millis - elapsed) }
        }
    }

    /// One tick at `now`: the events are applied in order, then the inputs
    /// that wait in the queues; the game advances by the time since the last
    /// tick; and the snapshot of the world is made. The tick counter goes up
    /// by one. Sending the answers and the snapshot is left to `send_to` and
    /// `broadcast_state`, once the caller has encoded them.
    pub fn run_tick(&mut self, messages: Vec<InternalMessage>, now: Timestamp) -> (out: TickOutput)
        requires
            old(self).well_formed(),
            old(self).next_tick() < u64::MAX,
        ensures
            final(self).well_formed(),
            ({
                let drained = after_pending_inputs(
                    after_events(old(self).world(), events_of(messages@), now),
                    now,
                );
                let elapsed: int = if now@ >= old(self).last_tick()@ {
                    now@ - old(self).last_tick()@
                } else {
                    0
                };
                &&& final(self).world().connections == drained.connections
                &&& final(self).world().game == ticked(
                    drained.game,
                    1000 * elapsed,
                    GameRules::standard(),
                    now,
                )
                &&& outbound_of(out.replies@) == replies_to_events(
                    old(self).world(),
                    events_of(messages@),
                    now,
                ) + replies_to_pending_inputs(
                    after_events(old(self).world(), events_of(messages@), now),
                    now,
                )
            }),
            out.update.tick == old(self).next_tick(),
            out.update.players@ == final(self).world().game,
            out.update.players.well_formed(),
            out.update.server_time == now,
            final(self).game_updated_at() == now,
            final(self).next_tick() == old(self).next_tick() + 1,
            final(self).last_tick() == now,
            final(self).tick_millis() == old(self).tick_millis(),
            final(self).bind_address() == old(self).bind_address(),
    {
        let delta_time = now.duration_since(&self.last_tick);
        let mut replies = self.process_messages(messages, now);
        let mut more = self.process_pending_inputs(now);
        let ghost first = outbound_of(replies@);
        let ghost second = outbound_of(more@);
        replies.append(&mut more);
        assert(outbound_of(replies@) =~= first + second);
        self.update_game_state(delta_time, now);
        let update = self.state_update(self.current_tick, now);
        self.current_tick = self.current_tick + 1;
        self.last_tick = now;
        TickOutput { replies, update }
    }
}

} // verus!
