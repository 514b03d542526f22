//! What holds of the authority whatever the events and whatever the order
//! in which they arrive, proved from the definitions that its contracts use.

use vstd::prelude::*;

use crate::game::ticked;
use crate::game::with_velocity;
use crate::game::GameRules;
use crate::messages::ClientMessage;
use crate::messages::InternalMessageView;
use crate::messages::ServerMessageView;
use crate::roster::distinct_ids;
use crate::roster::has_id;
use crate::roster::index_of;
use crate::roster::lemma_index_of_unique;
use crate::roster::lemma_with_entry;
use crate::roster::lemma_without_id;
use crate::roster::lookup;
use crate::roster::with_entry;
use crate::roster::without_id;
use crate::server::after_client_message;
use crate::server::after_event;
use crate::server::accepts_input;
use crate::server::after_drain;
use crate::server::consistent;
use crate::server::world_well_formed;
use crate::server::after_drains;
use crate::server::after_events;
use crate::server::after_inputs;
use crate::server::after_pending_inputs;
use crate::server::queue_of;
use crate::server::with_empty_queue;
use crate::roster::ids_of;
use crate::server::with_queued_input;
use crate::server::PlayerInput;
use crate::server::PlayerView;
use crate::server::MAX_PENDING_INPUTS;
use crate::server::fresh_player;
use crate::server::reply_to_event;
use crate::server::spawn_state;
use crate::server::without_ids;
use crate::server::World;
use crate::types::PlayerState;
use crate::types::Timestamp;
use crate::types::Vector2;

verus! {

/// Setting a velocity changes neither who is in the game nor the order.
pub proof fn lemma_with_velocity_keeps_ids(
    game: Seq<(Seq<char>, PlayerState)>,
    id: Seq<char>,
    direction: Vector2,
    now: Timestamp,
)
    requires
        distinct_ids(game),
    ensures
        distinct_ids(with_velocity(game, id, direction, now)),
        with_velocity(game, id, direction, now).len() == game.len(),
        forall|k: int|
            0 <= k < game.len() ==> (#[trigger] with_velocity(game, id, direction, now)[k]).0
                == game[k].0,
        forall|other: Seq<char>|
            has_id(with_velocity(game, id, direction, now), other) == has_id(game, other),
        has_id(game, id) ==> (lookup(with_velocity(game, id, direction, now), id) matches Some(s)
            && s.velocity == direction),
{
    let after = with_velocity(game, id, direction, now);
    if has_id(game, id) {
        let at = index_of(game, id);
        assert forall|k: int| 0 <= k < game.len() implies (#[trigger] after[k]).0 == game[k].0 by {}
        assert forall|i: int, j: int| 0 <= i < j < after.len() implies (#[trigger] after[i]).0 != (
        #[trigger] after[j]).0 by {
            assert(game[i].0 != game[j].0);
        }
        assert forall|other: Seq<char>| has_id(after, other) == has_id(game, other) by {
            if has_id(after, other) {
                let k = index_of(after, other);
                assert(game[k].0 == other);
            }
            if has_id(game, other) {
                let k = index_of(game, other);
                assert(after[k].0 == other);
            }
        }
        lemma_index_of_unique(after, at);
    }
}

/// An id is in a sequence with one more entry at the end if it was there
/// before or is the one added.
pub proof fn lemma_has_id_push<V>(es: Seq<(Seq<char>, V)>, id: Seq<char>, value: V, other: Seq<char>)
    ensures
        has_id(es.push((id, value)), other) == (has_id(es, other) || other == id),
{
    let after = es.push((id, value));
    if has_id(es, other) {
        let k = index_of(es, other);
        assert(after[k].0 == other);
    }
    if other == id {
        assert(after[es.len() as int].0 == other);
    }
    if has_id(after, other) {
        let k = index_of(after, other);
        if k < es.len() {
            assert(es[k].0 == other);
        }
    }
}

/// Storing a value under an id adds that id and no other.
pub proof fn lemma_has_id_with_entry<V>(
    es: Seq<(Seq<char>, V)>,
    id: Seq<char>,
    value: V,
    other: Seq<char>,
)
    requires
        distinct_ids(es),
    ensures
        has_id(with_entry(es, id, value), other) == (has_id(es, other) || other == id),
{
    lemma_with_entry(es, id, value);
    let after = with_entry(es, id, value);
    if other == id {
        assert(lookup(after, id) is Some);
    } else {
        assert(lookup(after, other) == lookup(es, other));
    }
}

/// Removing an id removes that id and no other.
pub proof fn lemma_has_id_without_id<V>(es: Seq<(Seq<char>, V)>, id: Seq<char>, other: Seq<char>)
    requires
        distinct_ids(es),
    ensures
        has_id(without_id(es, id), other) == (has_id(es, other) && other != id),
{
    lemma_without_id(es, id);
    let after = without_id(es, id);
    if other != id {
        assert(lookup(after, other) == lookup(es, other));
    }
}

/// No event makes an id occur twice, in the registry or in the game.
pub proof fn law_event_keeps_ids_distinct(w: World, event: InternalMessageView, now: Timestamp)
    requires
        world_well_formed(w),
    ensures
        world_well_formed(after_event(w, event, now)),
{
    match event {
        InternalMessageView::NewConnection { player_id } => {
            lemma_with_entry(w.connections, player_id, fresh_player(now));
        },
        InternalMessageView::ClientMessage { player_id, message } => {
            match message {
                ClientMessage::Join => {
                    if !has_id(w.game, player_id) {
                        lemma_with_entry(w.game, player_id, spawn_state(now));
                    }
                },
                ClientMessage::Move { direction } => {
                    lemma_with_velocity_keeps_ids(w.game, player_id, direction, now);
                },
                ClientMessage::Disconnect => {
                    lemma_without_id(w.connections, player_id);
                    lemma_without_id(w.game, player_id);
                },
            }
        },
    }
}

/// Every player of the game has a connection, and no event changes that:
/// none leaves a player behind without one.
pub proof fn law_event_keeps_registry_consistent(
    w: World,
    event: InternalMessageView,
    now: Timestamp,
)
    requires
        world_well_formed(w),
        consistent(w),
    ensures
        consistent(after_event(w, event, now)),
{
    let after = after_event(w, event, now);
    assert forall|id: Seq<char>| has_id(after.game, id) implies has_id(after.connections, id) by {
        match event {
            InternalMessageView::NewConnection { player_id } => {
                lemma_has_id_with_entry(w.connections, player_id, fresh_player(now), id);
            },
            InternalMessageView::ClientMessage { player_id, message } => {
                match message {
                    ClientMessage::Join => {
                        if has_id(w.connections, player_id) && !has_id(w.game, player_id) {
                            lemma_has_id_push(w.game, player_id, spawn_state(now), id);
                        }
                    },
                    ClientMessage::Move { direction } => {
                        lemma_with_velocity_keeps_ids(w.game, player_id, direction, now);
                    },
                    ClientMessage::Disconnect => {
                        lemma_has_id_without_id(w.connections, player_id, id);
                        lemma_has_id_without_id(w.game, player_id, id);
                    },
                }
            },
        }
    }
}

/// A registration makes a connection and no player: the game is as it was.
pub proof fn law_registration_is_not_a_join(w: World, id: Seq<char>, now: Timestamp)
    requires
        world_well_formed(w),
    ensures
        after_event(w, InternalMessageView::NewConnection { player_id: id }, now).game == w.game,
        has_id(
            after_event(w, InternalMessageView::NewConnection { player_id: id }, now).connections,
            id,
        ),
{
    lemma_has_id_with_entry(w.connections, id, fresh_player(now), id);
}

/// A `Join` from a registered connection puts the player into the game and
/// is answered with one `JoinAccepted`, addressed to that connection.
pub proof fn law_join_is_accepted(w: World, id: Seq<char>, now: Timestamp)
    requires
        world_well_formed(w),
        has_id(w.connections, id),
    ensures
        has_id(after_client_message(w, id, ClientMessage::Join, now).game, id),
        reply_to_event(
            w,
            InternalMessageView::ClientMessage { player_id: id, message: ClientMessage::Join },
        ) == Some((id, ServerMessageView::JoinAccepted { player_id: id })),
        !has_id(w.game, id) ==> lookup(
            after_client_message(w, id, ClientMessage::Join, now).game,
            id,
        ) == Some(spawn_state(now)),
{
    if !has_id(w.game, id) {
        lemma_has_id_push(w.game, id, spawn_state(now), id);
        lemma_with_entry(w.game, id, spawn_state(now));
    }
}

/// A `Disconnect` takes the player out of the registry and out of the game
/// in one step, and touches nobody else.
pub proof fn law_disconnect_removes_everywhere(
    w: World,
    id: Seq<char>,
    other: Seq<char>,
    now: Timestamp,
)
    requires
        world_well_formed(w),
    ensures
        !has_id(after_client_message(w, id, ClientMessage::Disconnect, now).connections, id),
        !has_id(after_client_message(w, id, ClientMessage::Disconnect, now).game, id),
        other != id ==> lookup(
            after_client_message(w, id, ClientMessage::Disconnect, now).game,
            other,
        ) == lookup(w.game, other),
        other != id ==> has_id(
            after_client_message(w, id, ClientMessage::Disconnect, now).connections,
            other,
        ) == has_id(w.connections, other),
{
    lemma_without_id(w.connections, id);
    lemma_without_id(w.game, id);
    lemma_has_id_without_id(w.connections, id, other);
}

/// A player that is in the game stays in it through every event but its own
/// `Disconnect`.
pub proof fn law_player_stays_until_disconnect(
    w: World,
    event: InternalMessageView,
    id: Seq<char>,
    now: Timestamp,
)
    requires
        world_well_formed(w),
        has_id(w.game, id),
        !(event matches InternalMessageView::ClientMessage { player_id, message } && player_id
            == id && message is Disconnect),
    ensures
        has_id(after_event(w, event, now).game, id),
{
    match event {
        InternalMessageView::NewConnection { player_id } => {},
        InternalMessageView::ClientMessage { player_id, message } => {
            match message {
                ClientMessage::Join => {
                    if !has_id(w.game, player_id) {
                        lemma_has_id_push(w.game, player_id, spawn_state(now), id);
                    }
                },
                ClientMessage::Move { direction } => {
                    lemma_with_velocity_keeps_ids(w.game, player_id, direction, now);
                },
                ClientMessage::Disconnect => {
                    lemma_has_id_without_id(w.game, player_id, id);
                },
            }
        },
    }
}

/// A `Move` from a player of the game makes the direction its velocity, as
/// it is, and leaves its position alone; from anyone else it changes nothing.
pub proof fn law_move_sets_velocity(w: World, id: Seq<char>, direction: Vector2, now: Timestamp)
    requires
        world_well_formed(w),
    ensures
        after_client_message(w, id, ClientMessage::Move { direction }, now).connections
            == w.connections,
        !has_id(w.game, id) ==> after_client_message(
            w,
            id,
            ClientMessage::Move { direction },
            now,
        ).game == w.game,
        has_id(w.game, id) ==> lookup(
            after_client_message(w, id, ClientMessage::Move { direction }, now).game,
            id,
        ) == Some(
            PlayerState {
                position: lookup(w.game, id).unwrap().position,
                velocity: direction,
                last_update: now,
            },
        ),
{
    if has_id(w.game, id) {
        let after = with_velocity(w.game, id, direction, now);
        let at = index_of(w.game, id);
        lemma_with_velocity_keeps_ids(w.game, id, direction, now);
        lemma_index_of_unique(after, at);
    }
}

/// A tick changes neither who is in the game nor the order of the players.
pub proof fn law_tick_keeps_players(
    game: Seq<(Seq<char>, PlayerState)>,
    micros: int,
    rules: GameRules,
    now: Timestamp,
    id: Seq<char>,
)
    ensures
        ticked(game, micros, rules, now).len() == game.len(),
        has_id(ticked(game, micros, rules, now), id) == has_id(game, id),
        distinct_ids(game) ==> distinct_ids(ticked(game, micros, rules, now)),
{
    let after = ticked(game, micros, rules, now);
    if has_id(game, id) {
        let k = index_of(game, id);
        assert(after[k].0 == id);
    }
    if has_id(after, id) {
        let k = index_of(after, id);
        assert(game[k].0 == id);
    }
    if distinct_ids(game) {
        assert forall|i: int, j: int| 0 <= i < j < after.len() implies (#[trigger] after[i]).0 != (
        #[trigger] after[j]).0 by {
            assert(game[i].0 != game[j].0);
        }
    }
}

/// Taking connections out keeps the ids distinct.
pub proof fn lemma_without_ids_well_formed(w: World, ids: Seq<Seq<char>>)
    requires
        world_well_formed(w),
    ensures
        world_well_formed(without_ids(w, ids)),
    decreases ids.len(),
{
    if ids.len() > 0 {
        lemma_without_ids_well_formed(w, ids.drop_last());
        let rest = without_ids(w, ids.drop_last());
        lemma_without_id(rest.connections, ids.last());
        lemma_without_id(rest.game, ids.last());
    }
}

/// After the connections that failed have been taken out, none of them is
/// in the registry or in the game, and everyone else is where it was.
pub proof fn law_failed_connections_are_gone(w: World, ids: Seq<Seq<char>>, id: Seq<char>)
    requires
        world_well_formed(w),
    ensures
        has_id(without_ids(w, ids).connections, id) == (has_id(w.connections, id)
            && !ids.contains(id)),
        has_id(without_ids(w, ids).game, id) == (has_id(w.game, id) && !ids.contains(id)),
    decreases ids.len(),
{
    if ids.len() == 0 {
        assert(!ids.contains(id));
    } else {
        let front = ids.drop_last();
        law_failed_connections_are_gone(w, front, id);
        lemma_without_ids_well_formed(w, front);
        let rest = without_ids(w, front);
        lemma_has_id_without_id(rest.connections, ids.last(), id);
        lemma_has_id_without_id(rest.game, ids.last(), id);
        if ids.contains(id) {
            let k = choose|k: int| 0 <= k < ids.len() && ids[k] == id;
            if k < front.len() {
                assert(front[k] == id);
            }
        }
        if front.contains(id) {
            let k = choose|k: int| 0 <= k < front.len() && front[k] == id;
            assert(ids[k] == id);
        }
        if id == ids.last() {
            assert(ids[ids.len() - 1] == id);
        }
    }
}

/// Any run of events keeps the ids distinct and every player with a
/// connection.
pub proof fn law_events_keep_world_sound(w: World, events: Seq<InternalMessageView>, now: Timestamp)
    requires
        world_well_formed(w),
    ensures
        world_well_formed(after_events(w, events, now)),
        consistent(w) ==> consistent(after_events(w, events, now)),
    decreases events.len(),
{
    if events.len() > 0 {
        let front = events.drop_last();
        law_events_keep_world_sound(w, front, now);
        let mid = after_events(w, front, now);
        law_event_keeps_ids_distinct(mid, events.last(), now);
        if consistent(w) {
            law_event_keeps_registry_consistent(mid, events.last(), now);
        }
    }
}

/// No queue of the registry holds more than `MAX_PENDING_INPUTS` inputs.
pub open spec fn queues_bounded(connections: Seq<(Seq<char>, PlayerView)>) -> bool {
    forall|k: int|
        0 <= k < connections.len() ==> (#[trigger] connections[k]).1.input_queue.len()
            <= MAX_PENDING_INPUTS
}

/// Queueing an input never makes a queue longer than its bound, changes no
/// id, and where the input is taken it is the last of its queue.
pub proof fn law_queue_stays_bounded(
    connections: Seq<(Seq<char>, PlayerView)>,
    id: Seq<char>,
    input: PlayerInput,
)
    requires
        distinct_ids(connections),
        queues_bounded(connections),
    ensures
        queues_bounded(with_queued_input(connections, id, input)),
        distinct_ids(with_queued_input(connections, id, input)),
        with_queued_input(connections, id, input).len() == connections.len(),
        accepts_input(connections, id) ==> lookup(
            with_queued_input(connections, id, input),
            id,
        ) == Some(
            PlayerView {
                input_queue: lookup(connections, id).unwrap().input_queue.push(input),
                state: lookup(connections, id).unwrap().state,
            },
        ),
        !accepts_input(connections, id) ==> with_queued_input(connections, id, input)
            == connections,
{
    let after = with_queued_input(connections, id, input);
    if accepts_input(connections, id) {
        let at = index_of(connections, id);
        assert forall|k: int| 0 <= k < after.len() implies (#[trigger] after[k]).1.input_queue.len()
            <= MAX_PENDING_INPUTS by {
            if k != at {
                assert(after[k] == connections[k]);
            }
        }
        assert forall|i: int, j: int| 0 <= i < j < after.len() implies (#[trigger] after[i]).0 != (
        #[trigger] after[j]).0 by {
            assert(after[i].0 == connections[i].0 && after[j].0 == connections[j].0);
        }
        lemma_index_of_unique(after, at);
    }
}

/// What a connection's client says touches that connection and its
/// player only: every other id is in the registry and in the game as it
/// was, with the record and the state that it had.
pub proof fn law_message_touches_only_its_id(
    w: World,
    id: Seq<char>,
    message: ClientMessage,
    now: Timestamp,
    other: Seq<char>,
)
    requires
        world_well_formed(w),
        other != id,
    ensures
        has_id(after_client_message(w, id, message, now).connections, other) == has_id(
            w.connections,
            other,
        ),
        lookup(after_client_message(w, id, message, now).connections, other) == lookup(
            w.connections,
            other,
        ),
        has_id(after_client_message(w, id, message, now).game, other) == has_id(w.game, other),
        lookup(after_client_message(w, id, message, now).game, other) == lookup(w.game, other),
{
    match message {
        ClientMessage::Join => {
            if has_id(w.connections, id) && !has_id(w.game, id) {
                lemma_has_id_push(w.game, id, spawn_state(now), other);
                lemma_with_entry(w.game, id, spawn_state(now));
            }
        },
        ClientMessage::Move { direction } => {
            lemma_with_velocity_keeps_ids(w.game, id, direction, now);
            if has_id(w.game, id) {
                let state = PlayerState {
                    position: w.game[index_of(w.game, id)].1.position,
                    velocity: direction,
                    last_update: now,
                };
                lemma_with_entry(w.game, id, state);
                assert(with_velocity(w.game, id, direction, now) == with_entry(w.game, id, state));
            }
        },
        ClientMessage::Disconnect => {
            lemma_without_id(w.connections, id);
            lemma_without_id(w.game, id);
            lemma_has_id_without_id(w.connections, id, other);
            lemma_has_id_without_id(w.game, id, other);
        },
    }
}

/// What a message does to its own connection: any but a `Disconnect`
/// leaves the registry as it is and a player of the game in the game; a
/// `Disconnect` leaves the id in neither; and from an id that is in
/// neither, no message changes anything.
pub proof fn law_message_on_its_own_id(w: World, id: Seq<char>, message: ClientMessage, now: Timestamp)
    requires
        world_well_formed(w),
    ensures
        !(message is Disconnect) ==> after_client_message(w, id, message, now).connections
            == w.connections,
        !(message is Disconnect) && has_id(w.game, id) ==> has_id(
            after_client_message(w, id, message, now).game,
            id,
        ),
        message is Disconnect ==> !has_id(after_client_message(w, id, message, now).connections, id)
            && !has_id(after_client_message(w, id, message, now).game, id),
        !has_id(w.connections, id) && !has_id(w.game, id) ==> after_client_message(
            w,
            id,
            message,
            now,
        ) == w,
{
    match message {
        ClientMessage::Join => {
            if has_id(w.connections, id) && !has_id(w.game, id) {
                lemma_has_id_push(w.game, id, spawn_state(now), id);
            }
        },
        ClientMessage::Move { direction } => {
            lemma_with_velocity_keeps_ids(w.game, id, direction, now);
        },
        ClientMessage::Disconnect => {
            lemma_without_id(w.connections, id);
            lemma_without_id(w.game, id);
        },
    }
}

/// No input of a queue is a `Disconnect`.
pub open spec fn holds_no_disconnect(queue: Seq<PlayerInput>) -> bool {
    forall|j: int| 0 <= j < queue.len() ==> !((#[trigger] queue[j]).message is Disconnect)
}

/// Applying the inputs of one queue keeps the world sound, touches no
/// other id, and changes nothing for an id that is in neither the registry
/// nor the game. A queue without a `Disconnect` leaves the registry as it
/// is and a player of the game in the game.
pub proof fn law_inputs_touch_only_their_id(
    w: World,
    id: Seq<char>,
    queue: Seq<PlayerInput>,
    now: Timestamp,
    other: Seq<char>,
)
    requires
        world_well_formed(w),
    ensures
        world_well_formed(after_inputs(w, id, queue, now)),
        consistent(w) ==> consistent(after_inputs(w, id, queue, now)),
        other != id ==> {
            &&& has_id(after_inputs(w, id, queue, now).connections, other) == has_id(
                w.connections,
                other,
            )
            &&& lookup(after_inputs(w, id, queue, now).connections, other) == lookup(
                w.connections,
                other,
            )
            &&& has_id(after_inputs(w, id, queue, now).game, other) == has_id(w.game, other)
            &&& lookup(after_inputs(w, id, queue, now).game, other) == lookup(w.game, other)
        },
        !has_id(w.connections, id) && !has_id(w.game, id) ==> after_inputs(w, id, queue, now) == w,
        holds_no_disconnect(queue) ==> after_inputs(w, id, queue, now).connections == w.connections,
        holds_no_disconnect(queue) && has_id(w.game, id) ==> has_id(
            after_inputs(w, id, queue, now).game,
            id,
        ),
        has_id(after_inputs(w, id, queue, now).connections, id) ==> has_id(w.connections, id)
            && lookup(after_inputs(w, id, queue, now).connections, id) == lookup(w.connections, id),
    decreases queue.len(),
{
    if queue.len() > 0 {
        let front = queue.drop_last();
        let message = queue.last().message;
        law_inputs_touch_only_their_id(w, id, front, now, other);
        let mid = after_inputs(w, id, front, now);
        let event = InternalMessageView::ClientMessage { player_id: id, message };
        law_event_keeps_ids_distinct(mid, event, now);
        if consistent(w) {
            law_event_keeps_registry_consistent(mid, event, now);
        }
        if other != id {
            law_message_touches_only_its_id(mid, id, message, now, other);
        }
        law_message_on_its_own_id(mid, id, message, now);
        if holds_no_disconnect(queue) {
            assert forall|j: int| 0 <= j < front.len() implies !((#[trigger] front[j]).message
                is Disconnect) by {
                assert(front[j] == queue[j]);
            }
            assert(!(queue[queue.len() - 1].message is Disconnect));
        }
    }
}

/// Emptying a queue changes no id and no other record.
pub proof fn lemma_with_empty_queue(
    connections: Seq<(Seq<char>, PlayerView)>,
    id: Seq<char>,
    other: Seq<char>,
)
    requires
        distinct_ids(connections),
    ensures
        distinct_ids(with_empty_queue(connections, id)),
        has_id(with_empty_queue(connections, id), other) == has_id(connections, other),
        other != id ==> lookup(with_empty_queue(connections, id), other) == lookup(
            connections,
            other,
        ),
        has_id(connections, id) ==> lookup(with_empty_queue(connections, id), id) == Some(
            PlayerView {
                input_queue: Seq::empty(),
                state: connections[index_of(connections, id)].1.state,
            },
        ),
{
    if has_id(connections, id) {
        let at = index_of(connections, id);
        let record = PlayerView { input_queue: Seq::empty(), state: connections[at].1.state };
        lemma_with_entry(connections, id, record);
        lemma_has_id_with_entry(connections, id, record, other);
        assert(with_empty_queue(connections, id) == with_entry(connections, id, record));
    }
}

/// Draining the queue of one connection keeps the world sound and touches
/// no other id. If the connection is registered afterwards, its queue is
/// empty.
pub proof fn law_drain_touches_only_its_id(w: World, id: Seq<char>, now: Timestamp, other: Seq<char>)
    requires
        world_well_formed(w),
    ensures
        world_well_formed(after_drain(w, id, now)),
        consistent(w) ==> consistent(after_drain(w, id, now)),
        other != id ==> {
            &&& has_id(after_drain(w, id, now).connections, other) == has_id(w.connections, other)
            &&& lookup(after_drain(w, id, now).connections, other) == lookup(w.connections, other)
            &&& has_id(after_drain(w, id, now).game, other) == has_id(w.game, other)
            &&& lookup(after_drain(w, id, now).game, other) == lookup(w.game, other)
        },
        has_id(after_drain(w, id, now).connections, id) ==> has_id(w.connections, id) && lookup(
            after_drain(w, id, now).connections,
            id,
        ).unwrap().input_queue.len() == 0,
        !has_id(w.connections, id) && !has_id(w.game, id) ==> after_drain(w, id, now) == w,
        holds_no_disconnect(queue_of(w.connections, id)) && has_id(w.game, id) ==> has_id(
            after_drain(w, id, now).game,
            id,
        ),
        holds_no_disconnect(queue_of(w.connections, id)) ==> has_id(
            after_drain(w, id, now).connections,
            id,
        ) == has_id(w.connections, id),
{
    let emptied = World { connections: with_empty_queue(w.connections, id), game: w.game };
    lemma_with_empty_queue(w.connections, id, other);
    lemma_with_empty_queue(w.connections, id, id);
    assert(consistent(w) ==> consistent(emptied)) by {
        if consistent(w) {
            assert forall|x: Seq<char>| has_id(emptied.game, x) implies has_id(
                emptied.connections,
                x,
            ) by {
                lemma_with_empty_queue(w.connections, id, x);
            }
        }
    }
    law_inputs_touch_only_their_id(emptied, id, queue_of(w.connections, id), now, other);
    if !has_id(w.connections, id) {
        assert(emptied == w);
    }
}

/// The id is not among `ids`.
pub open spec fn is_not_among(id: Seq<char>, ids: Seq<Seq<char>>) -> bool {
    forall|k: int| 0 <= k < ids.len() ==> #[trigger] ids[k] != id
}

/// Draining queues one after another keeps the world sound, adds nobody to
/// the registry, and leaves an id whose queue is not drained as it was.
pub proof fn law_drains_keep_world_sound(
    w: World,
    ids: Seq<Seq<char>>,
    now: Timestamp,
    other: Seq<char>,
)
    requires
        world_well_formed(w),
    ensures
        world_well_formed(after_drains(w, ids, now)),
        consistent(w) ==> consistent(after_drains(w, ids, now)),
        has_id(after_drains(w, ids, now).connections, other) ==> has_id(w.connections, other),
        is_not_among(other, ids) ==> {
            &&& has_id(after_drains(w, ids, now).connections, other) == has_id(
                w.connections,
                other,
            )
            &&& lookup(after_drains(w, ids, now).connections, other) == lookup(
                w.connections,
                other,
            )
            &&& has_id(after_drains(w, ids, now).game, other) == has_id(w.game, other)
            &&& lookup(after_drains(w, ids, now).game, other) == lookup(w.game, other)
        },
        !has_id(w.connections, other) && !has_id(w.game, other) ==> !has_id(
            after_drains(w, ids, now).connections,
            other,
        ) && !has_id(after_drains(w, ids, now).game, other),
    decreases ids.len(),
{
    if ids.len() > 0 {
        let front = ids.drop_last();
        law_drains_keep_world_sound(w, front, now, other);
        let mid = after_drains(w, front, now);
        law_drain_touches_only_its_id(mid, ids.last(), now, other);
        if is_not_among(other, ids) {
            assert forall|k: int| 0 <= k < front.len() implies #[trigger] front[k] != other by {
                assert(front[k] == ids[k]);
            }
            assert(ids[ids.len() - 1] != other);
        }
    }
}

/// After the queues of `ids` have been drained, no connection of `ids`
/// that is still registered has anything waiting.
pub proof fn lemma_drained_queues_are_empty(
    w: World,
    ids: Seq<Seq<char>>,
    now: Timestamp,
    k: int,
)
    requires
        world_well_formed(w),
        0 <= k < ids.len(),
        has_id(after_drains(w, ids, now).connections, ids[k]),
    ensures
        lookup(after_drains(w, ids, now).connections, ids[k]).unwrap().input_queue.len() == 0,
    decreases ids.len(),
{
    let front = ids.drop_last();
    let mid = after_drains(w, front, now);
    law_drains_keep_world_sound(w, front, now, ids[k]);
    law_drain_touches_only_its_id(mid, ids.last(), now, ids[k]);
    if ids[k] != ids.last() {
        assert(k < front.len());
        assert(front[k] == ids[k]);
        lemma_drained_queues_are_empty(w, front, now, k);
    }
}

/// After the pending inputs have been applied the world is sound, nobody
/// has been added to the registry, and every queue is empty.
pub proof fn law_pending_inputs_leave_queues_empty(w: World, now: Timestamp, id: Seq<char>)
    requires
        world_well_formed(w),
    ensures
        world_well_formed(after_pending_inputs(w, now)),
        consistent(w) ==> consistent(after_pending_inputs(w, now)),
        has_id(after_pending_inputs(w, now).connections, id) ==> has_id(w.connections, id)
            && lookup(after_pending_inputs(w, now).connections, id).unwrap().input_queue.len()
            == 0,
        !has_id(w.connections, id) && !has_id(w.game, id) ==> !has_id(
            after_pending_inputs(w, now).connections,
            id,
        ) && !has_id(after_pending_inputs(w, now).game, id),
{
    let ids = ids_of(w.connections);
    law_drains_keep_world_sound(w, ids, now, id);
    if has_id(after_pending_inputs(w, now).connections, id) {
        let k = index_of(w.connections, id);
        assert(ids[k] == id);
        lemma_drained_queues_are_empty(w, ids, now, k);
    }
}

/// A player stays in the game while its queue is drained, if no
/// `Disconnect` waits there, and while the queues of others are drained.
pub proof fn law_player_survives_pending_inputs(w: World, now: Timestamp, id: Seq<char>)
    requires
        world_well_formed(w),
        has_id(w.game, id),
        holds_no_disconnect(queue_of(w.connections, id)),
    ensures
        has_id(after_pending_inputs(w, now).game, id),
{
    lemma_player_survives_drains(w, ids_of(w.connections), now, id);
}

/// A player stays in the game through the draining of `ids`, whose ids are
/// distinct, if no `Disconnect` waits for it.
pub proof fn lemma_player_survives_drains(
    w: World,
    ids: Seq<Seq<char>>,
    now: Timestamp,
    id: Seq<char>,
)
    requires
        world_well_formed(w),
        has_id(w.game, id),
        holds_no_disconnect(queue_of(w.connections, id)),
        forall|a: int, b: int| 0 <= a < b < ids.len() ==> ids[a] != ids[b],
    ensures
        has_id(after_drains(w, ids, now).game, id),
        is_not_among(id, ids) ==> has_id(after_drains(w, ids, now).connections, id) == has_id(
            w.connections,
            id,
        ) && lookup(after_drains(w, ids, now).connections, id) == lookup(w.connections, id),
    decreases ids.len(),
{
    if ids.len() > 0 {
        let front = ids.drop_last();
        assert forall|a: int, b: int| 0 <= a < b < front.len() implies front[a] != front[b] by {
            assert(front[a] == ids[a] && front[b] == ids[b]);
        }
        lemma_player_survives_drains(w, front, now, id);
        law_drains_keep_world_sound(w, front, now, id);
        let mid = after_drains(w, front, now);
        law_drain_touches_only_its_id(mid, ids.last(), now, id);
        if ids.last() == id {
            assert(is_not_among(id, front)) by {
                assert forall|k: int| 0 <= k < front.len() implies #[trigger] front[k] != id by {
                    assert(front[k] == ids[k]);
                    assert(ids[k] != ids[ids.len() - 1]);
                }
            }
            assert(queue_of(mid.connections, id) == queue_of(w.connections, id));
        }
        if is_not_among(id, ids) {
            assert(is_not_among(id, front)) by {
                assert forall|k: int| 0 <= k < front.len() implies #[trigger] front[k] != id by {
                    assert(front[k] == ids[k]);
                }
            }
            assert(ids[ids.len() - 1] != id);
        }
    }
}

/// The event is the `Disconnect` of connection `id`.
pub open spec fn is_disconnect_of(event: InternalMessageView, id: Seq<char>) -> bool {
    event matches InternalMessageView::ClientMessage { player_id, message } && player_id == id
        && message is Disconnect
}

/// The event is the registration of a connection under `id`.
pub open spec fn is_registration_of(event: InternalMessageView, id: Seq<char>) -> bool {
    event matches InternalMessageView::NewConnection { player_id } && player_id == id
}

/// The world at the end of a tick, as its snapshot shows it: after the
/// events, the queued inputs and the physics.
pub open spec fn world_after_tick(
    w: World,
    events: Seq<InternalMessageView>,
    micros: int,
    now: Timestamp,
) -> World {
    let drained = after_pending_inputs(after_events(w, events, now), now);
    World {
        connections: drained.connections,
        game: ticked(drained.game, micros, GameRules::standard(), now),
    }
}

/// A whole tick keeps the ids distinct and every player with a connection.
pub proof fn law_tick_keeps_world_sound(
    w: World,
    events: Seq<InternalMessageView>,
    micros: int,
    now: Timestamp,
)
    requires
        world_well_formed(w),
    ensures
        world_well_formed(world_after_tick(w, events, micros, now)),
        consistent(w) ==> consistent(world_after_tick(w, events, micros, now)),
{
    law_events_keep_world_sound(w, events, now);
    let applied = after_events(w, events, now);
    let drained = after_pending_inputs(applied, now);
    law_pending_inputs_leave_queues_empty(applied, now, Seq::empty());
    law_tick_keeps_players(drained.game, micros, GameRules::standard(), now, Seq::empty());
    if consistent(w) {
        let after = world_after_tick(w, events, micros, now);
        assert forall|id: Seq<char>| has_id(after.game, id) implies has_id(after.connections, id) by {
            law_tick_keeps_players(drained.game, micros, GameRules::standard(), now, id);
        }
    }
}

/// An id that is in neither the registry nor the game stays out of both
/// through one event that is not its own registration.
pub proof fn lemma_absent_id_stays_absent_once(
    w: World,
    event: InternalMessageView,
    now: Timestamp,
    id: Seq<char>,
)
    requires
        world_well_formed(w),
        !has_id(w.connections, id),
        !has_id(w.game, id),
        !is_registration_of(event, id),
    ensures
        !has_id(after_event(w, event, now).connections, id),
        !has_id(after_event(w, event, now).game, id),
{
    match event {
        InternalMessageView::NewConnection { player_id } => {
            lemma_has_id_with_entry(w.connections, player_id, fresh_player(now), id);
        },
        InternalMessageView::ClientMessage { player_id, message } => {
            if player_id == id {
                law_message_on_its_own_id(w, id, message, now);
            } else {
                law_message_touches_only_its_id(w, player_id, message, now, id);
            }
        },
    }
}

/// An id that is in neither the registry nor the game stays out of both
/// through every event but its own registration.
pub proof fn law_absent_id_stays_absent(
    w: World,
    events: Seq<InternalMessageView>,
    now: Timestamp,
    id: Seq<char>,
)
    requires
        world_well_formed(w),
        !has_id(w.connections, id),
        !has_id(w.game, id),
        forall|j: int| 0 <= j < events.len() ==> !is_registration_of(#[trigger] events[j], id),
    ensures
        !has_id(after_events(w, events, now).connections, id),
        !has_id(after_events(w, events, now).game, id),
    decreases events.len(),
{
    if events.len() > 0 {
        let front = events.drop_last();
        assert forall|j: int| 0 <= j < front.len() implies !is_registration_of(
            #[trigger] front[j],
            id,
        ) by {
            assert(front[j] == events[j]);
        }
        law_absent_id_stays_absent(w, front, now, id);
        law_events_keep_world_sound(w, front, now);
        let mid = after_events(w, front, now);
        assert(!is_registration_of(events[events.len() - 1], id));
        lemma_absent_id_stays_absent_once(mid, events.last(), now, id);
    }
}

/// A player whose `Disconnect` is among the events of a tick, with no
/// registration under its id after it, is in neither the registry nor the
/// snapshot at the end of that tick, whatever the other events are.
pub proof fn law_disconnected_player_is_in_no_snapshot(
    w: World,
    events: Seq<InternalMessageView>,
    micros: int,
    now: Timestamp,
    id: Seq<char>,
    k: int,
)
    requires
        world_well_formed(w),
        0 <= k < events.len(),
        is_disconnect_of(events[k], id),
        forall|j: int| k < j < events.len() ==> !is_registration_of(#[trigger] events[j], id),
    ensures
        !has_id(after_events(w, events, now).connections, id),
        !has_id(after_events(w, events, now).game, id),
        !has_id(world_after_tick(w, events, micros, now).connections, id),
        !has_id(world_after_tick(w, events, micros, now).game, id),
    decreases events.len(),
{
    let front = events.drop_last();
    law_events_keep_world_sound(w, front, now);
    law_events_keep_world_sound(w, events, now);
    let mid = after_events(w, front, now);
    if k == events.len() - 1 {
        law_disconnect_removes_everywhere(mid, id, id, now);
    } else {
        assert(front[k] == events[k]);
        assert forall|j: int| k < j < front.len() implies !is_registration_of(
            #[trigger] front[j],
            id,
        ) by {
            assert(front[j] == events[j]);
        }
        law_disconnected_player_is_in_no_snapshot(w, front, micros, now, id, k);
        assert(!is_registration_of(events[events.len() - 1], id));
        lemma_absent_id_stays_absent_once(mid, events.last(), now, id);
    }
    let applied = after_events(w, events, now);
    law_pending_inputs_leave_queues_empty(applied, now, id);
    law_tick_keeps_players(
        after_pending_inputs(applied, now).game,
        micros,
        GameRules::standard(),
        now,
        id,
    );
}

/// A player that is in the game is in the snapshot of every tick in which
/// it does not disconnect: no `Disconnect` of it is among the events, and
/// none waits in its queue.
pub proof fn law_player_is_in_every_snapshot(
    w: World,
    events: Seq<InternalMessageView>,
    micros: int,
    now: Timestamp,
    id: Seq<char>,
)
    requires
        world_well_formed(w),
        has_id(w.game, id),
        forall|k: int| 0 <= k < events.len() ==> !is_disconnect_of(#[trigger] events[k], id),
        holds_no_disconnect(queue_of(after_events(w, events, now).connections, id)),
    ensures
        has_id(after_events(w, events, now).game, id),
        has_id(world_after_tick(w, events, micros, now).game, id),
{
    lemma_player_survives_events(w, events, now, id);
    law_events_keep_world_sound(w, events, now);
    let applied = after_events(w, events, now);
    law_player_survives_pending_inputs(applied, now, id);
    law_tick_keeps_players(
        after_pending_inputs(applied, now).game,
        micros,
        GameRules::standard(),
        now,
        id,
    );
}

/// A player that is in the game stays in it through every run of events
/// that holds no `Disconnect` of it.
pub proof fn lemma_player_survives_events(
    w: World,
    events: Seq<InternalMessageView>,
    now: Timestamp,
    id: Seq<char>,
)
    requires
        world_well_formed(w),
        has_id(w.game, id),
        forall|k: int| 0 <= k < events.len() ==> !is_disconnect_of(#[trigger] events[k], id),
    ensures
        has_id(after_events(w, events, now).game, id),
    decreases events.len(),
{
    if events.len() > 0 {
        let front = events.drop_last();
        assert forall|k: int| 0 <= k < front.len() implies !is_disconnect_of(
            #[trigger] front[k],
            id,
        ) by {
            assert(front[k] == events[k]);
        }
        lemma_player_survives_events(w, front, now, id);
        law_events_keep_world_sound(w, front, now);
        assert(!is_disconnect_of(events[events.len() - 1], id));
        law_player_stays_until_disconnect(after_events(w, front, now), events.last(), id, now);
    }
}

/// A player that is in neither the registry nor the game, as one is after
/// its `Disconnect`, is in the snapshot of no later tick either, until a
/// connection registers under its id again.
pub proof fn law_absent_player_is_in_no_later_snapshot(
    w: World,
    events: Seq<InternalMessageView>,
    micros: int,
    now: Timestamp,
    id: Seq<char>,
)
    requires
        world_well_formed(w),
        !has_id(w.connections, id),
        !has_id(w.game, id),
        forall|j: int| 0 <= j < events.len() ==> !is_registration_of(#[trigger] events[j], id),
    ensures
        !has_id(world_after_tick(w, events, micros, now).connections, id),
        !has_id(world_after_tick(w, events, micros, now).game, id),
{
    law_absent_id_stays_absent(w, events, now, id);
    law_events_keep_world_sound(w, events, now);
    let applied = after_events(w, events, now);
    law_pending_inputs_leave_queues_empty(applied, now, id);
    law_tick_keeps_players(
        after_pending_inputs(applied, now).game,
        micros,
        GameRules::standard(),
        now,
        id,
    );
}

} // verus!
