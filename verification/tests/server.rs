use networking_basic::fixed::UNIT;
use networking_basic::messages::ClientMessage;
use networking_basic::messages::InternalMessage;
use networking_basic::messages::ServerMessage;
use networking_basic::network::reader_step;
use networking_basic::network::PlayerConnection;
use networking_basic::network::ReadOutcome;
use networking_basic::network::ReaderStep;
use networking_basic::server::Delivery;
use networking_basic::server::GameServer;
use networking_basic::server::PlayerInput;
use networking_basic::server::Schedule;
use networking_basic::server::DEFAULT_TICK_MILLIS;
use networking_basic::server::MAX_PENDING_INPUTS;
use networking_basic::types::Timestamp;
use networking_basic::types::Vector2;
use std::sync::mpsc::channel;
use std::sync::mpsc::Receiver;
use std::sync::mpsc::Sender;
use std::time::Duration;

fn at(millis: u64) -> Timestamp {
    Timestamp::from_millis(millis)
}

/// The sending end of a channel whose receiving end is gone.
fn closed() -> Sender<Vec<u8>> {
    channel().0
}

/// A registration whose writer has gone away already.
fn connect(id: &str) -> InternalMessage {
    InternalMessage::NewConnection { player_id: id.to_string(), sender: closed() }
}

/// A registration, and the receiving end of the connection's channel.
fn open(id: &str) -> (InternalMessage, Receiver<Vec<u8>>) {
    let (sender, receiver) = channel();
    (PlayerConnection { player_id: id.to_string(), sender }.registration(), receiver)
}

fn said(id: &str, message: ClientMessage) -> InternalMessage {
    InternalMessage::ClientMessage { player_id: id.to_string(), message }
}

/// What has arrived on a connection's channel so far.
fn arrived(receiver: &Receiver<Vec<u8>>) -> Vec<Vec<u8>> {
    receiver.try_iter().collect()
}

/// A server whose last tick was at time zero.
fn started() -> GameServer {
    let mut server = GameServer::new("127.0.0.1:8080").unwrap();
    let out = server.run_tick(Vec::new(), at(0));
    assert_eq!(out.update.tick, 1);
    server
}

/// A delivery report as pairs of id and outcome.
fn outcomes(report: Vec<Delivery>) -> Vec<(String, bool)> {
    report.into_iter().map(|d| (d.player_id, d.delivered)).collect()
}

fn took(id: &str) -> (String, bool) {
    (id.to_string(), true)
}

fn refused(id: &str) -> (String, bool) {
    (id.to_string(), false)
}

fn snapshot_ids(server: &GameServer) -> Vec<String> {
    let update = server.state_update(0, at(0));
    (0..update.players.len()).map(|i| update.players.id_at(i).clone()).collect()
}

#[test]
fn new_server_is_empty_and_ticks_every_16_ms() {
    let server = GameServer::new("0.0.0.0:9000").unwrap();
    assert_eq!(server.address(), "0.0.0.0:9000");
    assert_eq!(server.current_tick(), 1);
    assert_eq!(server.connection_count(), 0);
    assert_eq!(server.game_state().get_player_count(), 0);
    assert_eq!(DEFAULT_TICK_MILLIS, 16);
}

#[test]
fn registration_makes_a_connection_but_no_player() {
    let mut server = started();
    let (sender, receiver) = channel();
    server.add_connection("p".to_string(), sender, at(1));
    assert!(server.is_connected("p"));
    assert_eq!(server.connection_count(), 1);
    assert_eq!(server.game_state().get_player_count(), 0);
    let update = server.state_update(9, at(5));
    assert_eq!(update.tick, 9);
    assert_eq!(update.server_time.as_millis(), 5);
    assert_eq!(update.players.len(), 0);
    assert_eq!(outcomes(server.broadcast_state(b"{}")), vec![took("p")]);
    assert_eq!(arrived(&receiver), vec![b"{}\n".to_vec()]);
}

#[test]
fn join_is_answered_once_and_the_player_stays_until_it_disconnects() {
    let mut server = started();
    let (registration, receiver) = open("p");
    let out = server.run_tick(vec![registration, said("p", ClientMessage::Join)], at(16));
    assert_eq!(out.replies.len(), 1);
    assert_eq!(out.replies[0].recipient, "p");
    match &out.replies[0].message {
        ServerMessage::JoinAccepted { player_id } => assert_eq!(player_id, "p"),
        _ => panic!("a join is answered with JoinAccepted"),
    }
    assert!(server.send_reply(&out.replies[0], b"accepted"));
    assert_eq!(arrived(&receiver), vec![b"accepted\n".to_vec()]);
    assert_eq!(out.update.players.len(), 1);
    assert_eq!(out.update.players.id_at(0), "p");
    assert_eq!(out.update.players.value_at(0).position, Vector2 { x: 0, y: 0 });
    assert_eq!(out.update.players.value_at(0).velocity, Vector2 { x: 0, y: 0 });

    for tick in 2..20u64 {
        let events = if tick % 3 == 0 {
            vec![connect("q"), said("q", ClientMessage::Join), said("q", ClientMessage::Disconnect)]
        } else {
            Vec::new()
        };
        let out = server.run_tick(events, at(16 * tick));
        let ids: Vec<&String> =
            (0..out.update.players.len()).map(|i| out.update.players.id_at(i)).collect();
        assert_eq!(ids, vec!["p"]);
        assert!(out.replies.iter().all(|r| r.recipient == "q"));
        assert_eq!(outcomes(server.broadcast_state(b"tick")), vec![took("p")]);
        assert_eq!(arrived(&receiver), vec![b"tick\n".to_vec()]);
    }

    let out = server.run_tick(vec![said("p", ClientMessage::Disconnect)], at(16 * 20));
    assert_eq!(out.replies.len(), 0);
    assert_eq!(out.update.players.len(), 0);
    assert!(server.broadcast_state(b"tick").is_empty());
    assert!(arrived(&receiver).is_empty());
    assert!(!server.send_to("p", b"late"));
    assert!(arrived(&receiver).is_empty());
}

#[test]
fn a_second_join_keeps_the_player_where_it_is() {
    let mut server = started();
    server.add_connection("p".to_string(), closed(), at(0));
    assert!(server.handle_player_join("p", at(0)).is_some());
    server.handle_client_message("p", ClientMessage::Move { direction: Vector2 { x: UNIT, y: 0 } }, at(0));
    server.update_game_state(Duration::from_secs(1), at(1000));
    let reply = server.handle_client_message("p", ClientMessage::Join, at(1000)).unwrap();
    assert_eq!(reply.recipient, "p");
    assert!(matches!(reply.message, ServerMessage::JoinAccepted { .. }));
    let p = server.game_state().get_player_state("p").unwrap();
    assert_eq!(p.position, Vector2 { x: UNIT, y: 0 });
    assert_eq!(p.velocity, Vector2 { x: UNIT, y: 0 });
}

#[test]
fn join_without_registration_changes_nothing() {
    let mut server = started();
    let reply = server.handle_client_message("ghost", ClientMessage::Join, at(1));
    assert!(reply.is_none());
    assert!(server.handle_player_join("ghost", at(2)).is_none());
    assert!(!server.is_connected("ghost"));
    assert_eq!(server.game_state().get_player_count(), 0);

    // The same holds once the connection has been removed.
    server.add_connection("ghost".to_string(), closed(), at(3));
    server.remove_player("ghost");
    assert!(server.handle_player_join("ghost", at(4)).is_none());
    assert_eq!(server.game_state().get_player_count(), 0);
    let replies = server.process_messages(
        vec![said("late", ClientMessage::Join), connect("late"), said("late", ClientMessage::Disconnect), said("late", ClientMessage::Join)],
        at(5),
    );
    assert!(replies.is_empty());
    assert_eq!(server.game_state().get_player_count(), 0);
    assert_eq!(server.connection_count(), 0);
}

#[test]
fn an_answer_reaches_a_client_that_left_in_the_same_batch() {
    let mut server = started();
    let (registration, inbox) = open("p");
    let replies = server.process_messages(
        vec![
            registration,
            said("p", ClientMessage::Join),
            said("p", ClientMessage::Move { direction: Vector2 { x: 3 * UNIT, y: 4 * UNIT } }),
            said("p", ClientMessage::Move { direction: Vector2 { x: UNIT, y: 0 } }),
            said("p", ClientMessage::Disconnect),
        ],
        at(1),
    );
    assert!(!server.is_connected("p"));
    assert_eq!(server.game_state().get_player_count(), 0);
    assert_eq!(replies.len(), 1);
    assert!(matches!(&replies[0].message, ServerMessage::JoinAccepted { player_id } if player_id == "p"));
    assert!(server.send_reply(&replies[0], b"accepted"));
    assert_eq!(arrived(&inbox), vec![b"accepted\n".to_vec()]);
    assert_eq!(server.connection_count(), 0);
}

#[test]
fn move_then_silence_moves_the_player_by_velocity_each_tick() {
    let mut server = started();
    let direction = Vector2 { x: UNIT, y: 0 };
    let out = server.run_tick(
        vec![connect("p"), said("p", ClientMessage::Join), said("p", ClientMessage::Move { direction })],
        at(16),
    );
    assert_eq!(out.update.players.value_at(0).position.x, 16_000);
    for n in 2..=100i64 {
        let out = server.run_tick(Vec::new(), at(16 * n as u64));
        let p = out.update.players.value_at(0);
        assert_eq!(p.position.x, 16_000 * n);
        assert_eq!(p.position.y, 0);
        assert_eq!(p.velocity, direction);
        let approx = p.position.x as f64 / UNIT as f64;
        assert!((approx - 1.0 * 0.016 * n as f64).abs() < 1e-9);
    }
}

#[test]
fn direction_is_taken_as_velocity_and_clamped_by_the_tick() {
    let mut server = started();
    server.add_connection("p".to_string(), closed(), at(0));
    server.handle_player_join("p", at(0));
    let direction = Vector2 { x: 25 * UNIT, y: -5 * UNIT };
    assert!(server.handle_client_message("p", ClientMessage::Move { direction }, at(3)).is_none());
    let p = server.game_state().get_player_state("p").unwrap();
    assert_eq!(p.velocity, direction);
    assert_eq!(p.last_update.as_millis(), 3);
    server.update_game_state(Duration::from_millis(16), at(16));
    let p = server.game_state().get_player_state("p").unwrap();
    assert_eq!(p.velocity, Vector2 { x: 10 * UNIT, y: -5 * UNIT });
    assert_eq!(p.position, Vector2 { x: 400_000, y: -80_000 });
}

#[test]
fn move_for_a_player_that_is_not_in_the_game_is_ignored() {
    let mut server = started();
    server.add_connection("p".to_string(), closed(), at(0));
    let reply =
        server.handle_client_message("p", ClientMessage::Move { direction: Vector2 { x: 1, y: 1 } }, at(1));
    assert!(reply.is_none());
    assert_eq!(server.game_state().get_player_count(), 0);
    assert!(server.is_connected("p"));
}

#[test]
fn two_players_collide_on_the_next_tick() {
    let mut server = started();
    server.run_tick(
        vec![
            connect("a"),
            said("a", ClientMessage::Join),
            said("a", ClientMessage::Move { direction: Vector2 { x: 9 * UNIT, y: 0 } }),
        ],
        at(0),
    );
    // a is at (9, 0) after one second; b then joins at the origin.
    let out = server.run_tick(Vec::new(), at(1000));
    assert_eq!(out.update.players.value_at(0).position, Vector2 { x: 9 * UNIT, y: 0 });
    let out = server.run_tick(
        vec![
            said("a", ClientMessage::Move { direction: Vector2 { x: -UNIT, y: 0 } }),
            connect("b"),
            said("b", ClientMessage::Join),
            said("b", ClientMessage::Move { direction: Vector2 { x: UNIT, y: 0 } }),
        ],
        at(1016),
    );
    let a = *out.update.players.value_at(0);
    let b = *out.update.players.value_at(1);
    assert_eq!(a.velocity, Vector2 { x: UNIT, y: 0 });
    assert_eq!(b.velocity, Vector2 { x: -UNIT, y: 0 });
    let dx = (a.position.x - b.position.x) as f64 / UNIT as f64;
    let dy = (a.position.y - b.position.y) as f64 / UNIT as f64;
    assert!((dx * dx + dy * dy).sqrt() >= 10.0);
    assert_eq!(a.position, Vector2 { x: 9_500_000, y: 0 });
    assert_eq!(b.position, Vector2 { x: -500_000, y: 0 });
}

#[test]
fn two_players_that_join_in_one_tick_separate_at_the_origin() {
    let mut server = started();
    let out = server.run_tick(
        vec![connect("a"), connect("b"), said("a", ClientMessage::Join), said("b", ClientMessage::Join)],
        at(16),
    );
    assert_eq!(out.update.players.value_at(0).position, Vector2 { x: 5 * UNIT, y: 0 });
    assert_eq!(out.update.players.value_at(1).position, Vector2 { x: -5 * UNIT, y: 0 });
}

#[test]
fn closed_socket_removes_the_player_within_one_tick() {
    let mut server = started();
    let (register_a, _inbox_a) = open("a");
    let (register_b, inbox_b) = open("b");
    server.run_tick(
        vec![register_a, register_b, said("a", ClientMessage::Join), said("b", ClientMessage::Join)],
        at(16),
    );
    assert_eq!(snapshot_ids(&server), vec!["a".to_string(), "b".to_string()]);
    let last = match reader_step("a", ReadOutcome::Closed) {
        ReaderStep::Finish(event) => event,
        _ => panic!("the end of the stream ends the reader"),
    };
    let out = server.run_tick(vec![last], at(32));
    assert_eq!(out.update.players.len(), 1);
    assert_eq!(out.update.players.id_at(0), "b");
    assert!(!server.is_connected("a"));
    assert!(server.game_state().get_player_state("a").is_none());
    assert_eq!(outcomes(server.broadcast_state(b"snapshot")), vec![took("b")]);
    assert_eq!(arrived(&inbox_b), vec![b"snapshot\n".to_vec()]);
}

#[test]
fn failed_delivery_removes_the_connection_and_the_player_in_the_same_call() {
    let mut server = started();
    let (register_a, inbox_a) = open("a");
    let (register_b, inbox_b) = open("b");
    let (register_c, inbox_c) = open("c");
    server.run_tick(
        vec![
            register_a,
            register_b,
            register_c,
            said("a", ClientMessage::Join),
            said("b", ClientMessage::Join),
        ],
        at(16),
    );
    assert_eq!(
        outcomes(server.broadcast_state(b"one")),
        vec![took("a"), took("b"), took("c")]
    );
    assert_eq!(server.connection_count(), 3);
    drop(inbox_b);
    drop(inbox_c);
    assert_eq!(
        outcomes(server.broadcast_state(b"two")),
        vec![took("a"), refused("b"), refused("c")]
    );
    assert_eq!(server.connection_count(), 1);
    assert!(server.is_connected("a"));
    assert_eq!(snapshot_ids(&server), vec!["a".to_string()]);
    assert_eq!(outcomes(server.broadcast_state(b"three")), vec![took("a")]);
    assert_eq!(arrived(&inbox_a), vec![b"one\n".to_vec(), b"two\n".to_vec(), b"three\n".to_vec()]);
}

#[test]
fn failed_reply_removes_the_connection_and_the_player() {
    let mut server = started();
    let out = server.run_tick(vec![connect("gone"), said("gone", ClientMessage::Join)], at(16));
    assert_eq!(out.replies.len(), 1);
    assert_eq!(server.game_state().get_player_count(), 1);
    assert!(!server.send_reply(&out.replies[0], b"accepted"));
    assert!(!server.is_connected("gone"));
    assert_eq!(server.game_state().get_player_count(), 0);
    assert!(!server.send_to("never", b"x"));

    let out = server.run_tick(vec![connect("lost"), said("lost", ClientMessage::Join)], at(32));
    assert!(!server.send_to("lost", b"snapshot"));
    assert!(!server.is_connected("lost"));
    assert_eq!(server.game_state().get_player_count(), 0);
    assert!(!server.send_reply(&out.replies[0], b"accepted"));
}

#[test]
fn remove_failed_takes_out_each_id_everywhere() {
    let mut server = started();
    server.run_tick(
        vec![
            connect("a"),
            connect("b"),
            connect("c"),
            said("a", ClientMessage::Join),
            said("b", ClientMessage::Join),
        ],
        at(16),
    );
    server.remove_failed(&vec!["b".to_string(), "c".to_string(), "nobody".to_string()]);
    assert_eq!(server.connection_count(), 1);
    assert!(server.is_connected("a"));
    assert_eq!(snapshot_ids(&server), vec!["a".to_string()]);
}

#[test]
fn remove_player_clears_registry_and_game_together() {
    let mut server = started();
    server.add_connection("a".to_string(), closed(), at(0));
    server.handle_player_join("a", at(0));
    server.remove_player("a");
    assert!(!server.is_connected("a"));
    assert_eq!(server.game_state().get_player_count(), 0);
    server.remove_player("a");
    assert_eq!(server.connection_count(), 0);
}

#[test]
fn a_second_registration_replaces_the_channel() {
    let mut server = started();
    let (first, old_inbox) = open("p");
    let (second, new_inbox) = open("p");
    server.process_messages(vec![first, said("p", ClientMessage::Join), second], at(1));
    assert_eq!(server.connection_count(), 1);
    assert_eq!(server.game_state().get_player_count(), 1);
    assert!(server.send_to("p", b"hello"));
    assert!(arrived(&old_inbox).is_empty());
    assert_eq!(arrived(&new_inbox), vec![b"hello\n".to_vec()]);
}

#[test]
fn events_are_applied_in_arrival_order() {
    let mut server = started();
    let replies = server.process_messages(
        vec![
            said("p", ClientMessage::Move { direction: Vector2 { x: 1, y: 0 } }),
            connect("p"),
            said("p", ClientMessage::Join),
            said("p", ClientMessage::Move { direction: Vector2 { x: 2, y: 0 } }),
            said("p", ClientMessage::Move { direction: Vector2 { x: 3, y: 0 } }),
            connect("q"),
            said("q", ClientMessage::Join),
            said("q", ClientMessage::Disconnect),
            said("q", ClientMessage::Move { direction: Vector2 { x: 4, y: 0 } }),
        ],
        at(7),
    );
    let to: Vec<&str> = replies.iter().map(|r| r.recipient.as_str()).collect();
    assert_eq!(to, vec!["p", "q"]);
    assert_eq!(server.game_state().get_player_count(), 1);
    assert_eq!(server.game_state().get_player_state("p").unwrap().velocity, Vector2 { x: 3, y: 0 });
    assert!(!server.is_connected("q"));
}

#[test]
fn tick_numbers_start_at_one_and_have_no_gaps() {
    let mut server = GameServer::new("x").unwrap();
    for expected in 1..50u64 {
        assert_eq!(server.current_tick(), expected);
        let out = server.run_tick(Vec::new(), at(expected * 16));
        assert_eq!(out.update.tick, expected);
        assert_eq!(out.update.server_time.as_millis(), expected * 16);
    }
}

#[test]
fn poll_runs_when_the_tick_length_has_passed() {
    let mut server = GameServer::with_tick_rate("x", 20);
    server.run_tick(Vec::new(), at(1000));
    match server.poll(at(1019)) {
        Schedule::Wait { remaining } => assert_eq!(remaining, Duration::from_millis(1)),
        Schedule::Run { .. } => panic!("19 ms is less than a tick"),
    }
    match server.poll(at(1000)) {
        Schedule::Wait { remaining } => assert_eq!(remaining, Duration::from_millis(20)),
        Schedule::Run { .. } => panic!("no time has passed"),
    }
    match server.poll(at(900)) {
        Schedule::Wait { remaining } => assert_eq!(remaining, Duration::from_millis(20)),
        Schedule::Run { .. } => panic!("a clock that went back has not passed a tick"),
    }
    match server.poll(at(1020)) {
        Schedule::Run { delta_time } => assert_eq!(delta_time, Duration::from_millis(20)),
        Schedule::Wait { .. } => panic!("20 ms is a tick"),
    }
    match server.poll(at(1500)) {
        Schedule::Run { delta_time } => assert_eq!(delta_time, Duration::from_millis(500)),
        Schedule::Wait { .. } => panic!("500 ms is more than a tick"),
    }
}

#[test]
fn reader_forwards_skips_and_finishes() {
    let message = ClientMessage::Move { direction: Vector2 { x: 1, y: 2 } };
    match reader_step("p", ReadOutcome::Message(message)) {
        ReaderStep::Forward(InternalMessage::ClientMessage { player_id, message: m }) => {
            assert_eq!(player_id, "p");
            assert_eq!(m, message);
        }
        _ => panic!("a message is forwarded"),
    }
    assert!(matches!(reader_step("p", ReadOutcome::Malformed), ReaderStep::Skip));
    for outcome in [ReadOutcome::Closed, ReadOutcome::Failed] {
        match reader_step("p", outcome) {
            ReaderStep::Finish(InternalMessage::ClientMessage { player_id, message: m }) => {
                assert_eq!(player_id, "p");
                assert_eq!(m, ClientMessage::Disconnect);
            }
            _ => panic!("the end of the stream is a disconnect"),
        }
    }
}

#[test]
fn queued_inputs_are_applied_in_arrival_order_as_messages_are() {
    let input = |message: ClientMessage| PlayerInput { timestamp: at(1), message };
    let steer = |x: i64, y: i64| ClientMessage::Move { direction: Vector2 { x, y } };
    let mut server = started();
    assert!(!server.queue_input("p", input(steer(1, 0))));
    let (register_r, inbox_r) = open("r");
    server.process_messages(
        vec![
            connect("p"),
            connect("q"),
            register_r,
            connect("s"),
            said("p", ClientMessage::Join),
            said("q", ClientMessage::Join),
        ],
        at(16),
    );
    assert!(server.queue_input("p", input(steer(3 * UNIT, 4 * UNIT))));
    assert!(server.queue_input("p", input(steer(UNIT, 0))));
    assert!(server.queue_input("q", input(ClientMessage::Disconnect)));
    assert!(server.queue_input("q", input(ClientMessage::Join)));
    assert!(server.queue_input("r", input(steer(7, 7))));
    assert!(server.queue_input("r", input(ClientMessage::Join)));
    assert!(server.queue_input("r", input(steer(0, 9))));
    assert_eq!(server.player("p").unwrap().pending(), 2);
    assert_eq!(server.player("s").unwrap().pending(), 0);
    assert!(server.player("nobody").is_none());

    let replies = server.process_pending_inputs(at(20));

    // Every queue is empty, and each input had its effect in order.
    let p = server.game_state().get_player_state("p").unwrap();
    assert_eq!(p.velocity, Vector2 { x: UNIT, y: 0 });
    assert_eq!(p.position, Vector2 { x: 0, y: 0 });
    assert_eq!(p.last_update.as_millis(), 20);
    assert_eq!(server.player("p").unwrap().pending(), 0);
    // The queued disconnect removed q from both; its later join found no connection.
    assert!(!server.is_connected("q"));
    assert!(server.game_state().get_player_state("q").is_none());
    // r moved before it had joined, which changed nothing, then joined and moved.
    let r = server.game_state().get_player_state("r").unwrap();
    assert_eq!(r.velocity, Vector2 { x: 0, y: 9 });
    assert_eq!(server.player("r").unwrap().pending(), 0);
    assert!(server.is_connected("s"));
    assert_eq!(snapshot_ids(&server), vec!["p".to_string(), "r".to_string()]);
    assert_eq!(replies.len(), 1);
    assert_eq!(replies[0].recipient, "r");
    assert!(server.send_reply(&replies[0], b"accepted"));
    assert_eq!(arrived(&inbox_r), vec![b"accepted\n".to_vec()]);

    // The queues are empty now: a second pass changes nothing.
    assert!(server.process_pending_inputs(at(22)).is_empty());
    assert_eq!(server.game_state().get_player_state("p").unwrap().last_update.as_millis(), 20);
    assert_eq!(server.connection_count(), 3);

    // One queue alone can be drained, and a tick drains them all.
    assert!(server.queue_input("s", input(ClientMessage::Join)));
    assert!(server.queue_input("p", input(ClientMessage::Disconnect)));
    let replies = server.drain_queue("s", at(23));
    assert_eq!(replies.len(), 1);
    assert!(server.is_connected("p"));
    assert!(server.drain_queue("nobody", at(23)).is_empty());
    let out = server.run_tick(vec![said("r", ClientMessage::Disconnect)], at(1000));
    assert!(out.replies.is_empty());
    assert_eq!(out.update.players.len(), 1);
    assert_eq!(out.update.players.id_at(0), "s");
}

#[test]
fn a_queue_takes_no_more_than_its_bound() {
    let input = |x: i64| PlayerInput {
        timestamp: at(1),
        message: ClientMessage::Move { direction: Vector2 { x, y: 0 } },
    };
    let mut server = started();
    server.process_messages(vec![connect("b"), said("b", ClientMessage::Join)], at(16));
    for n in 0..MAX_PENDING_INPUTS {
        assert!(server.queue_input("b", input(n as i64)));
    }
    assert!(!server.queue_input("b", input(-1)));
    assert_eq!(server.player("b").unwrap().pending(), MAX_PENDING_INPUTS);
    let out = server.run_tick(Vec::new(), at(1000));
    let b = out.update.players.value_at(0);
    assert_eq!(b.velocity, Vector2 { x: MAX_PENDING_INPUTS as i64 - 1, y: 0 });
    assert_eq!(b.position, Vector2 { x: MAX_PENDING_INPUTS as i64 - 1, y: 0 });
    assert!(server.queue_input("b", input(-1)));
}
