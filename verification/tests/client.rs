use networking_basic::client::ConnectStep;
use networking_basic::client::GameClient;
use networking_basic::client::JOIN_POLL_MILLIS;
use networking_basic::client::JOIN_TIMEOUT_MILLIS;
use networking_basic::errors::GameError;
use networking_basic::messages::ClientMessage;
use networking_basic::messages::GameStateUpdate;
use networking_basic::messages::ServerMessage;
use networking_basic::roster::Roster;
use networking_basic::types::PlayerState;
use networking_basic::types::Timestamp;
use networking_basic::types::Vector2;

fn snapshot(tick: u64, players: &[(&str, i64)]) -> ServerMessage {
    let mut roster = Roster::new();
    for (id, x) in players {
        roster.insert(
            id.to_string(),
            PlayerState {
                position: Vector2 { x: *x, y: 0 },
                velocity: Vector2 { x: 0, y: 0 },
                last_update: Timestamp::from_millis(tick),
            },
        );
    }
    ServerMessage::GameState(GameStateUpdate {
        tick,
        players: roster,
        server_time: Timestamp::from_millis(tick),
    })
}

#[test]
fn handshake_constants() {
    assert_eq!(JOIN_TIMEOUT_MILLIS, 5000);
    assert_eq!(JOIN_POLL_MILLIS, 100);
}

#[test]
fn handshake_completes_on_join_accepted() {
    let mut client = GameClient::new();
    assert_eq!(client.join_request(), ClientMessage::Join);
    assert!(client.player_id().is_none());
    assert!(matches!(client.connect(0, None), ConnectStep::Sleep));
    assert!(matches!(client.connect(100, Some(snapshot(1, &[]))), ConnectStep::Retry));
    assert!(client.player_id().is_none());
    let accepted = ServerMessage::JoinAccepted { player_id: "127.0.0.1:5555".to_string() };
    assert!(matches!(client.connect(4999, Some(accepted)), ConnectStep::Connected));
    assert_eq!(client.player_id().unwrap(), "127.0.0.1:5555");
}

#[test]
fn handshake_fails_on_error_and_on_timeout() {
    let mut client = GameClient::new();
    let refused = ServerMessage::Error { message: "full".to_string() };
    match client.connect(10, Some(refused)) {
        ConnectStep::Failed(GameError::NetworkError(text)) => assert_eq!(text, "full"),
        _ => panic!("an error message fails the handshake"),
    }
    let late = ServerMessage::JoinAccepted { player_id: "p".to_string() };
    match client.connect(5000, Some(late)) {
        ConnectStep::Failed(error) => {
            assert_eq!(error.message(), "Network error: Connection timeout")
        }
        _ => panic!("after five seconds the handshake has failed"),
    }
    assert!(client.player_id().is_none());
    assert!(matches!(client.connect(u64::MAX, None), ConnectStep::Failed(_)));
}

#[test]
fn update_keeps_the_last_snapshot() {
    let mut client = GameClient::new();
    assert!(client.get_player_state("a").is_none());
    assert!(client.get_own_state().is_none());
    client
        .update(vec![
            snapshot(1, &[("a", 1)]),
            ServerMessage::Error { message: "noise".to_string() },
            snapshot(2, &[("a", 2), ("b", 20)]),
            ServerMessage::JoinAccepted { player_id: "zz".to_string() },
        ])
        .unwrap();
    assert_eq!(client.get_player_state("a").unwrap().position.x, 2);
    assert_eq!(client.get_player_state("b").unwrap().position.x, 20);
    assert!(client.player_id().is_none());
    assert!(client.get_own_state().is_none());

    client.update(vec![ServerMessage::Error { message: "noise".to_string() }]).unwrap();
    client.update(Vec::new()).unwrap();
    assert_eq!(client.current_state().unwrap().len(), 2);

    let accepted = ServerMessage::JoinAccepted { player_id: "b".to_string() };
    assert!(matches!(client.connect(1, Some(accepted)), ConnectStep::Connected));
    assert_eq!(client.get_own_state().unwrap().position.x, 20);

    client.update(vec![snapshot(3, &[("a", 3)])]).unwrap();
    assert!(client.get_own_state().is_none());
    assert_eq!(client.get_player_state("a").unwrap().position.x, 3);
}

#[test]
fn commands_become_messages() {
    let client = GameClient::new();
    let direction = Vector2 { x: -7, y: 9 };
    assert_eq!(client.move_player(direction), ClientMessage::Move { direction });
    assert_eq!(client.disconnect(), ClientMessage::Disconnect);
}

#[test]
fn debug_info_reports_what_the_client_knows() {
    let mut client = GameClient::new();
    assert_eq!(client.debug_info(), "Connection: Disconnected\n");

    client.update(vec![snapshot(1, &[("a", 1_500_000), ("b", -20_004_999)])]).unwrap();
    assert_eq!(
        client.debug_info(),
        "Connection: Disconnected\nOther players: 1\n  a at (1.50, 0.00)\n  b at (-20.00, 0.00)\n"
    );

    let accepted = ServerMessage::JoinAccepted { player_id: "b".to_string() };
    assert!(matches!(client.connect(1, Some(accepted)), ConnectStep::Connected));
    assert_eq!(
        client.debug_info(),
        "Connection: Connected\nPlayer ID: b\nPosition: (-20.00, 0.00)\nVelocity: (0.00, 0.00)\n\
         Other players: 1\n  a at (1.50, 0.00)\n"
    );

    client.update(vec![snapshot(2, &[])]).unwrap();
    assert_eq!(client.debug_info(), "Connection: Connected\nPlayer ID: b\nOther players: 0\n");
}
