use game_server::session::{PlayerSession, SessionAction, SessionState};

fn sent(actions: &[SessionAction]) -> Vec<String> {
    actions
        .iter()
        .filter_map(|a| match a {
            SessionAction::Send(m) => Some(m.0.clone()),
            _ => None,
        })
        .collect()
}

fn in_room(code: &str, id: &str) -> PlayerSession {
    let mut s = PlayerSession::new(7);
    s.on_join_result(code.to_string(), Ok(id.to_string()));
    s
}

#[test]
fn code_validation() {
    let mut s = PlayerSession::new(1);
    let r = s.handle_text("Event JoinGame:{\"code\":\"ABC\"}");
    assert_eq!(sent(&r), vec!["Event JoinGame:{\"ok\":false,\"reason\":\"Code should be 5 characters\"}".to_string()]);
    let r = s.handle_text("Event JoinGame:{\"code\":\"AB!DE\"}");
    assert_eq!(sent(&r), vec!["Event JoinGame:{\"ok\":false,\"reason\":\"Code should be alpha numeric\"}".to_string()]);
    assert!(matches!(s.state, SessionState::Connected));
}

#[test]
fn valid_code_asks_the_registry() {
    let mut s = PlayerSession::new(3);
    let r = s.handle_text("  Event JoinGame:{\"code\":\"ABCDE\"}\n");
    assert_eq!(r.len(), 1);
    match &r[0] {
        SessionAction::Join(j) => {
            assert_eq!(j.game_name, "ABCDE");
            assert_eq!(j.player, 3);
        }
        _ => panic!("expected a join request"),
    }
}

#[test]
fn rejoin_leaves_the_previous_room_first() {
    let mut s = in_room("ABCDE", "11");
    let r = s.handle_text("Event JoinGame:{\"code\":\"FGHKL\"}");
    assert_eq!(r.len(), 2);
    match &r[0] {
        SessionAction::Leave(l) => {
            assert_eq!(l.game_name, "ABCDE");
            assert_eq!(l.player_id, "11");
        }
        _ => panic!("expected a leave"),
    }
    assert!(matches!(&r[1], SessionAction::Join(j) if j.game_name == "FGHKL"));
    let r = s.on_join_result("FGHKL".to_string(), Err("code invalid".to_string()));
    assert_eq!(sent(&r), vec!["Event JoinGame:{\"ok\":false,\"reason\":\"code invalid\"}".to_string()]);
    assert!(matches!(s.state, SessionState::Connected));
}

#[test]
fn create_request() {
    let mut s = PlayerSession::new(5);
    let r = s.handle_text("Event CreateGame:{}");
    assert_eq!(r.len(), 1);
    assert!(matches!(&r[0], SessionAction::Create(c) if c.player == 5));
    s.on_create_result(Ok(("99".to_string(), "QRSTU".to_string())));
    match &s.state {
        SessionState::InRoom { code, player_id } => {
            assert_eq!(code, "QRSTU");
            assert_eq!(player_id, "99");
        }
        _ => panic!("expected to be in a room"),
    }
}

#[test]
fn ping_is_echoed_and_unknown_events_answered() {
    let mut s = PlayerSession::new(1);
    assert_eq!(sent(&s.handle_text("Event Ping")), vec!["Event Ping".to_string()]);
    assert_eq!(sent(&s.handle_text(" Event Ping:42 ")), vec!["Event Ping:42".to_string()]);
    assert_eq!(
        sent(&s.handle_text("Event Dance:{}")),
        vec!["!!! unknown event: Event Dance:{}".to_string()]
    );
    assert!(s.handle_text("/list").is_empty());
}

#[test]
fn player_state_is_tagged_with_the_sender() {
    let mut s = in_room("ABCDE", "12345");
    let r = s.handle_text("Event PlayerState:{\"x\":3,\"playerId\":\"forged\",\"y\":[1,2]}");
    assert_eq!(r.len(), 1);
    match &r[0] {
        SessionAction::Broadcast(m) => {
            assert_eq!(m.game_name, "ABCDE");
            assert_eq!(m.sender_id, "12345");
            assert_eq!(m.message, "Event PlayerState:{\"x\":3,\"y\":[1,2],\"playerId\":\"12345\"}");
            assert!(!m.message.contains("forged"));
        }
        _ => panic!("expected a broadcast"),
    }
}

#[test]
fn player_state_outside_a_room_goes_nowhere() {
    let mut s = PlayerSession::new(1);
    assert!(s.handle_text("Event PlayerState:{\"x\":1}").is_empty());
}

#[test]
fn game_state_forwards_the_secret_and_object() {
    let mut s = in_room("ABCDE", "8");
    let r = s.handle_text("Event GameState:{ \"tick\": 1, \"secret\": \"s3cret\" }");
    assert_eq!(r.len(), 1);
    match &r[0] {
        SessionAction::State(g) => {
            assert_eq!(g.game_name, "ABCDE");
            assert_eq!(g.sender_id, "8");
            assert_eq!(g.secret, "s3cret");
            assert_eq!(g.payload, "{\"secret\":\"s3cret\",\"tick\":1}");
        }
        _ => panic!("expected a state request"),
    }
    // a secret that is not a string is ignored
    assert!(s.handle_text("Event GameState:{\"secret\":5}").is_empty());
}

#[test]
fn start_game_frame_is_an_unknown_event() {
    let mut s = in_room("ABCDE", "8");
    assert_eq!(
        sent(&s.handle_text("Event StartGame:{\"secret\":\"abc\"}")),
        vec!["!!! unknown event: Event StartGame:{\"secret\":\"abc\"}".to_string()]
    );
    assert_eq!(sent(&s.handle_text("Event StartGame")), vec!["!!! unknown event: Event StartGame".to_string()]);
    assert!(matches!(s.state, SessionState::InRoom { .. }));
}

#[test]
fn malformed_json_ends_the_session() {
    let mut s = in_room("ABCDE", "8");
    let r = s.handle_text("Event GameState:{not json");
    assert_eq!(r.len(), 2);
    assert!(matches!(&r[0], SessionAction::Leave(l) if l.game_name == "ABCDE" && l.player_id == "8"));
    assert!(matches!(&r[1], SessionAction::Close));
    assert!(matches!(s.state, SessionState::Closed));
    assert!(s.handle_text("Event Ping").is_empty());
}

#[test]
fn missing_secret_or_non_object_ends_the_session() {
    let mut s = PlayerSession::new(1);
    let r = s.handle_text("Event GameState:{\"tick\":1}");
    assert!(matches!(r.as_slice(), [SessionAction::Close]));
    let mut s = PlayerSession::new(1);
    let r = s.handle_text("Event PlayerState:[1,2]");
    assert!(matches!(r.as_slice(), [SessionAction::Close]));
    let mut s = PlayerSession::new(1);
    let r = s.handle_text("Event JoinGame:null");
    assert!(matches!(r.as_slice(), [SessionAction::Close]));
}

#[test]
fn heartbeat() {
    let mut s = in_room("ABCDE", "8");
    assert!(matches!(s.on_tick(5000).as_slice(), [SessionAction::Ping]));
    assert!(matches!(s.on_tick(10000).as_slice(), [SessionAction::Ping]));
    s.on_pong(9000);
    assert!(matches!(s.on_tick(19000).as_slice(), [SessionAction::Ping]));
    let r = s.on_tick(19001);
    assert!(matches!(r.as_slice(), [SessionAction::Leave(_), SessionAction::Close]));
    assert!(s.on_tick(30000).is_empty());
}

#[test]
fn close_and_stop_leave_once() {
    let mut s = in_room("ABCDE", "8");
    let r = s.on_close();
    assert!(matches!(r.as_slice(), [SessionAction::Leave(_), SessionAction::Close]));
    assert!(s.stopped().is_empty());
    let mut t = in_room("ABCDE", "9");
    assert!(matches!(t.stopped().as_slice(), [SessionAction::Leave(_)]));
}

#[test]
fn join_answer_after_close_leaves_again() {
    let mut s = PlayerSession::new(1);
    s.on_close();
    let r = s.on_join_result("ABCDE".to_string(), Ok("3".to_string()));
    assert!(matches!(&r[..], [SessionAction::Leave(l)] if l.player_id == "3"));
}

#[test]
fn outside_a_room_send_helpers_do_nothing() {
    let s = PlayerSession::new(1);
    assert!(s.send_msg("x").is_empty());
    assert!(s.send_game_state("{}".to_string(), "k".to_string()).is_empty());
    let t = in_room("ABCDE", "4");
    assert!(matches!(&t.send_msg("x")[..], [SessionAction::Broadcast(m)] if m.message == "x"));
}

#[test]
fn join_game_from_a_room() {
    let mut s = in_room("ABCDE", "2");
    let r = s.join_game("KLMNO");
    assert!(matches!(&r[..], [SessionAction::Leave(l), SessionAction::Join(j)] if l.game_name == "ABCDE" && j.game_name == "KLMNO" && j.player == 7));
    assert!(matches!(s.state, SessionState::Connected));
}
