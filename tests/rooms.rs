use game_server::game_objects::GameMap;
use game_server::message::{
    CreateGame, GameMessage, GameState, JoinGame, LeaveGame, ListGames, StartGame,
};
use game_server::room::Outbound;
use game_server::server::WsGameServer;
use game_server::session::{PlayerSession, SessionAction};

fn texts_for(outs: &[Outbound], client: u64) -> Vec<String> {
    outs.iter().filter(|o| o.client == client).map(|o| o.message.0.clone()).collect()
}

fn secret_of(frame: &str) -> String {
    let prefix = "Event RoomLeader:{\"secret\":\"";
    assert!(frame.starts_with(prefix), "not a leader frame: {}", frame);
    frame[prefix.len()..frame.len() - 2].to_string()
}

fn create(server: &mut WsGameServer, client: u64) -> (String, String, Vec<Outbound>) {
    let (r, outs) = server.create_game(CreateGame { player: client });
    let (id, code) = r.expect("room created");
    (id, code, outs)
}

#[test]
fn create_makes_the_single_player_leader() {
    let mut server = WsGameServer::new();
    let (id, code, outs) = create(&mut server, 1);
    assert_eq!(code.len(), 5);
    assert!(code.chars().all(|c| c.is_ascii_uppercase() && c != 'I' && c != 'J'));
    assert!(!id.is_empty() && id.chars().all(|c| c.is_ascii_digit()));
    let texts = texts_for(&outs, 1);
    assert_eq!(texts.len(), 3);
    assert!(texts[0].starts_with(&format!("Event JoinGame:{{\"ok\":true,\"reason\":null,\"code\":\"{}\",\"playerType\":\"", code)));
    assert!(texts[0].ends_with(",\"spawn\":{\"x\":1792,\"y\":1792}}"));
    assert!(texts[1].starts_with("Event SetMap:{\"size\":{\"x\":25600,\"y\":25600},\"planets\":["));
    let secret = secret_of(&texts[2]);
    assert_eq!(secret.len(), 10);
    assert!(secret.chars().all(|c| c.is_ascii_alphanumeric()));
    assert_eq!(server.list_games(ListGames), vec![code]);
}

#[test]
fn second_join_fans_out_player_joined() {
    let mut server = WsGameServer::new();
    let (id_a, code, _) = create(&mut server, 1);
    let (r, outs) = server.join_game(JoinGame { game_name: code.clone(), player: 2 });
    let id_b = r.expect("second player admitted");
    assert_ne!(id_a, id_b);
    let to_b = texts_for(&outs, 2);
    assert_eq!(to_b.len(), 3);
    assert!(to_b[0].starts_with(&format!("Event PlayerJoinedGame:{{\"playerId\":\"{}\",", id_a)));
    assert!(to_b[0].ends_with(",\"spawn\":{\"x\":1792,\"y\":1792}}"));
    assert!(to_b[1].starts_with(&format!("Event JoinGame:{{\"ok\":true,\"reason\":null,\"code\":\"{}\",", code)));
    assert!(to_b[1].ends_with(",\"spawn\":{\"x\":2048,\"y\":1792}}"));
    assert!(to_b[2].starts_with("Event SetMap:"));
    let to_a: Vec<&Outbound> = outs.iter().filter(|o| o.client == 1).collect();
    assert_eq!(to_a.len(), 1);
    assert!(to_a[0].message.0.starts_with(&format!("Event PlayerJoinedGame:{{\"playerId\":\"{}\",", id_b)));
    assert_eq!(to_a[0].evict, Some((code.clone(), id_a.clone())));
}

#[test]
fn joined_players_get_distinct_types() {
    let mut server = WsGameServer::new();
    let (_, code, _) = create(&mut server, 1);
    for c in 2..=10u64 {
        let (r, _) = server.join_game(JoinGame { game_name: code.clone(), player: c });
        assert!(r.is_ok());
    }
    let (r, outs) = server.join_game(JoinGame { game_name: code.clone(), player: 11 });
    assert_eq!(r, Err("game is full".to_string()));
    assert!(outs.is_empty());
    let (r, outs) = server.join_game(JoinGame { game_name: code.clone(), player: 12 });
    assert_eq!(r, Err("game is full".to_string()));
    assert!(outs.is_empty());
    // the tenth player hears of nine others, each with a different type
    let (r2, outs2) = {
        let mut s = WsGameServer::new();
        let (_, code2, _) = create(&mut s, 1);
        for c in 2..=9u64 {
            s.join_game(JoinGame { game_name: code2.clone(), player: c }).0.unwrap();
        }
        s.join_game(JoinGame { game_name: code2, player: 10 })
    };
    assert!(r2.is_ok());
    let mut types: Vec<String> = texts_for(&outs2, 10)
        .iter()
        .filter(|t| t.starts_with("Event PlayerJoinedGame:"))
        .map(|t| t.split("\"playerType\":\"").nth(1).unwrap().split('"').next().unwrap().to_string())
        .collect();
    let ack = &texts_for(&outs2, 10)[9];
    types.push(ack.split("\"playerType\":\"").nth(1).unwrap().split('"').next().unwrap().to_string());
    types.sort();
    types.dedup();
    assert_eq!(types.len(), 10);
}

#[test]
fn join_refusals() {
    let mut server = WsGameServer::new();
    let (r, outs) = server.join_game(JoinGame { game_name: "QQQQQ".to_string(), player: 1 });
    assert_eq!(r, Err("code invalid".to_string()));
    assert!(outs.is_empty());
    let (id_a, code, outs) = create(&mut server, 1);
    let secret = secret_of(&texts_for(&outs, 1)[2]);
    let started = server.start_game(StartGame { game_name: code.clone(), sender_id: id_a.clone(), secret });
    assert!(started.is_empty());
    let (r, outs) = server.join_game(JoinGame { game_name: code.clone(), player: 2 });
    assert_eq!(r, Err("game is running".to_string()));
    assert!(outs.is_empty());
}

#[test]
fn start_game_is_broadcast_to_the_others() {
    let mut server = WsGameServer::new();
    let (id_a, code, outs) = create(&mut server, 1);
    let secret = secret_of(&texts_for(&outs, 1)[2]);
    let (r, _) = server.join_game(JoinGame { game_name: code.clone(), player: 2 });
    let id_b = r.unwrap();
    let wrong = server.start_game(StartGame { game_name: code.clone(), sender_id: id_b, secret: secret.clone() });
    assert!(wrong.is_empty());
    let outs = server.start_game(StartGame { game_name: code.clone(), sender_id: id_a, secret });
    assert_eq!(outs.len(), 1);
    assert_eq!(outs[0].client, 2);
    assert_eq!(outs[0].message.0, "Event StartGame:{}");
}

fn state_action(actions: Vec<SessionAction>) -> GameState {
    match actions.into_iter().next() {
        Some(SessionAction::State(s)) => s,
        _ => panic!("expected a game state request"),
    }
}

#[test]
fn leader_state_is_broadcast() {
    let mut server = WsGameServer::new();
    let mut a = PlayerSession::new(1);
    let mut b = PlayerSession::new(2);
    let (id_a, code, outs) = create(&mut server, 1);
    a.on_create_result(Ok((id_a.clone(), code.clone())));
    let secret = secret_of(&texts_for(&outs, 1)[2]);
    let (r, _) = server.join_game(JoinGame { game_name: code.clone(), player: 2 });
    b.on_join_result(code.clone(), r);
    let frame = format!("Event GameState:{{\"secret\":\"{}\",\"tick\":1}}", secret);
    let request = state_action(a.handle_text(&frame));
    let outs = server.game_state(request);
    assert_eq!(outs.len(), 1);
    assert_eq!(outs[0].client, 2);
    assert_eq!(outs[0].message.0, format!("Event GameState:{{\"secret\":\"{}\",\"tick\":1}}", secret));
}

#[test]
fn non_leader_state_is_dropped() {
    let mut server = WsGameServer::new();
    let mut b = PlayerSession::new(2);
    let (_, code, _) = create(&mut server, 1);
    let (r, _) = server.join_game(JoinGame { game_name: code.clone(), player: 2 });
    b.on_join_result(code.clone(), r);
    let request = state_action(b.handle_text("Event GameState:{\"secret\":\"wrong\",\"tick\":2}"));
    assert!(server.game_state(request).is_empty());
}

#[test]
fn leader_departure_elects_new_leader() {
    let mut server = WsGameServer::new();
    let (id_a, code, outs) = create(&mut server, 1);
    let old_secret = secret_of(&texts_for(&outs, 1)[2]);
    let (r, _) = server.join_game(JoinGame { game_name: code.clone(), player: 2 });
    let id_b = r.unwrap();
    let outs = server.leave_game(LeaveGame { game_name: code.clone(), player_id: id_a.clone() });
    let to_b = texts_for(&outs, 2);
    assert_eq!(to_b.len(), 2);
    assert_eq!(to_b[0], format!("Event PlayerLeftGame:{{\"playerId\":\"{}\"}}", id_a));
    let new_secret = secret_of(&to_b[1]);
    assert_eq!(new_secret.len(), 10);
    assert_ne!(new_secret, old_secret);
    // the new secret authenticates the new leader; nobody else is left to hear it
    let outs = server.game_state(GameState {
        game_name: code.clone(),
        sender_id: id_b.clone(),
        secret: new_secret,
        payload: "{}".to_string(),
    });
    assert!(outs.is_empty());
}

#[test]
fn room_closes_when_everyone_leaves() {
    let mut server = WsGameServer::new();
    let (id_a, code, _) = create(&mut server, 1);
    let mut ids = vec![id_a];
    for c in 2..=4u64 {
        ids.push(server.join_game(JoinGame { game_name: code.clone(), player: c }).0.unwrap());
    }
    let (_, other, _) = create(&mut server, 9);
    for id in &ids {
        assert!(server.list_games(ListGames).contains(&code));
        server.leave_game(LeaveGame { game_name: code.clone(), player_id: id.clone() });
    }
    assert_eq!(server.list_games(ListGames), vec![other]);
}

#[test]
fn leaving_an_unknown_room_or_player_changes_nothing() {
    let mut server = WsGameServer::new();
    let (_, code, _) = create(&mut server, 1);
    assert!(server.leave_game(LeaveGame { game_name: "ZZZZZ".to_string(), player_id: "1".to_string() }).is_empty());
    assert!(server.leave_game(LeaveGame { game_name: code.clone(), player_id: "nobody".to_string() }).is_empty());
    assert_eq!(server.list_games(ListGames), vec![code]);
}

#[test]
fn unreachable_leader_is_replaced_silently() {
    let mut server = WsGameServer::new();
    let (id_a, code, _) = create(&mut server, 1);
    server.join_game(JoinGame { game_name: code.clone(), player: 2 }).0.unwrap();
    let outs = server.drop_unreachable(&code, &id_a);
    assert_eq!(outs.len(), 1);
    assert_eq!(outs[0].client, 2);
    assert!(outs[0].message.0.starts_with("Event RoomLeader:"));
}

#[test]
fn game_message_skips_the_sender() {
    let mut server = WsGameServer::new();
    let (id_a, code, _) = create(&mut server, 1);
    server.join_game(JoinGame { game_name: code.clone(), player: 2 }).0.unwrap();
    server.join_game(JoinGame { game_name: code.clone(), player: 3 }).0.unwrap();
    let outs = server.game_message(GameMessage { game_name: code.clone(), message: "hi".to_string(), sender_id: id_a });
    let mut clients: Vec<u64> = outs.iter().map(|o| o.client).collect();
    clients.sort();
    assert_eq!(clients, vec![2, 3]);
    assert!(outs.iter().all(|o| o.message.0 == "hi"));
    assert!(server.game_message(GameMessage { game_name: "NOPE!".to_string(), message: "x".to_string(), sender_id: "1".to_string() }).is_empty());
}

#[test]
fn unreachable_last_player_closes_the_room() {
    let mut server = WsGameServer::new();
    let (id_a, code, _) = create(&mut server, 1);
    assert!(server.drop_unreachable(&code, &id_a).is_empty());
    assert!(server.list_games(ListGames).is_empty());
}

#[test]
fn create_with_a_taken_code_is_refused() {
    let mut server = WsGameServer::new();
    let (r, outs) = server.create_game_with_code("ABCDE".to_string(), GameMap::create_random(), CreateGame { player: 1 });
    let (id, code) = r.expect("fresh code accepted");
    assert_eq!(code, "ABCDE");
    assert!(!id.is_empty());
    assert_eq!(texts_for(&outs, 1).len(), 3);
    let (r, outs) = server.create_game_with_code("ABCDE".to_string(), GameMap::create_random(), CreateGame { player: 2 });
    assert_eq!(r, Err("code in use".to_string()));
    assert!(outs.is_empty());
    assert_eq!(server.list_games(ListGames), vec!["ABCDE".to_string()]);
}

#[test]
fn room_closes_when_everyone_leaves_in_any_order() {
    let mut server = WsGameServer::new();
    let (id_a, code, _) = create(&mut server, 1);
    let mut ids = vec![id_a];
    for c in 2..=4u64 {
        ids.push(server.join_game(JoinGame { game_name: code.clone(), player: c }).0.unwrap());
    }
    ids.swap(0, 2);
    ids.reverse();
    for id in &ids {
        assert!(server.list_games(ListGames).contains(&code));
        server.leave_game(LeaveGame { game_name: code.clone(), player_id: id.clone() });
    }
    assert!(server.list_games(ListGames).is_empty());
}
