use hanabi::game::Hint;
use hanabi::deck::Color;
use hanabi::server::GameServer;

#[test]
fn players_join_until_the_table_is_full() {
    let mut server = GameServer::new(2);
    assert!(!server.is_full());
    let a = server.join(String::from("alice"));
    assert!(a >= 1 && a < usize::MAX);
    let b = server.join(String::from("bob"));
    assert!(b >= 1);
    assert_ne!(a, b);
    assert!(server.is_full());
    assert_eq!(server.join(String::from("carol")), 0);
    let v = server.game().get_player_view(0).view;
    assert_eq!(v.players[0].name, "alice");
    assert_eq!(v.players[1].name, "bob");
}

#[test]
fn requests_before_the_game_starts_are_refused() {
    let mut server = GameServer::new(2);
    let a = server.join_with_id(String::from("alice"), 7);
    assert_eq!(a, 7);
    assert_eq!(server.play_card(7, 0), "ERROR: The Game hasn't started yet!!!");
    assert_eq!(server.discard(7, 0), "ERROR: The Game hasn't started yet!!!");
    assert_eq!(server.swap(7, 0, 1), "ERROR: The Game hasn't started yet!!!");
    assert_eq!(
        server.give_hint(7, String::from("alice"), Hint::ColorHint(Color::Red)),
        "ERROR: The Game hasn't started yet!!!"
    );
    assert_eq!(server.lookup(7).unwrap_err(), "ERROR: The Game hasn't started yet!!!");
}

fn started_server() -> GameServer {
    let mut server = GameServer::new(2);
    server.join_with_id(String::from("alice"), 11);
    server.join_with_id(String::from("bob"), 22);
    server
}

#[test]
fn unknown_ids_are_refused() {
    let mut server = started_server();
    assert_eq!(server.play_card(33, 0), "ERROR: ID Invalid!");
    assert_eq!(server.lookup(33).unwrap_err(), "ERROR: ID Invalid!");
    assert_eq!(server.lookup(22).unwrap(), 1);
}

#[test]
fn moves_are_answered_with_success_or_invalid_action() {
    let mut server = started_server();
    // not bob's turn, and no ninth card in alice's hand
    assert_eq!(server.play_card(22, 0), "ERROR: Invalid Action!!!");
    assert_eq!(server.discard(11, 9), "ERROR: Invalid Action!!!");
    assert_eq!(server.swap(11, 0, 4), "Success");
    assert_eq!(server.game().get_player_view(0).view.turn, 1);
    assert_eq!(server.swap(22, 1, 2), "Success");
    assert_eq!(server.game().get_player_view(0).view.turn, 0);
    // a play is accepted whatever the card: it fits its pile or it bombs
    assert_eq!(server.play_card(11, 2), "Success");
    assert_eq!(server.game().get_player_view(0).view.turn, 1);
}

#[test]
fn hints_go_to_the_named_player() {
    let mut server = started_server();
    assert_eq!(
        server.give_hint(11, String::from("dave"), Hint::ColorHint(Color::Red)),
        "ERROR: Other player not found!"
    );
    assert_eq!(
        server.give_hint(11, String::from("bob"), Hint::ColorHint(Color::Red)),
        "Success"
    );
    let update = server.game().get_player_view(0);
    assert_eq!(update.view.hints_left, 7);
    assert_eq!(
        update.action.as_deref(),
        Some("alice gave a hint about cards with the color Red to bob")
    );
}
