use hanabi::deck::{Card, Color, Deck, Value};
use hanabi::game::{Action, Game, Hint, Status};

fn card(color: Color, value: Value) -> Card {
    Card { color, value }
}

/// Three players dealt from an unshuffled deck: player 0 holds
/// W1 W1 W1 W2 W2, player 1 holds W3 W3 W4 W4 W5, player 2 holds
/// Y1 Y1 Y1 Y2 Y2.
fn three_player_game() -> Game {
    let mut game = Game::deal(Deck::initialize(true), 3);
    game.set_name(0, String::from("alice"));
    game.set_name(1, String::from("bob"));
    game.set_name(2, String::from("carol"));
    game
}

fn is_card(view_color: Option<Color>, view_value: Option<Value>, c: Color, v: Value) -> bool {
    view_color == Some(c) && view_value == Some(v)
}

#[test]
fn deal_gives_five_cards_each_from_the_top() {
    let game = three_player_game();
    assert_eq!(game.cards_left(), 45);
    let update = game.get_player_view(2);
    let v = &update.view;
    assert_eq!(v.players.len(), 3);
    assert_eq!(v.players[0].name, "alice");
    let expected0 = [
        (Color::White, Value::One),
        (Color::White, Value::One),
        (Color::White, Value::One),
        (Color::White, Value::Two),
        (Color::White, Value::Two),
    ];
    for j in 0..5 {
        let cv = v.players[0].cards[j];
        assert!(is_card(cv.color, cv.value, expected0[j].0, expected0[j].1));
    }
    let cv = v.players[1].cards[4];
    assert!(is_card(cv.color, cv.value, Color::White, Value::Five));
    // a player sees nothing of their own cards at first
    for j in 0..5 {
        assert!(v.players[2].cards[j].color.is_none());
        assert!(v.players[2].cards[j].value.is_none());
    }
    assert_eq!(v.hints_left, 8);
    assert_eq!(v.bombs, 0);
    assert_eq!(v.turn, 0);
    assert_eq!(v.piles, [0; 6]);
    assert_eq!(v.state, Status::Playing);
    assert!(v.discard.is_empty());
    assert!(update.action.is_none());
}

#[test]
fn new_game_deals_a_full_shuffled_deck() {
    let game = Game::new(4);
    assert_eq!(game.cards_left(), 40);
    let update = game.get_player_view(4);
    assert_eq!(update.view.players.len(), 4);
    assert_eq!(update.view.state, Status::Playing);
}

#[test]
fn action_out_of_turn_is_refused() {
    let mut game = three_player_game();
    assert!(!game.take_action(Action::Discard(0), 1));
    assert!(!game.take_action(Action::Play(0), 2));
    let v = game.get_player_view(0).view;
    assert_eq!(v.turn, 0);
    assert!(v.discard.is_empty());
}

#[test]
fn position_outside_the_hand_is_refused() {
    let mut game = three_player_game();
    assert!(!game.take_action(Action::Discard(5), 0));
    assert!(!game.take_action(Action::Play(7), 0));
    assert!(!game.take_action(Action::Swap(0, 5), 0));
    assert_eq!(game.get_player_view(1).view.turn, 0);
}

#[test]
fn discard_moves_card_draws_and_logs() {
    let mut game = three_player_game();
    assert!(game.take_action(Action::Discard(0), 0));
    let update = game.get_player_view(1);
    let v = &update.view;
    assert_eq!(v.discard.len(), 1);
    assert_eq!(v.discard[0].color, Color::White);
    assert_eq!(v.discard[0].value, Value::One);
    // the drawn card (Y3, the 16th card) is now the last of alice's hand
    let cv = v.players[0].cards[4];
    assert!(is_card(cv.color, cv.value, Color::Yellow, Value::Three));
    assert_eq!(v.hints_left, 8);
    assert_eq!(v.turn, 1);
    assert_eq!(update.action.as_deref(), Some("alice discarded White One"));
    assert_eq!(game.cards_left(), 44);
}

#[test]
fn discard_gives_a_hint_token_back() {
    let mut game = three_player_game();
    assert!(game.take_action(Action::GiveHint(Hint::ValueHint(Value::Five), 1), 0));
    assert_eq!(game.get_player_view(0).view.hints_left, 7);
    assert!(game.take_action(Action::Discard(0), 1));
    assert_eq!(game.get_player_view(0).view.hints_left, 8);
}

#[test]
fn playing_the_next_card_builds_the_pile() {
    let mut game = three_player_game();
    assert!(game.take_action(Action::Play(0), 0));
    let update = game.get_player_view(1);
    assert_eq!(update.view.piles, [1, 0, 0, 0, 0, 0]);
    assert_eq!(update.view.bombs, 0);
    assert!(update.view.discard.is_empty());
    assert_eq!(update.action.as_deref(), Some("alice played White One"));
    assert_eq!(update.view.turn, 1);
}

#[test]
fn playing_a_wrong_card_sets_off_a_bomb() {
    let mut game = three_player_game();
    // White Two does not fit an empty pile
    assert!(game.take_action(Action::Play(3), 0));
    let update = game.get_player_view(1);
    assert_eq!(update.view.bombs, 1);
    assert_eq!(update.view.piles, [0; 6]);
    assert_eq!(update.view.discard.len(), 1);
    assert_eq!(update.view.discard[0].value, Value::Two);
    assert_eq!(update.view.state, Status::Playing);
    assert_eq!(update.action.as_deref(), Some("alice played White Two"));
}

#[test]
fn third_bomb_loses_and_ends_the_game() {
    let mut game = three_player_game();
    // alice: White Two; bob: White Three; carol: Yellow Two
    assert!(game.take_action(Action::Play(3), 0));
    assert!(game.take_action(Action::Play(0), 1));
    assert!(!game.is_over());
    assert!(game.take_action(Action::Play(3), 2));
    assert!(game.is_over());
    let v = game.get_player_view(0).view;
    assert_eq!(v.bombs, 3);
    assert_eq!(v.state, Status::Lost);
    // once over, every action is refused
    assert!(!game.take_action(Action::Discard(0), 0));
    assert!(!game.take_action(Action::Swap(0, 1), 1));
}

#[test]
fn discarding_the_last_copy_loses() {
    let mut game = three_player_game();
    assert!(game.take_action(Action::Swap(0, 1), 0));
    // bob discards the only White Five
    assert!(game.take_action(Action::Discard(4), 1));
    let v = game.get_player_view(0).view;
    assert_eq!(v.state, Status::Lost);
    assert!(game.is_over());
}

#[test]
fn hint_marks_the_matching_cards_and_costs_a_token() {
    let mut game = three_player_game();
    assert!(game.take_action(Action::GiveHint(Hint::ValueHint(Value::Four), 1), 0));
    let update = game.get_player_view(1);
    let own = &update.view.players[1].cards;
    assert_eq!(own[0].value, None);
    assert_eq!(own[1].value, None);
    assert_eq!(own[2].value, Some(Value::Four));
    assert_eq!(own[3].value, Some(Value::Four));
    assert_eq!(own[4].value, None);
    assert!(own.iter().all(|c| c.color.is_none()));
    assert_eq!(update.view.hints_left, 7);
    assert_eq!(
        update.action.as_deref(),
        Some("alice gave a hint about cards with the value Four to bob")
    );
    assert!(game.take_action(Action::GiveHint(Hint::ColorHint(Color::White), 0), 1));
    let update = game.get_player_view(0);
    assert!(update.view.players[0]
        .cards
        .iter()
        .all(|c| c.color == Some(Color::White)));
    assert_eq!(
        update.action.as_deref(),
        Some("bob gave a hint about cards with the color White to alice")
    );
}

#[test]
fn hints_run_out_after_eight() {
    let mut game = three_player_game();
    for k in 0..8 {
        let actor = k % 3;
        assert!(game.take_action(Action::GiveHint(Hint::ColorHint(Color::Red), (actor + 1) % 3), actor));
    }
    assert_eq!(game.get_player_view(0).view.hints_left, 0);
    let turn = game.get_player_view(0).view.turn;
    assert!(!game.take_action(Action::GiveHint(Hint::ColorHint(Color::Red), 0), turn));
    assert_eq!(game.get_player_view(0).view.turn, turn);
}

#[test]
fn knowledge_moves_with_the_cards() {
    let mut game = three_player_game();
    // it is alice's turn, so carol's hint is refused
    assert!(!game.take_action(Action::GiveHint(Hint::ValueHint(Value::Two), 0), 2));
    assert_eq!(game.get_player_view(0).view.turn, 0);
    assert!(game.take_action(Action::Discard(0), 0));
    assert!(game.take_action(Action::GiveHint(Hint::ValueHint(Value::Two), 0), 1));
    // alice now holds W1 W1 W2 W2 Y3 and knows positions 2 and 3 are twos
    let own = game.get_player_view(0).view.players[0].cards;
    assert_eq!(own[2].value, Some(Value::Two));
    assert_eq!(own[3].value, Some(Value::Two));
    // swapping moves the knowledge along
    assert!(game.take_action(Action::Swap(0, 3), 0));
    let own = game.get_player_view(0).view.players[0].cards;
    assert_eq!(own[0].value, Some(Value::Two));
    assert_eq!(own[3].value, None);
    assert_eq!(own[2].value, Some(Value::Two));
}

#[test]
fn using_a_card_shifts_the_later_knowledge_forward() {
    let mut game = three_player_game();
    assert!(game.take_action(Action::Discard(0), 0));
    assert!(game.take_action(Action::GiveHint(Hint::ValueHint(Value::Two), 0), 1));
    assert!(game.take_action(Action::Discard(0), 2));
    // alice holds W1 W1 W2 W2 Y3 knowing positions 2 and 3; she discards
    // position 1 and draws a new last card
    assert!(game.take_action(Action::Discard(1), 0));
    let own = game.get_player_view(0).view.players[0].cards;
    assert_eq!(own[0].value, None);
    assert_eq!(own[1].value, Some(Value::Two));
    assert_eq!(own[2].value, Some(Value::Two));
    assert_eq!(own[3].value, None);
    assert_eq!(own[4].value, None);
}

#[test]
fn swap_out_of_turn_is_allowed_and_passes_the_turn() {
    let mut game = three_player_game();
    assert!(game.take_action(Action::Swap(0, 4), 2));
    let update = game.get_player_view(0);
    let cv = update.view.players[2].cards[0];
    assert!(is_card(cv.color, cv.value, Color::Yellow, Value::Two));
    assert_eq!(update.view.turn, 1);
    assert!(update.action.is_none());
}

#[test]
fn turn_wraps_around_after_the_last_player() {
    let mut game = three_player_game();
    assert!(game.take_action(Action::Discard(0), 0));
    assert!(game.take_action(Action::Discard(0), 1));
    assert!(game.take_action(Action::Discard(0), 2));
    assert_eq!(game.get_player_view(0).view.turn, 0);
}

/// The cards of a game whose three hands are full.
fn total_cards(game: &Game) -> usize {
    let v = game.get_player_view(0).view;
    let piles: usize = v.piles.iter().sum();
    game.cards_left() + v.discard.len() + 3 * 5 + piles
}

#[test]
fn cards_are_neither_created_nor_lost() {
    let mut game = three_player_game();
    assert_eq!(total_cards(&game), 60);
    assert!(game.take_action(Action::Play(0), 0));
    assert!(game.take_action(Action::Discard(1), 1));
    assert!(game.take_action(Action::Play(3), 2));
    assert!(game.take_action(Action::GiveHint(Hint::ColorHint(Color::Yellow), 2), 0));
    assert_eq!(total_cards(&game), 60);
}

/// Two players. Alice is dealt the white cards and then draws the
/// yellow, red, blue and green ones in playing order, twenty-five plays
/// in all; bob is dealt the rainbow cards and, while he lays them, draws
/// five spare cards that he keeps to the end.
fn winnable_game() -> Game {
    let colors = [Color::White, Color::Yellow, Color::Red, Color::Blue, Color::Green];
    let values = [Value::One, Value::Two, Value::Three, Value::Four, Value::Five];
    let mut ordered = Vec::new();
    for c in colors.iter() {
        for v in values.iter() {
            ordered.push(card(*c, *v));
        }
    }
    let mut cards = Vec::new();
    cards.extend_from_slice(&ordered[0..5]);
    for v in values.iter() {
        cards.push(card(Color::Rainbow, *v));
    }
    for k in 0..5 {
        cards.push(ordered[5 + k]);
        cards.push(card(Color::Red, Value::One));
    }
    cards.extend_from_slice(&ordered[10..]);
    Game::deal(Deck::from_cards(cards), 2)
}

#[test]
fn game_is_won_when_every_pile_is_complete() {
    let mut game = winnable_game();
    for round in 0..25 {
        assert!(game.take_action(Action::Play(0), 0));
        if round == 24 {
            break;
        }
        assert!(!game.is_over());
        if round < 5 {
            assert!(game.take_action(Action::Play(0), 1));
        } else {
            assert!(game.take_action(Action::Swap(0, 0), 1));
        }
    }
    assert!(game.is_over());
    assert_eq!(game.cards_left(), 0);
    let v = game.get_player_view(0).view;
    assert_eq!(v.piles, [5, 5, 5, 5, 5, 5]);
    assert_eq!(v.state, Status::Won);
    assert_eq!(v.bombs, 0);
    assert!(!game.take_action(Action::Swap(0, 1), 1));
}

#[test]
fn everyone_short_of_cards_loses() {
    // one player, a deck of exactly five cards: the first discard leaves
    // the only hand short
    let cards = vec![
        card(Color::Red, Value::One),
        card(Color::Red, Value::One),
        card(Color::Red, Value::Two),
        card(Color::Blue, Value::Three),
        card(Color::Blue, Value::Four),
    ];
    let mut game = Game::deal(Deck::from_cards(cards), 1);
    assert_eq!(game.cards_left(), 0);
    assert!(game.take_action(Action::Discard(0), 0));
    assert!(game.is_over());
    let v = game.get_player_view(0).view;
    assert_eq!(v.state, Status::Lost);
    assert_eq!(v.turn, 0);
}

#[test]
fn refused_action_leaves_the_game_unchanged() {
    let mut game = three_player_game();
    assert!(game.take_action(Action::Discard(2), 0));
    let before: Vec<String> = (0..3).map(|i| format!("{:?}", game.get_player_view(i))).collect();
    let left = game.cards_left();
    assert!(!game.take_action(Action::Play(0), 0));
    assert!(!game.take_action(Action::Discard(6), 1));
    let after: Vec<String> = (0..3).map(|i| format!("{:?}", game.get_player_view(i))).collect();
    assert_eq!(before, after);
    assert_eq!(game.cards_left(), left);
}

#[test]
fn discard_pile_and_piles_only_grow() {
    let mut game = three_player_game();
    assert!(game.take_action(Action::Discard(0), 0));
    assert!(game.take_action(Action::Play(0), 1));
    let first = game.get_player_view(0).view;
    assert!(game.take_action(Action::Discard(4), 2));
    assert!(game.take_action(Action::Play(0), 0));
    let second = game.get_player_view(0).view;
    assert!(second.discard.len() >= first.discard.len());
    for (a, b) in first.discard.iter().zip(second.discard.iter()) {
        assert_eq!(a.color, b.color);
        assert_eq!(a.value, b.value);
    }
    for k in 0..6 {
        assert!(second.piles[k] >= first.piles[k]);
    }
    assert!(second.bombs >= first.bombs);
}

fn bobs_knowledge(game: &Game) -> Vec<(Option<Color>, Option<Value>)> {
    game.get_player_view(1).view.players[1].cards.iter().map(|c| (c.color, c.value)).collect()
}

#[test]
fn same_hint_twice_is_the_same_as_once() {
    let white = Hint::ColorHint(Color::White);
    let mut twice = three_player_game();
    assert!(twice.take_action(Action::GiveHint(white, 1), 0));
    assert!(twice.take_action(Action::GiveHint(Hint::ValueHint(Value::One), 2), 1));
    assert!(twice.take_action(Action::GiveHint(white, 1), 2));
    let mut once = three_player_game();
    assert!(once.take_action(Action::GiveHint(white, 1), 0));
    assert!(once.take_action(Action::GiveHint(Hint::ValueHint(Value::One), 2), 1));
    assert!(once.take_action(Action::Swap(0, 0), 2));
    assert_eq!(bobs_knowledge(&twice), bobs_knowledge(&once));
}

#[test]
fn color_and_value_hints_commute() {
    let white = Hint::ColorHint(Color::White);
    let four = Hint::ValueHint(Value::Four);
    let mut a = three_player_game();
    assert!(a.take_action(Action::GiveHint(white, 1), 0));
    assert!(a.take_action(Action::Swap(0, 0), 1));
    assert!(a.take_action(Action::GiveHint(four, 1), 2));
    let mut b = three_player_game();
    assert!(b.take_action(Action::GiveHint(four, 1), 0));
    assert!(b.take_action(Action::Swap(0, 0), 1));
    assert!(b.take_action(Action::GiveHint(white, 1), 2));
    let ka = bobs_knowledge(&a);
    assert_eq!(ka, bobs_knowledge(&b));
    assert_eq!(ka[2], (Some(Color::White), Some(Value::Four)));
    assert_eq!(ka[0], (Some(Color::White), None));
}
