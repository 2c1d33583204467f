use hanabi::deck::{init_count, Card, Color, Deck, Value};

const COLORS: [Color; 6] = [
    Color::White,
    Color::Yellow,
    Color::Red,
    Color::Blue,
    Color::Green,
    Color::Rainbow,
];
const VALUES: [Value; 5] = [Value::One, Value::Two, Value::Three, Value::Four, Value::Five];

fn draw_all(deck: &mut Deck) -> Vec<Card> {
    let mut cards = Vec::new();
    while let Some(c) = deck.draw() {
        cards.push(c);
    }
    cards
}

fn count(cards: &[Card], color: Color, value: Value) -> usize {
    cards.iter().filter(|c| c.color == color && c.value == value).count()
}

#[test]
fn init_count_gives_copies_per_value() {
    assert_eq!(init_count(Value::One), 3);
    assert_eq!(init_count(Value::Two), 2);
    assert_eq!(init_count(Value::Three), 2);
    assert_eq!(init_count(Value::Four), 2);
    assert_eq!(init_count(Value::Five), 1);
}

#[test]
fn full_deck_with_rainbow_has_sixty_cards_in_order() {
    let mut deck = Deck::initialize(true);
    assert_eq!(deck.len(), 60);
    let cards = draw_all(&mut deck);
    assert_eq!(cards.len(), 60);
    let mut k = 0;
    for color in COLORS.iter() {
        for value in VALUES.iter() {
            for _ in 0..init_count(*value) {
                assert_eq!(cards[k].color, *color);
                assert_eq!(cards[k].value, *value);
                k += 1;
            }
        }
    }
    assert_eq!(deck.len(), 0);
}

#[test]
fn deck_without_rainbow_has_fifty_cards() {
    let mut deck = Deck::initialize(false);
    let cards = draw_all(&mut deck);
    assert_eq!(cards.len(), 50);
    assert!(cards.iter().all(|c| c.color != Color::Rainbow));
    assert_eq!(cards[49].color, Color::Green);
    assert_eq!(cards[49].value, Value::Five);
    assert_eq!(cards[0].color, Color::White);
    assert_eq!(cards[0].value, Value::One);
}

#[test]
fn draw_takes_from_the_top_and_empty_deck_gives_none() {
    let mut deck = Deck::from_cards(vec![
        Card { color: Color::Red, value: Value::Two },
        Card { color: Color::Blue, value: Value::Five },
    ]);
    let a = deck.draw().unwrap();
    assert_eq!(a.color, Color::Red);
    assert_eq!(a.value, Value::Two);
    assert_eq!(deck.len(), 1);
    let b = deck.draw().unwrap();
    assert_eq!(b.color, Color::Blue);
    assert!(deck.draw().is_none());
    assert_eq!(deck.len(), 0);
}

#[test]
fn shuffle_keeps_the_cards_and_changes_the_order() {
    let mut fresh = Deck::initialize(true);
    let fresh_cards = draw_all(&mut fresh);
    let mut deck = Deck::initialize(true);
    deck.shuffle();
    deck.shuffle();
    assert_eq!(deck.len(), 60);
    let cards = draw_all(&mut deck);
    for color in COLORS.iter() {
        for value in VALUES.iter() {
            assert_eq!(
                count(&cards, *color, *value),
                init_count(*value) as usize
            );
        }
    }
    let same_order = cards
        .iter()
        .zip(fresh_cards.iter())
        .all(|(a, b)| a.color == b.color && a.value == b.value);
    assert!(!same_order);
}

#[test]
fn names_and_numbers_of_colors_and_values() {
    assert_eq!(Color::Rainbow.name(), "Rainbow");
    assert_eq!(Color::White.name(), "White");
    assert_eq!(Value::Three.name(), "Three");
    assert_eq!(Color::Blue.index(), 3);
    assert_eq!(Color::from_index(4), Color::Green);
    assert_eq!(Value::Four.number(), 4);
    assert_eq!(Value::from_number(2), Value::Two);
}

#[test]
fn cards_and_decks_print_as_lists() {
    let c = Card { color: Color::Red, value: Value::Four };
    assert_eq!(c.to_string(), "(Red, Four)");
    let deck = Deck::from_cards(vec![c, Card { color: Color::Rainbow, value: Value::One }]);
    assert_eq!(deck.to_string(), "[(Red, Four), (Rainbow, One)]");
    assert_eq!(Deck::from_cards(Vec::new()).to_string(), "[]");
    let fresh = Deck::initialize(false).to_string();
    assert!(fresh.starts_with("[(White, One), (White, One), (White, One), (White, Two)"));
    assert!(fresh.ends_with("(Green, Five)]"));
}
