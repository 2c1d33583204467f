//! Cards, colors, values and the deck they are dealt from.

use rand::seq::SliceRandom;
use std::collections::VecDeque;
use vstd::prelude::*;

verus! {

/// The colors of the cards; `Rainbow` is the optional sixth suit.
#[derive(Copy, Clone, Debug, PartialEq, Eq, Structural)]
pub enum Color {
    White,
    Yellow,
    Red,
    Blue,
    Green,
    Rainbow,
}

/// The values of the cards, from one to five.
#[derive(Copy, Clone, Debug, PartialEq, Eq, Structural)]
pub enum Value {
    One,
    Two,
    Three,
    Four,
    Five,
}

/// The pile index of a color, 0 for White up to 5 for Rainbow.
pub open spec fn color_index(c: Color) -> int {
    match c {
        Color::White => 0,
        Color::Yellow => 1,
        Color::Red => 2,
        Color::Blue => 3,
        Color::Green => 4,
        Color::Rainbow => 5,
    }
}

/// The color whose pile index is `i` (meaningful for `0 <= i < 6`).
pub open spec fn color_at(i: int) -> Color {
    if i == 0 {
        Color::White
    } else if i == 1 {
        Color::Yellow
    } else if i == 2 {
        Color::Red
    } else if i == 3 {
        Color::Blue
    } else if i == 4 {
        Color::Green
    } else {
        Color::Rainbow
    }
}

/// The number a value stands for, 1 to 5.
pub open spec fn value_number(v: Value) -> int {
    match v {
        Value::One => 1,
        Value::Two => 2,
        Value::Three => 3,
        Value::Four => 4,
        Value::Five => 5,
    }
}

/// The value that stands for the number `n` (meaningful for `1 <= n <= 5`).
pub open spec fn value_of_number(n: int) -> Value {
    if n <= 1 {
        Value::One
    } else if n == 2 {
        Value::Two
    } else if n == 3 {
        Value::Three
    } else if n == 4 {
        Value::Four
    } else {
        Value::Five
    }
}

/// The name a color is printed with.
pub open spec fn color_name(c: Color) -> Seq<char> {
    match c {
        Color::White => "White"@,
        Color::Yellow => "Yellow"@,
        Color::Red => "Red"@,
        Color::Blue => "Blue"@,
        Color::Green => "Green"@,
        Color::Rainbow => "Rainbow"@,
    }
}

/// The name a value is printed with.
pub open spec fn value_name(v: Value) -> Seq<char> {
    match v {
        Value::One => "One"@,
        Value::Two => "Two"@,
        Value::Three => "Three"@,
        Value::Four => "Four"@,
        Value::Five => "Five"@,
    }
}

impl Color {
    /// The index of this color's pile.
    pub fn index(&self) -> (i: usize)
        ensures
            i == color_index(*self),
    {
        match self {
            Color::White => 0,
            Color::Yellow => 1,
            Color::Red => 2,
            Color::Blue => 3,
            Color::Green => 4,
            Color::Rainbow => 5,
        }
    }

    /// The color of the pile with index `i`.
    pub fn from_index(i: usize) -> (c: Color)
        requires
            i < 6,
        ensures
            c == color_at(i as int),
            color_index(c) == i,
    {
        if i == 0 {
            Color::White
        } else if i == 1 {
            Color::Yellow
        } else if i == 2 {
            Color::Red
        } else if i == 3 {
            Color::Blue
        } else if i == 4 {
            Color::Green
        } else {
            Color::Rainbow
        }
    }

    /// The printed name of this color.
    pub fn name(&self) -> (s: &'static str)
        ensures
            s@ == color_name(*self),
    {
        match self {
            Color::White => {
                proof { reveal_strlit("White"); }
                "White"
            },
            Color::Yellow => {
                proof { reveal_strlit("Yellow"); }
                "Yellow"
            },
            Color::Red => {
                proof { reveal_strlit("Red"); }
                "Red"
            },
            Color::Blue => {
                proof { reveal_strlit("Blue"); }
                "Blue"
            },
            Color::Green => {
                proof { reveal_strlit("Green"); }
                "Green"
            },
            Color::Rainbow => {
                proof { reveal_strlit("Rainbow"); }
                "Rainbow"
            },
        }
    }
}

impl Value {
    /// The number this value stands for.
    pub fn number(&self) -> (n: usize)
        ensures
            n == value_number(*self),
    {
        match self {
            Value::One => 1,
            Value::Two => 2,
            Value::Three => 3,
            Value::Four => 4,
            Value::Five => 5,
        }
    }

    /// The value standing for the number `n`.
    pub fn from_number(n: usize) -> (v: Value)
        requires
            1 <= n <= 5,
        ensures
            v == value_of_number(n as int),
            value_number(v) == n,
    {
        if n == 1 {
            Value::One
        } else if n == 2 {
            Value::Two
        } else if n == 3 {
            Value::Three
        } else if n == 4 {
            Value::Four
        } else {
            Value::Five
        }
    }

    /// The printed name of this value.
    pub fn name(&self) -> (s: &'static str)
        ensures
            s@ == value_name(*self),
    {
        match self {
            Value::One => {
                proof { reveal_strlit("One"); }
                "One"
            },
            Value::Two => {
                proof { reveal_strlit("Two"); }
                "Two"
            },
            Value::Three => {
                proof { reveal_strlit("Three"); }
                "Three"
            },
            Value::Four => {
                proof { reveal_strlit("Four"); }
                "Four"
            },
            Value::Five => {
                proof { reveal_strlit("Five"); }
                "Five"
            },
        }
    }
}

/// A single card.
#[derive(Copy, Clone, Debug)]
pub struct Card {
    pub color: Color,
    pub value: Value,
}

/// How many copies of a value each color has.
pub open spec fn spec_init_count(v: Value) -> int {
    match v {
        Value::One => 3,
        Value::Two | Value::Three | Value::Four => 2,
        Value::Five => 1,
    }
}

/// How many copies of a value each color has: three ones, two each of
/// twos, threes and fours, and a single five.
pub fn init_count(val: Value) -> (n: i32)
    ensures
        n == spec_init_count(val),
{
    match val {
        Value::One => 3,
        Value::Two | Value::Three | Value::Four => 2,
        Value::Five => 1,
    }
}


/// `init_count(v)` copies of the card of color `c` and value `v`.
pub open spec fn copies(c: Color, v: Value) -> Seq<Card> {
    Seq::new(spec_init_count(v) as nat, |i: int| Card { color: c, value: v })
}

/// The ten cards of one color, ordered by value.
pub open spec fn color_cards(c: Color) -> Seq<Card> {
    copies(c, Value::One) + copies(c, Value::Two) + copies(c, Value::Three) + copies(c, Value::Four)
        + copies(c, Value::Five)
}

/// The cards of a fresh deck, ordered by color and then by value; the
/// rainbow cards come last and only when they are asked for.
pub open spec fn full_deck(include_rainbow: bool) -> Seq<Card> {
    color_cards(Color::White) + color_cards(Color::Yellow) + color_cards(Color::Red) + color_cards(
        Color::Blue,
    ) + color_cards(Color::Green) + if include_rainbow {
        color_cards(Color::Rainbow)
    } else {
        Seq::<Card>::empty()
    }
}

/// The cards of the first `k` colors of a fresh deck.
spec fn deck_prefix(include_rainbow: bool, k: int) -> Seq<Card>
    decreases k,
{
    if k <= 0 {
        Seq::<Card>::empty()
    } else if !include_rainbow && color_at(k - 1) == Color::Rainbow {
        deck_prefix(include_rainbow, k - 1)
    } else {
        deck_prefix(include_rainbow, k - 1) + color_cards(color_at(k - 1))
    }
}

/// The cards of one color whose values come before the number `n`.
spec fn values_prefix(c: Color, n: int) -> Seq<Card>
    decreases n,
{
    if n <= 1 {
        Seq::<Card>::empty()
    } else {
        values_prefix(c, n - 1) + copies(c, value_of_number(n - 1))
    }
}

proof fn lemma_values_prefix_full(c: Color)
    ensures
        values_prefix(c, 6) == color_cards(c),
{
    reveal_with_fuel(values_prefix, 7);
    assert(values_prefix(c, 6) =~= color_cards(c));
}

proof fn lemma_deck_prefix_full(include_rainbow: bool)
    ensures
        deck_prefix(include_rainbow, 6) == full_deck(include_rainbow),
{
    reveal_with_fuel(deck_prefix, 7);
    assert(deck_prefix(include_rainbow, 6) =~= full_deck(include_rainbow));
}

/// A deck of cards; the front of the sequence is the top of the deck.
#[derive(Debug)]
pub struct Deck(VecDeque<Card>);

impl View for Deck {
    type V = Seq<Card>;

    closed spec fn view(&self) -> Seq<Card> {
        self.0@
    }
}

impl Deck {
    /// A fresh, unshuffled deck: for each color in order (White, Yellow,
    /// Red, Blue, Green, and Rainbow only if `include_rainbow`), three
    /// ones, two twos, two threes, two fours and one five.
    pub fn initialize(include_rainbow: bool) -> (deck: Deck)
        ensures
            deck@ == full_deck(include_rainbow),
    {
        let mut cards = VecDeque::<Card>::with_capacity(60);
        let mut ci: usize = 0;
        while ci < 6
            invariant
                ci <= 6,
                cards@ == deck_prefix(include_rainbow, ci as int),
            decreases 6 - ci,
        {
            let color = Color::from_index(ci);
            if include_rainbow || color != Color::Rainbow {
                let mut vi: usize = 1;
                while vi <= 5
                    invariant
                        1 <= vi <= 6,
                        ci < 6,
                        color == color_at(ci as int),
                        cards@ == deck_prefix(include_rainbow, ci as int) + values_prefix(
                            color,
                            vi as int,
                        ),
                    decreases 6 - vi,
                {
                    let val = Value::from_number(vi);
                    let n = init_count(val);
                    let mut i: i32 = 0;
                    while i < n
                        invariant
                            0 <= i <= n,
                            n == spec_init_count(val),
                            1 <= vi <= 5,
                            val == value_of_number(vi as int),
                            cards@ == deck_prefix(include_rainbow, ci as int) + values_prefix(
                                color,
                                vi as int,
                            ) + Seq::new(i as nat, |j: int| Card { color: color, value: val }),
                        decreases n - i,
                    {
                        cards.push_back(Card { color: color, value: val });
                        i = i + 1;
                        assert(cards@ =~= deck_prefix(include_rainbow, ci as int) + values_prefix(
                            color,
                            vi as int,
                        ) + Seq::new(i as nat, |j: int| Card { color: color, value: val }));
                    }
                    assert(values_prefix(color, vi + 1) == values_prefix(color, vi as int)
                        + copies(color, val));
                    assert(cards@ =~= deck_prefix(include_rainbow, ci as int) + values_prefix(
                        color,
                        vi + 1,
                    ));
                    vi = vi + 1;
                }
                proof {
                    lemma_values_prefix_full(color);
                }
                assert(cards@ =~= deck_prefix(include_rainbow, ci + 1));
            } else {
                assert(cards@ =~= deck_prefix(include_rainbow, ci + 1));
            }
            ci = ci + 1;
        }
        proof {
            lemma_deck_prefix_full(include_rainbow);
        }
        Deck(cards)
    }

    /// Shuffles the deck at random.
    ///
    /// Calls `SliceRandom::shuffle` of the `rand` crate with the thread's
    /// generator on the front slice of the deck. Claimed: the deck keeps
    /// exactly the same cards (a Fisher-Yates shuffle only swaps). The
    /// order that comes out is left unsaid: it rests on chance.
    #[verifier::external_body]
    pub fn shuffle(&mut self)
        ensures
            final(self)@.len() == old(self)@.len(),
            final(self)@.to_multiset() == old(self)@.to_multiset(),
    {
        let mut rng = rand::thread_rng();
        self.0.as_mut_slices().0.shuffle(&mut rng);
    }

    /// Takes the top card of the deck, if there is one.
    pub fn draw(&mut self) -> (card: Option<Card>)
        ensures
            match card {
                Some(c) => {
                    &&& old(self)@.len() > 0
                    &&& c == old(self)@[0]
                    &&& final(self)@ == old(self)@.drop_first()
                },
                None => {
                    &&& old(self)@.len() == 0
                    &&& final(self)@ == old(self)@
                },
            },
    {
        let c = self.0.pop_front();
        proof {
            if c.is_some() {
                assert(self.0@ =~= old(self)@.drop_first());
            }
        }
        c
    }

    /// A deck holding exactly `cards`, the first one on top.
    pub fn from_cards(cards: Vec<Card>) -> (deck: Deck)
        ensures
            deck@ == cards@,
    {
        let mut d = VecDeque::<Card>::new();
        let mut i: usize = 0;
        while i < cards.len()
            invariant
                i <= cards.len(),
                d@ == cards@.subrange(0, i as int),
            decreases cards.len() - i,
        {
            d.push_back(cards[i]);
            i = i + 1;
            assert(d@ =~= cards@.subrange(0, i as int));
        }
        assert(cards@.subrange(0, cards.len() as int) =~= cards@);
        Deck(d)
    }

    /// The number of cards left in the deck.
    pub fn len(&self) -> (n: usize)
        ensures
            n == self@.len(),
    {
        self.0.len()
    }
}

/// How a card is printed: its color and value in parentheses.
pub open spec fn card_text(c: Card) -> Seq<char> {
    "("@ + color_name(c.color) + ", "@ + value_name(c.value) + ")"@
}

/// The printed cards of `cards`, separated by commas.
pub open spec fn cards_text(cards: Seq<Card>) -> Seq<char>
    decreases cards.len(),
{
    if cards.len() == 0 {
        Seq::empty()
    } else if cards.len() == 1 {
        card_text(cards[0])
    } else {
        cards_text(cards.drop_last()) + ", "@ + card_text(cards.last())
    }
}

impl Card {
    /// The card printed as `(Color, Value)`.
    pub fn to_string(&self) -> (s: String)
        ensures
            s@ == card_text(*self),
    {
        let mut s = String::from_str("(");
        s.append(self.color.name());
        s.append(", ");
        s.append(self.value.name());
        s.append(")");
        s
    }
}

impl Deck {
    /// The deck printed as a bracketed, comma-separated list of its cards,
    /// the top card first.
    pub fn to_string(&self) -> (s: String)
        ensures
            s@ == "["@ + cards_text(self@) + "]"@,
    {
        let mut body = String::new();
        let mut i: usize = 0;
        while i < self.0.len()
            invariant
                i <= self@.len(),
                body@ == cards_text(self@.take(i as int)),
            decreases self@.len() - i,
        {
            assert(self@.take(i + 1).drop_last() =~= self@.take(i as int));
            if i != 0 {
                body.append(", ");
            } else {
                assert(body@ =~= Seq::<char>::empty());
            }
            body.append(self.0[i].to_string().as_str());
            i = i + 1;
        }
        assert(self@.take(self@.len() as int) =~= self@);
        let mut s = String::from_str("[");
        s.append(body.as_str());
        s.append("]");
        s
    }
}

} // verus!
