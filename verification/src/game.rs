//! The rules of the game: dealing, hints, plays, discards and the end of
//! the game.

use crate::deck::{
    color_index, color_name, full_deck, spec_init_count, value_name, value_number,
    Card, Color, Deck, Value, init_count,
};
use crate::laws::{cards_in_play, lemma_deal_keeps_cards, lemma_take_action_keeps_cards};
use crate::view::{card_view_for, shows_player, CardView, GameView, PlayerView, Update};
use std::collections::VecDeque;
use vstd::prelude::*;

verus! {

/// A hint that one player gives another about the cards in their hand.
#[derive(Clone, Copy, Debug)]
pub enum Hint {
    ColorHint(Color),
    ValueHint(Value),
}

/// What a player can do on their turn.
#[derive(Clone, Copy, Debug)]
pub enum Action {
    /// Discard the card at this position of one's hand.
    Discard(usize),
    /// Play the card at this position of one's hand onto its pile.
    Play(usize),
    /// Give the hint to the player with this index.
    GiveHint(Hint, usize),
    /// Swap the cards at these two positions of one's hand.
    Swap(usize, usize),
}

/// Whether the game is still running, and how it ended.
#[derive(Clone, Copy, Debug, PartialEq, Eq, Structural)]
pub enum Status {
    Won,
    Lost,
    Playing,
}

/// The mathematical state of one player.
#[verifier::ext_equal]
pub struct PlayerModel {
    pub name: Seq<char>,
    /// What the player has been told about the color at each hand position.
    pub known_colors: Seq<Option<Color>>,
    /// What the player has been told about the value at each hand position.
    pub known_values: Seq<Option<Value>>,
    pub hand: Seq<Card>,
}

/// The mathematical state of a game.
#[verifier::ext_equal]
pub struct GameModel {
    /// The cards still to be drawn, the top one first.
    pub deck: Seq<Card>,
    pub discard: Seq<Card>,
    pub hints_left: usize,
    pub bombs: usize,
    /// The index of the player whose turn it is.
    pub turn: usize,
    pub players: Seq<PlayerModel>,
    /// For each color (by `color_index`), the highest value played on it.
    pub piles: Seq<usize>,
    pub state: Status,
    pub last_action: Option<Seq<char>>,
}

impl PlayerModel {
    /// A player's state is well formed: at most five cards, and what the
    /// player knows of each card is true of it; positions past the end of
    /// the hand carry no knowledge.
    pub open spec fn wf(self) -> bool {
        &&& self.hand.len() <= 5
        &&& self.known_colors.len() == 5
        &&& self.known_values.len() == 5
        &&& forall|j: int|
            0 <= j < self.hand.len() ==> (#[trigger] self.known_colors[j] matches Some(c)
                ==> self.hand[j].color == c)
        &&& forall|j: int|
            0 <= j < self.hand.len() ==> (#[trigger] self.known_values[j] matches Some(v)
                ==> self.hand[j].value == v)
        &&& forall|j: int|
            self.hand.len() <= j < 5 ==> #[trigger] self.known_colors[j] is None
                && self.known_values[j] is None
    }
}

/// The knowledge sequence after the card at `i` leaves a hand of `len`
/// cards: later entries move one place forward and the last place of the
/// hand is cleared.
pub open spec fn shift_out<T>(known: Seq<Option<T>>, i: int, len: int) -> Seq<Option<T>> {
    Seq::new(
        known.len(),
        |j: int|
            if j < i {
                known[j]
            } else if j < len - 1 {
                known[j + 1]
            } else if j == len - 1 {
                None
            } else {
                known[j]
            },
    )
}

/// The player after the card at position `i` has left their hand.
pub open spec fn player_after_use(p: PlayerModel, i: int) -> PlayerModel {
    PlayerModel {
        name: p.name,
        known_colors: shift_out(p.known_colors, i, p.hand.len() as int),
        known_values: shift_out(p.known_values, i, p.hand.len() as int),
        hand: p.hand.remove(i),
    }
}

/// The player after drawing the top card of `deck`, if there is one.
pub open spec fn player_after_draw(p: PlayerModel, deck: Seq<Card>) -> PlayerModel {
    if deck.len() > 0 {
        PlayerModel { hand: p.hand.push(deck[0]), ..p }
    } else {
        p
    }
}

/// The deck after a draw.
pub open spec fn deck_after_draw(deck: Seq<Card>) -> Seq<Card> {
    if deck.len() > 0 {
        deck.drop_first()
    } else {
        deck
    }
}

/// The player after receiving `hint`: every card of the hinted color (or
/// value) becomes known to have it.
pub open spec fn player_after_hint(p: PlayerModel, hint: Hint) -> PlayerModel {
    match hint {
        Hint::ColorHint(c) => PlayerModel {
            known_colors: Seq::new(
                p.known_colors.len(),
                |j: int|
                    if j < p.hand.len() && p.hand[j].color == c {
                        Some(c)
                    } else {
                        p.known_colors[j]
                    },
            ),
            ..p
        },
        Hint::ValueHint(v) => PlayerModel {
            known_values: Seq::new(
                p.known_values.len(),
                |j: int|
                    if j < p.hand.len() && p.hand[j].value == v {
                        Some(v)
                    } else {
                        p.known_values[j]
                    },
            ),
            ..p
        },
    }
}

/// `s` with the entries at `i` and `j` exchanged.
pub open spec fn seq_swap<T>(s: Seq<T>, i: int, j: int) -> Seq<T> {
    s.update(i, s[j]).update(j, s[i])
}

/// The player after swapping the cards at positions `i` and `j`, together
/// with what they know of them.
pub open spec fn player_after_swap(p: PlayerModel, i: int, j: int) -> PlayerModel {
    PlayerModel {
        name: p.name,
        known_colors: seq_swap(p.known_colors, i, j),
        known_values: seq_swap(p.known_values, i, j),
        hand: seq_swap(p.hand, i, j),
    }
}

/// A fresh player holding `hand`, with no name and no knowledge.
pub open spec fn fresh_player(hand: Seq<Card>) -> PlayerModel {
    PlayerModel {
        name: Seq::empty(),
        known_colors: Seq::new(5, |j: int| None),
        known_values: Seq::new(5, |j: int| None),
        hand: hand,
    }
}

/// The game dealt from `deck` to `n` players: player `i` gets the cards at
/// positions `5 i` to `5 i + 4`, the rest stays in the deck.
pub open spec fn deal_model(deck: Seq<Card>, n: nat) -> GameModel {
    GameModel {
        deck: deck.skip(5 * n as int),
        discard: Seq::empty(),
        hints_left: 8,
        bombs: 0,
        turn: 0,
        players: Seq::new(n, |i: int| fresh_player(deck.subrange(5 * i, 5 * i + 5))),
        piles: Seq::new(6, |k: int| 0usize),
        state: Status::Playing,
        last_action: None,
    }
}

/// How many cards of `s` are equal to `c`.
pub open spec fn count_of(s: Seq<Card>, c: Card) -> nat
    decreases s.len(),
{
    if s.len() == 0 {
        0
    } else {
        count_of(s.drop_last(), c) + if s.last() == c {
            1nat
        } else {
            0nat
        }
    }
}

/// Every pile has reached five.
pub open spec fn all_piles_full(piles: Seq<usize>) -> bool {
    forall|k: int| 0 <= k < piles.len() ==> #[trigger] piles[k] == 5
}

/// Every player holds fewer than five cards.
pub open spec fn all_hands_short(players: Seq<PlayerModel>) -> bool {
    forall|i: int| 0 <= i < players.len() ==> #[trigger] players[i].hand.len() < 5
}

/// The status after a move whose result is `g`, where `discarded` is the
/// card that went to the discard pile, if any: won once every pile is
/// full; otherwise lost when the last copy of the discarded card is gone,
/// when the third bomb went off, or when every hand is short of cards.
pub open spec fn status_after(g: GameModel, discarded: Option<Card>) -> Status {
    if all_piles_full(g.piles) {
        Status::Won
    } else {
        let s1 = match discarded {
            Some(c) => if spec_init_count(c.value) - count_of(g.discard, c) == 0 {
                Status::Lost
            } else {
                g.state
            },
            None => g.state,
        };
        let s2 = if g.bombs == 3 {
            Status::Lost
        } else {
            s1
        };
        if all_hands_short(g.players) {
            Status::Lost
        } else {
            s2
        }
    }
}

impl GameModel {
    /// A game's state is well formed.
    pub open spec fn wf(self) -> bool {
        &&& self.hints_left <= 8
        &&& self.bombs <= 3
        &&& (self.state == Status::Playing ==> self.bombs < 3)
        &&& (self.bombs == 3 ==> self.state == Status::Lost)
        &&& (self.state == Status::Won <==> all_piles_full(self.piles))
        &&& (self.turn < self.players.len() || self.players.len() == 0)
        &&& self.players.len() <= usize::MAX
        &&& self.piles.len() == 6
        &&& forall|k: int| 0 <= k < 6 ==> #[trigger] self.piles[k] <= 5
        &&& forall|i: int| 0 <= i < self.players.len() ==> (#[trigger] self.players[i]).wf()
    }

    /// The game is over, won or lost.
    pub open spec fn over(self) -> bool {
        self.state != Status::Playing
    }

    /// The index of the player who moves after the current one.
    pub open spec fn next_turn(self) -> usize {
        ((self.turn + 1) % (self.players.len() as int)) as usize
    }
}

/// The game after player `player` has been given the name `name`.
pub open spec fn with_name(g: GameModel, player: int, name: Seq<char>) -> GameModel {
    GameModel {
        players: g.players.update(player, PlayerModel { name: name, ..g.players[player] }),
        ..g
    }
}

/// The game after the player `actor` draws the top card of the deck.
pub open spec fn after_draw(g: GameModel, actor: int) -> GameModel {
    GameModel {
        deck: deck_after_draw(g.deck),
        players: g.players.update(actor, player_after_draw(g.players[actor], g.deck)),
        ..g
    }
}

/// The game after the card at `index` has left the hand of `actor`.
pub open spec fn after_use(g: GameModel, actor: int, index: int) -> GameModel {
    GameModel { players: g.players.update(actor, player_after_use(g.players[actor], index)), ..g }
}

/// The game with the state decided by `status_after`.
pub open spec fn with_status(g: GameModel, discarded: Option<Card>) -> GameModel {
    GameModel { state: status_after(g, discarded), ..g }
}

/// One more hint token, up to the limit of eight.
pub open spec fn raise_hints(h: usize) -> usize {
    if h + 1 < 8 {
        (h + 1) as usize
    } else {
        8
    }
}

/// How a hint is described in the log of actions.
pub open spec fn hint_text(hint: Hint) -> Seq<char> {
    match hint {
        Hint::ColorHint(c) => "color "@ + color_name(c),
        Hint::ValueHint(v) => "value "@ + value_name(v),
    }
}

/// The result of `actor` discarding the card at `index`: the card goes
/// to the discard pile, the player draws, one hint token comes back (up
/// to eight), the action is logged, the status is updated and the turn
/// passes on.
pub open spec fn discard_result(g: GameModel, actor: int, index: int) -> GameModel {
    let card = g.players[actor].hand[index];
    let g1 = after_draw(after_use(g, actor, index), actor);
    let g2 = GameModel {
        discard: g.discard.push(card),
        hints_left: raise_hints(g.hints_left),
        last_action: Some(
            g.players[actor].name + " discarded "@ + color_name(card.color) + " "@ + value_name(
                card.value,
            ),
        ),
        ..g1
    };
    GameModel { state: status_after(g2, Some(card)), turn: g.next_turn(), ..g2 }
}

/// Whether `card` is the next card its pile needs.
pub open spec fn playable(piles: Seq<usize>, card: Card) -> bool {
    piles[color_index(card.color)] + 1 == value_number(card.value)
}

/// The result of `actor` playing the card at `index`. A card that its
/// pile needs is laid on the pile (a five also brings a hint token back);
/// any other card goes to the discard pile and sets off a bomb. Either
/// way the player draws, the status is updated, the play is logged and
/// the turn passes on.
pub open spec fn play_result(g: GameModel, actor: int, index: int) -> GameModel {
    let card = g.players[actor].hand[index];
    let g1 = after_use(g, actor, index);
    let log = Some(
        g.players[actor].name + " played "@ + color_name(card.color) + " "@ + value_name(
            card.value,
        ),
    );
    if playable(g.piles, card) {
        let g2 = after_draw(
            GameModel {
                piles: g.piles.update(color_index(card.color), value_number(card.value) as usize),
                hints_left: if card.value == Value::Five {
                    raise_hints(g.hints_left)
                } else {
                    g.hints_left
                },
                ..g1
            },
            actor,
        );
        GameModel { state: status_after(g2, None), last_action: log, turn: g.next_turn(), ..g2 }
    } else {
        let g2 = after_draw(
            GameModel { discard: g.discard.push(card), bombs: (g.bombs + 1) as usize, ..g1 },
            actor,
        );
        GameModel {
            state: status_after(g2, Some(card)),
            last_action: log,
            turn: g.next_turn(),
            ..g2
        }
    }
}

/// The result of `actor` giving `hint` to player `other`: one hint token
/// is spent, the receiver learns the hinted cards, the hint is logged and
/// the turn passes on.
pub open spec fn hint_result(g: GameModel, actor: int, hint: Hint, other: int) -> GameModel {
    GameModel {
        players: g.players.update(other, player_after_hint(g.players[other], hint)),
        hints_left: (g.hints_left - 1) as usize,
        last_action: Some(
            g.players[actor].name + " gave a hint about cards with the "@ + hint_text(hint)
                + " to "@ + g.players[other].name,
        ),
        turn: g.next_turn(),
        ..g
    }
}

/// The result of `actor` swapping two cards of their hand; the turn
/// passes on.
pub open spec fn swap_result(g: GameModel, actor: int, i: int, j: int) -> GameModel {
    GameModel {
        players: g.players.update(actor, player_after_swap(g.players[actor], i, j)),
        turn: g.next_turn(),
        ..g
    }
}

/// What `take_action` does: `None` when the action is refused (the game
/// is over; it is not the actor's turn and the action is not a swap; the
/// position is not in the hand; no hint token is left), otherwise the
/// game that results.
pub open spec fn take_action_spec(g: GameModel, action: Action, actor: int) -> Option<GameModel> {
    if g.over() {
        None
    } else if actor != g.turn && !(action is Swap) {
        None
    } else {
        let hand_len = g.players[actor].hand.len();
        match action {
            Action::Discard(index) => if index >= hand_len {
                None
            } else {
                Some(discard_result(g, actor, index as int))
            },
            Action::Play(index) => if index >= hand_len {
                None
            } else {
                Some(play_result(g, actor, index as int))
            },
            Action::GiveHint(hint, other) => if g.hints_left == 0 {
                None
            } else {
                Some(hint_result(g, actor, hint, other as int))
            },
            Action::Swap(i, j) => if i >= hand_len || j >= hand_len {
                None
            } else {
                Some(swap_result(g, actor, i as int, j as int))
            },
        }
    }
}

/// The inputs on which `take_action` would index past the players: the
/// actor must be a player whenever the action gets past the turn check,
/// and so must the receiver of a hint that can be paid for.
pub open spec fn take_action_in_bounds(g: GameModel, action: Action, actor: int) -> bool {
    &&& (!g.over() && (actor == g.turn || action is Swap)) ==> 0 <= actor < g.players.len()
    &&& (!g.over() && actor == g.turn && g.hints_left > 0) ==> match action {
        Action::GiveHint(_, other) => other < g.players.len(),
        _ => true,
    }
}

proof fn lemma_use_wf(p: PlayerModel, i: int)
    requires
        p.wf(),
        0 <= i < p.hand.len(),
    ensures
        player_after_use(p, i).wf(),
        player_after_use(p, i).hand.len() == p.hand.len() - 1,
{
    let q = player_after_use(p, i);
    assert forall|j: int| 0 <= j < q.hand.len() implies (#[trigger] q.known_colors[j] matches Some(
        c,
    ) ==> q.hand[j].color == c) by {
        if j >= i {
            assert(q.hand[j] == p.hand[j + 1]);
        }
    }
    assert forall|j: int| 0 <= j < q.hand.len() implies (#[trigger] q.known_values[j] matches Some(
        v,
    ) ==> q.hand[j].value == v) by {
        if j >= i {
            assert(q.hand[j] == p.hand[j + 1]);
        }
    }
}

proof fn lemma_draw_wf(p: PlayerModel, deck: Seq<Card>)
    requires
        p.wf(),
        p.hand.len() < 5,
    ensures
        player_after_draw(p, deck).wf(),
{
    let q = player_after_draw(p, deck);
    if deck.len() > 0 {
        assert forall|j: int| 0 <= j < q.hand.len() implies (#[trigger] q.known_colors[j] matches Some(
            c,
        ) ==> q.hand[j].color == c) by {
            if j == p.hand.len() {
                assert(p.known_colors[j] is None);
            }
        }
        assert forall|j: int| 0 <= j < q.hand.len() implies (#[trigger] q.known_values[j] matches Some(
            v,
        ) ==> q.hand[j].value == v) by {
            if j == p.hand.len() {
                assert(p.known_colors[j] is None && p.known_values[j] is None);
            }
        }
    }
}

proof fn lemma_hint_wf(p: PlayerModel, hint: Hint)
    requires
        p.wf(),
    ensures
        player_after_hint(p, hint).wf(),
        player_after_hint(p, hint).hand == p.hand,
        player_after_hint(p, hint).name == p.name,
{
}

proof fn lemma_swap_wf(p: PlayerModel, i: int, j: int)
    requires
        p.wf(),
        0 <= i < p.hand.len(),
        0 <= j < p.hand.len(),
    ensures
        player_after_swap(p, i, j).wf(),
        player_after_swap(p, i, j).hand.len() == p.hand.len(),
{
}

/// Every accepted action keeps the game well formed; together with
/// `Game::deal` (and so `Game::new`) and `Game::set_name`, which produce
/// and keep well-formed games, every game reachable by a sequence of
/// calls is well formed.
pub proof fn lemma_take_action_keeps_wf(g: GameModel, action: Action, actor: int)
    requires
        g.wf(),
        take_action_in_bounds(g, action, actor),
    ensures
        take_action_spec(g, action, actor) matches Some(next) ==> next.wf(),
{
    match take_action_spec(g, action, actor) {
        None => {},
        Some(next) => {
            match action {
                Action::Discard(index) => {
                    let i = index as int;
                    let p1 = player_after_use(g.players[actor], i);
                    lemma_use_wf(g.players[actor], i);
                    lemma_draw_wf(p1, g.deck);
                    let g1 = after_draw(after_use(g, actor, i), actor);
                    assert(g1.players[actor] == player_after_draw(p1, g.deck));
                    assert forall|k: int| 0 <= k < next.players.len() implies (
                    #[trigger] next.players[k]).wf() by {
                        if k != actor {
                            assert(next.players[k] == g.players[k]);
                        }
                    }
                },
                Action::Play(index) => {
                    let i = index as int;
                    let card = g.players[actor].hand[i];
                    let p1 = player_after_use(g.players[actor], i);
                    lemma_use_wf(g.players[actor], i);
                    lemma_draw_wf(p1, g.deck);
                    assert(next.players[actor] == player_after_draw(p1, g.deck));
                    assert forall|k: int| 0 <= k < next.players.len() implies (
                    #[trigger] next.players[k]).wf() by {
                        if k != actor {
                            assert(next.players[k] == g.players[k]);
                        }
                    }
                    assert forall|k: int| 0 <= k < 6 implies #[trigger] next.piles[k] <= 5 by {
                        if k != color_index(card.color) {
                            assert(next.piles[k] == g.piles[k]);
                        }
                    }
                },
                Action::GiveHint(hint, other) => {
                    let o = other as int;
                    lemma_hint_wf(g.players[o], hint);
                    assert forall|k: int| 0 <= k < next.players.len() implies (
                    #[trigger] next.players[k]).wf() by {
                        if k != o {
                            assert(next.players[k] == g.players[k]);
                        }
                    }
                },
                Action::Swap(i, j) => {
                    lemma_swap_wf(g.players[actor], i as int, j as int);
                    assert forall|k: int| 0 <= k < next.players.len() implies (
                    #[trigger] next.players[k]).wf() by {
                        if k != actor {
                            assert(next.players[k] == g.players[k]);
                        }
                    }
                },
            }
        },
    }
}

/// What well-formedness gives, and so what holds in every reachable game:
/// at most eight hint tokens and three bombs, three bombs mean the game is
/// lost, no pile above five, no hand above five cards, and the turn names
/// a player.
pub proof fn lemma_wf_bounds(g: GameModel)
    requires
        g.wf(),
    ensures
        g.hints_left <= 8,
        g.bombs <= 3,
        g.bombs == 3 ==> g.state == Status::Lost,
        forall|k: int| 0 <= k < 6 ==> #[trigger] g.piles[k] <= 5,
        forall|i: int| 0 <= i < g.players.len() ==> #[trigger] g.players[i].hand.len() <= 5,
        g.players.len() > 0 ==> g.turn < g.players.len(),
{
    assert forall|i: int| 0 <= i < g.players.len() implies #[trigger] g.players[i].hand.len() <= 5 by {
        assert(g.players[i].wf());
    }
}

/// One player of a game.
#[derive(Debug)]
struct Player {
    name: String,
    known_colors: [Option<Color>; 5],
    known_values: [Option<Value>; 5],
    hand: VecDeque<Card>,
}

impl View for Player {
    type V = PlayerModel;

    closed spec fn view(&self) -> PlayerModel {
        PlayerModel {
            name: self.name@,
            known_colors: self.known_colors@,
            known_values: self.known_values@,
            hand: self.hand@,
        }
    }
}

impl Player {
    /// Takes the card at `card_index` out of the hand; the knowledge of
    /// the later cards moves forward with them.
    fn use_card(&mut self, card_index: usize) -> (card: Card)
        requires
            old(self)@.wf(),
            card_index < old(self)@.hand.len(),
        ensures
            card == old(self)@.hand[card_index as int],
            final(self)@ == player_after_use(old(self)@, card_index as int),
    {
        let len = self.hand.len();
        let ghost kc0 = self.known_colors@;
        let ghost kv0 = self.known_values@;
        let mut i = card_index;
        while i < len - 1
            invariant
                card_index <= i,
                i < len,
                len <= 5,
                len == self.hand@.len(),
                self.hand@ == old(self)@.hand,
                self.name == old(self).name,
                kc0 == old(self)@.known_colors,
                kv0 == old(self)@.known_values,
                forall|j: int|
                    0 <= j < 5 ==> #[trigger] self.known_colors@[j] == if card_index <= j < i {
                        kc0[j + 1]
                    } else {
                        kc0[j]
                    },
                forall|j: int|
                    0 <= j < 5 ==> #[trigger] self.known_values@[j] == if card_index <= j < i {
                        kv0[j + 1]
                    } else {
                        kv0[j]
                    },
            decreases len - i,
        {
            self.known_colors[i] = self.known_colors[i + 1];
            self.known_values[i] = self.known_values[i + 1];
            i = i + 1;
        }
        self.known_colors[len - 1] = None;
        self.known_values[len - 1] = None;
        let card = self.hand.remove(card_index).unwrap();
        assert(self@.known_colors =~= shift_out(kc0, card_index as int, len as int));
        assert(self@.known_values =~= shift_out(kv0, card_index as int, len as int));
        card
    }

    /// Marks every card that the hint is about as known to have the hinted
    /// color or value.
    fn receive_hint(&mut self, hint: Hint)
        requires
            old(self)@.wf(),
        ensures
            final(self)@ == player_after_hint(old(self)@, hint),
    {
        let len = self.hand.len();
        let ghost p0 = self@;
        match hint {
            Hint::ColorHint(color) => {
                let mut i: usize = 0;
                while i < len
                    invariant
                        i <= len,
                        len <= 5,
                        len == p0.hand.len(),
                        p0.known_colors.len() == 5,
                        self.hand@ == p0.hand,
                        self.name@ == p0.name,
                        self.known_values@ == p0.known_values,
                        forall|j: int|
                            0 <= j < 5 ==> #[trigger] self.known_colors@[j] == if j < i
                                && p0.hand[j].color == color {
                                Some(color)
                            } else {
                                p0.known_colors[j]
                            },
                    decreases len - i,
                {
                    if self.hand[i].color == color {
                        self.known_colors[i] = Some(color);
                    }
                    i = i + 1;
                }
                assert(self@.known_colors =~= player_after_hint(p0, hint).known_colors);
                assert(self@ =~= player_after_hint(p0, hint));
            },
            Hint::ValueHint(value) => {
                let mut i: usize = 0;
                while i < len
                    invariant
                        i <= len,
                        len <= 5,
                        len == p0.hand.len(),
                        p0.known_values.len() == 5,
                        self.hand@ == p0.hand,
                        self.name@ == p0.name,
                        self.known_colors@ == p0.known_colors,
                        forall|j: int|
                            0 <= j < 5 ==> #[trigger] self.known_values@[j] == if j < i
                                && p0.hand[j].value == value {
                                Some(value)
                            } else {
                                p0.known_values[j]
                            },
                    decreases len - i,
                {
                    if self.hand[i].value == value {
                        self.known_values[i] = Some(value);
                    }
                    i = i + 1;
                }
                assert(self@.known_values =~= player_after_hint(p0, hint).known_values);
                assert(self@ =~= player_after_hint(p0, hint));
            },
        }
    }

    /// Swaps the cards at positions `i` and `j`, with what is known of
    /// them.
    fn swap_cards(&mut self, i: usize, j: usize)
        requires
            old(self)@.wf(),
            i < old(self)@.hand.len(),
            j < old(self)@.hand.len(),
        ensures
            final(self)@ == player_after_swap(old(self)@, i as int, j as int),
    {
        let ghost p0 = self@;
        swap_in_deque(&mut self.hand, i, j);
        swap_entries(&mut self.known_colors, i, j);
        swap_entries(&mut self.known_values, i, j);
        assert(self@ =~= player_after_swap(p0, i as int, j as int));
    }
}

/// Exchanges the cards at positions `i` and `j` of `cards`.
fn swap_in_deque(cards: &mut VecDeque<Card>, i: usize, j: usize)
    requires
        i < old(cards)@.len(),
        j < old(cards)@.len(),
    ensures
        final(cards)@ == seq_swap(old(cards)@, i as int, j as int),
{
    let ghost s0 = cards@;
    let ci = cards[i];
    let cj = cards[j];
    if i != j {
        cards.remove(j);
        cards.insert(j, ci);
        assert(cards@ =~= s0.update(j as int, ci));
        cards.remove(i);
        cards.insert(i, cj);
        assert(cards@ =~= s0.update(j as int, ci).update(i as int, cj));
    }
    assert(cards@ =~= seq_swap(s0, i as int, j as int));
}

/// Exchanges the entries at positions `i` and `j` of `a`.
fn swap_entries<T: Copy>(a: &mut [T; 5], i: usize, j: usize)
    requires
        i < 5,
        j < 5,
    ensures
        final(a)@ == seq_swap(old(a)@, i as int, j as int),
{
    let ghost s0 = a@;
    let x = a[i];
    let y = a[j];
    a[i] = y;
    a[j] = x;
    assert(a@ =~= seq_swap(s0, i as int, j as int));
}

/// A game of Hanabi.
#[derive(Debug)]
pub struct Game {
    deck: Deck,
    discard: VecDeque<Card>,
    hints_left: usize,
    bombs: usize,
    turn: usize,
    players: Vec<Player>,
    piles: [usize; 6],
    state: Status,
    last_action: Option<String>,
}

/// The view of an optional string.
pub open spec fn opt_string_view(s: Option<String>) -> Option<Seq<char>> {
    match s {
        Some(t) => Some(t@),
        None => None,
    }
}

impl View for Game {
    type V = GameModel;

    closed spec fn view(&self) -> GameModel {
        GameModel {
            deck: self.deck@,
            discard: self.discard@,
            hints_left: self.hints_left,
            bombs: self.bombs,
            turn: self.turn,
            players: self.players@.map_values(|p: Player| p@),
            piles: self.piles@,
            state: self.state,
            last_action: opt_string_view(self.last_action),
        }
    }
}

impl Game {
    /// Deals five cards from the top of `deck` to each of `num_players`
    /// players and sets up the rest of a new game.
    pub fn deal(deck: Deck, num_players: usize) -> (game: Game)
        requires
            deck@.len() >= 5 * num_players,
        ensures
            game@ == deal_model(deck@, num_players as nat),
            game@.wf(),
    {
        let mut deck = deck;
        let ghost d0 = deck@;
        let mut players: Vec<Player> = Vec::with_capacity(num_players);
        let mut pi: usize = 0;
        while pi < num_players
            invariant
                pi <= num_players,
                d0.len() >= 5 * num_players,
                deck@ == d0.skip(5 * pi),
                players@.len() == pi,
                forall|i: int|
                    0 <= i < pi ==> (#[trigger] players@[i])@ == fresh_player(
                        d0.subrange(5 * i, 5 * i + 5),
                    ),
            decreases num_players - pi,
        {
            let mut hand: VecDeque<Card> = VecDeque::with_capacity(5);
            let mut y: usize = 0;
            while y < 5
                invariant
                    y <= 5,
                    pi < num_players,
                    d0.len() >= 5 * num_players,
                    deck@ == d0.skip(5 * pi + y),
                    hand@ == d0.subrange(5 * pi, 5 * pi + y),
                decreases 5 - y,
            {
                let c = deck.draw();
                assert(deck@ =~= d0.skip(5 * pi + y + 1));
                hand.push_back(c.unwrap());
                y = y + 1;
                assert(hand@ =~= d0.subrange(5 * pi, 5 * pi + y));
            }
            let p = Player {
                name: String::new(),
                known_colors: [None; 5],
                known_values: [None; 5],
                hand: hand,
            };
            assert(p@.known_colors =~= Seq::new(5, |j: int| None::<Color>));
            assert(p@.known_values =~= Seq::new(5, |j: int| None::<Value>));
            players.push(p);
            pi = pi + 1;
        }
        let game = Game {
            deck: deck,
            discard: VecDeque::new(),
            hints_left: 8,
            bombs: 0,
            turn: 0,
            players: players,
            piles: [0; 6],
            state: Status::Playing,
            last_action: None,
        };
        assert(game@.players =~= deal_model(d0, num_players as nat).players);
        assert(game@.piles =~= deal_model(d0, num_players as nat).piles);
        assert(game@ =~= deal_model(d0, num_players as nat));
        // the piles start empty, so a fresh game is not won
        assert(!all_piles_full(game@.piles)) by {
            assert(game@.piles[0] == 0);
        }
        game
    }
}

impl Game {
    /// Starts a game for `num_players` players: a full deck with the
    /// rainbow suit, shuffled seven times, is dealt five cards to each
    /// player.
    pub fn new(num_players: usize) -> (game: Game)
        requires
            num_players <= 12,
        ensures
            exists|s: Seq<Card>|
                s.to_multiset() == full_deck(true).to_multiset() && #[trigger] deal_model(
                    s,
                    num_players as nat,
                ) == game@,
            game@.wf(),
            cards_in_play(game@) == full_deck(true).to_multiset(),
    {
        let mut deck = Deck::initialize(true);
        let ghost full = deck@;
        assert(full.len() == 60);
        let mut k: usize = 0;
        while k < 7
            invariant
                k <= 7,
                full == full_deck(true),
                deck@.len() == 60,
                deck@.to_multiset() == full.to_multiset(),
            decreases 7 - k,
        {
            deck.shuffle();
            k = k + 1;
        }
        let ghost shuffled = deck@;
        let game = Game::deal(deck, num_players);
        assert(deal_model(shuffled, num_players as nat) == game@);
        proof {
            lemma_deal_keeps_cards(shuffled, num_players as nat);
        }
        game
    }

    /// Gives player `player` the name `name`.
    pub fn set_name(&mut self, player: usize, name: String)
        requires
            player < old(self)@.players.len(),
        ensures
            final(self)@ == with_name(old(self)@, player as int, name@),
            old(self)@.wf() ==> final(self)@.wf(),
    {
        let ghost g0 = self@;
        self.players[player].name = name;
        assert(self@.players =~= with_name(g0, player as int, name@).players);
        assert(self@ =~= with_name(g0, player as int, name@));
    }

    /// Moves the top card of the deck, if any, into the hand of `actor`.
    fn draw(&mut self, actor: usize)
        requires
            actor < old(self)@.players.len(),
        ensures
            final(self)@ == after_draw(old(self)@, actor as int),
    {
        let ghost g0 = self@;
        let drawn = self.deck.draw();
        match drawn {
            Some(card) => {
                self.players[actor].hand.push_back(card);
            },
            None => {},
        }
        assert(self@.players =~= after_draw(g0, actor as int).players);
        assert(self@ =~= after_draw(g0, actor as int));
    }

    /// Takes the card at `card_index` out of the hand of `actor`.
    fn use_card(&mut self, actor: usize, card_index: usize) -> (card: Card)
        requires
            actor < old(self)@.players.len(),
            old(self)@.players[actor as int].wf(),
            card_index < old(self)@.players[actor as int].hand.len(),
        ensures
            card == old(self)@.players[actor as int].hand[card_index as int],
            final(self)@ == after_use(old(self)@, actor as int, card_index as int),
    {
        let ghost g0 = self@;
        let card = self.players[actor].use_card(card_index);
        assert(self@.players =~= after_use(g0, actor as int, card_index as int).players);
        assert(self@ =~= after_use(g0, actor as int, card_index as int));
        card
    }

    /// Decides whether the game has been won or lost; `discarded` is the
    /// card that has just gone to the discard pile, if any.
    fn update_state(&mut self, discarded: Option<Card>)
        ensures
            final(self)@ == with_status(old(self)@, discarded),
    {
        let ghost g0 = self@;
        let mut all_full = true;
        let mut k: usize = 0;
        while k < 6
            invariant
                k <= 6,
                self@ == g0,
                all_full == (forall|m: int| 0 <= m < k ==> #[trigger] g0.piles[m] == 5),
            decreases 6 - k,
        {
            let pile = self.piles[k];
            assert(pile == g0.piles[k as int]);
            if pile != 5 {
                all_full = false;
            }
            k = k + 1;
        }
        if all_full {
            self.state = Status::Won;
            assert(self@ =~= with_status(g0, discarded));
            return;
        }
        match discarded {
            Some(card) => {
                let count = init_count(card.value);
                let mut matches: usize = 0;
                let mut i: usize = 0;
                while i < self.discard.len()
                    invariant
                        i <= self.discard@.len(),
                        self@ == g0,
                        matches <= i,
                        matches == count_of(g0.discard.subrange(0, i as int), card),
                    decreases self.discard@.len() - i,
                {
                    let other = self.discard[i];
                    assert(g0.discard.subrange(0, i + 1).drop_last() =~= g0.discard.subrange(
                        0,
                        i as int,
                    ));
                    if card.color == other.color && card.value == other.value {
                        matches = matches + 1;
                    }
                    i = i + 1;
                }
                assert(g0.discard.subrange(0, i as int) =~= g0.discard);
                if matches == count as usize {
                    self.state = Status::Lost;
                }
            },
            None => {},
        }
        if self.bombs == 3 {
            self.state = Status::Lost;
        }
        let mut all_short = true;
        let mut j: usize = 0;
        while j < self.players.len()
            invariant
                j <= self.players@.len(),
                self.players@ == old(self).players@,
                self@.players == g0.players,
                all_short == (forall|m: int| 0 <= m < j ==> #[trigger] g0.players[m].hand.len() < 5),
            decreases self.players@.len() - j,
        {
            let hand_len = self.players[j].hand.len();
            assert(hand_len == g0.players[j as int].hand.len());
            if hand_len >= 5 {
                all_short = false;
            }
            j = j + 1;
        }
        if all_short {
            self.state = Status::Lost;
        }
        assert(self@ =~= with_status(g0, discarded));
    }

    /// Whether the game has been won or lost.
    pub fn is_over(&mut self) -> (over: bool)
        ensures
            over == old(self)@.over(),
            final(self)@ == old(self)@,
    {
        match self.state {
            Status::Won => true,
            Status::Lost => true,
            Status::Playing => false,
        }
    }

    /// Gives `hint` to player `receiver`.
    fn give_hint(&mut self, hint: Hint, receiver: usize)
        requires
            receiver < old(self)@.players.len(),
            old(self)@.players[receiver as int].wf(),
        ensures
            final(self)@ == (GameModel {
                players: old(self)@.players.update(
                    receiver as int,
                    player_after_hint(old(self)@.players[receiver as int], hint),
                ),
                ..old(self)@
            }),
    {
        let ghost g0 = self@;
        self.players[receiver].receive_hint(hint);
        assert(self@.players =~= g0.players.update(
            receiver as int,
            player_after_hint(g0.players[receiver as int], hint),
        ));
    }
}

impl Game {
    /// Carries out a discard, all but the change of turn.
    fn do_discard(&mut self, actor: usize, index: usize, actor_name: String)
        requires
            old(self)@.wf(),
            !old(self)@.over(),
            actor < old(self)@.players.len(),
            index < old(self)@.players[actor as int].hand.len(),
            actor_name@ == old(self)@.players[actor as int].name,
        ensures
            final(self)@ == (GameModel {
                turn: old(self)@.turn,
                ..discard_result(old(self)@, actor as int, index as int)
            }),
            final(self)@.wf(),
    {
        let ghost g0 = self@;
        proof {
            lemma_use_wf(g0.players[actor as int], index as int);
        }
        let card = self.use_card(actor, index);
        self.discard.push_back(card);
        proof {
            lemma_draw_wf(self@.players[actor as int], self@.deck);
        }
        self.draw(actor);
        self.hints_left = if self.hints_left + 1 < 8 {
            self.hints_left + 1
        } else {
            8
        };
        let mut msg = actor_name;
        msg.append(" discarded ");
        msg.append(card.color.name());
        msg.append(" ");
        msg.append(card.value.name());
        self.last_action = Some(msg);
        let ghost g2 = self@;
        self.update_state(Some(card));
        let ghost expected = discard_result(g0, actor as int, index as int);
        assert(g2.players =~= expected.players);
        assert(g2.discard =~= expected.discard);
        assert(self@ =~= (GameModel { turn: g0.turn, ..expected }));
        assert forall|i: int| 0 <= i < self@.players.len() implies (#[trigger] self@.players[i]).wf() by {
            if i != actor {
                assert(self@.players[i] == g0.players[i]);
            }
        }
    }

    /// Carries out a play, all but the change of turn.
    fn do_play(&mut self, actor: usize, index: usize, actor_name: String)
        requires
            old(self)@.wf(),
            !old(self)@.over(),
            actor < old(self)@.players.len(),
            index < old(self)@.players[actor as int].hand.len(),
            actor_name@ == old(self)@.players[actor as int].name,
        ensures
            final(self)@ == (GameModel {
                turn: old(self)@.turn,
                ..play_result(old(self)@, actor as int, index as int)
            }),
            final(self)@.wf(),
    {
        let ghost g0 = self@;
        proof {
            lemma_use_wf(g0.players[actor as int], index as int);
        }
        let card = self.use_card(actor, index);
        let ci = card.color.index();
        let vn = card.value.number();
        assert(self.piles@[ci as int] == g0.piles[ci as int]);
        if self.piles[ci] + 1 == vn {
            self.piles[ci] = vn;
            if card.value == Value::Five {
                self.hints_left = if self.hints_left + 1 < 8 {
                    self.hints_left + 1
                } else {
                    8
                };
            }
            proof {
                lemma_draw_wf(self@.players[actor as int], self@.deck);
            }
            self.draw(actor);
            self.update_state(None);
        } else {
            self.discard.push_back(card);
            self.bombs = self.bombs + 1;
            proof {
                lemma_draw_wf(self@.players[actor as int], self@.deck);
            }
            self.draw(actor);
            self.update_state(Some(card));
        }
        let mut msg = actor_name;
        msg.append(" played ");
        msg.append(card.color.name());
        msg.append(" ");
        msg.append(card.value.name());
        self.last_action = Some(msg);
        let ghost expected = play_result(g0, actor as int, index as int);
        assert(self@.players =~= expected.players);
        assert(self@.discard =~= expected.discard);
        assert(self@.piles =~= expected.piles);
        assert(self@ =~= (GameModel { turn: g0.turn, ..expected }));
        assert forall|i: int| 0 <= i < self@.players.len() implies (#[trigger] self@.players[i]).wf() by {
            if i != actor {
                assert(self@.players[i] == g0.players[i]);
            }
        }
        assert forall|k: int| 0 <= k < 6 implies #[trigger] self@.piles[k] <= 5 by {
            if k != ci {
                assert(self@.piles[k] == g0.piles[k]);
            }
        }
    }

    /// Carries out a hint, all but the change of turn.
    fn do_hint(&mut self, actor: usize, hint: Hint, other: usize, actor_name: String)
        requires
            old(self)@.wf(),
            !old(self)@.over(),
            actor < old(self)@.players.len(),
            other < old(self)@.players.len(),
            old(self)@.hints_left > 0,
            actor_name@ == old(self)@.players[actor as int].name,
        ensures
            final(self)@ == (GameModel {
                turn: old(self)@.turn,
                ..hint_result(old(self)@, actor as int, hint, other as int)
            }),
            final(self)@.wf(),
    {
        let ghost g0 = self@;
        proof {
            lemma_hint_wf(g0.players[other as int], hint);
        }
        self.give_hint(hint, other);
        self.hints_left = self.hints_left - 1;
        let mut msg = actor_name;
        msg.append(" gave a hint about cards with the ");
        match hint {
            Hint::ColorHint(color) => {
                msg.append("color ");
                msg.append(color.name());
            },
            Hint::ValueHint(value) => {
                msg.append("value ");
                msg.append(value.name());
            },
        }
        msg.append(" to ");
        assert(self@.players.len() == g0.players.len());
        assert(self@.players[other as int] == self.players@[other as int]@);
        assert(self@.players[other as int] == player_after_hint(g0.players[other as int], hint));
        assert(self.players@[other as int]@.name == g0.players[other as int].name);
        let other_name = self.players[other].name.clone();
        msg.append(other_name.as_str());
        let ghost expected = hint_result(g0, actor as int, hint, other as int);
        assert(msg@ =~= g0.players[actor as int].name + " gave a hint about cards with the "@
            + hint_text(hint) + " to "@ + g0.players[other as int].name);
        self.last_action = Some(msg);
        assert(self@ =~= (GameModel { turn: g0.turn, ..expected }));
        assert forall|i: int| 0 <= i < self@.players.len() implies (#[trigger] self@.players[i]).wf() by {
            if i != other {
                assert(self@.players[i] == g0.players[i]);
            }
        }
    }

    /// Carries out a swap, all but the change of turn.
    fn do_swap(&mut self, actor: usize, i: usize, j: usize)
        requires
            old(self)@.wf(),
            actor < old(self)@.players.len(),
            i < old(self)@.players[actor as int].hand.len(),
            j < old(self)@.players[actor as int].hand.len(),
        ensures
            final(self)@ == (GameModel {
                turn: old(self)@.turn,
                ..swap_result(old(self)@, actor as int, i as int, j as int)
            }),
            final(self)@.wf(),
    {
        let ghost g0 = self@;
        proof {
            lemma_swap_wf(g0.players[actor as int], i as int, j as int);
        }
        self.players[actor].swap_cards(i, j);
        let ghost expected = swap_result(g0, actor as int, i as int, j as int);
        assert(self@.players =~= expected.players);
        assert(self@ =~= (GameModel { turn: g0.turn, ..expected }));
        assert forall|m: int| 0 <= m < self@.players.len() implies (#[trigger] self@.players[m]).wf() by {
            if m != actor {
                assert(self@.players[m] == g0.players[m]);
            }
        }
    }

    /// Lets `actor` take `action`. Returns false, leaving the game as it
    /// was, when the action is refused: the game is over, it is not the
    /// actor's turn (only a swap may be made out of turn), the position is
    /// not in the actor's hand, or no hint token is left. Otherwise the
    /// action is carried out, the turn passes to the next player, and the
    /// result is true.
    pub fn take_action(&mut self, action: Action, actor: usize) -> (valid: bool)
        requires
            old(self)@.wf(),
            take_action_in_bounds(old(self)@, action, actor as int),
        ensures
            match take_action_spec(old(self)@, action, actor as int) {
                Some(next) => valid && final(self)@ == next,
                None => !valid && final(self)@ == old(self)@,
            },
            final(self)@.wf(),
            cards_in_play(final(self)@) == cards_in_play(old(self)@),
    {
        let ghost g0 = self@;
        proof {
            lemma_take_action_keeps_cards(g0, action, actor as int);
        }
        if self.is_over() {
            return false;
        }
        if actor != self.turn {
            match action {
                Action::Swap(_, _) => {},
                _ => {
                    return false;
                },
            }
        }
        let actor_name = self.players[actor].name.clone();
        match action {
            Action::Discard(index) => {
                if index >= self.players[actor].hand.len() {
                    return false;
                }
                self.do_discard(actor, index, actor_name);
            },
            Action::Play(index) => {
                if index >= self.players[actor].hand.len() {
                    return false;
                }
                self.do_play(actor, index, actor_name);
            },
            Action::GiveHint(hint, other_player) => {
                if self.hints_left == 0 {
                    return false;
                }
                self.do_hint(actor, hint, other_player, actor_name);
            },
            Action::Swap(index1, index2) => {
                if index1 >= self.players[actor].hand.len() || index2
                    >= self.players[actor].hand.len() {
                    return false;
                }
                self.do_swap(actor, index1, index2);
            },
        }
        assert(self@.turn == g0.turn && self@.players.len() == g0.players.len());
        assert(self.turn < self.players.len());
        self.turn = (self.turn + 1) % self.players.len();
        assert(self@ == take_action_spec(g0, action, actor as int).unwrap());
        true
    }
}

impl Game {
    /// What player `actor` is shown of the game: the discard pile, the
    /// tokens, the turn, the piles, the status and the last action as they
    /// are; every other player's cards in full; and of their own cards
    /// only what they have been told.
    pub fn get_player_view(&self, actor: usize) -> (update: Update)
        requires
            others_hold_full_hands(self@, actor as int),
        ensures
            update.view.discard@ == self@.discard,
            update.view.hints_left == self@.hints_left,
            update.view.bombs == self@.bombs,
            update.view.turn == self@.turn,
            update.view.piles@ == self@.piles,
            update.view.state == self@.state,
            update.view.players@.len() == self@.players.len(),
            forall|i: int|
                0 <= i < self@.players.len() ==> shows_player(
                    #[trigger] update.view.players@[i],
                    self@.players[i],
                    i == actor,
                ),
            opt_string_view(update.action) == self@.last_action,
    {
        let mut views: Vec<PlayerView> = Vec::with_capacity(self.players.len());
        let mut i: usize = 0;
        while i < self.players.len()
            invariant
                i <= self.players@.len(),
                views@.len() == i,
                forall|i: int|
                    0 <= i < self@.players.len() && i != actor ==> #[trigger] self@.players[i].hand.len()
                        >= 5,
                forall|k: int|
                    0 <= k < i ==> shows_player(#[trigger] views@[k], self@.players[k], k == actor),
            decreases self.players@.len() - i,
        {
            let player = &self.players[i];
            assert(player@ == self@.players[i as int]);
            let mut view = PlayerView {
                name: player.name.clone(),
                cards: [CardView { color: None, value: None }; 5],
            };
            let mut j: usize = 0;
            while j < 5
                invariant
                    j <= 5,
                    i < self.players@.len(),
                    player@ == self@.players[i as int],
                    i != actor ==> player@.hand.len() >= 5,
                    view.name@ == player@.name,
                    forall|m: int|
                        0 <= m < j ==> #[trigger] view.cards@[m] == card_view_for(
                            player@,
                            m,
                            i == actor,
                        ),
                decreases 5 - j,
            {
                if actor == i {
                    view.cards[j] = CardView {
                        color: player.known_colors[j],
                        value: player.known_values[j],
                    };
                } else {
                    view.cards[j] = CardView {
                        color: Some(player.hand[j].color),
                        value: Some(player.hand[j].value),
                    };
                }
                j = j + 1;
            }
            views.push(view);
            i = i + 1;
        }
        let view = GameView {
            discard: self.discard.clone(),
            hints_left: self.hints_left,
            bombs: self.bombs,
            turn: self.turn,
            players: views,
            piles: self.piles,
            state: self.state,
        };
        let action = match &self.last_action {
            Some(s) => Some(s.clone()),
            None => None,
        };
        Update { view: view, action: action }
    }
}

/// Every player other than `actor` holds at least five cards, so that
/// their whole hand can be shown to `actor`.
pub open spec fn others_hold_full_hands(g: GameModel, actor: int) -> bool {
    forall|i: int| 0 <= i < g.players.len() && i != actor ==> #[trigger] g.players[i].hand.len() >= 5
}

impl Game {
    /// Whether the view for `actor` can be shown: every other player holds
    /// at least five cards.
    pub fn can_view(&self, actor: usize) -> (ok: bool)
        ensures
            ok == others_hold_full_hands(self@, actor as int),
    {
        let mut i: usize = 0;
        while i < self.players.len()
            invariant
                i <= self.players@.len(),
                forall|k: int|
                    0 <= k < i && k != actor ==> #[trigger] self@.players[k].hand.len() >= 5,
            decreases self.players@.len() - i,
        {
            assert(self@.players[i as int] == self.players@[i as int]@);
            if i != actor && self.players[i].hand.len() < 5 {
                assert(!(self@.players[i as int].hand.len() >= 5));
                return false;
            }
            i = i + 1;
        }
        true
    }

    /// The number of cards left in the deck.
    pub fn cards_left(&self) -> (n: usize)
        ensures
            n == self@.deck.len(),
    {
        self.deck.len()
    }
}

} // verus!
