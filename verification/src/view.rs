//! What one player is shown of a game.

use crate::deck::{Card, Color, Value};
use crate::game::{PlayerModel, Status};
use std::collections::VecDeque;
use vstd::prelude::*;

verus! {

/// What a player is shown of one card: a known color and a known value.
#[derive(Clone, Copy, Debug)]
pub struct CardView {
    pub color: Option<Color>,
    pub value: Option<Value>,
}

/// What a player is shown of one player: the name and the five cards.
#[derive(Debug)]
pub struct PlayerView {
    pub name: String,
    pub cards: [CardView; 5],
}

/// What a player is shown of the game.
#[derive(Debug)]
pub struct GameView {
    pub discard: VecDeque<Card>,
    pub hints_left: usize,
    pub bombs: usize,
    pub turn: usize,
    pub players: Vec<PlayerView>,
    pub piles: [usize; 6],
    pub state: Status,
}

/// The message sent to a player: the view of the game and the last action
/// taken.
#[derive(Debug)]
pub struct Update {
    pub view: GameView,
    pub action: Option<String>,
}

/// What the viewer is shown of card `j` of player `p`: a player sees only
/// what they have been told of their own cards, and all of everybody
/// else's.
pub open spec fn card_view_for(p: PlayerModel, j: int, own: bool) -> CardView {
    if own {
        CardView { color: p.known_colors[j], value: p.known_values[j] }
    } else {
        CardView { color: Some(p.hand[j].color), value: Some(p.hand[j].value) }
    }
}

/// `v` shows player `p`, seen by the player itself when `own` holds.
pub open spec fn shows_player(v: PlayerView, p: PlayerModel, own: bool) -> bool {
    &&& v.name@ == p.name
    &&& forall|j: int| 0 <= j < 5 ==> #[trigger] v.cards@[j] == card_view_for(p, j, own)
}

} // verus!
