//! The decisions of the game server: who may join, which requests reach
//! the game, and what each request is answered. Sending the updates to
//! the players' connections is left to the caller.

use crate::deck::{full_deck, Card};
use crate::game::{
    deal_model, take_action_spec, with_name, Action, Game, GameModel, Hint,
};
use rand::Rng;
use std::collections::HashMap;
use vstd::prelude::*;

verus! {

broadcast use vstd::std_specs::hash::group_hash_axioms;

/// A player connected to the server: the name they joined with and the
/// secret id they were given.
#[derive(Debug)]
pub struct ConnectedPlayer {
    pub name: String,
    pub id: usize,
}

/// The mathematical state of the server.
#[verifier::ext_equal]
pub struct ServerModel {
    /// The name and the id of each player who joined, in order of joining.
    pub players: Seq<(Seq<char>, usize)>,
    /// For each id handed out, the index of the player holding it.
    pub ids: Map<usize, usize>,
    pub game: GameModel,
    pub max_players: usize,
}

impl ServerModel {
    /// The server's state is well formed: the game has a seat for each of
    /// the expected players, no more players joined than expected, and
    /// every id leads to a player who joined.
    pub open spec fn wf(self) -> bool {
        &&& self.game.wf()
        &&& self.game.players.len() == self.max_players
        &&& self.players.len() <= self.max_players
        &&& forall|k: usize| #[trigger] self.ids.contains_key(k) ==> self.ids[k] < self.players.len()
    }

    /// All expected players have joined, so the game has started.
    pub open spec fn started(self) -> bool {
        self.players.len() >= self.max_players
    }
}

/// The answer to a request made before the game started.
pub open spec fn not_started_msg() -> Seq<char> {
    "ERROR: The Game hasn't started yet!!!"@
}

/// The answer to a request with an id that was never handed out.
pub open spec fn invalid_id_msg() -> Seq<char> {
    "ERROR: ID Invalid!"@
}

/// The answer to a request that the game refused.
pub open spec fn invalid_action_msg() -> Seq<char> {
    "ERROR: Invalid Action!!!"@
}

/// The answer to a hint for a player nobody joined as.
pub open spec fn no_such_player_msg() -> Seq<char> {
    "ERROR: Other player not found!"@
}

/// The answer to a request that the game carried out.
pub open spec fn success_msg() -> Seq<char> {
    "Success"@
}

/// The index of the player the request with `id` comes from, or the error
/// message that answers it.
pub open spec fn lookup_spec(s: ServerModel, id: usize) -> Result<usize, Seq<char>> {
    if !s.started() {
        Err(not_started_msg())
    } else if !s.ids.contains_key(id) {
        Err(invalid_id_msg())
    } else {
        Ok(s.ids[id])
    }
}

/// The server after the request with `id` to take `action` (given the
/// actor's index), and the answer to it.
pub open spec fn respond_spec(s: ServerModel, id: usize, action: Action) -> (ServerModel, Seq<char>) {
    match lookup_spec(s, id) {
        Err(msg) => (s, msg),
        Ok(actor) => match take_action_spec(s.game, action, actor as int) {
            None => (s, invalid_action_msg()),
            Some(g) => (ServerModel { game: g, ..s }, success_msg()),
        },
    }
}

/// The index of the first player who joined as `name`.
pub open spec fn first_named(ps: Seq<(Seq<char>, usize)>, name: Seq<char>) -> Option<int>
    decreases ps.len(),
{
    if ps.len() == 0 {
        None
    } else {
        match first_named(ps.drop_last(), name) {
            Some(i) => Some(i),
            None => if ps.last().0 == name {
                Some(ps.len() - 1)
            } else {
                None
            },
        }
    }
}

/// The server after the request with `id` to give `hint` to the player
/// who joined as `other`, and the answer to it.
pub open spec fn hint_respond_spec(s: ServerModel, id: usize, other: Seq<char>, hint: Hint) -> (
    ServerModel,
    Seq<char>,
) {
    match lookup_spec(s, id) {
        Err(msg) => (s, msg),
        Ok(actor) => match first_named(s.players, other) {
            None => (s, no_such_player_msg()),
            Some(o) => respond_spec(s, id, Action::GiveHint(hint, o as usize)),
        },
    }
}

/// The server after a player named `name` joined with id `id`.
pub open spec fn join_model(s: ServerModel, name: Seq<char>, id: usize) -> ServerModel {
    ServerModel {
        players: s.players.push((name, id)),
        ids: s.ids.insert(id, s.players.len() as usize),
        game: with_name(s.game, s.players.len() as int, name),
        max_players: s.max_players,
    }
}

/// A fresh id for a joining player.
///
/// Calls `Rng::gen_range(1, usize::MAX)` of the `rand` crate on the
/// thread's generator. Claimed: the result lies in the half-open range
/// from 1 to `usize::MAX`, as the documentation of `gen_range` says. Which
/// number comes out rests on chance and is left unsaid; in particular
/// nothing says that it differs from the ids handed out before.
#[verifier::external_body]
fn random_player_id() -> (id: usize)
    ensures
        1 <= id < usize::MAX,
{
    let id: usize = rand::thread_rng().gen_range(1, usize::MAX);
    id
}

/// The game server: the players who joined and the game they play.
pub struct GameServer {
    players: Vec<ConnectedPlayer>,
    ids: HashMap<usize, usize>,
    game: Game,
    max_players: usize,
}

impl View for GameServer {
    type V = ServerModel;

    closed spec fn view(&self) -> ServerModel {
        ServerModel {
            players: self.players@.map_values(|p: ConnectedPlayer| (p.name@, p.id)),
            ids: self.ids@,
            game: self.game@,
            max_players: self.max_players,
        }
    }
}

impl GameServer {
    /// A server waiting for `max_players` players, with a freshly dealt
    /// game for them.
    pub fn new(max_players: usize) -> (server: GameServer)
        requires
            max_players <= 12,
        ensures
            server@.wf(),
            server@.players.len() == 0,
            server@.ids == Map::<usize, usize>::empty(),
            server@.max_players == max_players,
            exists|s: Seq<Card>|
                s.to_multiset() == full_deck(true).to_multiset() && #[trigger] deal_model(
                    s,
                    max_players as nat,
                ) == server@.game,
    {
        let server = GameServer {
            players: Vec::with_capacity(max_players),
            ids: HashMap::new(),
            game: Game::new(max_players),
            max_players: max_players,
        };
        assert(server@.players =~= Seq::empty());
        server
    }

    /// Lets a player named `name` join with the id `id`, and returns the
    /// id.
    pub fn join_with_id(&mut self, name: String, id: usize) -> (r: usize)
        requires
            old(self)@.wf(),
            !old(self)@.started(),
        ensures
            r == id,
            final(self)@ == join_model(old(self)@, name@, id),
            final(self)@.wf(),
    {
        let ghost s0 = self@;
        let index = self.players.len();
        self.ids.insert(id, index);
        self.players.push(ConnectedPlayer { name: name.clone(), id: id });
        self.game.set_name(index, name);
        assert(self@.players =~= join_model(s0, name@, id).players);
        assert(self@ =~= join_model(s0, name@, id));
        id
    }

    /// Lets a player named `name` join. Once every expected player has
    /// joined the answer is 0 and nothing changes; otherwise the player
    /// gets a random id from 1 up to `usize::MAX - 1`, which is returned.
    pub fn join(&mut self, name: String) -> (r: usize)
        requires
            old(self)@.wf(),
        ensures
            final(self)@.wf(),
            old(self)@.started() ==> r == 0 && final(self)@ == old(self)@,
            !old(self)@.started() ==> 1 <= r < usize::MAX && final(self)@ == join_model(
                old(self)@,
                name@,
                r,
            ),
    {
        if self.players.len() >= self.max_players {
            return 0;
        }
        let id = random_player_id();
        self.join_with_id(name, id)
    }

    /// Whether every expected player has joined.
    pub fn is_full(&self) -> (full: bool)
        ensures
            full == self@.started(),
    {
        self.players.len() >= self.max_players
    }

    /// The index of the player the request with `id` comes from; or, when
    /// the game has not started or the id is unknown, the error message
    /// that answers the request.
    pub fn lookup(&self, id: usize) -> (r: Result<usize, String>)
        requires
            self@.wf(),
        ensures
            match (r, lookup_spec(self@, id)) {
                (Ok(i), Ok(j)) => i == j,
                (Err(m), Err(n)) => m@ == n,
                _ => false,
            },
    {
        if self.players.len() < self.max_players {
            return Err(String::from_str("ERROR: The Game hasn't started yet!!!"));
        }
        match self.ids.get(&id) {
            Some(index) => Ok(*index),
            None => Err(String::from_str("ERROR: ID Invalid!")),
        }
    }

    /// Lets the player with `id` take `action` and returns the answer.
    fn respond(&mut self, id: usize, action: Action) -> (answer: String)
        requires
            old(self)@.wf(),
            match action {
                Action::GiveHint(_, o) => o < old(self)@.players.len(),
                _ => true,
            },
        ensures
            final(self)@ == respond_spec(old(self)@, id, action).0,
            answer@ == respond_spec(old(self)@, id, action).1,
            final(self)@.wf(),
    {
        let ghost s0 = self@;
        let player_index = match self.lookup(id) {
            Ok(index) => index,
            Err(msg) => {
                return msg;
            },
        };
        let valid = self.game.take_action(action, player_index);
        assert(self@ =~= respond_spec(s0, id, action).0);
        if !valid {
            String::from_str("ERROR: Invalid Action!!!")
        } else {
            String::from_str("Success")
        }
    }

    /// The request of the player with `id` to play the card at
    /// `card_index`.
    pub fn play_card(&mut self, id: usize, card_index: usize) -> (answer: String)
        requires
            old(self)@.wf(),
        ensures
            final(self)@ == respond_spec(old(self)@, id, Action::Play(card_index)).0,
            answer@ == respond_spec(old(self)@, id, Action::Play(card_index)).1,
            final(self)@.wf(),
    {
        self.respond(id, Action::Play(card_index))
    }

    /// The request of the player with `id` to discard the card at
    /// `card_index`.
    pub fn discard(&mut self, id: usize, card_index: usize) -> (answer: String)
        requires
            old(self)@.wf(),
        ensures
            final(self)@ == respond_spec(old(self)@, id, Action::Discard(card_index)).0,
            answer@ == respond_spec(old(self)@, id, Action::Discard(card_index)).1,
            final(self)@.wf(),
    {
        self.respond(id, Action::Discard(card_index))
    }

    /// The request of the player with `id` to swap the cards at `index1`
    /// and `index2`.
    pub fn swap(&mut self, id: usize, index1: usize, index2: usize) -> (answer: String)
        requires
            old(self)@.wf(),
        ensures
            final(self)@ == respond_spec(old(self)@, id, Action::Swap(index1, index2)).0,
            answer@ == respond_spec(old(self)@, id, Action::Swap(index1, index2)).1,
            final(self)@.wf(),
    {
        self.respond(id, Action::Swap(index1, index2))
    }

    /// The request of the player with `id` to give `hint` to the player
    /// who joined as `other_player`.
    pub fn give_hint(&mut self, id: usize, other_player: String, hint: Hint) -> (answer: String)
        requires
            old(self)@.wf(),
        ensures
            final(self)@ == hint_respond_spec(old(self)@, id, other_player@, hint).0,
            answer@ == hint_respond_spec(old(self)@, id, other_player@, hint).1,
            final(self)@.wf(),
    {
        match self.lookup(id) {
            Ok(_) => {},
            Err(msg) => {
                return msg;
            },
        }
        let n = self.players.len();
        let mut other_index = n;
        let mut found = false;
        let mut i: usize = 0;
        while i < n && !found
            invariant
                i <= n,
                n == self@.players.len(),
                !found ==> other_index == n && first_named(self@.players.take(i as int), other_player@)
                    is None,
                found ==> other_index < n && first_named(
                    self@.players.take(other_index + 1),
                    other_player@,
                ) == Some(other_index as int),
            decreases (n - i) * 2 + if found {
                0int
            } else {
                1int
            },
        {
            assert(self@.players.take(i + 1).drop_last() =~= self@.players.take(i as int));
            assert(self@.players[i as int].0 == self.players@[i as int].name@);
            if self.players[i].name == other_player {
                other_index = i;
                found = true;
            } else {
                i = i + 1;
            }
        }
        if !found {
            assert(self@.players.take(n as int) =~= self@.players);
            return String::from_str("ERROR: Other player not found!");
        }
        assert(first_named(self@.players, other_player@) == Some(other_index as int)) by {
            lemma_first_named_prefix(self@.players, other_player@, other_index as int + 1);
        }
        self.respond(id, Action::GiveHint(hint, other_index))
    }

    /// The game being played.
    pub fn game(&self) -> (game: &Game)
        ensures
            game@ == self@.game,
    {
        &self.game
    }
}

/// A prefix that already holds a player of that name decides the first
/// one.
proof fn lemma_first_named_prefix(ps: Seq<(Seq<char>, usize)>, name: Seq<char>, k: int)
    requires
        0 <= k <= ps.len(),
        first_named(ps.take(k), name) is Some,
    ensures
        first_named(ps, name) == first_named(ps.take(k), name),
    decreases ps.len(),
{
    if k < ps.len() {
        assert(ps.drop_last().take(k) =~= ps.take(k));
        lemma_first_named_prefix(ps.drop_last(), name, k);
    } else {
        assert(ps.take(k) =~= ps);
    }
}

} // verus!
