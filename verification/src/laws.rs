//! Properties that hold across the operations of a game.

use crate::deck::{
    color_at, color_index, spec_init_count, value_number, value_of_number, Card, Color, Value,
};
use crate::game::{
    after_draw, after_use, deal_model, playable,
    player_after_draw, player_after_hint, player_after_swap, player_after_use, seq_swap,
    take_action_in_bounds, take_action_spec, Action, GameModel, Hint, PlayerModel, Status,
    count_of,
};
use vstd::multiset::Multiset;
use vstd::prelude::*;

verus! {

broadcast use vstd::seq_lib::group_to_multiset_ensures;

/// All the cards held in the hands of `players`.
pub open spec fn hands_multiset(players: Seq<PlayerModel>) -> Multiset<Card>
    decreases players.len(),
{
    if players.len() == 0 {
        Multiset::empty()
    } else {
        hands_multiset(players.drop_last()).add(players.last().hand.to_multiset())
    }
}

/// The cards that make up a pile of color `c` built up to the value `n`.
pub open spec fn pile_multiset(c: Color, n: int) -> Multiset<Card>
    decreases n,
{
    if n <= 0 {
        Multiset::empty()
    } else {
        pile_multiset(c, n - 1).insert(Card { color: c, value: value_of_number(n) })
    }
}

/// The cards on the piles of the first `k` colors.
pub open spec fn played_multiset(piles: Seq<usize>, k: int) -> Multiset<Card>
    decreases k,
{
    if k <= 0 {
        Multiset::empty()
    } else {
        played_multiset(piles, k - 1).add(pile_multiset(color_at(k - 1), piles[k - 1] as int))
    }
}

/// Every card of a game: those in the deck, in the discard pile, in the
/// players' hands and on the piles.
pub open spec fn cards_in_play(g: GameModel) -> Multiset<Card> {
    g.deck.to_multiset().add(g.discard.to_multiset()).add(hands_multiset(g.players)).add(
        played_multiset(g.piles, 6),
    )
}

proof fn lemma_hands_update(ps: Seq<PlayerModel>, i: int, p: PlayerModel)
    requires
        0 <= i < ps.len(),
    ensures
        hands_multiset(ps.update(i, p)).add(ps[i].hand.to_multiset()) =~= hands_multiset(ps).add(
            p.hand.to_multiset(),
        ),
    decreases ps.len(),
{
    let qs = ps.update(i, p);
    let x = hands_multiset(qs).add(ps[i].hand.to_multiset());
    let y = hands_multiset(ps).add(p.hand.to_multiset());
    assert(hands_multiset(qs) == hands_multiset(qs.drop_last()).add(qs.last().hand.to_multiset()));
    assert(hands_multiset(ps) == hands_multiset(ps.drop_last()).add(ps.last().hand.to_multiset()));
    if i == ps.len() - 1 {
        assert(qs.drop_last() =~= ps.drop_last());
        assert(qs.last() == p);
        assert(ps[i] == ps.last());
        assert forall|c: Card| #[trigger] x.count(c) == y.count(c) by {}
    } else {
        assert(qs.drop_last() =~= ps.drop_last().update(i, p));
        assert(qs.last() == ps.last());
        assert(ps.drop_last()[i] == ps[i]);
        lemma_hands_update(ps.drop_last(), i, p);
        let xs = hands_multiset(ps.drop_last().update(i, p)).add(ps.drop_last()[i].hand.to_multiset());
        let ys = hands_multiset(ps.drop_last()).add(p.hand.to_multiset());
        assert forall|c: Card| #[trigger] x.count(c) == y.count(c) by {
            assert(xs.count(c) == ys.count(c));
        }
    }
    assert(x =~= y);
}

proof fn lemma_played_update_prefix(piles: Seq<usize>, k: int, n: usize, m: int)
    requires
        0 <= k < piles.len(),
        0 <= m <= piles.len(),
        piles[k] + 1 == n,
    ensures
        m <= k ==> played_multiset(piles.update(k, n), m) == played_multiset(piles, m),
        m > k ==> played_multiset(piles.update(k, n), m) =~= played_multiset(piles, m).insert(
            Card { color: color_at(k), value: value_of_number(n as int) },
        ),
    decreases m,
{
    if m > 0 {
        lemma_played_update_prefix(piles, k, n, m - 1);
        if m - 1 == k {
            assert(pile_multiset(color_at(k), n as int) == pile_multiset(color_at(k), piles[k] as int).insert(
                Card { color: color_at(k), value: value_of_number(n as int) },
            ));
        }
    }
}

/// Laying the next card on a pile adds exactly that card to the piles.
proof fn lemma_played_update(piles: Seq<usize>, card: Card)
    requires
        piles.len() == 6,
        piles[color_index(card.color)] + 1 == value_number(card.value),
    ensures
        played_multiset(piles.update(color_index(card.color), value_number(card.value) as usize), 6)
            =~= played_multiset(piles, 6).insert(card),
{
    let k = color_index(card.color);
    lemma_played_update_prefix(piles, k, value_number(card.value) as usize, 6);
    assert(color_at(k) == card.color);
    assert(value_of_number(value_number(card.value)) == card.value);
}

/// A drawn card leaves the deck and joins the hand: taking the card at
/// `i` out of the hand of `a` and drawing keeps the deck and the hands,
/// together with the card taken out, the same.
proof fn lemma_use_then_draw(g: GameModel, a: int, i: int)
    requires
        0 <= a < g.players.len(),
        0 <= i < g.players[a].hand.len(),
    ensures
        ({
            let g1 = after_draw(after_use(g, a, i), a);
            &&& g1.deck.to_multiset().add(hands_multiset(g1.players)).insert(g.players[a].hand[i])
                =~= g.deck.to_multiset().add(hands_multiset(g.players))
            &&& g1.players.len() == g.players.len()
        }),
{
    let p = g.players[a];
    let card = p.hand[i];
    let p1 = player_after_use(p, i);
    let p2 = player_after_draw(p1, g.deck);
    let g1 = after_draw(after_use(g, a, i), a);
    assert(after_use(g, a, i).players[a] == p1);
    assert(g1.players =~= g.players.update(a, p2));
    lemma_hands_update(g.players, a, p2);
    assert(p1.hand.to_multiset() == p.hand.to_multiset().remove(card));
    assert(p.hand.to_multiset().count(card) > 0) by {
        assert(p.hand.contains(card));
    }
    if g.deck.len() > 0 {
        assert(g.deck.drop_first() =~= g.deck.remove(0));
        assert(g1.deck.to_multiset() == g.deck.to_multiset().remove(g.deck[0]));
        assert(g.deck.to_multiset().count(g.deck[0]) > 0) by {
            assert(g.deck.contains(g.deck[0]));
        }
        assert(p2.hand.to_multiset() == p1.hand.to_multiset().insert(g.deck[0]));
    }
    let x = g1.deck.to_multiset().add(hands_multiset(g1.players)).insert(card);
    let y = g.deck.to_multiset().add(hands_multiset(g.players));
    assert forall|c: Card| #[trigger] x.count(c) == y.count(c) by {
        assert(hands_multiset(g.players.update(a, p2)).add(p.hand.to_multiset()).count(c)
            == hands_multiset(g.players).add(p2.hand.to_multiset()).count(c));
    }
    assert(x =~= y);
}

/// Changing a player without changing their hand keeps the hands.
proof fn lemma_hands_same_hand(ps: Seq<PlayerModel>, i: int, p: PlayerModel)
    requires
        0 <= i < ps.len(),
        p.hand.to_multiset() == ps[i].hand.to_multiset(),
    ensures
        hands_multiset(ps.update(i, p)) =~= hands_multiset(ps),
{
    lemma_hands_update(ps, i, p);
    let x = hands_multiset(ps.update(i, p));
    let y = hands_multiset(ps);
    assert forall|c: Card| #[trigger] x.count(c) == y.count(c) by {
        assert(x.add(ps[i].hand.to_multiset()).count(c) == y.add(p.hand.to_multiset()).count(c));
    }
}

/// Exchanging two entries keeps the same elements.
proof fn lemma_swap_multiset(s: Seq<Card>, i: int, j: int)
    requires
        0 <= i < s.len(),
        0 <= j < s.len(),
    ensures
        seq_swap(s, i, j).to_multiset() =~= s.to_multiset(),
{
    let s1 = s.update(i, s[j]);
    assert(s1.to_multiset() == s.to_multiset().insert(s[j]).remove(s[i]));
    assert(seq_swap(s, i, j).to_multiset() == s1.to_multiset().insert(s[i]).remove(s1[j]));
    assert(s.to_multiset().count(s[i]) > 0) by {
        assert(s.contains(s[i]));
    }
    if i == j {
        assert(s1[j] == s[j]);
    } else {
        assert(s1[j] == s[j]);
    }
}

/// Every accepted action keeps the cards of the game: each card is in
/// exactly one of the deck, the discard pile, a hand or a pile, before
/// and after, and no card appears or disappears.
pub proof fn lemma_take_action_keeps_cards(g: GameModel, action: Action, actor: int)
    requires
        g.wf(),
        take_action_in_bounds(g, action, actor),
    ensures
        take_action_spec(g, action, actor) matches Some(next) ==> cards_in_play(next)
            == cards_in_play(g),
{
    match take_action_spec(g, action, actor) {
        None => {},
        Some(next) => {
            let x = cards_in_play(next);
            let y = cards_in_play(g);
            match action {
                Action::Discard(index) => {
                    let i = index as int;
                    let card = g.players[actor].hand[i];
                    lemma_use_then_draw(g, actor, i);
                    let g1 = after_draw(after_use(g, actor, i), actor);
                    assert(next.deck == g1.deck && next.players == g1.players);
                    assert(next.discard.to_multiset() == g.discard.to_multiset().insert(card));
                    assert(next.piles == g.piles);
                    assert forall|c: Card| #[trigger] x.count(c) == y.count(c) by {
                        assert(g1.deck.to_multiset().add(hands_multiset(g1.players)).insert(
                            card,
                        ).count(c) == g.deck.to_multiset().add(hands_multiset(g.players)).count(
                            c,
                        ));
                    }
                },
                Action::Play(index) => {
                    let i = index as int;
                    let card = g.players[actor].hand[i];
                    lemma_use_then_draw(g, actor, i);
                    let g1 = after_draw(after_use(g, actor, i), actor);
                    assert(next.deck == g1.deck && next.players =~= g1.players);
                    if playable(g.piles, card) {
                        lemma_played_update(g.piles, card);
                        assert(next.discard == g.discard);
                        assert(played_multiset(next.piles, 6) == played_multiset(g.piles, 6).insert(
                            card,
                        ));
                    } else {
                        assert(next.discard.to_multiset() == g.discard.to_multiset().insert(
                            card,
                        ));
                        assert(next.piles == g.piles);
                    }
                    assert forall|c: Card| #[trigger] x.count(c) == y.count(c) by {
                        assert(g1.deck.to_multiset().add(hands_multiset(g1.players)).insert(
                            card,
                        ).count(c) == g.deck.to_multiset().add(hands_multiset(g.players)).count(
                            c,
                        ));
                    }
                },
                Action::GiveHint(hint, other) => {
                    let o = other as int;
                    lemma_hands_same_hand(g.players, o, player_after_hint(g.players[o], hint));
                    assert(next.players == g.players.update(
                        o,
                        player_after_hint(g.players[o], hint),
                    ));
                },
                Action::Swap(i, j) => {
                    let p = g.players[actor];
                    lemma_swap_multiset(p.hand, i as int, j as int);
                    lemma_hands_same_hand(
                        g.players,
                        actor,
                        player_after_swap(p, i as int, j as int),
                    );
                    assert(next.players == g.players.update(
                        actor,
                        player_after_swap(p, i as int, j as int),
                    ));
                },
            }
            assert(x =~= y);
        },
    }
}

proof fn lemma_dealt_hands(deck: Seq<Card>, n: nat)
    requires
        deck.len() >= 5 * n,
    ensures
        hands_multiset(deal_model(deck, n).players) =~= deck.take(5 * n as int).to_multiset(),
    decreases n,
{
    let ps = deal_model(deck, n).players;
    if n > 0 {
        let m = (n - 1) as nat;
        lemma_dealt_hands(deck, m);
        assert(ps.drop_last() =~= deal_model(deck, m).players);
        assert(deck.take(5 * n as int) =~= deck.take(5 * m as int) + deck.subrange(
            5 * m as int,
            5 * n as int,
        ));
        vstd::seq_lib::lemma_multiset_commutative(
            deck.take(5 * m as int),
            deck.subrange(5 * m as int, 5 * n as int),
        );
    } else {
        assert(deck.take(0) =~= Seq::<Card>::empty());
    }
}

/// Dealing hands out the cards of the deck and nothing else: the new game
/// holds exactly the cards of the deck it was dealt from.
pub proof fn lemma_deal_keeps_cards(deck: Seq<Card>, n: nat)
    requires
        deck.len() >= 5 * n,
    ensures
        cards_in_play(deal_model(deck, n)) =~= deck.to_multiset(),
{
    let g = deal_model(deck, n);
    lemma_dealt_hands(deck, n);
    assert(deck =~= deck.take(5 * n as int) + deck.skip(5 * n as int));
    vstd::seq_lib::lemma_multiset_commutative(deck.take(5 * n as int), deck.skip(5 * n as int));
    reveal_with_fuel(played_multiset, 7);
    assert(played_multiset(g.piles, 6) =~= Multiset::empty());
    assert(g.discard.to_multiset() =~= Multiset::empty());
}

/// Once the game is won or lost, every action is refused.
pub proof fn lemma_over_refuses_all(g: GameModel, action: Action, actor: int)
    requires
        g.over(),
    ensures
        take_action_spec(g, action, actor) is None,
{
}

/// Only a swap may be made out of turn.
pub proof fn lemma_out_of_turn_only_swap(g: GameModel, action: Action, actor: int)
    requires
        actor != g.turn,
        take_action_spec(g, action, actor) is Some,
    ensures
        action is Swap,
{
}

/// Every accepted action, a swap out of turn included, passes the turn to
/// the next player in order, wrapping around after the last one; the
/// players and their names stay the same.
pub proof fn lemma_accepted_action_passes_turn(g: GameModel, action: Action, actor: int)
    requires
        g.wf(),
        take_action_in_bounds(g, action, actor),
        take_action_spec(g, action, actor) is Some,
    ensures
        ({
            let next = take_action_spec(g, action, actor).unwrap();
            &&& next.turn == (g.turn + 1) % (g.players.len() as int)
            &&& next.players.len() == g.players.len()
            &&& forall|i: int| 0 <= i < g.players.len() ==> #[trigger] next.players[i].name == g.players[i].name
        }),
{
    let next = take_action_spec(g, action, actor).unwrap();
    assert(g.players.len() > 0);
    assert forall|i: int| 0 <= i < g.players.len() implies #[trigger] next.players[i].name
        == g.players[i].name by {
        match action {
            Action::Discard(index) => {
                let g1 = after_draw(after_use(g, actor, index as int), actor);
                assert(next.players == g1.players);
            },
            Action::Play(index) => {
                let g1 = after_draw(after_use(g, actor, index as int), actor);
                assert(next.players[i] == g1.players[i]);
            },
            _ => {},
        }
    }
}

/// A hint costs one token; a discard gives one back, up to eight.
pub proof fn lemma_hint_tokens(g: GameModel, action: Action, actor: int)
    requires
        g.wf(),
        take_action_spec(g, action, actor) is Some,
    ensures
        ({
            let next = take_action_spec(g, action, actor).unwrap();
            &&& action is GiveHint ==> next.hints_left == g.hints_left - 1
            &&& action is Discard ==> next.hints_left == if g.hints_left < 8 {
                g.hints_left + 1
            } else {
                8
            }
            &&& action is Swap ==> next.hints_left == g.hints_left
        }),
{
}

/// Nothing is ever taken back: an accepted action never lowers a pile
/// or the number of bombs, only adds to the end of the discard pile, and
/// takes at most the top card of the deck.
pub proof fn lemma_progress_is_monotone(g: GameModel, action: Action, actor: int)
    requires
        g.wf(),
        take_action_in_bounds(g, action, actor),
        take_action_spec(g, action, actor) is Some,
    ensures
        ({
            let next = take_action_spec(g, action, actor).unwrap();
            &&& forall|k: int| 0 <= k < 6 ==> #[trigger] next.piles[k] >= g.piles[k]
            &&& next.bombs >= g.bombs
            &&& next.discard.len() >= g.discard.len()
            &&& next.discard.take(g.discard.len() as int) == g.discard
            &&& (next.deck == g.deck || (g.deck.len() > 0 && next.deck == g.deck.drop_first()))
        }),
{
    let next = take_action_spec(g, action, actor).unwrap();
    assert(next.discard.take(g.discard.len() as int) =~= g.discard);
}

/// Giving a player the same hint twice has the effect of giving it once.
pub proof fn lemma_hint_idempotent(p: PlayerModel, hint: Hint)
    ensures
        player_after_hint(player_after_hint(p, hint), hint) == player_after_hint(p, hint),
{
    let once = player_after_hint(p, hint);
    let twice = player_after_hint(once, hint);
    assert(twice.known_colors =~= once.known_colors);
    assert(twice.known_values =~= once.known_values);
    assert(twice =~= once);
}

/// A color hint and a value hint to the same player can be given in
/// either order with the same effect.
pub proof fn lemma_color_and_value_hints_commute(p: PlayerModel, c: Color, v: Value)
    ensures
        player_after_hint(player_after_hint(p, Hint::ColorHint(c)), Hint::ValueHint(v))
            == player_after_hint(player_after_hint(p, Hint::ValueHint(v)), Hint::ColorHint(c)),
{
    let a = player_after_hint(player_after_hint(p, Hint::ColorHint(c)), Hint::ValueHint(v));
    let b = player_after_hint(player_after_hint(p, Hint::ValueHint(v)), Hint::ColorHint(c));
    assert(a.known_colors =~= b.known_colors);
    assert(a.known_values =~= b.known_values);
    assert(a =~= b);
}

/// Counting the cards equal to `c` agrees with the multiset of the cards.
proof fn lemma_count_of_is_multiplicity(s: Seq<Card>, c: Card)
    ensures
        count_of(s, c) == s.to_multiset().count(c),
    decreases s.len(),
{
    if s.len() > 0 {
        lemma_count_of_is_multiplicity(s.drop_last(), c);
        assert(s =~= s.drop_last().push(s.last()));
    } else {
        assert(s.to_multiset() =~= Multiset::empty());
    }
}

/// What a play does, for every card and every game: a card that is the
/// next one its pile needs raises that pile to the card's value, touches
/// no other pile and no bomb, and gives a hint token back (up to eight)
/// exactly when it is a five; any other card goes to the end of the
/// discard pile and sets off one more bomb, with the piles and the hint
/// tokens unchanged. Either way the play is accepted on the player's turn.
pub proof fn lemma_play_outcome(g: GameModel, actor: int, index: usize)
    requires
        g.wf(),
        !g.over(),
        actor == g.turn,
        0 <= actor < g.players.len(),
        index < g.players[actor].hand.len(),
    ensures
        ({
            let card = g.players[actor].hand[index as int];
            let k = color_index(card.color);
            let r = take_action_spec(g, Action::Play(index), actor);
            &&& r is Some
            &&& if g.piles[k] + 1 == value_number(card.value) {
                &&& r.unwrap().piles[k] == value_number(card.value)
                &&& forall|m: int| 0 <= m < 6 && m != k ==> #[trigger] r.unwrap().piles[m] == g.piles[m]
                &&& r.unwrap().bombs == g.bombs
                &&& r.unwrap().discard == g.discard
                &&& r.unwrap().hints_left == if card.value == Value::Five {
                    if g.hints_left < 8 {
                        g.hints_left + 1
                    } else {
                        8
                    }
                } else {
                    g.hints_left as int
                }
            } else {
                &&& r.unwrap().piles == g.piles
                &&& r.unwrap().bombs == g.bombs + 1
                &&& r.unwrap().discard == g.discard.push(card)
                &&& r.unwrap().hints_left == g.hints_left
            }
        }),
{
}

/// What a discard does to the outcome of the game: the card goes to the
/// end of the discard pile and one hint token comes back (up to eight);
/// the game is then lost exactly when the discard pile holds all the
/// copies of that card (as many as `init_count` of its value, counting
/// only cards of the same color and value) or no player has five cards
/// left, and goes on otherwise.
pub proof fn lemma_discard_outcome(g: GameModel, actor: int, index: usize)
    requires
        g.wf(),
        !g.over(),
        actor == g.turn,
        0 <= actor < g.players.len(),
        index < g.players[actor].hand.len(),
    ensures
        ({
            let card = g.players[actor].hand[index as int];
            let r = take_action_spec(g, Action::Discard(index), actor);
            &&& r is Some
            &&& r.unwrap().discard == g.discard.push(card)
            &&& r.unwrap().hints_left == if g.hints_left < 8 {
                g.hints_left + 1
            } else {
                8
            }
            &&& (r.unwrap().state == Status::Lost <==> (r.unwrap().discard.to_multiset().count(card)
                == spec_init_count(card.value) || forall|i: int|
                0 <= i < r.unwrap().players.len() ==> #[trigger] r.unwrap().players[i].hand.len()
                    < 5))
            &&& r.unwrap().state != Status::Lost ==> r.unwrap().state == Status::Playing
        }),
{
    let card = g.players[actor].hand[index as int];
    let next = take_action_spec(g, Action::Discard(index), actor).unwrap();
    lemma_count_of_is_multiplicity(next.discard, card);
    assert(!crate::game::all_piles_full(g.piles));
    assert(next.piles == g.piles);
    assert(next.bombs == g.bombs && g.bombs < 3);
    assert(crate::game::all_hands_short(next.players) == (forall|i: int|
        0 <= i < next.players.len() ==> #[trigger] next.players[i].hand.len() < 5));
}

/// What a hint does to the receiver: every card of the hinted color (or
/// value) becomes known to have it; every other position keeps exactly
/// what was known of it, so nothing known is ever forgotten; the other
/// kind of knowledge, the hand and the name stay as they were, and so do
/// all other players. One hint token is spent.
pub proof fn lemma_hint_outcome(g: GameModel, actor: int, hint: Hint, other: usize)
    requires
        g.wf(),
        !g.over(),
        actor == g.turn,
        0 <= actor < g.players.len(),
        other < g.players.len(),
        g.hints_left > 0,
    ensures
        ({
            let p = g.players[other as int];
            let r = take_action_spec(g, Action::GiveHint(hint, other), actor);
            &&& r is Some
            &&& r.unwrap().hints_left == g.hints_left - 1
            &&& r.unwrap().players.len() == g.players.len()
            &&& forall|k: int|
                0 <= k < g.players.len() && k != other ==> #[trigger] r.unwrap().players[k]
                    == g.players[k]
            &&& r.unwrap().players[other as int].hand == p.hand
            &&& r.unwrap().players[other as int].name == p.name
            &&& forall|j: int|
                0 <= j < 5 && p.known_colors[j] is Some ==> #[trigger] r.unwrap().players[other as int].known_colors[j]
                    == p.known_colors[j]
            &&& forall|j: int|
                0 <= j < 5 && p.known_values[j] is Some ==> #[trigger] r.unwrap().players[other as int].known_values[j]
                    == p.known_values[j]
            &&& match hint {
                Hint::ColorHint(c) => {
                    &&& r.unwrap().players[other as int].known_values == p.known_values
                    &&& forall|j: int|
                        0 <= j < 5 ==> #[trigger] r.unwrap().players[other as int].known_colors[j]
                            == if j < p.hand.len() && p.hand[j].color == c {
                            Some(c)
                        } else {
                            p.known_colors[j]
                        }
                },
                Hint::ValueHint(v) => {
                    &&& r.unwrap().players[other as int].known_colors == p.known_colors
                    &&& forall|j: int|
                        0 <= j < 5 ==> #[trigger] r.unwrap().players[other as int].known_values[j]
                            == if j < p.hand.len() && p.hand[j].value == v {
                            Some(v)
                        } else {
                            p.known_values[j]
                        }
                },
            }
        }),
{
    let p = g.players[other as int];
    assert(p.wf());
}

/// What a swap does, in either order of the two positions: the actor's
/// cards at `i` and `j` trade places together with what is known of them,
/// every other card and piece of knowledge stays, and `Swap(i, j)` has the
/// same result as `Swap(j, i)`. A swap is accepted out of turn too.
pub proof fn lemma_swap_outcome(g: GameModel, actor: int, i: usize, j: usize)
    requires
        g.wf(),
        !g.over(),
        0 <= actor < g.players.len(),
        i < g.players[actor].hand.len(),
        j < g.players[actor].hand.len(),
    ensures
        ({
            let p = g.players[actor];
            let r = take_action_spec(g, Action::Swap(i, j), actor);
            let q = r.unwrap().players[actor];
            &&& r is Some
            &&& r == take_action_spec(g, Action::Swap(j, i), actor)
            &&& q.hand.len() == p.hand.len()
            &&& q.hand[i as int] == p.hand[j as int]
            &&& q.hand[j as int] == p.hand[i as int]
            &&& q.known_colors[i as int] == p.known_colors[j as int]
            &&& q.known_colors[j as int] == p.known_colors[i as int]
            &&& q.known_values[i as int] == p.known_values[j as int]
            &&& q.known_values[j as int] == p.known_values[i as int]
            &&& forall|k: int|
                0 <= k < p.hand.len() && k != i && k != j ==> #[trigger] q.hand[k] == p.hand[k]
            &&& forall|k: int|
                0 <= k < 5 && k != i && k != j ==> #[trigger] q.known_colors[k] == p.known_colors[k]
                    && q.known_values[k] == p.known_values[k]
        }),
{
    let p = g.players[actor];
    assert(seq_swap(p.hand, i as int, j as int) =~= seq_swap(p.hand, j as int, i as int));
    assert(seq_swap(p.known_colors, i as int, j as int) =~= seq_swap(
        p.known_colors,
        j as int,
        i as int,
    ));
    assert(seq_swap(p.known_values, i as int, j as int) =~= seq_swap(
        p.known_values,
        j as int,
        i as int,
    ));
    assert(player_after_swap(p, i as int, j as int) =~= player_after_swap(p, j as int, i as int));
}

/// What playing or discarding does to the hands and the deck: the card
/// leaves the actor's hand, the later cards move up one place with what is
/// known of them, the top card of the deck (if any) joins the end of the
/// hand with nothing known of it and leaves the deck, and every other
/// player is left as they were.
pub proof fn lemma_used_card_outcome(g: GameModel, actor: int, index: usize, play: bool)
    requires
        g.wf(),
        !g.over(),
        actor == g.turn,
        0 <= actor < g.players.len(),
        index < g.players[actor].hand.len(),
    ensures
        ({
            let p = g.players[actor];
            let n = p.hand.len();
            let action = if play {
                Action::Play(index)
            } else {
                Action::Discard(index)
            };
            let r = take_action_spec(g, action, actor);
            let q = r.unwrap().players[actor];
            &&& r is Some
            &&& r.unwrap().turn == (g.turn + 1) % (g.players.len() as int)
            &&& r.unwrap().players.len() == g.players.len()
            &&& forall|k: int|
                0 <= k < g.players.len() && k != actor ==> #[trigger] r.unwrap().players[k]
                    == g.players[k]
            &&& q.name == p.name
            &&& if g.deck.len() > 0 {
                &&& q.hand == p.hand.remove(index as int).push(g.deck[0])
                &&& r.unwrap().deck == g.deck.subrange(1, g.deck.len() as int)
            } else {
                &&& q.hand == p.hand.remove(index as int)
                &&& r.unwrap().deck == g.deck
            }
            &&& forall|k: int|
                0 <= k < index ==> #[trigger] q.known_colors[k] == p.known_colors[k]
                    && q.known_values[k] == p.known_values[k]
            &&& forall|k: int|
                index <= k < n - 1 ==> #[trigger] q.known_colors[k] == p.known_colors[k + 1]
                    && q.known_values[k] == p.known_values[k + 1]
            &&& forall|k: int|
                n - 1 <= k < 5 ==> #[trigger] q.known_colors[k] is None && q.known_values[k] is None
        }),
{
    let p = g.players[actor];
    assert(p.wf());
    let action = if play {
        Action::Play(index)
    } else {
        Action::Discard(index)
    };
    let next = take_action_spec(g, action, actor).unwrap();
    assert(next.players[actor] == player_after_draw(player_after_use(p, index as int), g.deck));
}

} // verus!
