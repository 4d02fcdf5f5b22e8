//! Properties that hold across the engine's operations.

use vstd::prelude::*;
use crate::card::{all_revealed, Card, CardStatus, Color};
use crate::game::{card_pairs, dealt_players, fallen, full_set, lemma_card_pairs, survivors};
use crate::game::Game;
use crate::player::{reveal_at, reveal_flag, PlayerModel, PlayerStatus};
use crate::turn::{answered, last_position, number_reply, Outcome, Phase, Turn};

verus! {

broadcast use vstd::seq_lib::group_to_multiset_ensures;

proof fn lemma_card_pairs_at(k: nat, v: nat)
    requires
        v < k,
        k <= 2147483648,
    ensures
        card_pairs(k)[2 * v as int] == (Card { color: Color::BLACK, value: v as u32, status: CardStatus::HIDDEN }),
        card_pairs(k)[2 * v as int + 1] == (Card { color: Color::WHITE, value: v as u32, status: CardStatus::HIDDEN }),
    decreases k,
{
    lemma_card_pairs((k - 1) as nat);
    if v < k - 1 {
        lemma_card_pairs_at((k - 1) as nat, v);
    }
}

/// The full set for an even size `n` holds exactly `n` cards, all hidden
/// with a value below `n / 2`, and each value below `n / 2` exactly once in
/// each color.
pub proof fn full_set_is_exact(n: u32)
    requires
        n % 2 == 0,
    ensures
        full_set(n).len() == n,
        forall|i: int| 0 <= i < n ==> (#[trigger] full_set(n)[i]).value < n / 2
            && full_set(n)[i].status == CardStatus::HIDDEN,
        forall|v: u32, c: Color| v < n / 2 ==> #[trigger] full_set(n).to_multiset().count(
            Card { color: c, value: v, status: CardStatus::HIDDEN },
        ) == 1,
{
    let k = (n / 2) as nat;
    let s = full_set(n);
    lemma_card_pairs(k);
    assert(s.no_duplicates()) by {
        assert forall|i: int, j: int| 0 <= i < s.len() && 0 <= j < s.len() && i != j implies s[i] != s[j] by {
            assert(!crate::card::same_key(s[i], s[j]));
        }
    }
    s.lemma_multiset_has_no_duplicates();
    assert forall|v: u32, c: Color| v < n / 2 implies #[trigger] s.to_multiset().count(
        Card { color: c, value: v, status: CardStatus::HIDDEN },
    ) == 1 by {
        lemma_card_pairs_at(k, v as nat);
        let x = Card { color: c, value: v, status: CardStatus::HIDDEN };
        let at = if c == Color::BLACK { 2 * v as int } else { 2 * v + 1 };
        assert(s[at] == x);
        assert(s.contains(x));
    }
}

/// Dealing to players with empty hands fills every hand to its capacity.
pub proof fn dealing_fills_each_hand(before: Seq<PlayerModel>, after: Seq<PlayerModel>)
    requires
        dealt_players(before, after),
        forall|i: int| 0 <= i < before.len() ==> (#[trigger] before[i]).deck.len() == 0,
    ensures
        forall|i: int| 0 <= i < after.len() ==> (#[trigger] after[i]).deck.len() == after[i].ncards,
{
    assert forall|i: int| 0 <= i < after.len() implies (#[trigger] after[i]).deck.len() == after[i].ncards by {
        assert(crate::game::dealt_player(before[i], after[i]));
    }
}

/// One round of elimination moves exactly the players whose whole hand is
/// revealed: each of them is among the lost, marked lost, and no longer
/// among the players; everyone else stays.
pub proof fn elimination_moves_fully_revealed(ps: Seq<PlayerModel>)
    ensures
        forall|i: int| 0 <= i < ps.len() && all_revealed(ps[i].deck) ==> fallen(ps).contains(
            PlayerModel { status: PlayerStatus::LOST, ..#[trigger] ps[i] },
        ) && !survivors(ps).contains(ps[i]),
        forall|i: int| 0 <= i < ps.len() && !all_revealed(ps[i].deck) ==> survivors(ps).contains(#[trigger] ps[i]),
        forall|i: int| 0 <= i < survivors(ps).len() ==> !all_revealed((#[trigger] survivors(ps)[i]).deck),
        forall|i: int| 0 <= i < fallen(ps).len() ==> (#[trigger] fallen(ps)[i]).status == PlayerStatus::LOST,
    decreases ps.len(),
{
    if ps.len() > 0 {
        let rest = ps.drop_last();
        elimination_moves_fully_revealed(rest);
        assert forall|i: int| 0 <= i < ps.len() && all_revealed(ps[i].deck) implies fallen(ps).contains(
            PlayerModel { status: PlayerStatus::LOST, ..#[trigger] ps[i] },
        ) && !survivors(ps).contains(ps[i]) by {
            if i < ps.len() - 1 {
                assert(rest[i] == ps[i]);
                let lost = PlayerModel { status: PlayerStatus::LOST, ..ps[i] };
                let k = choose|k: int| 0 <= k < fallen(rest).len() && fallen(rest)[k] == lost;
                if all_revealed(ps.last().deck) {
                    assert(fallen(ps)[k] == lost);
                }
            } else {
                let lost = PlayerModel { status: PlayerStatus::LOST, ..ps[i] };
                assert(fallen(ps).last() == lost);
            }
            if survivors(ps).contains(ps[i]) {
                let k = choose|k: int| 0 <= k < survivors(ps).len() && survivors(ps)[k] == ps[i];
                assert(!all_revealed(survivors(ps)[k].deck));
            }
        }
        assert forall|i: int| 0 <= i < ps.len() && !all_revealed(ps[i].deck) implies survivors(ps).contains(#[trigger] ps[i]) by {
            if i < ps.len() - 1 {
                assert(rest[i] == ps[i]);
                let k = choose|k: int| 0 <= k < survivors(rest).len() && survivors(rest)[k] == ps[i];
                if !all_revealed(ps.last().deck) {
                    assert(survivors(ps)[k] == ps[i]);
                }
            } else {
                assert(survivors(ps).last() == ps[i]);
            }
        }
    }
}

/// Revealing the same card twice: the second time reports that it was
/// revealed already and changes nothing.
pub proof fn reveal_twice_is_idempotent(deck: Seq<Card>, i: int)
    requires
        0 <= i < deck.len(),
    ensures
        reveal_flag(reveal_at(deck, i), i) == 1,
        reveal_at(reveal_at(deck, i), i) == reveal_at(deck, i),
{
    assert(reveal_at(reveal_at(deck, i), i) =~= reveal_at(deck, i));
}

/// Picking a card that is revealed already costs nothing: the game is left
/// as it was, and the turn is back where it stood before the pick, at once
/// with a single opponent, and once the same opponent is chosen again with
/// several. Every later reply then acts as if the pick never happened.
pub proof fn revealed_pick_costs_nothing(
    t0: Turn,
    g0: Game,
    reply: Seq<char>,
    t1: Turn,
    g1: Game,
    r: Outcome,
    again: Seq<char>,
    t2: Turn,
    g2: Game,
    r2: Outcome,
)
    requires
        t0.phase == Phase::PickCard,
        answered(t0, g0, reply, t1, g1, r),
        r == Outcome::AlreadyRevealed,
        t0.opponents@.len() > 1 ==> answered(t1, g1, again, t2, g2, r2)
            && number_reply(again, last_position(t0.opponents@.len())) is Some
            && number_reply(again, last_position(t0.opponents@.len()))->0 as usize == t0.opponent,
    ensures
        g1 == g0,
        t0.opponents@.len() == 1 ==> t1 == t0,
        t0.opponents@.len() > 1 ==> t1.phase == Phase::PickOpponent && r2 == Outcome::Accepted && t2 == t0
            && g2 == g0,
{
}

} // verus!
