//! A player: a name, a hand kept in card order, and at most one drawn card
//! held between a draw and its commit.

use vstd::prelude::*;
use crate::card::{card_le, keys_unique, same_key, sorted, Card, CardStatus};
use crate::chance::random_below;
use crate::codec::{hand_from_bytes, hand_of_bytes, render, render_cards, render_styled, shows_painted_value};
use crate::error::GameError;

verus! {

broadcast use vstd::seq_lib::group_to_multiset_ensures;

/// Where a player stands in the game.
#[derive(Debug, Clone, Copy, PartialEq, Eq, Structural)]
pub enum PlayerStatus {
    INIT,
    PLAYING,
    LOST,
    WON,
}

/// A participant and the cards they hold.
#[derive(Debug, Clone)]
pub struct Player {
    pub name: String,
    pub ncards: u32,
    pub deck: Vec<Card>,
    pub status: PlayerStatus,
    pub side_card: Option<Card>,
}

/// The mathematical value of a player.
pub struct PlayerModel {
    pub name: Seq<char>,
    pub ncards: u32,
    pub deck: Seq<Card>,
    pub status: PlayerStatus,
    pub side_card: Option<Card>,
}

impl View for Player {
    type V = PlayerModel;

    open spec fn view(&self) -> PlayerModel {
        PlayerModel {
            name: self.name@,
            ncards: self.ncards,
            deck: self.deck@,
            status: self.status,
            side_card: self.side_card,
        }
    }
}

/// The card with its status set to revealed.
pub open spec fn revealed(c: Card) -> Card {
    Card { status: CardStatus::REVEALED, ..c }
}

/// The card with its status set to hidden.
pub open spec fn hidden(c: Card) -> Card {
    Card { status: CardStatus::HIDDEN, ..c }
}

/// The hand with the card at `i` revealed.
pub open spec fn reveal_at(deck: Seq<Card>, i: int) -> Seq<Card> {
    deck.update(i, revealed(deck[i]))
}

/// What revealing the card at `i` reports: 1 when it was revealed already.
pub open spec fn reveal_flag(deck: Seq<Card>, i: int) -> u32 {
    if deck[i].status == CardStatus::REVEALED {
        1
    } else {
        0
    }
}

/// `r` orders the cards of `s`: sorted, and the same cards.
pub open spec fn sorts(s: Seq<Card>, r: Seq<Card>) -> bool {
    sorted(r) && r.len() == s.len() && r.to_multiset() == s.to_multiset()
}

/// `after` is `before` once its drawn card went into the hand, hidden when
/// `hide_it`, revealed otherwise: one more card, in order, none held.
pub open spec fn commits(before: PlayerModel, after: PlayerModel, hide_it: bool) -> bool {
    &&& before.side_card is Some
    &&& sorts(
        before.deck.push(if hide_it { hidden(before.side_card->0) } else { revealed(before.side_card->0) }),
        after.deck,
    )
    &&& after == (PlayerModel { deck: after.deck, ncards: (before.ncards + 1) as u32, side_card: None, ..before })
}

/// `k` is the first position of `s` holding a card with the identity of `c`.
pub open spec fn first_key_at(s: Seq<Card>, c: Card, k: int) -> bool {
    0 <= k < s.len() && same_key(s[k], c) && forall|j: int| 0 <= j < k ==> !same_key(#[trigger] s[j], c)
}

/// Removing a card keeps identities unique.
pub proof fn lemma_remove_keeps_unique(s: Seq<Card>, k: int)
    requires
        keys_unique(s),
        0 <= k < s.len(),
    ensures
        keys_unique(s.remove(k)),
{
    let r = s.remove(k);
    assert forall|i: int, j: int| 0 <= i < r.len() && 0 <= j < r.len() && i != j implies !same_key(#[trigger] r[i], #[trigger] r[j]) by {
        let a = if i < k { i } else { i + 1 };
        let b = if j < k { j } else { j + 1 };
        assert(r[i] == s[a] && r[j] == s[b]);
    }
}

/// The first position of `v` holding a card with the identity of `c`.
fn position_of_key(v: &Vec<Card>, c: &Card) -> (r: usize)
    requires
        exists|k: int| 0 <= k < v@.len() && same_key(#[trigger] v@[k], *c),
    ensures
        first_key_at(v@, *c, r as int),
{
    let mut i: usize = 0;
    while i < v.len()
        invariant
            i <= v@.len(),
            forall|j: int| 0 <= j < i ==> !same_key(#[trigger] v@[j], *c),
            exists|k: int| 0 <= k < v@.len() && same_key(#[trigger] v@[k], *c),
        decreases v@.len() - i,
    {
        if v[i].value == c.value && v[i].color == c.color {
            return i;
        }
        i = i + 1;
    }
    i
}

/// Copies a row of cards.
pub fn copy_cards(v: &Vec<Card>) -> (r: Vec<Card>)
    ensures
        r@ == v@,
{
    let mut r: Vec<Card> = Vec::new();
    let mut i: usize = 0;
    while i < v.len()
        invariant
            i <= v@.len(),
            r@ == v@.subrange(0, i as int),
        decreases v@.len() - i,
    {
        r.push(v[i]);
        i = i + 1;
        assert(r@ =~= v@.subrange(0, i as int));
    }
    assert(v@.subrange(0, i as int) =~= v@);
    r
}

/// Inserts `c` into an ordered row after every card that does not follow it.
pub fn insert_sorted(v: &mut Vec<Card>, c: Card)
    requires
        sorted(old(v)@),
    ensures
        sorted(final(v)@),
        final(v)@.to_multiset() == old(v)@.to_multiset().insert(c),
        final(v)@.len() == old(v)@.len() + 1,
{
    let mut pos: usize = 0;
    while pos < v.len() && !c.precedes(&v[pos])
        invariant
            pos <= v@.len(),
            forall|k: int| 0 <= k < pos ==> card_le(#[trigger] v@[k], c),
        decreases v@.len() - pos,
    {
        pos = pos + 1;
    }
    let ghost before = v@;
    v.insert(pos, c);
    proof {
        assert(v@.remove(pos as int) =~= before);
        assert(v@[pos as int] == c);
        assert(v@.to_multiset().remove(c) == before.to_multiset());
        assert(v@.to_multiset() =~= before.to_multiset().insert(c));
        assert forall|i: int, j: int| 0 <= i < j < v@.len() implies card_le(#[trigger] v@[i], #[trigger] v@[j]) by {
            if j < pos {
            } else if j == pos {
            } else if i < pos {
                assert(card_le(before[i], c));
                assert(card_le(c, before[pos as int]));
                assert(card_le(before[pos as int], before[j - 1]) || pos as int == j - 1);
            } else if i == pos {
                assert(card_le(before[pos as int], before[j - 1]) || pos as int == j - 1);
            } else {
                assert(card_le(before[i - 1], before[j - 1]));
            }
        }
    }
}

/// Orders a row of cards by value, black before white on equal values.
pub fn sort_cards(v: &Vec<Card>) -> (r: Vec<Card>)
    ensures
        sorts(v@, r@),
        r@.len() == v@.len(),
{
    let mut r: Vec<Card> = Vec::new();
    let mut i: usize = 0;
    while i < v.len()
        invariant
            i <= v@.len(),
            sorted(r@),
            r@.len() == i,
            r@.to_multiset() == v@.subrange(0, i as int).to_multiset(),
        decreases v@.len() - i,
    {
        insert_sorted(&mut r, v[i]);
        assert(v@.subrange(0, i + 1) =~= v@.subrange(0, i as int).push(v@[i as int]));
        i = i + 1;
    }
    assert(v@.subrange(0, i as int) =~= v@);
    r
}

impl Player {
    /// A player with an empty hand, waiting for the deal.
    pub fn new(name: String, ncards: u32) -> (r: Player)
        ensures
            r@ == (PlayerModel { name: name@, ncards, deck: Seq::empty(), status: PlayerStatus::INIT, side_card: None }),
    {
        Player { name, ncards, deck: Vec::new(), status: PlayerStatus::INIT, side_card: None }
    }

    /// A copy of this player.
    pub fn duplicate(&self) -> (r: Player)
        ensures
            r@ == self@,
    {
        Player {
            name: self.name.clone(),
            ncards: self.ncards,
            deck: copy_cards(&self.deck),
            status: self.status,
            side_card: self.side_card,
        }
    }

    /// The value at `card_number` while it is hidden; `None` once revealed.
    pub fn get_specific_card_value(&self, card_number: usize) -> (r: Option<u32>)
        requires
            card_number < self.deck@.len(),
        ensures
            r == if self.deck@[card_number as int].status == CardStatus::REVEALED {
                None::<u32>
            } else {
                Some(self.deck@[card_number as int].value)
            },
    {
        let picked = self.deck[card_number];
        if picked.status == CardStatus::REVEALED {
            return None;
        }
        Some(picked.value)
    }

    /// Replaces the hand with the cards written in a hand snapshot, in the
    /// order written.
    pub fn deck_from_str(&mut self, deck_str: String)
        ensures
            final(self)@ == (PlayerModel { deck: hand_of_bytes(vstd::utf8::encode_utf8(deck_str@), false), ..old(self)@ }),
    {
        let b = deck_str.as_str().as_bytes();
        self.deck = hand_from_bytes(b, false);
    }

    /// Takes the card at `card_number` out of the pool and holds it as the
    /// drawn card.
    pub fn draw_specific_card(&mut self, avail_card: &mut Vec<Card>, card_number: usize) -> (r: Result<Card, GameError>)
        ensures
            card_number >= old(avail_card)@.len() ==> r == Err::<Card, GameError>(GameError::IndexOutOfRange)
                && final(avail_card)@ == old(avail_card)@ && final(self)@ == old(self)@,
            card_number < old(avail_card)@.len() ==> r == Ok::<Card, GameError>(old(avail_card)@[card_number as int])
                && (exists|j: int| first_key_at(old(avail_card)@, old(avail_card)@[card_number as int], j)
                    && final(avail_card)@ == old(avail_card)@.remove(j))
                && (keys_unique(old(avail_card)@) ==> final(avail_card)@ == old(avail_card)@.remove(card_number as int))
                && final(self)@ == (PlayerModel { side_card: Some(old(avail_card)@[card_number as int]), ..old(self)@ }),
    {
        if card_number >= avail_card.len() {
            return Err(GameError::IndexOutOfRange);
        }
        let picked = avail_card[card_number];
        let idx = position_of_key(avail_card, &picked);
        assert(keys_unique(avail_card@) ==> idx == card_number) by {
            if idx < card_number {
                assert(same_key(avail_card@[idx as int], avail_card@[card_number as int]));
            }
        }
        avail_card.remove(idx);
        self.side_card = Some(picked);
        Ok(picked)
    }

    /// Takes a card at random out of the pool and holds it as the drawn card.
    pub fn draw_card(&mut self, avail_card: &mut Vec<Card>) -> (r: Result<(), GameError>)
        requires
            keys_unique(old(avail_card)@),
        ensures
            old(avail_card)@.len() == 0 ==> r == Err::<(), GameError>(GameError::EmptyPool)
                && final(avail_card)@ == old(avail_card)@ && final(self)@ == old(self)@,
            old(avail_card)@.len() > 0 ==> r == Ok::<(), GameError>(()) && exists|k: int|
                0 <= k < old(avail_card)@.len()
                && final(avail_card)@ == old(avail_card)@.remove(k)
                && final(self)@ == (PlayerModel { side_card: Some(#[trigger] old(avail_card)@[k]), ..old(self)@ }),
    {
        if avail_card.len() == 0 {
            return Err(GameError::EmptyPool);
        }
        let k = random_below(avail_card.len());
        let _ = self.draw_specific_card(avail_card, k);
        Ok(())
    }

    /// Takes the card at `card_number` out of the pool straight into the
    /// hand, which is then put back in order; no drawn card is held after.
    pub fn draw_to_deck_at(&mut self, avail_card: &mut Vec<Card>, card_number: usize) -> (r: Result<(), GameError>)
        requires
            keys_unique(old(avail_card)@),
        ensures
            card_number >= old(avail_card)@.len() ==> r == Err::<(), GameError>(GameError::IndexOutOfRange)
                && final(avail_card)@ == old(avail_card)@ && final(self)@ == old(self)@,
            card_number < old(avail_card)@.len() ==> r == Ok::<(), GameError>(())
                && final(avail_card)@ == old(avail_card)@.remove(card_number as int)
                && sorts(old(self)@.deck.push(old(avail_card)@[card_number as int]), final(self)@.deck)
                && final(self)@ == (PlayerModel { deck: final(self)@.deck, side_card: None, ..old(self)@ }),
    {
        match self.draw_specific_card(avail_card, card_number) {
            Err(e) => Err(e),
            Ok(picked) => {
                self.deck.push(picked);
                self.sort_deck();
                self.side_card = None;
                Ok(())
            },
        }
    }

    /// Takes a card at random out of the pool straight into the hand, which
    /// is then put back in order; no drawn card is held after.
    pub fn draw_to_deck(&mut self, avail_card: &mut Vec<Card>) -> (r: Result<(), GameError>)
        requires
            keys_unique(old(avail_card)@),
        ensures
            old(avail_card)@.len() == 0 ==> r == Err::<(), GameError>(GameError::EmptyPool)
                && final(avail_card)@ == old(avail_card)@ && final(self)@ == old(self)@,
            old(avail_card)@.len() > 0 ==> r == Ok::<(), GameError>(()) && exists|k: int|
                0 <= k < old(avail_card)@.len()
                && final(avail_card)@ == old(avail_card)@.remove(k)
                && sorts(old(self)@.deck.push(#[trigger] old(avail_card)@[k]), final(self)@.deck)
                && final(self)@ == (PlayerModel { deck: final(self)@.deck, side_card: None, ..old(self)@ }),
    {
        if avail_card.len() == 0 {
            return Err(GameError::EmptyPool);
        }
        let k = random_below(avail_card.len());
        let _ = self.draw_to_deck_at(avail_card, k);
        Ok(())
    }

    /// Moves the drawn card into the hand, hidden when `hide_it`, revealed
    /// otherwise; the hand grows by one and is put back in order.
    pub fn save_side_card(&mut self, hide_it: bool) -> (r: Result<(), GameError>)
        requires
            old(self).side_card is Some ==> old(self).ncards < u32::MAX,
        ensures
            old(self).side_card is None ==> r == Err::<(), GameError>(GameError::NoPendingDraw)
                && final(self)@ == old(self)@,
            old(self).side_card is Some ==> r == Ok::<(), GameError>(()) && commits(old(self)@, final(self)@, hide_it),
    {
        match self.side_card {
            None => Err(GameError::NoPendingDraw),
            Some(c) => {
                if hide_it {
                    self.deck.push(Card { status: CardStatus::HIDDEN, ..c });
                } else {
                    self.deck.push(Card { status: CardStatus::REVEALED, ..c });
                }
                self.ncards = self.ncards + 1;
                self.sort_deck();
                self.side_card = None;
                Ok(())
            },
        }
    }

    /// The hand as text; `opponent_view` hides the values of hidden cards.
    pub fn show_hand(&self, opponent_view: bool, colorize: bool) -> (r: String)
        ensures
            !colorize || !shows_painted_value(self.deck@, opponent_view) ==> r@ == render(self.deck@, opponent_view),
            exists|styles: Seq<bool>| styles.len() == self.deck@.len()
                && r@ == #[trigger] render_styled(self.deck@, opponent_view, colorize, styles),
    {
        render_cards(&self.deck, opponent_view, colorize)
    }

    /// Puts the hand in order: ascending value, black before white on ties.
    pub fn sort_deck(&mut self)
        ensures
            sorts(old(self)@.deck, final(self)@.deck),
            final(self)@ == (PlayerModel { deck: final(self)@.deck, ..old(self)@ }),
    {
        self.deck = sort_cards(&self.deck);
    }

    /// Deals `ncards` cards at random from the pool into the hand and marks
    /// the player as playing. A pool with fewer cards is refused untouched.
    pub fn init_game(&mut self, avail_card: &mut Vec<Card>) -> (r: Result<(), GameError>)
        requires
            keys_unique(old(avail_card)@),
        ensures
            old(avail_card)@.len() < old(self).ncards ==> r == Err::<(), GameError>(GameError::EmptyPool)
                && final(avail_card)@ == old(avail_card)@ && final(self)@ == old(self)@,
            old(avail_card)@.len() >= old(self).ncards ==> r == Ok::<(), GameError>(())
                && final(self)@.deck.len() == old(self)@.deck.len() + old(self).ncards
                && final(avail_card)@.len() == old(avail_card)@.len() - old(self).ncards
                && keys_unique(final(avail_card)@)
                && final(self)@.deck.to_multiset().add(final(avail_card)@.to_multiset())
                    == old(self)@.deck.to_multiset().add(old(avail_card)@.to_multiset())
                && (old(self).ncards > 0 ==> sorted(final(self)@.deck))
                && final(self)@ == (PlayerModel {
                    deck: final(self)@.deck,
                    status: PlayerStatus::PLAYING,
                    side_card: None,
                    ..old(self)@
                }),
    {
        if avail_card.len() < self.ncards as usize {
            return Err(GameError::EmptyPool);
        }
        let ghost total = old(self)@.deck.to_multiset().add(old(avail_card)@.to_multiset());
        let n = self.ncards;
        let mut i: u32 = 0;
        if n == 0 {
            self.side_card = None;
        }
        while i < n
            invariant
                i <= n,
                n == self.ncards,
                n == old(self).ncards,
                avail_card@.len() + i == old(avail_card)@.len(),
                self.deck@.len() == old(self)@.deck.len() + i,
                keys_unique(avail_card@),
                self.deck@.to_multiset().add(avail_card@.to_multiset()) == total,
                i > 0 ==> sorted(self.deck@),
                self.name@ == old(self)@.name,
                self.status == old(self).status,
                (n == 0 || i > 0) ==> self.side_card is None,
                old(avail_card)@.len() >= n,
            decreases n - i,
        {
            let ghost before_deck = self.deck@;
            let ghost before_avail = avail_card@;
            let _ = self.draw_to_deck(avail_card);
            proof {
                let k = choose|k: int| 0 <= k < before_avail.len()
                    && avail_card@ == before_avail.remove(k)
                    && sorts(before_deck.push(#[trigger] before_avail[k]), self.deck@);
                lemma_remove_keeps_unique(before_avail, k);
                let c = before_avail[k];
                assert(before_avail.to_multiset().count(c) > 0);
                assert(self.deck@.to_multiset() == before_deck.to_multiset().insert(c));
                assert(avail_card@.to_multiset() == before_avail.to_multiset().remove(c));
                assert(self.deck@.to_multiset().add(avail_card@.to_multiset()) =~= before_deck.to_multiset().add(before_avail.to_multiset()));
            }
            i = i + 1;
        }
        self.status = PlayerStatus::PLAYING;
        Ok(())
    }

    /// Reveals the card at `card_idx`: 1 when it was revealed already, 0 otherwise.
    pub fn reveal_card(&mut self, card_idx: usize) -> (r: u32)
        requires
            card_idx < old(self)@.deck.len(),
        ensures
            r == reveal_flag(old(self)@.deck, card_idx as int),
            final(self)@ == (PlayerModel { deck: reveal_at(old(self)@.deck, card_idx as int), ..old(self)@ }),
    {
        let c = self.deck[card_idx];
        if c.status == CardStatus::REVEALED {
            assert(reveal_at(old(self)@.deck, card_idx as int) =~= old(self)@.deck);
            1
        } else {
            self.deck[card_idx] = Card { status: CardStatus::REVEALED, ..c };
            0
        }
    }

    /// Reveals the first card of the hand with the identity of `card_to_reveal`.
    pub fn reveal_card_2(&mut self, card_to_reveal: &Card)
        requires
            exists|k: int| 0 <= k < old(self)@.deck.len() && same_key(#[trigger] old(self)@.deck[k], *card_to_reveal),
        ensures
            exists|k: int| first_key_at(old(self)@.deck, *card_to_reveal, k)
                && final(self)@ == (PlayerModel {
                    deck: old(self)@.deck.update(k, revealed(#[trigger] old(self)@.deck[k])),
                    ..old(self)@
                }),
    {
        let idx = position_of_key(&self.deck, card_to_reveal);
        let c = self.deck[idx];
        self.deck[idx] = Card { status: CardStatus::REVEALED, ..c };
        assert(self@.deck == old(self)@.deck.update(idx as int, revealed(old(self)@.deck[idx as int])));
    }
}

} // verus!
