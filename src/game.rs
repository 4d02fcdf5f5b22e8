//! The game: registered players, the pool of undealt cards, the players
//! eliminated so far and the winner.

use vstd::prelude::*;
use vstd::multiset::Multiset;
use crate::card::{all_revealed, keys_unique, same_key, sorted, Card, CardStatus, Color};
use crate::chance::shuffle_cards;
use crate::codec::{render, render_cards, render_styled, shows_painted_value};
use crate::error::GameError;
use crate::player::{Player, PlayerModel, PlayerStatus};

verus! {

broadcast use vstd::seq_lib::group_to_multiset_ensures;

/// Where the game is in its life: set up, being played, or over.
#[derive(Debug, Clone, Copy, PartialEq, Eq, Structural)]
pub enum GameState {
    INIT,
    RUNNING,
    END,
}

/// One game: players still in, players out, the winner once decided, and the
/// pool of cards that no player holds.
#[derive(Debug)]
pub struct Game {
    pub state: GameState,
    pub players: Vec<Player>,
    pub lost_players: Vec<Player>,
    pub winner: Option<Player>,
    pub card_avail: Vec<Card>,
    pub set_cards: u32,
    pub logs: String,
    pub err: String,
}

/// The models of a row of players.
pub open spec fn models(ps: Seq<Player>) -> Seq<PlayerModel> {
    ps.map_values(|p: Player| p@)
}

/// No two players share a name.
pub open spec fn names_unique(ps: Seq<PlayerModel>) -> bool {
    forall|i: int, j: int| 0 <= i < j < ps.len() ==> (#[trigger] ps[i]).name != (#[trigger] ps[j]).name
}

/// The cards a player's capacity asks for, summed over players.
pub open spec fn total_capacity(ps: Seq<PlayerModel>) -> nat
    decreases ps.len(),
{
    if ps.len() == 0 {
        0
    } else {
        total_capacity(ps.drop_last()) + ps.last().ncards as nat
    }
}

/// A black and a white hidden card for every value below `k`, value by value.
pub open spec fn card_pairs(k: nat) -> Seq<Card>
    decreases k,
{
    if k == 0 {
        Seq::empty()
    } else {
        card_pairs((k - 1) as nat)
            .push(Card { color: Color::BLACK, value: (k - 1) as u32, status: CardStatus::HIDDEN })
            .push(Card { color: Color::WHITE, value: (k - 1) as u32, status: CardStatus::HIDDEN })
    }
}

/// The full set for a configured size `n`: one card of each color for every
/// value below `n / 2`.
pub open spec fn full_set(n: u32) -> Seq<Card> {
    card_pairs((n / 2) as nat)
}

/// The players that still hold a hidden card, in order.
pub open spec fn survivors(ps: Seq<PlayerModel>) -> Seq<PlayerModel>
    decreases ps.len(),
{
    if ps.len() == 0 {
        Seq::empty()
    } else {
        let r = survivors(ps.drop_last());
        if all_revealed(ps.last().deck) {
            r
        } else {
            r.push(ps.last())
        }
    }
}

/// The players whose whole hand is revealed, in order, marked as lost.
pub open spec fn fallen(ps: Seq<PlayerModel>) -> Seq<PlayerModel>
    decreases ps.len(),
{
    if ps.len() == 0 {
        Seq::empty()
    } else {
        let r = fallen(ps.drop_last());
        if all_revealed(ps.last().deck) {
            r.push(PlayerModel { status: PlayerStatus::LOST, ..ps.last() })
        } else {
            r
        }
    }
}

/// The winner that a round of elimination leaves: the single remaining
/// player when they are playing.
pub open spec fn sole_playing(ps: Seq<PlayerModel>) -> Option<PlayerModel> {
    if ps.len() == 1 && ps[0].status == PlayerStatus::PLAYING {
        Some(ps[0])
    } else {
        None
    }
}

pub proof fn lemma_card_pairs(k: nat)
    requires
        k <= 2147483648,
    ensures
        card_pairs(k).len() == 2 * k,
        keys_unique(card_pairs(k)),
        forall|i: int| 0 <= i < card_pairs(k).len() ==> (#[trigger] card_pairs(k)[i]).value < k
            && card_pairs(k)[i].status == CardStatus::HIDDEN,
    decreases k,
{
    if k > 0 {
        lemma_card_pairs((k - 1) as nat);
        let s = card_pairs(k);
        let p = card_pairs((k - 1) as nat);
        assert forall|i: int, j: int| 0 <= i < s.len() && 0 <= j < s.len() && i != j implies !same_key(#[trigger] s[i], #[trigger] s[j]) by {
            if i < p.len() && j < p.len() {
                assert(s[i] == p[i] && s[j] == p[j]);
            } else if i < p.len() {
                assert(s[i] == p[i]);
            } else if j < p.len() {
                assert(s[j] == p[j]);
            }
        }
    }
}

/// Builds the full set for size `n`, value by value, black first.
pub fn full_set_cards(n: u32) -> (r: Vec<Card>)
    ensures
        r@ == full_set(n),
{
    let mut v: Vec<Card> = Vec::new();
    let half = n / 2;
    let mut c_val: u32 = 0;
    while c_val < half
        invariant
            c_val <= half,
            half == n / 2,
            v@ == card_pairs(c_val as nat),
        decreases half - c_val,
    {
        v.push(Card::new(c_val, Color::BLACK));
        v.push(Card::new(c_val, Color::WHITE));
        c_val = c_val + 1;
    }
    v
}

/// Whether every card of a row is revealed.
fn all_cards_revealed(deck: &Vec<Card>) -> (r: bool)
    ensures
        r == all_revealed(deck@),
{
    let mut i: usize = 0;
    while i < deck.len()
        invariant
            i <= deck@.len(),
            forall|j: int| 0 <= j < i ==> (#[trigger] deck@[j]).status == CardStatus::REVEALED,
        decreases deck@.len() - i,
    {
        if deck[i].status != CardStatus::REVEALED {
            return false;
        }
        i = i + 1;
    }
    true
}

/// `g1` is `g0` after one round of elimination, which reports `ended`:
/// players whose whole hand is revealed move, marked lost, to the lost
/// players; with at most one player left the game is over, and a sole
/// playing player is the winner.
pub open spec fn evaluated(g0: Game, g1: Game, ended: bool) -> bool {
    &&& models(g1.players@) == survivors(models(g0.players@))
    &&& models(g1.lost_players@) == models(g0.lost_players@) + fallen(models(g0.players@))
    &&& ended == (g1.players@.len() <= 1)
    &&& g1.state == if ended { GameState::END } else { g0.state }
    &&& (sole_playing(models(g1.players@)) is Some ==> g1.winner is Some
        && g1.winner->0@ == sole_playing(models(g1.players@))->0)
    &&& (sole_playing(models(g1.players@)) is None ==> g1.winner == g0.winner)
    &&& g1.card_avail == g0.card_avail
    &&& g1.set_cards == g0.set_cards
    &&& g1.logs == g0.logs
    &&& g1.err == g0.err
}

/// `g1` is `g0` with at most player `i` changed.
pub open spec fn same_but_player(g0: Game, g1: Game, i: int) -> bool {
    &&& g1.players@.len() == g0.players@.len()
    &&& forall|j: int| 0 <= j < g0.players@.len() && j != i ==> g1.players@[j] == #[trigger] g0.players@[j]
    &&& g1 == (Game { players: g1.players, ..g0 })
}

/// The cards held in the hands of a row of players.
pub open spec fn hands(ps: Seq<PlayerModel>) -> Multiset<Card>
    decreases ps.len(),
{
    if ps.len() == 0 {
        Multiset::empty()
    } else {
        hands(ps.drop_last()).add(ps.last().deck.to_multiset())
    }
}

/// `after` is player `before` once dealt: `ncards` more cards, in order,
/// playing, no drawn card held.
pub open spec fn dealt_player(before: PlayerModel, after: PlayerModel) -> bool {
    &&& after == (PlayerModel { deck: after.deck, status: PlayerStatus::PLAYING, side_card: None, ..before })
    &&& after.deck.len() == before.deck.len() + before.ncards
    &&& (before.ncards > 0 ==> sorted(after.deck))
}

/// Every player of `after` is the same player of `before`, dealt.
pub open spec fn dealt_players(before: Seq<PlayerModel>, after: Seq<PlayerModel>) -> bool {
    after.len() == before.len() && forall|i: int| 0 <= i < before.len() ==> dealt_player(#[trigger] before[i], after[i])
}

proof fn lemma_total_capacity_prefix(s: Seq<PlayerModel>, i: int)
    requires
        0 <= i <= s.len(),
    ensures
        total_capacity(s.subrange(0, i)) <= total_capacity(s),
        i < s.len() ==> total_capacity(s.subrange(0, i + 1)) == total_capacity(s.subrange(0, i)) + s[i].ncards,
    decreases s.len() - i,
{
    if i < s.len() {
        lemma_total_capacity_prefix(s, i + 1);
        assert(s.subrange(0, i + 1).drop_last() =~= s.subrange(0, i));
    } else {
        assert(s.subrange(0, i) =~= s);
    }
}

/// Reordering a row keeps identities unique.
pub proof fn lemma_permutation_keeps_unique(s: Seq<Card>, t: Seq<Card>)
    requires
        keys_unique(s),
        t.to_multiset() == s.to_multiset(),
    ensures
        keys_unique(t),
{
    assert(s.no_duplicates()) by {
        assert forall|i: int, j: int| 0 <= i < s.len() && 0 <= j < s.len() && i != j implies s[i] != s[j] by {
            assert(!same_key(s[i], s[j]));
        }
    }
    s.lemma_multiset_has_no_duplicates();
    t.lemma_multiset_has_no_duplicates_conv();
    assert forall|i: int, j: int| 0 <= i < t.len() && 0 <= j < t.len() && i != j implies !same_key(#[trigger] t[i], #[trigger] t[j]) by {
        assert(t.to_multiset().count(t[i]) > 0);
        assert(t.to_multiset().count(t[j]) > 0);
        assert(s.contains(t[i]));
        assert(s.contains(t[j]));
        let a = choose|a: int| 0 <= a < s.len() && s[a] == t[i];
        let b = choose|b: int| 0 <= b < s.len() && s[b] == t[j];
        assert(t[i] != t[j]);
    }
}

/// Whether no two players share a name.
fn names_distinct(ps: &Vec<Player>) -> (r: bool)
    ensures
        r == names_unique(models(ps@)),
{
    let ghost m = models(ps@);
    let mut i: usize = 0;
    while i < ps.len()
        invariant
            i <= ps@.len(),
            m == models(ps@),
            forall|a: int, b: int| 0 <= a < b < ps@.len() && a < i ==> (#[trigger] m[a]).name != (#[trigger] m[b]).name,
        decreases ps@.len() - i,
    {
        let mut j: usize = i + 1;
        while j < ps.len()
            invariant
                i < j <= ps@.len(),
                m == models(ps@),
                forall|a: int, b: int| 0 <= a < b < ps@.len() && a < i ==> (#[trigger] m[a]).name != (#[trigger] m[b]).name,
                forall|b: int| i < b < j ==> m[i as int].name != (#[trigger] m[b]).name,
            decreases ps@.len() - j,
        {
            if ps[i].name == ps[j].name {
                assert(m[i as int].name == m[j as int].name);
                return false;
            }
            j = j + 1;
        }
        i = i + 1;
    }
    true
}

/// Whether the players' capacities together fit in `avail` cards.
fn capacity_fits(ps: &Vec<Player>, avail: usize) -> (r: bool)
    ensures
        r == (total_capacity(models(ps@)) <= avail),
{
    let ghost m = models(ps@);
    let mut acc: u64 = 0;
    let mut i: usize = 0;
    while i < ps.len()
        invariant
            i <= ps@.len(),
            m == models(ps@),
            acc == total_capacity(m.subrange(0, i as int)),
            acc <= avail,
        decreases ps@.len() - i,
    {
        proof {
            lemma_total_capacity_prefix(m, i as int);
        }
        if ps[i].ncards as u64 > avail as u64 - acc {
            proof {
                lemma_total_capacity_prefix(m, i as int + 1);
            }
            return false;
        }
        acc = acc + ps[i].ncards as u64;
        i = i + 1;
    }
    assert(m.subrange(0, i as int) =~= m);
    true
}

impl Game {
    /// An empty game for a set of `set_number` cards.
    pub fn new(set_number: u32) -> (r: Game)
        ensures
            r.state == GameState::INIT,
            r.players@.len() == 0,
            r.lost_players@.len() == 0,
            r.winner is None,
            r.card_avail@.len() == 0,
            r.set_cards == set_number,
            r.logs@.len() == 0,
            r.err@.len() == 0,
    {
        Game {
            state: GameState::INIT,
            players: Vec::new(),
            lost_players: Vec::new(),
            winner: None,
            card_avail: Vec::new(),
            set_cards: set_number,
            logs: String::new(),
            err: String::new(),
        }
    }

    /// Fills the pool with the full set, starts the game, then shuffles the
    /// pool and deals each player's capacity. Duplicate names, or more
    /// capacity than cards, are refused before anything changes.
    pub fn init_set(&mut self) -> (r: Result<(), GameError>)
        ensures
            !names_unique(models(old(self).players@)) ==> r == Err::<(), GameError>(GameError::DuplicateName)
                && *final(self) == *old(self),
            names_unique(models(old(self).players@))
                && total_capacity(models(old(self).players@)) > 2 * (old(self).set_cards / 2)
                ==> r == Err::<(), GameError>(GameError::EmptyPool) && *final(self) == *old(self),
            names_unique(models(old(self).players@))
                && total_capacity(models(old(self).players@)) <= 2 * (old(self).set_cards / 2)
                ==> r == Ok::<(), GameError>(())
                && final(self).state == GameState::RUNNING
                && dealt_players(models(old(self).players@), models(final(self).players@))
                && final(self).card_avail@.len() == 2 * (old(self).set_cards / 2)
                    - total_capacity(models(old(self).players@))
                && keys_unique(final(self).card_avail@)
                && hands(models(final(self).players@)).add(final(self).card_avail@.to_multiset())
                    == hands(models(old(self).players@)).add(full_set(old(self).set_cards).to_multiset())
                && final(self).lost_players == old(self).lost_players
                && final(self).winner == old(self).winner
                && final(self).set_cards == old(self).set_cards,
    {
        if !names_distinct(&self.players) {
            return Err(GameError::DuplicateName);
        }
        let set = full_set_cards(self.set_cards);
        proof {
            lemma_card_pairs((self.set_cards / 2) as nat);
        }
        if !capacity_fits(&self.players, set.len()) {
            return Err(GameError::EmptyPool);
        }
        self.card_avail = set;
        self.state = GameState::RUNNING;
        let r = self.init_players();
        r
    }

    /// Checks that names are distinct, shuffles the pool and deals each
    /// player's capacity from it, in player order. Duplicate names, or more
    /// capacity than cards, are refused before anything changes.
    pub fn init_players(&mut self) -> (r: Result<(), GameError>)
        requires
            keys_unique(old(self).card_avail@),
        ensures
            !names_unique(models(old(self).players@)) ==> r == Err::<(), GameError>(GameError::DuplicateName)
                && *final(self) == *old(self),
            names_unique(models(old(self).players@))
                && total_capacity(models(old(self).players@)) > old(self).card_avail@.len()
                ==> r == Err::<(), GameError>(GameError::EmptyPool) && *final(self) == *old(self),
            names_unique(models(old(self).players@))
                && total_capacity(models(old(self).players@)) <= old(self).card_avail@.len()
                ==> r == Ok::<(), GameError>(())
                && dealt_players(models(old(self).players@), models(final(self).players@))
                && final(self).card_avail@.len() == old(self).card_avail@.len()
                    - total_capacity(models(old(self).players@))
                && keys_unique(final(self).card_avail@)
                && hands(models(final(self).players@)).add(final(self).card_avail@.to_multiset())
                    == hands(models(old(self).players@)).add(old(self).card_avail@.to_multiset())
                && final(self).state == old(self).state
                && final(self).lost_players == old(self).lost_players
                && final(self).winner == old(self).winner
                && final(self).set_cards == old(self).set_cards,
    {
        if !names_distinct(&self.players) {
            return Err(GameError::DuplicateName);
        }
        if !capacity_fits(&self.players, self.card_avail.len()) {
            return Err(GameError::EmptyPool);
        }
        self.shuffle_avail_card();
        proof {
            lemma_permutation_keeps_unique(old(self).card_avail@, self.card_avail@);
        }
        let ghost before = models(old(self).players@);
        let ghost pool = old(self).card_avail@.to_multiset();
        let n = self.players.len();
        let mut i: usize = 0;
        while i < n
            invariant
                i <= n,
                n == before.len(),
                self.players@.len() == n,
                keys_unique(self.card_avail@),
                forall|j: int| 0 <= j < i ==> dealt_player(#[trigger] before[j], models(self.players@)[j]),
                forall|j: int| i <= j < n ==> #[trigger] models(self.players@)[j] == before[j],
                self.card_avail@.len() + total_capacity(before.subrange(0, i as int)) == old(self).card_avail@.len(),
                total_capacity(before) <= old(self).card_avail@.len(),
                hands(models(self.players@).subrange(0, i as int)).add(self.card_avail@.to_multiset())
                    == hands(before.subrange(0, i as int)).add(pool),
                self.state == old(self).state,
                self.lost_players == old(self).lost_players,
                self.winner == old(self).winner,
                self.set_cards == old(self).set_cards,
            decreases n - i,
        {
            proof {
                lemma_total_capacity_prefix(before, i as int);
                lemma_total_capacity_prefix(before, i as int + 1);
            }
            let ghost prev = models(self.players@);
            let ghost prev_avail = self.card_avail@;
            assert(prev[i as int] == self.players@[i as int]@);
            assert(prev[i as int] == before[i as int]);
            assert(hands(prev.subrange(0, i as int)).add(prev_avail.to_multiset())
                == hands(before.subrange(0, i as int)).add(pool));
            let _ = self.players[i].init_game(&mut self.card_avail);
            proof {
                let cur = models(self.players@);
                assert forall|j: int| 0 <= j < n && j != i implies #[trigger] cur[j] == prev[j] by {}
                assert(cur.subrange(0, i as int) =~= prev.subrange(0, i as int));
                let cx = cur.subrange(0, i + 1);
                let bx = before.subrange(0, i + 1);
                assert(cx.drop_last() =~= cur.subrange(0, i as int));
                assert(bx.drop_last() =~= before.subrange(0, i as int));
                assert(cx.last() == cur[i as int]);
                assert(bx.last() == before[i as int]);
                let nd = cur[i as int].deck.to_multiset();
                let od = prev[i as int].deck.to_multiset();
                assert(nd.add(self.card_avail@.to_multiset()) == od.add(prev_avail.to_multiset()));
                assert(hands(cx) == hands(prev.subrange(0, i as int)).add(nd));
                assert(hands(bx) == hands(before.subrange(0, i as int)).add(od));
                let hp = hands(prev.subrange(0, i as int));
                let hb = hands(before.subrange(0, i as int));
                let na = self.card_avail@.to_multiset();
                let pa = prev_avail.to_multiset();
                assert forall|x: Card| #[trigger] hands(cx).add(na).count(x) == hands(bx).add(pool).count(x) by {
                    assert(hp.add(pa).count(x) == hb.add(pool).count(x));
                    assert(nd.add(na).count(x) == od.add(pa).count(x));
                }
                assert(hands(cx).add(na) =~= hands(bx).add(pool));
            }
            i = i + 1;
        }
        proof {
            let cur = models(self.players@);
            assert(cur.subrange(0, n as int) =~= cur);
            assert(before.subrange(0, n as int) =~= before);
        }
        Ok(())
    }

    /// Puts the pool in a random order; the same cards remain.
    pub fn shuffle_avail_card(&mut self)
        ensures
            final(self).card_avail@.len() == old(self).card_avail@.len(),
            final(self).card_avail@.to_multiset() == old(self).card_avail@.to_multiset(),
            *final(self) == (Game { card_avail: final(self).card_avail, ..*old(self) }),
    {
        shuffle_cards(&mut self.card_avail);
    }

    /// The pool as text; `hide_values` hides the values of hidden cards.
    pub fn show_avail_cards(&self, hide_values: bool, colorize: bool) -> (r: String)
        ensures
            !colorize || !shows_painted_value(self.card_avail@, hide_values) ==> r@ == render(self.card_avail@, hide_values),
            exists|styles: Seq<bool>| styles.len() == self.card_avail@.len()
                && r@ == #[trigger] render_styled(self.card_avail@, hide_values, colorize, styles),
    {
        render_cards(&self.card_avail, hide_values, colorize)
    }

    /// Moves every player whose whole hand is revealed, marked as lost, from
    /// the players to the lost players, keeping both orders. With one player
    /// or none left the game ends, and a sole remaining playing player wins.
    /// Returns whether the game is over.
    pub fn game_status(&mut self) -> (r: bool)
        ensures
            evaluated(*old(self), *final(self), r),
    {
        let ghost ps = models(old(self).players@);
        let ghost lost0 = models(old(self).lost_players@);
        let mut pending: Vec<Player> = Vec::new();
        std::mem::swap(&mut self.players, &mut pending);
        let n = pending.len();
        let mut i: usize = 0;
        while i < n
            invariant
                i <= n,
                n == ps.len(),
                pending@.len() == n - i,
                forall|j: int| 0 <= j < n - i ==> (#[trigger] pending@[j])@ == ps[i + j],
                models(self.players@) == survivors(ps.subrange(0, i as int)),
                models(self.lost_players@) == lost0 + fallen(ps.subrange(0, i as int)),
                self.state == old(self).state,
                self.winner == old(self).winner,
                self.card_avail == old(self).card_avail,
                self.set_cards == old(self).set_cards,
                self.logs == old(self).logs,
                self.err == old(self).err,
            decreases n - i,
        {
            let mut p = pending.remove(0);
            let ghost sub = ps.subrange(0, i + 1);
            assert(sub.drop_last() =~= ps.subrange(0, i as int));
            assert(p@ == ps[i as int]);
            assert(sub.last() == ps[i as int]);
            let ghost kept = self.players@;
            let ghost out = self.lost_players@;
            if all_cards_revealed(&p.deck) {
                p.status = PlayerStatus::LOST;
                self.lost_players.push(p);
                assert(models(self.lost_players@) =~= models(out).push(p@));
                assert(models(self.lost_players@) =~= lost0 + fallen(sub));
            } else {
                self.players.push(p);
                assert(models(self.players@) =~= models(kept).push(p@));
            }
            i = i + 1;
        }
        assert(ps.subrange(0, n as int) =~= ps);
        let mut game_ended: bool = false;
        if self.players.len() <= 1 {
            self.state = GameState::END;
            game_ended = true;
            if self.players.len() == 1 && self.players[0].status == PlayerStatus::PLAYING {
                let w = self.players[0].duplicate();
                self.winner = Some(w);
            }
        }
        game_ended
    }
}

} // verus!
