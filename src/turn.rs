//! The turn coordinator: one player's turn as a state machine. Each prompt
//! the acting player answers is handed to [`Turn::answer`], which checks the
//! reply, moves the game on and tells the caller what happened; a reply that
//! does not fit the prompt leaves everything as it was, so the caller sends
//! the same prompt again.

use vstd::prelude::*;
use crate::card::{keys_unique, Card, CardStatus};
use crate::game::{evaluated, models, same_but_player, Game};
use crate::player::{commits, first_key_at, revealed, Player, PlayerModel};
use crate::text::{append_dec, dec, parse_u32, parse_u32_spec};

verus! {

/// The largest value a guess may name.
pub const CARD_MAX_VAL: u32 = 11;

/// A number in `0..=max`, read from a reply.
pub open spec fn number_reply(reply: Seq<char>, max: u32) -> Option<u32> {
    match parse_u32_spec(vstd::utf8::encode_utf8(reply)) {
        Some(v) => if v <= max {
            Some(v)
        } else {
            None
        },
        None => None,
    }
}

/// Reads a reply to a numeric prompt: a number from 0 to `max`.
pub fn read_number(reply: &String, max: u32) -> (r: Option<u32>)
    ensures
        r == number_reply(reply@, max),
{
    let b = reply.as_str().as_bytes();
    match parse_u32(b, 0, b.len()) {
        Some(v) => {
            assert(b@.subrange(0, b@.len() as int) =~= b@);
            if v <= max {
                Some(v)
            } else {
                None
            }
        },
        None => {
            assert(b@.subrange(0, b@.len() as int) =~= b@);
            None
        },
    }
}

/// The text of a numeric prompt: `<question> (0-<max>)`.
pub open spec fn number_prompt_text(question: Seq<char>, max: u32) -> Seq<char> {
    question + seq![' ', '(', '0', '-'] + dec(max as nat) + seq![')']
}

/// The text of a two-way prompt: `<question> (<a>/<b>)`.
pub open spec fn choice_prompt_text(question: Seq<char>, a: Seq<char>, b: Seq<char>) -> Seq<char> {
    question + seq![' ', '('] + a + seq!['/'] + b + seq![')']
}

/// Builds a numeric prompt.
pub fn number_prompt(question: &str, max: u32) -> (r: String)
    ensures
        r@ == number_prompt_text(question@, max),
{
    proof {
        reveal_strlit(" (0-");
        reveal_strlit(")");
    }
    let mut s = question.to_owned();
    s.append(" (0-");
    append_dec(&mut s, max as u64);
    s.append(")");
    s
}

/// Builds a two-way prompt.
pub fn choice_prompt(question: &str, a: &str, b: &str) -> (r: String)
    ensures
        r@ == choice_prompt_text(question@, a@, b@),
{
    proof {
        reveal_strlit(" (");
        reveal_strlit("/");
        reveal_strlit(")");
    }
    let mut s = question.to_owned();
    s.append(" (");
    s.append(a);
    s.append("/");
    s.append(b);
    s.append(")");
    s
}

/// The word that accepts a two-way prompt.
pub open spec fn yes_word() -> Seq<char> {
    seq!['y', 'e', 's']
}

/// The word that declines a two-way prompt.
pub open spec fn no_word() -> Seq<char> {
    seq!['n', 'o']
}

/// Reads a reply to a yes/no prompt: `Some(true)` for exactly `yes`,
/// `Some(false)` for exactly `no`, `None` for anything else.
pub fn read_yes_no(reply: &String) -> (r: Option<bool>)
    ensures
        r == if reply@ == yes_word() {
            Some(true)
        } else if reply@ == no_word() {
            Some(false)
        } else {
            None::<bool>
        },
{
    proof {
        reveal_strlit("yes");
        reveal_strlit("no");
    }
    let yes = "yes".to_owned();
    let no = "no".to_owned();
    assert(yes@ == yes_word());
    assert(no@ == no_word());
    if *reply == yes {
        Some(true)
    } else if *reply == no {
        Some(false)
    } else {
        None
    }
}

/// `i` is the first position of a player named `name`.
pub open spec fn first_named(ps: Seq<PlayerModel>, name: Seq<char>, i: int) -> bool {
    0 <= i < ps.len() && ps[i].name == name && forall|j: int| 0 <= j < i ==> (#[trigger] ps[j]).name != name
}

/// The position of the first player named `name`, if any.
pub open spec fn position_of(ps: Seq<PlayerModel>, name: Seq<char>) -> Option<int> {
    if exists|i: int| first_named(ps, name, i) {
        Some(choose|i: int| first_named(ps, name, i))
    } else {
        None
    }
}

proof fn lemma_first_named_unique(ps: Seq<PlayerModel>, name: Seq<char>, i: int, k: int)
    requires
        first_named(ps, name, i),
        first_named(ps, name, k),
    ensures
        i == k,
{
    if i < k {
        assert(ps[i].name != name);
    } else if k < i {
        assert(ps[k].name != name);
    }
}

/// Finds the first player named `name`.
pub fn find_player(ps: &Vec<Player>, name: &String) -> (r: Option<usize>)
    ensures
        match r {
            Some(i) => position_of(models(ps@), name@) == Some(i as int),
            None => position_of(models(ps@), name@) is None,
        },
{
    let ghost m = models(ps@);
    let mut i: usize = 0;
    while i < ps.len()
        invariant
            i <= ps@.len(),
            m == models(ps@),
            forall|j: int| 0 <= j < i ==> (#[trigger] m[j]).name != name@,
        decreases ps@.len() - i,
    {
        if ps[i].name == *name {
            assert(first_named(m, name@, i as int));
            proof {
                let k = choose|k: int| first_named(m, name@, k);
                lemma_first_named_unique(m, name@, i as int, k);
            }
            return Some(i);
        }
        i = i + 1;
    }
    assert forall|k: int| !first_named(m, name@, k) by {
        if 0 <= k < m.len() {
            assert(m[k].name != name@);
        }
    }
    None
}

/// The names of the players other than `me`, in player order.
pub open spec fn opponent_names(ps: Seq<PlayerModel>, me: Seq<char>) -> Seq<Seq<char>>
    decreases ps.len(),
{
    if ps.len() == 0 {
        Seq::empty()
    } else {
        let r = opponent_names(ps.drop_last(), me);
        if ps.last().name == me {
            r
        } else {
            r.push(ps.last().name)
        }
    }
}

/// The text of each name.
pub open spec fn name_texts(v: Seq<String>) -> Seq<Seq<char>> {
    v.map_values(|s: String| s@)
}

/// The names of the players other than `me`, in player order.
pub fn opponents_of(ps: &Vec<Player>, me: &String) -> (r: Vec<String>)
    ensures
        name_texts(r@) == opponent_names(models(ps@), me@),
{
    let ghost m = models(ps@);
    let mut r: Vec<String> = Vec::new();
    let mut i: usize = 0;
    while i < ps.len()
        invariant
            i <= ps@.len(),
            m == models(ps@),
            name_texts(r@) == opponent_names(m.subrange(0, i as int), me@),
        decreases ps@.len() - i,
    {
        let ghost before = r@;
        assert(m.subrange(0, i + 1).drop_last() =~= m.subrange(0, i as int));
        assert(m[i as int] == ps@[i as int]@);
        if ps[i].name != *me {
            r.push(ps[i].name.clone());
            assert(name_texts(r@) =~= name_texts(before).push(ps@[i as int].name@));
        }
        i = i + 1;
    }
    assert(m.subrange(0, i as int) =~= m);
    r
}

/// The prompt a turn waits on.
#[derive(Debug, Clone, Copy, PartialEq, Eq, Structural)]
pub enum Phase {
    /// A position in the pool to draw from.
    Draw,
    /// Whether to guess after drawing.
    DecideGuess,
    /// Which opponent to guess at.
    PickOpponent,
    /// Which card of the chosen opponent to guess.
    PickCard,
    /// The value guessed for the chosen card.
    PickValue,
    /// Whether to guess again after a right guess.
    GuessAgain,
    /// The turn is over.
    Done,
    /// The game ended during the turn.
    GameOver,
}

/// What a reply did.
#[derive(Debug, Clone, Copy, PartialEq, Eq, Structural)]
pub enum Outcome {
    /// The reply did not fit the prompt: nothing changed, ask again.
    Reprompt,
    /// The reply was taken; the turn waits on its next prompt.
    Accepted,
    /// This card was drawn and is held.
    Drew(Card),
    /// The chosen card is revealed already: pick again, at no cost.
    AlreadyRevealed,
    /// The guess was right: the card is now revealed.
    Hit,
    /// The guess was wrong: the drawn card went into the hand revealed.
    Miss,
    /// The drawn card went into the hand hidden.
    Committed,
    /// The game is over.
    GameEnded,
}

/// One player's turn.
#[derive(Debug)]
pub struct Turn {
    /// Who is acting.
    pub player: String,
    /// The prompt being waited on.
    pub phase: Phase,
    /// The live opponents, taken when the current round of guessing began.
    pub opponents: Vec<String>,
    /// The chosen opponent, a position in `opponents`.
    pub opponent: usize,
    /// The chosen card, a position in the opponent's hand.
    pub target: usize,
}

/// Where a round of guessing starts with `n` opponents: with one the choice
/// of opponent is skipped; with none there is nobody to guess at.
pub open spec fn round_phase(n: nat) -> Phase {
    if n == 0 {
        Phase::Done
    } else if n == 1 {
        Phase::PickCard
    } else {
        Phase::PickOpponent
    }
}

/// The largest position of a row of `len` that a prompt can offer.
pub open spec fn last_position(len: nat) -> u32 {
    if len == 0 {
        0
    } else if len - 1 > u32::MAX {
        u32::MAX
    } else {
        (len - 1) as u32
    }
}

fn last_position_of(len: usize) -> (r: u32)
    ensures
        r == last_position(len as nat),
{
    if len == 0 {
        0
    } else if len - 1 > u32::MAX as usize {
        u32::MAX
    } else {
        (len - 1) as u32
    }
}

/// The player a turn guesses at, as a position among the players.
pub open spec fn target_player(t: Turn, g: Game) -> Option<int> {
    if t.opponent < t.opponents@.len() {
        position_of(models(g.players@), t.opponents@[t.opponent as int]@)
    } else {
        None
    }
}

/// The drawn card of `me` goes into their hand (see `commits`); nothing
/// changes when `me` is not a player or holds no drawn card.
pub open spec fn commit_applied(g0: Game, g1: Game, me: Seq<char>, hide_it: bool) -> bool {
    match position_of(models(g0.players@), me) {
        Some(i) => if g0.players@[i].side_card is Some && g0.players@[i].ncards < u32::MAX {
            same_but_player(g0, g1, i) && commits(g0.players@[i]@, g1.players@[i]@, hide_it)
        } else {
            g1 == g0
        },
        None => g1 == g0,
    }
}

/// A round of guessing begins: elimination is evaluated first; if the game
/// goes on, the live opponents are taken and the first prompt of the round
/// is chosen.
pub open spec fn round_begun(t0: Turn, g0: Game, t1: Turn, g1: Game, r: Outcome) -> bool {
    &&& t1.player == t0.player
    &&& evaluated(g0, g1, r == Outcome::GameEnded)
    &&& r == Outcome::GameEnded ==> t1.phase == Phase::GameOver
    &&& r != Outcome::GameEnded ==> r == Outcome::Accepted
        && name_texts(t1.opponents@) == opponent_names(models(g1.players@), t0.player@)
        && t1.opponent == 0
        && t1.phase == round_phase(t1.opponents@.len())
}

/// Nothing changed: the same prompt is due again.
pub open spec fn reprompted(t0: Turn, g0: Game, t1: Turn, g1: Game, r: Outcome) -> bool {
    r == Outcome::Reprompt && t1 == t0 && g1 == g0
}

/// A yes/no reply at the end of a step: `yes` begins a round of guessing,
/// `no` commits the drawn card hidden and ends the turn.
pub open spec fn continued(t0: Turn, g0: Game, reply: Seq<char>, t1: Turn, g1: Game, r: Outcome) -> bool {
    if reply == yes_word() {
        round_begun(t0, g0, t1, g1, r)
    } else if reply == no_word() {
        r == Outcome::Committed && t1 == (Turn { phase: Phase::Done, ..t0 })
            && commit_applied(g0, g1, t0.player@, true)
    } else {
        reprompted(t0, g0, t1, g1, r)
    }
}

/// The effect of `reply` on a turn `t0` of game `g0`.
pub open spec fn answered(t0: Turn, g0: Game, reply: Seq<char>, t1: Turn, g1: Game, r: Outcome) -> bool {
    match t0.phase {
        Phase::Draw => {
            let pool = g0.card_avail@;
            let pick = number_reply(reply, last_position(pool.len()));
            let me = position_of(models(g0.players@), t0.player@);
            if pool.len() > 0 && pick is Some && me is Some {
                let k = pick->0 as int;
                let i = me->0;
                &&& r == Outcome::Drew(pool[k])
                &&& t1 == (Turn { phase: Phase::DecideGuess, ..t0 })
                &&& g1 == (Game { players: g1.players, card_avail: g1.card_avail, ..g0 })
                &&& g1.players@.len() == g0.players@.len()
                &&& forall|j: int| 0 <= j < g0.players@.len() && j != i ==> g1.players@[j] == #[trigger] g0.players@[j]
                &&& g1.players@[i]@ == (PlayerModel { side_card: Some(pool[k]), ..g0.players@[i]@ })
                &&& exists|j: int| first_key_at(pool, pool[k], j) && g1.card_avail@ == pool.remove(j)
                &&& keys_unique(pool) ==> g1.card_avail@ == pool.remove(k)
            } else {
                reprompted(t0, g0, t1, g1, r)
            }
        },
        Phase::DecideGuess => continued(t0, g0, reply, t1, g1, r),
        Phase::GuessAgain => continued(t0, g0, reply, t1, g1, r),
        Phase::PickOpponent => {
            let n = t0.opponents@.len();
            let pick = number_reply(reply, last_position(n));
            if n > 0 && pick is Some {
                r == Outcome::Accepted && g1 == g0
                    && t1 == (Turn { opponent: pick->0 as usize, phase: Phase::PickCard, ..t0 })
            } else {
                reprompted(t0, g0, t1, g1, r)
            }
        },
        Phase::PickCard => {
            let tp = target_player(t0, g0);
            let hand = if tp is Some { g0.players@[tp->0].deck@ } else { Seq::empty() };
            let pick = number_reply(reply, last_position(hand.len()));
            if tp is Some && hand.len() > 0 && pick is Some {
                let k = pick->0 as int;
                if hand[k].status == CardStatus::REVEALED {
                    r == Outcome::AlreadyRevealed && g1 == g0
                        && t1 == (Turn { phase: round_phase(t0.opponents@.len()), ..t0 })
                } else {
                    r == Outcome::Accepted && g1 == g0
                        && t1 == (Turn { target: k as usize, phase: Phase::PickValue, ..t0 })
                }
            } else {
                reprompted(t0, g0, t1, g1, r)
            }
        },
        Phase::PickValue => {
            let tp = target_player(t0, g0);
            let hand = if tp is Some { g0.players@[tp->0].deck@ } else { Seq::empty() };
            let guess = number_reply(reply, CARD_MAX_VAL);
            if tp is Some && t0.target < hand.len() && guess is Some {
                let oi = tp->0;
                let c = hand[t0.target as int];
                if guess->0 == c.value {
                    &&& r == Outcome::Hit
                    &&& t1 == (Turn { phase: Phase::GuessAgain, ..t0 })
                    &&& same_but_player(g0, g1, oi)
                    &&& g1.players@[oi]@ == (PlayerModel {
                        deck: hand.update(t0.target as int, revealed(c)),
                        ..g0.players@[oi]@
                    })
                } else {
                    r == Outcome::Miss && t1 == (Turn { phase: Phase::Done, ..t0 })
                        && commit_applied(g0, g1, t0.player@, false)
                }
            } else {
                reprompted(t0, g0, t1, g1, r)
            }
        },
        _ => reprompted(t0, g0, t1, g1, r),
    }
}

/// Moves the drawn card of `me` into their hand.
fn commit_drawn(game: &mut Game, me: &String, hide_it: bool)
    ensures
        commit_applied(*old(game), *final(game), me@, hide_it),
{
    match find_player(&game.players, me) {
        Some(i) => {
            let held = match game.players[i].side_card {
                Some(_) => true,
                None => false,
            };
            if held && game.players[i].ncards < u32::MAX {
                let _ = game.players[i].save_side_card(hide_it);
            }
        },
        None => {},
    }
}

impl Turn {
    /// A turn for `player`, waiting to draw.
    pub fn new(player: String) -> (r: Turn)
        ensures
            r.player@ == player@,
            r.phase == Phase::Draw,
            r.opponents@.len() == 0,
    {
        Turn { player, phase: Phase::Draw, opponents: Vec::new(), opponent: 0, target: 0 }
    }

    /// Begins a round of guessing.
    fn begin_round(&mut self, game: &mut Game) -> (r: Outcome)
        ensures
            round_begun(*old(self), *old(game), *final(self), *final(game), r),
    {
        if game.game_status() {
            self.phase = Phase::GameOver;
            return Outcome::GameEnded;
        }
        self.opponents = opponents_of(&game.players, &self.player);
        self.opponent = 0;
        let n = self.opponents.len();
        self.phase = if n == 0 {
            Phase::Done
        } else if n == 1 {
            Phase::PickCard
        } else {
            Phase::PickOpponent
        };
        Outcome::Accepted
    }

    /// Opens the turn: with cards in the pool, shuffles it and waits for a
    /// draw; with an empty pool, goes straight to guessing.
    pub fn begin(&mut self, game: &mut Game) -> (r: Outcome)
        ensures
            old(game).card_avail@.len() > 0 ==> r == Outcome::Accepted
                && *final(self) == (Turn { phase: Phase::Draw, ..*old(self) })
                && *final(game) == (Game { card_avail: final(game).card_avail, ..*old(game) })
                && final(game).card_avail@.len() == old(game).card_avail@.len()
                && final(game).card_avail@.to_multiset() == old(game).card_avail@.to_multiset(),
            old(game).card_avail@.len() == 0 ==> round_begun(*old(self), *old(game), *final(self), *final(game), r),
    {
        if game.card_avail.len() > 0 {
            game.shuffle_avail_card();
            self.phase = Phase::Draw;
            Outcome::Accepted
        } else {
            self.begin_round(game)
        }
    }

    fn answer_draw(&mut self, game: &mut Game, reply: &String) -> (r: Outcome)
        requires
            old(self).phase == Phase::Draw,
        ensures
            answered(*old(self), *old(game), reply@, *final(self), *final(game), r),
    {
        let n = game.card_avail.len();
        if n == 0 {
            return Outcome::Reprompt;
        }
        let pick = match read_number(reply, last_position_of(n)) {
            Some(k) => k,
            None => {
                return Outcome::Reprompt;
            },
        };
        let i = match find_player(&game.players, &self.player) {
            Some(i) => i,
            None => {
                return Outcome::Reprompt;
            },
        };
        match game.players[i].draw_specific_card(&mut game.card_avail, pick as usize) {
            Ok(c) => {
                self.phase = Phase::DecideGuess;
                Outcome::Drew(c)
            },
            Err(_) => Outcome::Reprompt,
        }
    }

    fn answer_continue(&mut self, game: &mut Game, reply: &String) -> (r: Outcome)
        ensures
            continued(*old(self), *old(game), reply@, *final(self), *final(game), r),
    {
        match read_yes_no(reply) {
            Some(true) => self.begin_round(game),
            Some(false) => {
                commit_drawn(game, &self.player, true);
                self.phase = Phase::Done;
                Outcome::Committed
            },
            None => Outcome::Reprompt,
        }
    }

    fn answer_pick_opponent(&mut self, game: &mut Game, reply: &String) -> (r: Outcome)
        requires
            old(self).phase == Phase::PickOpponent,
        ensures
            answered(*old(self), *old(game), reply@, *final(self), *final(game), r),
    {
        let n = self.opponents.len();
        if n == 0 {
            return Outcome::Reprompt;
        }
        match read_number(reply, last_position_of(n)) {
            Some(k) => {
                self.opponent = k as usize;
                self.phase = Phase::PickCard;
                Outcome::Accepted
            },
            None => Outcome::Reprompt,
        }
    }

    /// The position among the players of the opponent being guessed at.
    fn target_index(&self, game: &Game) -> (r: Option<usize>)
        ensures
            match r {
                Some(i) => target_player(*self, *game) == Some(i as int),
                None => target_player(*self, *game) is None,
            },
    {
        if self.opponent < self.opponents.len() {
            find_player(&game.players, &self.opponents[self.opponent])
        } else {
            None
        }
    }

    fn answer_pick_card(&mut self, game: &mut Game, reply: &String) -> (r: Outcome)
        requires
            old(self).phase == Phase::PickCard,
        ensures
            answered(*old(self), *old(game), reply@, *final(self), *final(game), r),
    {
        let oi = match self.target_index(game) {
            Some(oi) => oi,
            None => {
                return Outcome::Reprompt;
            },
        };
        let h = game.players[oi].deck.len();
        if h == 0 {
            return Outcome::Reprompt;
        }
        let k = match read_number(reply, last_position_of(h)) {
            Some(k) => k as usize,
            None => {
                return Outcome::Reprompt;
            },
        };
        match game.players[oi].get_specific_card_value(k) {
            None => {
                let n = self.opponents.len();
                self.phase = if n == 0 {
                    Phase::Done
                } else if n == 1 {
                    Phase::PickCard
                } else {
                    Phase::PickOpponent
                };
                Outcome::AlreadyRevealed
            },
            Some(_) => {
                self.target = k;
                self.phase = Phase::PickValue;
                Outcome::Accepted
            },
        }
    }

    fn answer_pick_value(&mut self, game: &mut Game, reply: &String) -> (r: Outcome)
        requires
            old(self).phase == Phase::PickValue,
        ensures
            answered(*old(self), *old(game), reply@, *final(self), *final(game), r),
    {
        let oi = match self.target_index(game) {
            Some(oi) => oi,
            None => {
                return Outcome::Reprompt;
            },
        };
        if self.target >= game.players[oi].deck.len() {
            return Outcome::Reprompt;
        }
        let guess = match read_number(reply, CARD_MAX_VAL) {
            Some(v) => v,
            None => {
                return Outcome::Reprompt;
            },
        };
        let actual = game.players[oi].deck[self.target].value;
        if guess == actual {
            let _ = game.players[oi].reveal_card(self.target);
            self.phase = Phase::GuessAgain;
            Outcome::Hit
        } else {
            commit_drawn(game, &self.player, false);
            self.phase = Phase::Done;
            Outcome::Miss
        }
    }

    /// Takes the acting player's reply to the current prompt.
    pub fn answer(&mut self, game: &mut Game, reply: &String) -> (r: Outcome)
        ensures
            answered(*old(self), *old(game), reply@, *final(self), *final(game), r),
    {
        match self.phase {
            Phase::Draw => self.answer_draw(game, reply),
            Phase::DecideGuess => self.answer_continue(game, reply),
            Phase::GuessAgain => self.answer_continue(game, reply),
            Phase::PickOpponent => self.answer_pick_opponent(game, reply),
            Phase::PickCard => self.answer_pick_card(game, reply),
            Phase::PickValue => self.answer_pick_value(game, reply),
            _ => Outcome::Reprompt,
        }
    }
}

} // verus!
