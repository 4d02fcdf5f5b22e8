//! Session bootstrap and turn rotation: the handshake token, the choice of
//! the opening player, and whose turn comes next.

use vstd::prelude::*;
use crate::chance::random_below;
use crate::game::{models, Game};
use crate::turn::{find_player, position_of};

verus! {

/// The token a connection must send first.
pub open spec fn init_token() -> Seq<char> {
    seq!['i', 'n', 'i', 't']
}

/// Whether a connection's first message is the handshake token, exactly.
pub fn is_init_token(msg: &String) -> (r: bool)
    ensures
        r == (msg@ == init_token()),
{
    proof {
        reveal_strlit("init");
    }
    let token = "init".to_owned();
    assert(token@ == init_token());
    *msg == token
}

/// Picks the opening player among `n` participants at random.
pub fn pick_opening_player(n: usize) -> (r: usize)
    requires
        n > 0,
    ensures
        r < n,
{
    random_below(n)
}

/// A name still among the game's players.
pub open spec fn active(g: Game, name: Seq<char>) -> bool {
    position_of(models(g.players@), name) is Some
}

/// Going `d` steps round `order` from `current` reaches the first active
/// name; `current` itself is `order.len()` steps away.
pub open spec fn first_active_step(order: Seq<String>, current: int, g: Game, d: int) -> bool {
    &&& 1 <= d <= order.len()
    &&& active(g, order[(current + d) % (order.len() as int)]@)
    &&& forall|e: int| 1 <= e < d ==> !active(g, (#[trigger] order[(current + e) % (order.len() as int)])@)
}

/// `j` is the first position after `current`, going round `order`, whose
/// name is still active.
pub open spec fn next_in_rotation(order: Seq<String>, current: int, g: Game, j: int) -> bool {
    exists|d: int| #[trigger] first_active_step(order, current, g, d) && j == (current + d) % (order.len() as int)
}

proof fn lemma_wrap(a: int, n: int)
    requires
        0 <= a < 2 * n,
    ensures
        a % n == if a >= n { a - n } else { a },
{
    if a >= n {
        vstd::arithmetic::div_mod::lemma_mod_add_multiples_vanish(a - n, n);
        vstd::arithmetic::div_mod::lemma_small_mod((a - n) as nat, n as nat);
    } else {
        vstd::arithmetic::div_mod::lemma_small_mod(a as nat, n as nat);
    }
}

/// The position in `order` of the next player to move after the one at
/// `current`, skipping names no longer among the players; `None` when no
/// name of `order` is.
pub fn next_player(order: &Vec<String>, current: usize, game: &Game) -> (r: Option<usize>)
    requires
        current < order@.len(),
    ensures
        match r {
            Some(j) => next_in_rotation(order@, current as int, *game, j as int),
            None => forall|k: int| 0 <= k < order@.len() ==> !active(*game, (#[trigger] order@[k])@),
        },
{
    let n = order.len();
    let mut d: usize = 0;
    while d < n
        invariant
            d <= n,
            n == order@.len(),
            current < n,
            forall|e: int| 1 <= e <= d ==> !active(*game, (#[trigger] order@[(current + e) % (n as int)])@),
        decreases n - d,
    {
        let step = d + 1;
        let j = if step >= n - current { step - (n - current) } else { current + step };
        proof {
            lemma_wrap(current + step, n as int);
        }
        match find_player(&game.players, &order[j]) {
            Some(_) => {
                assert(first_active_step(order@, current as int, *game, step as int));
                return Some(j);
            },
            None => {},
        }
        d = step;
    }
    assert forall|k: int| 0 <= k < order@.len() implies !active(*game, (#[trigger] order@[k])@) by {
        let e = if k > current { k - current } else { k + n - current };
        assert(1 <= e <= n);
        lemma_wrap(current + e, n as int);
        assert((current + e) % (n as int) == k);
    }
    None
}

} // verus!
