//! Engine of a turn-based deduction card game: cards, hands, the shared
//! pool, elimination and win detection, and the per-turn coordinator that
//! drives one player's draw, guesses and commit.

pub mod card;
pub mod text;
pub mod codec;
pub mod error;
mod chance;
pub mod player;
pub mod game;
pub mod turn;
pub mod session;
pub mod laws;

pub use card::{Card, CardStatus, Color};
pub use error::GameError;
pub use player::{Player, PlayerStatus};
pub use game::{Game, GameState};
