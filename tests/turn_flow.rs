use davincicode::turn::{Outcome, Phase, Turn};
use davincicode::{Card, CardStatus, Color, Game, GameState, Player, PlayerStatus};

fn card(value: u32, color: Color, status: CardStatus) -> Card {
    Card { color, value, status }
}

fn two_player_game() -> Game {
    let mut game = Game::new(24);
    let mut alice = Player::new(String::from("alice"), 1);
    alice.deck = vec![Card::new(5, Color::BLACK)];
    alice.status = PlayerStatus::PLAYING;
    let mut bob = Player::new(String::from("bob"), 2);
    bob.deck = vec![card(2, Color::BLACK, CardStatus::REVEALED), Card::new(7, Color::WHITE)];
    bob.status = PlayerStatus::PLAYING;
    game.players.push(alice);
    game.players.push(bob);
    game.card_avail = vec![Card::new(0, Color::BLACK), Card::new(0, Color::WHITE), Card::new(1, Color::BLACK)];
    game.state = GameState::RUNNING;
    game
}

fn reply(s: &str) -> String {
    String::from(s)
}

#[test]
fn revealed_target_is_picked_again_at_no_cost() {
    let mut game = two_player_game();
    let mut turn = Turn::new(String::from("alice"));
    assert_eq!(turn.begin(&mut game), Outcome::Accepted);
    assert_eq!(turn.phase, Phase::Draw);

    assert_eq!(turn.answer(&mut game, &reply("7")), Outcome::Reprompt);
    assert_eq!(turn.answer(&mut game, &reply("x")), Outcome::Reprompt);
    assert_eq!(turn.phase, Phase::Draw);
    assert_eq!(game.card_avail.len(), 3);

    let first = game.card_avail[0];
    assert_eq!(turn.answer(&mut game, &reply("0")), Outcome::Drew(first));
    assert_eq!(game.players[0].side_card, Some(first));
    assert_eq!(game.card_avail.len(), 2);
    assert_eq!(turn.phase, Phase::DecideGuess);

    assert_eq!(turn.answer(&mut game, &reply("maybe")), Outcome::Reprompt);
    assert_eq!(turn.answer(&mut game, &reply("yes")), Outcome::Accepted);
    assert_eq!(turn.opponents, vec![String::from("bob")]);
    assert_eq!(turn.phase, Phase::PickCard);

    let bob_before = game.players[1].deck.clone();
    assert_eq!(turn.answer(&mut game, &reply("0")), Outcome::AlreadyRevealed);
    assert_eq!(turn.phase, Phase::PickCard);
    assert_eq!(game.players[1].deck, bob_before);
    assert_eq!(game.players[0].side_card, Some(first));
    assert_eq!(game.players[0].deck.len(), 1);

    assert_eq!(turn.answer(&mut game, &reply("2")), Outcome::Reprompt);
    assert_eq!(turn.answer(&mut game, &reply("1")), Outcome::Accepted);
    assert_eq!(turn.phase, Phase::PickValue);
    assert_eq!(turn.target, 1);

    assert_eq!(turn.answer(&mut game, &reply("12")), Outcome::Reprompt);
    assert_eq!(turn.answer(&mut game, &reply("3")), Outcome::Miss);
    assert_eq!(turn.phase, Phase::Done);
    let alice = &game.players[0];
    assert_eq!(alice.side_card, None);
    assert_eq!(alice.ncards, 2);
    assert_eq!(alice.deck.len(), 2);
    assert!(alice.deck.contains(&Card { status: CardStatus::REVEALED, ..first }));
    assert_eq!(game.players[1].deck, bob_before);
    assert_eq!(turn.answer(&mut game, &reply("0")), Outcome::Reprompt);
}

#[test]
fn right_guess_then_stop_keeps_the_card_hidden() {
    let mut game = two_player_game();
    game.players[1].deck.push(Card::new(9, Color::BLACK));
    let mut turn = Turn::new(String::from("alice"));
    turn.begin(&mut game);
    let drawn = game.card_avail[2];
    assert_eq!(turn.answer(&mut game, &reply("2")), Outcome::Drew(drawn));
    assert_eq!(turn.answer(&mut game, &reply("yes")), Outcome::Accepted);
    assert_eq!(turn.answer(&mut game, &reply("1")), Outcome::Accepted);
    assert_eq!(turn.answer(&mut game, &reply("7")), Outcome::Hit);
    assert_eq!(game.players[1].deck[1].status, CardStatus::REVEALED);
    assert_eq!(turn.phase, Phase::GuessAgain);
    assert_eq!(turn.answer(&mut game, &reply("no")), Outcome::Committed);
    assert_eq!(turn.phase, Phase::Done);
    assert!(game.players[0].deck.contains(&drawn));
    assert_eq!(game.players[0].side_card, None);
}

#[test]
fn declining_to_guess_commits_hidden() {
    let mut game = two_player_game();
    let mut turn = Turn::new(String::from("alice"));
    turn.begin(&mut game);
    let drawn = game.card_avail[1];
    assert_eq!(turn.answer(&mut game, &reply("1")), Outcome::Drew(drawn));
    assert_eq!(turn.answer(&mut game, &reply("no")), Outcome::Committed);
    assert!(game.players[0].deck.contains(&drawn));
    assert_eq!(game.players[0].deck.len(), 2);
}

#[test]
fn guessing_the_last_hidden_card_ends_the_game() {
    let mut game = two_player_game();
    let mut turn = Turn::new(String::from("alice"));
    turn.begin(&mut game);
    assert!(matches!(turn.answer(&mut game, &reply("0")), Outcome::Drew(_)));
    assert_eq!(turn.answer(&mut game, &reply("yes")), Outcome::Accepted);
    assert_eq!(turn.answer(&mut game, &reply("1")), Outcome::Accepted);
    assert_eq!(turn.answer(&mut game, &reply("7")), Outcome::Hit);
    assert_eq!(turn.answer(&mut game, &reply("yes")), Outcome::GameEnded);
    assert_eq!(turn.phase, Phase::GameOver);
    assert_eq!(game.state, GameState::END);
    assert_eq!(game.winner.clone().unwrap().name, "alice");
    assert_eq!(game.lost_players[0].name, "bob");
}

#[test]
fn empty_pool_goes_straight_to_guessing() {
    let mut game = two_player_game();
    game.card_avail.clear();
    game.players.push(Player::new(String::from("carol"), 0));
    game.players[2].deck = vec![Card::new(3, Color::WHITE)];
    let mut turn = Turn::new(String::from("alice"));
    assert_eq!(turn.begin(&mut game), Outcome::Accepted);
    assert_eq!(turn.phase, Phase::PickOpponent);
    assert_eq!(turn.opponents, vec![String::from("bob"), String::from("carol")]);
    assert_eq!(turn.answer(&mut game, &reply("2")), Outcome::Reprompt);
    assert_eq!(turn.answer(&mut game, &reply("1")), Outcome::Accepted);
    assert_eq!(turn.phase, Phase::PickCard);
    assert_eq!(turn.answer(&mut game, &reply("0")), Outcome::Accepted);
    assert_eq!(turn.answer(&mut game, &reply("4")), Outcome::Miss);
    assert_eq!(game.players[0].deck.len(), 1);
    assert_eq!(game.players[0].ncards, 1);
}
