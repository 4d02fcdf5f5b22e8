use davincicode::codec::render_cards;
use davincicode::game::full_set_cards;
use davincicode::session::{is_init_token, next_player, pick_opening_player};
use davincicode::text::{dec_string, parse_u32};
use davincicode::turn::{choice_prompt, number_prompt, opponents_of, read_number, read_yes_no};
use davincicode::{Card, CardStatus, Color, Game, GameError, GameState, Player, PlayerStatus};

fn card(value: u32, color: Color, status: CardStatus) -> Card {
    Card { color, value, status }
}

fn sorted_keys(cards: &[Card]) -> Vec<(u32, bool, bool)> {
    let mut keys: Vec<(u32, bool, bool)> = cards
        .iter()
        .map(|c| (c.value, c.color == Color::WHITE, c.status == CardStatus::REVEALED))
        .collect();
    keys.sort();
    keys
}

#[test]
fn full_set_has_each_value_once_per_color() {
    let mut game = Game::new(24);
    assert_eq!(game.init_set(), Ok(()));
    assert_eq!(game.card_avail.len(), 24);
    for v in 0..12u32 {
        for color in [Color::BLACK, Color::WHITE] {
            let n = game.card_avail.iter().filter(|c| c.value == v && c.color == color).count();
            assert_eq!(n, 1);
        }
    }
    assert!(game.card_avail.iter().all(|c| c.value < 12 && c.status == CardStatus::HIDDEN));
}

#[test]
fn full_set_is_built_value_by_value() {
    let set = full_set_cards(4);
    assert_eq!(
        set,
        vec![
            Card::new(0, Color::BLACK),
            Card::new(0, Color::WHITE),
            Card::new(1, Color::BLACK),
            Card::new(1, Color::WHITE),
        ]
    );
    assert_eq!(full_set_cards(0).len(), 0);
    assert_eq!(full_set_cards(7).len(), 6);
}

#[test]
fn duplicate_names_are_refused_before_dealing() {
    let mut game = Game::new(24);
    game.players.push(Player::new(String::from("me"), 4));
    game.players.push(Player::new(String::from("me"), 4));
    assert_eq!(game.init_set(), Err(GameError::DuplicateName));
    assert_eq!(game.state, GameState::INIT);
    assert!(game.card_avail.is_empty());
    assert!(game.players.iter().all(|p| p.deck.is_empty()));
}

#[test]
fn names_differing_in_case_are_distinct() {
    let mut game = Game::new(24);
    game.players.push(Player::new(String::from("me"), 4));
    game.players.push(Player::new(String::from("Me"), 4));
    assert_eq!(game.init_set(), Ok(()));
}

#[test]
fn capacity_beyond_the_set_is_refused() {
    let mut game = Game::new(6);
    game.players.push(Player::new(String::from("a"), 4));
    game.players.push(Player::new(String::from("b"), 4));
    assert_eq!(game.init_set(), Err(GameError::EmptyPool));
    assert_eq!(game.state, GameState::INIT);
    assert!(game.card_avail.is_empty());
}

#[test]
fn dealing_fills_each_hand_and_shrinks_the_pool() {
    let mut game = Game::new(24);
    game.players.push(Player::new(String::from("a"), 4));
    game.players.push(Player::new(String::from("b"), 5));
    game.players.push(Player::new(String::from("c"), 3));
    assert_eq!(game.init_set(), Ok(()));
    assert_eq!(game.card_avail.len(), 24 - 12);
    let mut all: Vec<Card> = game.card_avail.clone();
    for p in &game.players {
        assert_eq!(p.deck.len() as u32, p.ncards);
        assert_eq!(p.status, PlayerStatus::PLAYING);
        assert_eq!(p.side_card, None);
        all.extend(p.deck.iter().copied());
    }
    assert_eq!(sorted_keys(&all), sorted_keys(&full_set_cards(24)));
}

#[test]
fn zero_capacity_player_is_eliminated_at_once() {
    let mut game = Game::new(24);
    game.players.push(Player::new(String::from("a"), 0));
    game.players.push(Player::new(String::from("b"), 4));
    game.players.push(Player::new(String::from("c"), 4));
    assert_eq!(game.init_set(), Ok(()));
    assert!(!game.game_status());
    assert_eq!(game.lost_players.len(), 1);
    assert_eq!(game.lost_players[0].name, "a");
    assert_eq!(game.lost_players[0].status, PlayerStatus::LOST);
}

#[test]
fn shuffle_keeps_the_same_cards() {
    let mut game = Game::new(24);
    let _ = game.init_set();
    let before = game.card_avail.clone();
    game.shuffle_avail_card();
    assert_eq!(game.card_avail.len(), before.len());
    assert_eq!(sorted_keys(&game.card_avail), sorted_keys(&before));
}

#[test]
fn elimination_and_winner() {
    let mut game = Game::new(24);
    for name in ["a", "b", "c"] {
        game.players.push(Player::new(String::from(name), 4));
    }
    assert_eq!(game.init_set(), Ok(()));
    for c in game.players[0].deck.iter_mut() {
        c.status = CardStatus::REVEALED;
    }
    assert!(!game.game_status());
    assert_eq!(game.state, GameState::RUNNING);
    assert!(game.winner.is_none());
    assert_eq!(game.players.len(), 2);
    assert_eq!(game.lost_players.len(), 1);
    assert_eq!(game.lost_players[0].name, "a");
    assert_eq!(game.lost_players[0].status, PlayerStatus::LOST);

    for c in game.players[1].deck.iter_mut() {
        c.status = CardStatus::REVEALED;
    }
    assert!(game.game_status());
    assert_eq!(game.state, GameState::END);
    assert_eq!(game.lost_players.len(), 2);
    assert_eq!(game.lost_players[1].name, "c");
    let winner = game.winner.clone().unwrap();
    assert_eq!(winner.name, "b");
    assert_eq!(winner.status, PlayerStatus::PLAYING);
}

#[test]
fn three_players_two_eliminated_in_one_pass() {
    let mut game = Game::new(24);
    for name in ["p1", "p2", "p3"] {
        game.players.push(Player::new(String::from(name), 4));
    }
    assert_eq!(game.init_set(), Ok(()));
    for i in [0usize, 2] {
        for c in game.players[i].deck.iter_mut() {
            c.status = CardStatus::REVEALED;
        }
    }
    assert!(game.game_status());
    assert_eq!(game.state, GameState::END);
    let names: Vec<&str> = game.lost_players.iter().map(|p| p.name.as_str()).collect();
    assert_eq!(names, vec!["p1", "p3"]);
    let winner = game.winner.clone().unwrap();
    assert_eq!(winner.name, "p2");
    assert_eq!(winner.status, PlayerStatus::PLAYING);
}

#[test]
fn no_winner_when_the_last_player_is_not_playing() {
    let mut game = Game::new(24);
    game.players.push(Player::new(String::from("solo"), 2));
    assert!(game.game_status());
    assert_eq!(game.state, GameState::END);
    assert!(game.winner.is_none());
}

#[test]
fn hand_text_tolerates_odd_tokens() {
    let mut p = Player::new(String::from("me"), 4);
    p.deck_from_str(String::from("0: X4, 1: W?, 2:W5, 3: B+7, 4: W 9, nothing, 5: W12:extra"));
    assert_eq!(
        p.deck,
        vec![
            Card::new(4, Color::BLACK),
            Card::new(7, Color::BLACK),
            Card::new(12, Color::WHITE),
        ]
    );
    p.deck_from_str(String::new());
    assert!(p.deck.is_empty());
}

#[test]
fn hand_text_round_trips_through_rendering() {
    let mut p = Player::new(String::from("me"), 4);
    p.deck = vec![Card::new(1, Color::WHITE), Card::new(1, Color::BLACK), Card::new(13, Color::WHITE)];
    let text = p.show_hand(false, false);
    assert_eq!(text, "0: W1, 1: B1, 2: W13, ");
    let mut q = Player::new(String::from("you"), 4);
    q.deck_from_str(text);
    assert_eq!(q.deck, p.deck);
}

#[test]
fn rendering_hides_hidden_values_for_opponents() {
    let mut p = Player::new(String::from("me"), 3);
    p.deck = vec![
        card(2, Color::BLACK, CardStatus::HIDDEN),
        card(5, Color::WHITE, CardStatus::REVEALED),
        card(10, Color::WHITE, CardStatus::HIDDEN),
    ];
    assert_eq!(p.show_hand(true, false), "0: B?, 1: W5, 2: W?, ");
    assert_eq!(p.show_hand(false, false), "0: B2, 1: W5, 2: W10, ");
    assert_eq!(p.show_hand(false, true), "0: B2, 1: W5, 2: W10, ");
    assert_eq!(Player::new(String::from("x"), 0).show_hand(true, false), "");
}

#[test]
fn colored_rendering_paints_revealed_values() {
    colored::control::set_override(true);
    let cards = vec![card(5, Color::WHITE, CardStatus::REVEALED), card(3, Color::BLACK, CardStatus::REVEALED)];
    let text = render_cards(&cards, true, true);
    assert_eq!(text, "0: W\u{1b}[33m5\u{1b}[0m, 1: B\u{1b}[34m3\u{1b}[0m, ");
    let mut game = Game::new(0);
    game.card_avail = cards;
    assert_eq!(game.show_avail_cards(true, true), text);
    assert_eq!(game.show_avail_cards(true, false), "0: W5, 1: B3, ");
}

#[test]
fn reveal_twice_reports_already_revealed() {
    let mut p = Player::new(String::from("me"), 2);
    p.deck = vec![Card::new(3, Color::BLACK), Card::new(4, Color::WHITE)];
    assert_eq!(p.reveal_card(1), 0);
    let after_first = p.deck.clone();
    assert_eq!(p.reveal_card(1), 1);
    assert_eq!(p.deck, after_first);
    assert_eq!(p.deck[1].status, CardStatus::REVEALED);
    assert_eq!(p.deck[0].status, CardStatus::HIDDEN);
}

#[test]
fn reveal_by_identity() {
    let mut p = Player::new(String::from("me"), 2);
    p.deck = vec![Card::new(3, Color::BLACK), Card::new(3, Color::WHITE)];
    p.reveal_card_2(&Card::new(3, Color::WHITE));
    assert_eq!(p.deck[0].status, CardStatus::HIDDEN);
    assert_eq!(p.deck[1].status, CardStatus::REVEALED);
}

#[test]
fn hidden_value_lookup() {
    let mut p = Player::new(String::from("me"), 2);
    p.deck = vec![Card::new(3, Color::BLACK), card(4, Color::WHITE, CardStatus::REVEALED)];
    assert_eq!(p.get_specific_card_value(0), Some(3));
    assert_eq!(p.get_specific_card_value(1), None);
}

#[test]
fn drawing_a_chosen_card_holds_it_aside() {
    let mut pool = vec![Card::new(0, Color::BLACK), Card::new(0, Color::WHITE), Card::new(1, Color::BLACK)];
    let mut p = Player::new(String::from("me"), 0);
    assert_eq!(p.draw_specific_card(&mut pool, 1), Ok(Card::new(0, Color::WHITE)));
    assert_eq!(pool, vec![Card::new(0, Color::BLACK), Card::new(1, Color::BLACK)]);
    assert_eq!(p.side_card, Some(Card::new(0, Color::WHITE)));
    assert!(p.deck.is_empty());
}

#[test]
fn drawing_past_the_pool_is_out_of_range() {
    let mut pool = vec![Card::new(0, Color::BLACK)];
    let mut p = Player::new(String::from("me"), 0);
    assert_eq!(p.draw_specific_card(&mut pool, 1), Err(GameError::IndexOutOfRange));
    assert_eq!(pool.len(), 1);
    assert_eq!(p.side_card, None);
}

#[test]
fn drawing_from_an_empty_pool_fails() {
    let mut pool: Vec<Card> = Vec::new();
    let mut p = Player::new(String::from("me"), 2);
    assert_eq!(p.draw_card(&mut pool), Err(GameError::EmptyPool));
    assert_eq!(p.draw_to_deck(&mut pool), Err(GameError::EmptyPool));
    assert_eq!(p.init_game(&mut pool), Err(GameError::EmptyPool));
    assert_eq!(p.status, PlayerStatus::INIT);
}

#[test]
fn random_draw_takes_one_card_from_the_pool() {
    let mut pool = full_set_cards(6);
    let mut p = Player::new(String::from("me"), 0);
    assert_eq!(p.draw_card(&mut pool), Ok(()));
    assert_eq!(pool.len(), 5);
    let drawn = p.side_card.unwrap();
    assert!(!pool.contains(&drawn));
    assert!(full_set_cards(6).contains(&drawn));

    assert_eq!(p.draw_to_deck(&mut pool), Ok(()));
    assert_eq!(pool.len(), 4);
    assert_eq!(p.deck.len(), 1);
    assert_eq!(p.side_card, None);
    assert!(!pool.contains(&p.deck[0]));
}

#[test]
fn drawing_into_the_hand_keeps_it_sorted() {
    let mut pool = vec![Card::new(0, Color::WHITE), Card::new(5, Color::BLACK)];
    let mut p = Player::new(String::from("me"), 2);
    p.deck = vec![Card::new(0, Color::BLACK), Card::new(6, Color::WHITE)];
    assert_eq!(p.draw_to_deck_at(&mut pool, 1), Ok(()));
    assert_eq!(p.deck, vec![Card::new(0, Color::BLACK), Card::new(5, Color::BLACK), Card::new(6, Color::WHITE)]);
    assert_eq!(pool, vec![Card::new(0, Color::WHITE)]);
    assert_eq!(p.draw_to_deck_at(&mut pool, 3), Err(GameError::IndexOutOfRange));
}

#[test]
fn committing_the_drawn_card() {
    let mut pool = vec![Card::new(2, Color::WHITE), Card::new(9, Color::BLACK)];
    let mut p = Player::new(String::from("me"), 2);
    p.deck = vec![Card::new(2, Color::BLACK), Card::new(4, Color::WHITE)];
    assert_eq!(p.save_side_card(true), Err(GameError::NoPendingDraw));
    assert_eq!(p.ncards, 2);

    let _ = p.draw_specific_card(&mut pool, 0);
    assert_eq!(p.save_side_card(false), Ok(()));
    assert_eq!(p.ncards, 3);
    assert_eq!(p.side_card, None);
    assert_eq!(
        p.deck,
        vec![Card::new(2, Color::BLACK), card(2, Color::WHITE, CardStatus::REVEALED), Card::new(4, Color::WHITE)]
    );

    let _ = p.draw_specific_card(&mut pool, 0);
    assert_eq!(p.save_side_card(true), Ok(()));
    assert_eq!(p.deck.last(), Some(&Card::new(9, Color::BLACK)));
    assert_eq!(p.ncards, 4);
}

#[test]
fn numbers_render_and_parse() {
    assert_eq!(dec_string(0), "0");
    assert_eq!(dec_string(907), "907");
    assert_eq!(dec_string(u64::MAX), "18446744073709551615");
    assert_eq!(parse_u32(b"4294967295", 0, 10), Some(u32::MAX));
    assert_eq!(parse_u32(b"4294967296", 0, 10), None);
    assert_eq!(parse_u32(b"+12", 0, 3), Some(12));
    assert_eq!(parse_u32(b"+", 0, 1), None);
    assert_eq!(parse_u32(b"-1", 0, 2), None);
    assert_eq!(parse_u32(b"", 0, 0), None);
    assert_eq!(parse_u32(b"x42y", 1, 3), Some(42));
}

#[test]
fn replies_and_prompts() {
    assert_eq!(read_number(&String::from("3"), 5), Some(3));
    assert_eq!(read_number(&String::from("5"), 5), Some(5));
    assert_eq!(read_number(&String::from("6"), 5), None);
    assert_eq!(read_number(&String::from(" 3"), 5), None);
    assert_eq!(read_number(&String::from("three"), 5), None);
    assert_eq!(read_yes_no(&String::from("yes")), Some(true));
    assert_eq!(read_yes_no(&String::from("no")), Some(false));
    assert_eq!(read_yes_no(&String::from("Yes")), None);
    assert_eq!(number_prompt("Enter card number to draw it", 11), "Enter card number to draw it (0-11)");
    assert_eq!(choice_prompt("Guess?", "yes", "no"), "Guess? (yes/no)");
}

#[test]
fn handshake_and_opening_player() {
    assert!(is_init_token(&String::from("init")));
    assert!(!is_init_token(&String::from("init\n")));
    assert!(!is_init_token(&String::from("hello")));
    for _ in 0..20 {
        assert!(pick_opening_player(3) < 3);
    }
    assert_eq!(pick_opening_player(1), 0);
}

#[test]
fn rotation_skips_players_no_longer_in() {
    let mut game = Game::new(24);
    for name in ["a", "b", "c"] {
        game.players.push(Player::new(String::from(name), 1));
    }
    let order: Vec<String> = vec![String::from("a"), String::from("b"), String::from("c")];
    assert_eq!(next_player(&order, 0, &game), Some(1));
    assert_eq!(next_player(&order, 2, &game), Some(0));
    game.players.remove(1);
    assert_eq!(next_player(&order, 0, &game), Some(2));
    game.players.remove(0);
    assert_eq!(next_player(&order, 2, &game), Some(2));
    game.players.clear();
    assert_eq!(next_player(&order, 1, &game), None);
}

#[test]
fn opponents_exclude_the_acting_player() {
    let mut game = Game::new(24);
    for name in ["a", "b", "c"] {
        game.players.push(Player::new(String::from(name), 1));
    }
    assert_eq!(opponents_of(&game.players, &String::from("b")), vec![String::from("a"), String::from("c")]);
}

#[test]
fn hidden_commit_stores_the_card_hidden() {
    let mut p = Player::new(String::from("me"), 1);
    p.deck = vec![Card::new(8, Color::BLACK)];
    p.side_card = Some(card(3, Color::WHITE, CardStatus::REVEALED));
    assert_eq!(p.save_side_card(true), Ok(()));
    assert_eq!(p.deck, vec![Card::new(3, Color::WHITE), Card::new(8, Color::BLACK)]);
    assert_eq!(p.ncards, 2);
    assert_eq!(p.side_card, None);
}

#[test]
fn new_game_starts_empty() {
    let game = Game::new(24);
    assert_eq!(game.state, GameState::INIT);
    assert!(game.players.is_empty() && game.lost_players.is_empty() && game.card_avail.is_empty());
    assert!(game.winner.is_none());
    assert_eq!(game.set_cards, 24);
    assert!(game.logs.is_empty() && game.err.is_empty());
}
