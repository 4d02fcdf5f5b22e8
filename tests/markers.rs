use davincicode::codec::{deck_from_str, parse_responses};
use davincicode::{Card, CardStatus, Color};

#[test]
fn sections_are_read_between_markers() {
    assert_eq!(
        parse_responses("\nYour deck ##0: B1, 1: W?, ##", "##"),
        Some(String::from("0: B1, 1: W?, "))
    );
    assert_eq!(parse_responses("pool **0: B?, ** rest", "**"), Some(String::from("0: B?, ")));
    assert_eq!(parse_responses("x ++1: W3, ++ ++2: B4, ++", "++"), Some(String::from("1: W3, ")));
    assert_eq!(parse_responses("||Zoé|| You won! Congrats!", "||"), Some(String::from("Zoé")));
}

#[test]
fn sections_need_text_and_a_known_marker() {
    assert_eq!(parse_responses("####", "##"), None);
    assert_eq!(parse_responses("##open", "##"), None);
    assert_eq!(parse_responses("%%a%%", "%%"), None);
    assert_eq!(parse_responses("##a##", "#"), None);
    assert_eq!(parse_responses("", "||"), None);
}

#[test]
fn leftmost_section_wins() {
    assert_eq!(parse_responses("### a##", "##"), Some(String::from(" a")));
    assert_eq!(parse_responses("##a#b## ##c##", "##"), Some(String::from(" ")));
    assert_eq!(parse_responses("##a#b##c##", "##"), Some(String::from("c")));
    assert_eq!(parse_responses("##a#b#", "##"), None);
}

#[test]
fn opponent_view_reads_question_marks_as_hidden_cards() {
    let cards = deck_from_str(String::from("0: B?, 1: W5, 2: W?, "));
    assert_eq!(cards, vec![Card::new(0, Color::BLACK), Card::new(5, Color::WHITE), Card::new(0, Color::WHITE)]);
    assert!(cards.iter().all(|c| c.status == CardStatus::HIDDEN));
    assert_eq!(deck_from_str(String::from("0:W1, nothing")), vec![Card::new(0, Color::BLACK)]);
}
