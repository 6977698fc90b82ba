use cardgame::card::Card;
use cardgame::input::{cards_from_run, parse_input};

fn hand(glyphs: &str) -> Vec<Card> {
    glyphs.chars().map(|c| Card::from_char(&c)).collect()
}

#[test]
fn a_run_of_glyphs_is_read() {
    assert_eq!(parse_input("3456"), Some(hand("3456")));
    assert_eq!(parse_input("JQKA2"), Some(hand("JQKA2")));
    assert_eq!(parse_input("鬼王"), Some(vec![Card::CardGhost, Card::CardKing]));
}

#[test]
fn letters_are_read_in_either_case() {
    assert_eq!(parse_input("jqka"), Some(hand("JQKA")));
    assert_eq!(parse_input("3jQ"), Some(hand("3JQ")));
}

#[test]
fn ten_is_written_with_two_glyphs() {
    assert_eq!(parse_input("10"), Some(vec![Card::Card10]));
    assert_eq!(parse_input("91010J"), Some(vec![Card::Card9, Card::Card10, Card::Card10, Card::CardJ]));
    assert_eq!(parse_input("1010"), Some(vec![Card::Card10, Card::Card10]));
}

#[test]
fn a_one_alone_names_no_card_and_ends_the_run() {
    assert_eq!(parse_input("1"), None);
    assert_eq!(parse_input("123"), Some(hand("23")));
    assert_eq!(parse_input("313"), Some(hand("3")));
    assert_eq!(parse_input("110"), Some(vec![Card::Card10]));
    assert_eq!(parse_input("101"), Some(vec![Card::Card10]));
}

#[test]
fn only_the_first_run_is_read() {
    assert_eq!(parse_input("x34y56"), Some(hand("34")));
    assert_eq!(parse_input("  77  "), Some(hand("77")));
    assert_eq!(parse_input("3 4 5"), Some(hand("3")));
    assert_eq!(parse_input("30405"), Some(hand("3")));
    assert_eq!(parse_input("play 789"), Some(hand("A")));
}

#[test]
fn a_line_without_cards_gives_nothing() {
    assert_eq!(parse_input(""), None);
    assert_eq!(parse_input("bcd"), None);
    assert_eq!(parse_input("0"), None);
    assert_eq!(parse_input("   "), None);
}

#[test]
fn the_stand_in_letter_reads_as_ten() {
    assert_eq!(parse_input("ß"), Some(vec![Card::Card10]));
    assert_eq!(parse_input("9ßJ"), Some(vec![Card::Card9, Card::Card10, Card::CardJ]));
}

#[test]
fn runs_are_read_glyph_by_glyph() {
    assert_eq!(cards_from_run("345"), Some(hand("345")));
    assert_eq!(cards_from_run("10"), Some(vec![Card::Card10]));
    assert_eq!(cards_from_run("1"), Some(vec![Card::Card10]));
    assert_eq!(cards_from_run("3x4"), Some(hand("34")));
    assert_eq!(cards_from_run("j"), None);
    assert_eq!(cards_from_run("0"), None);
    assert_eq!(cards_from_run(""), None);
    assert_eq!(cards_from_run("1010"), Some(vec![Card::Card10, Card::Card10]));
}
