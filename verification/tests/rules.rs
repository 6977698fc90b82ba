use cardgame::card::Card;
use cardgame::card::Card::{CardGhost, CardKing};
use cardgame::deck::gen_cards;
use cardgame::input::parse_input;
use cardgame::rule::{match_rule, Rule};
use cardgame::store::CardStore;
use std::time::Instant;

fn rule_from_str(input: &str) -> Rule {
    match_rule(&parse_input(input).unwrap())
}

#[test]
fn one() {
    let rule = rule_from_str("4");
    assert!(rule.matches(&parse_input("2").unwrap()));
    assert!(!rule.matches(&parse_input("3").unwrap()));
}

#[test]
fn two() {
    let rule = rule_from_str("44");
    assert!(rule.matches(&parse_input("22").unwrap()));
    assert!(!rule.matches(&parse_input("33").unwrap()));
}

#[test]
fn test_gen_card() {
    let mut cards = CardStore::default();
    let start = Instant::now();

    cards.raw = 1 << (52 - 1);
    cards.add(&CardKing);
    cards.add(&CardGhost);
    let duration = start.elapsed();

    println!("Time elapsed in expensive_function() is: {:?}", duration);

    let start = Instant::now();
    let cards = gen_cards();
    let duration = start.elapsed();
    println!("Time elapsed in expensive_function() is: {:?}", duration);
    assert_eq!(cards.len(), 54);
}

#[test]
fn test_card_store() {
    let mut cards = CardStore::default();
    let mut generated = gen_cards();
    generated.sort();
    for card in generated.iter() {
        cards.add(card);
    }
    assert!(cards.get_cards().eq(&generated));
}

#[test]
fn offset() {
    let mut cards = CardStore { raw: 17i64 };
    for i in 0..16 {
        let card = Card::from_value(i);
        cards.add(&card);
        let _count = cards.get_card_count(&card);
    }

    println!("{:#064b}", cards.raw);
    println!("{:?}", cards.get_cards());
}

#[test]
fn random_inputs() {
    let input = "123";
    let cards = parse_input(input).unwrap();
    let rule = match_rule(&cards);
    assert!(rule.is_none());
}
