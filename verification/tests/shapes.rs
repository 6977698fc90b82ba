use cardgame::card::Card;
use cardgame::rule::{
    match_rule, rule_matches, Rule, RuleAirplaneWithOneWing, RuleAirplaneWithTwoWings, RuleBomb,
    RuleChain, RuleFourWithTwo, RuleNone, RuleOne, RuleRocket, RuleThreeWithOne, RuleThreeWithTwo,
    RuleTwo,
};

fn hand(glyphs: &str) -> Vec<Card> {
    glyphs.chars().map(|c| Card::from_char(&c)).collect()
}

fn shape(glyphs: &str) -> Rule {
    match_rule(&hand(glyphs))
}

#[test]
fn classify_single_and_pair() {
    assert_eq!(shape("4"), Rule::Single(RuleOne { card: Card::Card4 }));
    assert_eq!(shape("44"), Rule::Pair(RuleTwo { card: Card::Card4 }));
    assert_eq!(shape("王"), Rule::Single(RuleOne { card: Card::CardKing }));
    assert_eq!(shape("鬼鬼"), Rule::Pair(RuleTwo { card: Card::CardGhost }));
}

#[test]
fn classify_rocket() {
    assert_eq!(shape("鬼王"), Rule::Rocket(RuleRocket));
    assert_eq!(shape("王鬼"), Rule::Rocket(RuleRocket));
    assert_eq!(shape("2王"), Rule::Empty(RuleNone));
}

#[test]
fn classify_four_cards() {
    assert_eq!(
        shape("5559"),
        Rule::TripleWithSingle(RuleThreeWithOne { first: Card::Card5, second: Card::Card9 })
    );
    assert_eq!(
        shape("3999"),
        Rule::TripleWithSingle(RuleThreeWithOne { first: Card::Card9, second: Card::Card3 })
    );
    assert_eq!(shape("8888"), Rule::Bomb(RuleBomb { card: Card::Card8 }));
    assert_eq!(shape("8899"), Rule::Empty(RuleNone));
    assert_eq!(shape("3456"), Rule::Empty(RuleNone));
}

#[test]
fn classify_five_and_six_cards() {
    assert_eq!(
        shape("JJJ44"),
        Rule::TripleWithPair(RuleThreeWithTwo { first: Card::CardJ, second: Card::Card4 })
    );
    assert_eq!(
        shape("QQ7777"),
        Rule::FourWithTwo(RuleFourWithTwo { first: Card::Card7, second: Card::CardQ })
    );
    assert_eq!(shape("777734"), Rule::Empty(RuleNone));
    assert_eq!(shape("JJJ45"), Rule::Empty(RuleNone));
}

#[test]
fn classify_chains() {
    assert_eq!(shape("34567"), Rule::Chain(RuleChain { first: Card::Card3, count: 5 }));
    assert_eq!(shape("91JQKA"), Rule::Chain(RuleChain { first: Card::Card9, count: 6 }));
    assert_eq!(shape("334455"), Rule::Chain(RuleChain { first: Card::Card3, count: 3 }));
    assert_eq!(shape("KKKAAA"), Rule::Chain(RuleChain { first: Card::CardK, count: 2 }));
    assert_eq!(shape("333444555"), Rule::Chain(RuleChain { first: Card::Card3, count: 3 }));
}

#[test]
fn chains_need_their_least_length() {
    assert_eq!(shape("3456"), Rule::Empty(RuleNone));
    assert_eq!(shape("3344"), Rule::Empty(RuleNone));
    assert_eq!(shape("345"), Rule::Empty(RuleNone));
    assert!(RuleChain::try_new(&hand("3456")).is_none());
    assert!(RuleChain::try_new(&hand("3344")).is_none());
    assert!(RuleChain::try_new(&hand("333")).is_none());
    assert!(RuleChain::try_new(&hand("33334444")).is_none());
    assert!(RuleChain::try_new(&[]).is_none());
}

#[test]
fn chains_need_consecutive_ranks_and_equal_groups() {
    assert_eq!(shape("34568"), Rule::Empty(RuleNone));
    assert_eq!(shape("334466"), Rule::Empty(RuleNone));
    assert_eq!(shape("345677"), Rule::Empty(RuleNone));
    assert_eq!(shape("333555"), Rule::Empty(RuleNone));
}

#[test]
fn chains_run_through_the_two_and_the_jokers() {
    assert_eq!(shape("1JQKA2"), Rule::Chain(RuleChain { first: Card::Card10, count: 6 }));
    assert_eq!(shape("KA2鬼王"), Rule::Chain(RuleChain { first: Card::CardK, count: 5 }));
    assert_eq!(shape("AAA222"), Rule::Chain(RuleChain { first: Card::CardA, count: 2 }));
}

#[test]
fn classify_airplanes() {
    assert_eq!(
        shape("33344479"),
        Rule::AirplaneSingleWing(RuleAirplaneWithOneWing { first: Card::Card3, count: 2 })
    );
    assert_eq!(
        shape("3JJJQQQKKK45"),
        Rule::AirplaneSingleWing(RuleAirplaneWithOneWing { first: Card::CardJ, count: 3 })
    );
    assert_eq!(
        shape("3334447799"),
        Rule::AirplaneTwoWings(RuleAirplaneWithTwoWings { first: Card::Card3, count: 2 })
    );
    assert_eq!(
        shape("44999111JJJ5588"),
        Rule::AirplaneTwoWings(RuleAirplaneWithTwoWings { first: Card::Card9, count: 3 })
    );
}

#[test]
fn airplanes_that_are_none() {
    // a pair as the two single cards leaves only three ranks
    assert_eq!(shape("33344477"), Rule::Empty(RuleNone));
    // the triples are not on consecutive ranks
    assert_eq!(shape("33355579"), Rule::Empty(RuleNone));
    assert_eq!(shape("3335557799"), Rule::Empty(RuleNone));
    // too few or too many cards beside the triples
    assert_eq!(shape("3334447"), Rule::Empty(RuleNone));
    assert_eq!(shape("333444789"), Rule::Empty(RuleNone));
    assert_eq!(shape("33344477998"), Rule::Empty(RuleNone));
    // one triple is no airplane
    assert!(RuleAirplaneWithOneWing::try_new(&hand("3334567")).is_none());
    assert!(RuleAirplaneWithTwoWings::try_new(&hand("333445566")).is_none());
}

#[test]
fn nothing_and_noise_have_no_shape() {
    assert_eq!(shape(""), Rule::Empty(RuleNone));
    assert_eq!(shape("23"), Rule::Empty(RuleNone));
    assert_eq!(shape("345"), Rule::Empty(RuleNone));
    assert_eq!(shape("3345"), Rule::Empty(RuleNone));
    assert_eq!(shape("33445"), Rule::Empty(RuleNone));
    assert!(shape("333").is_none());
}

#[test]
fn classify_ignores_the_order_of_the_cards() {
    let plays = [
        "4", "44", "鬼王", "5559", "8888", "JJJ44", "QQ7777", "34567", "334455", "KKKAAA",
        "33344479", "3334447799", "3456", "33355579",
    ];
    for play in plays.iter() {
        let cards = hand(play);
        let expected = match_rule(&cards);
        let mut turned = cards.clone();
        for _ in 0..cards.len() {
            turned.rotate_left(1);
            assert_eq!(match_rule(&turned), expected);
        }
        turned.reverse();
        assert_eq!(match_rule(&turned), expected);
    }
}

#[test]
fn classify_twice_gives_the_same() {
    let cards = hand("3JJJQQQKKK45");
    assert_eq!(match_rule(&cards), match_rule(&cards));
}

#[test]
fn priorities() {
    assert_eq!(shape("8888").bomb_priority(), 1);
    assert_eq!(shape("鬼王").bomb_priority(), 2);
    assert_eq!(RuleBomb { card: Card::Card3 }.bomb_priority(), 1);
    assert_eq!(RuleRocket.bomb_priority(), 2);
    for play in ["4", "44", "5559", "JJJ44", "QQ7777", "34567", "33344479", "3334447799", "23"] {
        assert_eq!(shape(play).bomb_priority(), 0);
    }
}

#[test]
fn only_the_empty_shape_is_none() {
    assert!(Rule::Empty(RuleNone).is_none());
    assert!(RuleNone.is_none());
    assert!(shape("23").is_none());
    for play in ["4", "44", "鬼王", "8888", "34567"] {
        assert!(!shape(play).is_none());
    }
}

#[test]
fn shape_names() {
    assert_eq!(shape("23").to_string(), "无");
    assert_eq!(shape("4").to_string(), "单牌");
    assert_eq!(shape("44").to_string(), "对子");
    assert_eq!(shape("5559").to_string(), "三带一");
    assert_eq!(shape("JJJ44").to_string(), "三带二");
    assert_eq!(shape("QQ7777").to_string(), "四带二");
    assert_eq!(shape("8888").to_string(), "炸弹");
    assert_eq!(shape("鬼王").to_string(), "火箭");
    assert_eq!(shape("34567").to_string(), "顺子");
    assert_eq!(shape("33344479").to_string(), "单翼飞机");
    assert_eq!(shape("3334447799").to_string(), "双翼飞机");
}

#[test]
fn any_legal_play_opens_a_trick() {
    let table = Rule::Empty(RuleNone);
    for play in ["3", "44", "鬼王", "5559", "8888", "JJJ44", "QQ7777", "34567", "33344479"] {
        assert!(rule_matches(&table, &hand(play)));
    }
    assert!(!rule_matches(&table, &hand("23")));
    assert!(!rule_matches(&table, &[]));
}

#[test]
fn single_and_pair_beat_by_rank() {
    assert!(rule_matches(&shape("4"), &hand("5")));
    assert!(!rule_matches(&shape("4"), &hand("3")));
    assert!(!rule_matches(&shape("4"), &hand("4")));
    assert!(rule_matches(&shape("5"), &hand("7")));
    assert!(!rule_matches(&shape("77"), &hand("55")));
    assert!(rule_matches(&shape("55"), &hand("77")));
    assert!(rule_matches(&shape("A"), &hand("2")));
    assert!(rule_matches(&shape("2"), &hand("鬼")));
    assert!(rule_matches(&shape("鬼"), &hand("王")));
}

#[test]
fn another_shape_does_not_beat() {
    assert!(!rule_matches(&shape("4"), &hand("55")));
    assert!(!rule_matches(&shape("44"), &hand("5")));
    assert!(!rule_matches(&shape("5559"), &hand("JJJ44")));
    assert!(!rule_matches(&shape("JJJ44"), &hand("QQ7777")));
    assert!(!rule_matches(&shape("34567"), &hand("334455")));
    assert!(!rule_matches(&shape("33344479"), &hand("4445557799")));
}

#[test]
fn runs_beat_only_runs_of_their_length() {
    assert!(rule_matches(&shape("34567"), &hand("45678")));
    assert!(!rule_matches(&shape("34567"), &hand("456789")));
    assert!(!rule_matches(&shape("45678"), &hand("34567")));
    assert!(rule_matches(&shape("33344479"), &hand("44455538")));
    assert!(!rule_matches(&shape("33344479"), &hand("444555666789")));
    assert!(rule_matches(&shape("3334447799"), &hand("5556663344")));
}

#[test]
fn triples_beat_by_the_rank_of_the_triple() {
    assert!(rule_matches(&shape("555K"), &hand("6663")));
    assert!(!rule_matches(&shape("6663"), &hand("555K")));
    assert!(rule_matches(&shape("555KK"), &hand("66633")));
    assert!(rule_matches(&shape("5555KK"), &hand("666633")));
    assert!(!rule_matches(&shape("666633"), &hand("5555KK")));
}

#[test]
fn bombs_and_the_rocket() {
    assert!(!rule_matches(&shape("8888"), &hand("2")));
    assert!(!rule_matches(&shape("8888"), &hand("王")));
    assert!(rule_matches(&shape("2"), &hand("3333")));
    assert!(rule_matches(&shape("34567"), &hand("3333")));
    assert!(rule_matches(&shape("3333"), &hand("4444")));
    assert!(!rule_matches(&shape("4444"), &hand("3333")));
    assert!(rule_matches(&shape("2222"), &hand("鬼王")));
    assert!(rule_matches(&shape("王"), &hand("鬼王")));
    assert!(!rule_matches(&shape("鬼王"), &hand("2222")));
    assert!(!rule_matches(&shape("鬼王"), &hand("鬼王")));
}

#[test]
fn own_rules_agree_with_the_comparator_on_one_shape() {
    let tables = ["4", "44", "5559", "JJJ44", "QQ7777", "8888", "34567", "33344479", "3334447799"];
    let plays = [
        "3", "5", "55", "33", "6663", "4443", "QQQ33", "333QQ", "KK8888", "336666", "9999", "7777",
        "45678", "456789", "44455538", "5556663344", "23", "",
    ];
    for table in tables.iter() {
        let rule = shape(table);
        for play in plays.iter() {
            let cards = hand(play);
            let same_shape = std::mem::discriminant(&rule) == std::mem::discriminant(&match_rule(&cards));
            assert_eq!(
                rule.matches(&cards),
                same_shape && rule_matches(&rule, &cards),
                "{} on {}",
                play,
                table
            );
        }
    }
}

#[test]
fn single_rules_on_their_own() {
    assert_eq!(RuleOne::try_new(&hand("K")), Some(RuleOne { card: Card::CardK }));
    assert!(RuleOne::try_new(&hand("KK")).is_none());
    assert_eq!(RuleTwo::try_new(&hand("KK")), Some(RuleTwo { card: Card::CardK }));
    assert!(RuleTwo::try_new(&hand("KA")).is_none());
    assert_eq!(RuleBomb::try_new(&hand("KKKK")), Some(RuleBomb { card: Card::CardK }));
    assert!(RuleBomb::try_new(&hand("KKKA")).is_none());
    assert_eq!(RuleRocket::try_new(&hand("王鬼")), Some(RuleRocket));
    assert_eq!(RuleRocket::try_new(&hand("王王")), Some(RuleRocket));
    assert!(RuleRocket::try_new(&hand("王")).is_none());
    assert!(RuleRocket::try_new(&hand("王2")).is_none());
    assert!(RuleThreeWithOne::try_new(&hand("KKKAA")).is_none());
    assert!(RuleThreeWithTwo::try_new(&hand("KKKA")).is_none());
    assert!(RuleFourWithTwo::try_new(&hand("KKKKA2")).is_none());
    assert!(!RuleNone.matches(&hand("3")));
    assert!(!RuleRocket.matches(&hand("鬼王")));
    assert!(RuleOne { card: Card::Card3 }.matches(&hand("4")));
    assert!(RuleBomb { card: Card::Card3 }.matches(&hand("4444")));
    assert!(!RuleBomb { card: Card::Card5 }.matches(&hand("4444")));
}
