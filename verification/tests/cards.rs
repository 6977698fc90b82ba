use cardgame::card::Card;
use cardgame::group::{sort_cards, to_card_groups, CardGroup, CardGroups};

const ALL: [Card; 16] = [
    Card::Unknown,
    Card::Card3,
    Card::Card4,
    Card::Card5,
    Card::Card6,
    Card::Card7,
    Card::Card8,
    Card::Card9,
    Card::Card10,
    Card::CardJ,
    Card::CardQ,
    Card::CardK,
    Card::CardA,
    Card::Card2,
    Card::CardGhost,
    Card::CardKing,
];

fn hand(glyphs: &str) -> Vec<Card> {
    glyphs.chars().map(|c| Card::from_char(&c)).collect()
}

fn pairs(groups: &CardGroups) -> Vec<(Card, u32)> {
    groups.groups.iter().map(|g| (g.card, g.count)).collect()
}

#[test]
fn glyphs_name_cards() {
    assert_eq!(Card::from_char(&'3'), Card::Card3);
    assert_eq!(Card::from_char(&'9'), Card::Card9);
    assert_eq!(Card::from_char(&'1'), Card::Card10);
    assert_eq!(Card::from_char(&'J'), Card::CardJ);
    assert_eq!(Card::from_char(&'Q'), Card::CardQ);
    assert_eq!(Card::from_char(&'K'), Card::CardK);
    assert_eq!(Card::from_char(&'A'), Card::CardA);
    assert_eq!(Card::from_char(&'2'), Card::Card2);
    assert_eq!(Card::from_char(&'鬼'), Card::CardGhost);
    assert_eq!(Card::from_char(&'王'), Card::CardKing);
}

#[test]
fn unknown_glyphs_give_the_sentinel() {
    for g in ['x', 'j', '0', ' ', 'ß', '\n', '帝'] {
        assert_eq!(Card::from_char(&g), Card::Unknown);
    }
    assert_eq!(Card::Unknown.to_string(), "");
    assert_eq!(Card::default(), Card::Unknown);
}

#[test]
fn card_texts() {
    assert_eq!(Card::Card3.to_string(), "3");
    assert_eq!(Card::Card10.to_string(), "10");
    assert_eq!(Card::CardA.to_string(), "A");
    assert_eq!(Card::Card2.to_string(), "2");
    assert_eq!(Card::CardGhost.to_string(), "鬼");
    assert_eq!(Card::CardKing.to_string(), "王");
}

#[test]
fn first_glyph_of_text_reads_back() {
    for card in ALL.iter().skip(1) {
        let first = card.to_string().chars().next().unwrap();
        assert_eq!(Card::from_char(&first), *card);
    }
}

#[test]
fn values_are_rank_indices() {
    for (i, card) in ALL.iter().enumerate() {
        assert_eq!(card.value(), i as u32);
        assert_eq!(Card::from_value(i as u32), *card);
    }
    assert_eq!(Card::from_value(16), Card::Unknown);
    assert_eq!(Card::from_value(u32::MAX), Card::Unknown);
}

#[test]
fn order_follows_rank_not_face() {
    assert!(Card::Card2 > Card::CardA);
    assert!(Card::CardA > Card::CardK);
    assert!(Card::Card3 < Card::Card4);
    assert!(Card::CardKing > Card::CardGhost);
    assert!(Card::CardGhost > Card::Card2);
    for pair in ALL.windows(2) {
        assert!(pair[0] < pair[1]);
        assert!(pair[0].value() < pair[1].value());
    }
}

#[test]
fn grouping_counts_and_sorts() {
    let groups = to_card_groups(&hand("K3K4王3K"));
    assert_eq!(
        pairs(&groups),
        vec![(Card::Card3, 2), (Card::Card4, 1), (Card::CardK, 3), (Card::CardKing, 1)]
    );
    assert_eq!(groups.type_len(), 4);
    assert_eq!(groups.card_len(), 7);
}

#[test]
fn grouping_nothing_gives_nothing() {
    let groups = to_card_groups(&[]);
    assert_eq!(groups.type_len(), 0);
    assert_eq!(groups.card_len(), 0);
    assert!(groups.into_cards().is_empty());
}

#[test]
fn grouping_keeps_the_sentinel_first() {
    let groups = to_card_groups(&[Card::Card3, Card::Unknown, Card::Unknown]);
    assert_eq!(pairs(&groups), vec![(Card::Unknown, 2), (Card::Card3, 1)]);
}

#[test]
fn group_then_flatten_keeps_every_card() {
    let cards = hand("2A3王33鬼K1QJ2A39");
    let flat = to_card_groups(&cards).into_cards();
    assert_eq!(flat.len(), cards.len());
    for card in ALL.iter() {
        let before = cards.iter().filter(|c| *c == card).count();
        let after = flat.iter().filter(|c| *c == card).count();
        assert_eq!(before, after);
    }
    let mut sorted = cards.clone();
    sorted.sort();
    assert_eq!(flat, sorted);
    assert_eq!(sort_cards(&cards), sorted);
}

#[test]
fn group_into_cards_repeats_the_card() {
    let group = CardGroup { card: Card::CardQ, count: 3 };
    assert_eq!(group.into_cards(), vec![Card::CardQ, Card::CardQ, Card::CardQ]);
    let none = CardGroup { card: Card::CardQ, count: 0 };
    assert!(none.into_cards().is_empty());
}

#[test]
fn finding_groups() {
    let groups = to_card_groups(&hand("33344555"));
    assert_eq!(groups.find_group_by_count(3).map(|g| g.card), Some(Card::Card3));
    assert_eq!(groups.find_group_by_count(2).map(|g| g.card), Some(Card::Card4));
    assert!(groups.find_group_by_count(1).is_none());
    assert_eq!(groups.find_group_by_card(Card::Card5).map(|g| g.count), Some(3));
    assert!(groups.find_group_by_card(Card::Card6).is_none());
    assert!(groups.has_group(2));
    assert!(!groups.has_group(4));
    assert!(!groups.only_has_group(3));
    assert!(to_card_groups(&hand("777")).only_has_group(3));
    assert!(!to_card_groups(&hand("777")).only_has_group(2));
}

#[test]
fn subtraction_takes_cards_out() {
    let left = to_card_groups(&hand("3334455K")).sub(to_card_groups(&hand("3K44"))).unwrap();
    assert_eq!(pairs(&left), vec![(Card::Card3, 2), (Card::Card5, 2)]);
    assert_eq!(left.into_cards(), hand("3355"));
}

#[test]
fn subtraction_of_nothing_and_of_all() {
    let same = to_card_groups(&hand("345")).sub(to_card_groups(&[])).unwrap();
    assert_eq!(same.into_cards(), hand("345"));
    let none = to_card_groups(&hand("345")).sub(to_card_groups(&hand("543"))).unwrap();
    assert_eq!(none.type_len(), 0);
}

#[test]
fn subtraction_fails_exactly_when_a_rank_is_short() {
    let held = hand("3344KK王");
    let plays = ["3", "33", "333", "K", "KKK", "王", "王王", "鬼", "5", "34K王", "3344KK王", "3344KK王3", ""];
    for play in plays.iter() {
        let played = hand(play);
        let short = ALL.iter().any(|card| {
            played.iter().filter(|c| *c == card).count() > held.iter().filter(|c| *c == card).count()
        });
        let result = to_card_groups(&held).sub(to_card_groups(&played));
        assert_eq!(result.is_none(), short, "play {:?}", play);
        if let Some(left) = result {
            assert_eq!(left.card_len(), held.len() - played.len());
        }
    }
}

#[test]
fn groups_are_equal_by_card() {
    let a = CardGroup { card: Card::Card5, count: 1 };
    let b = CardGroup { card: Card::Card5, count: 3 };
    let c = CardGroup { card: Card::Card6, count: 1 };
    assert!(a == b);
    assert!(a != c);
    let none = CardGroup::default();
    assert_eq!(none.card, Card::Unknown);
    assert_eq!(none.count, 0);
}
