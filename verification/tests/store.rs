use cardgame::card::Card;
use cardgame::deck::new_deck;
use cardgame::store::CardStore;

fn hand(glyphs: &str) -> Vec<Card> {
    glyphs.chars().map(|c| Card::from_char(&c)).collect()
}

#[test]
fn an_empty_store_holds_nothing() {
    let store = CardStore::default();
    assert_eq!(store.raw, 0);
    assert!(store.get_cards().is_empty());
    for value in 0..16 {
        assert_eq!(store.get_card_count(&Card::from_value(value)), 0);
    }
}

#[test]
fn adding_counts_one_card() {
    let mut store = CardStore::default();
    store.add(&Card::Card3);
    assert_eq!(store.raw, 1);
    store.add(&Card::Card3);
    assert_eq!(store.raw, 2);
    store.add(&Card::Card4);
    assert_eq!(store.raw, 0x12);
    store.add(&Card::CardKing);
    assert_eq!(store.raw, 0x0100_0000_0000_0012);
    assert_eq!(store.get_card_count(&Card::Card3), 2);
    assert_eq!(store.get_card_count(&Card::Card4), 1);
    assert_eq!(store.get_card_count(&Card::Card5), 0);
    assert_eq!(store.get_card_count(&Card::CardKing), 1);
    assert_eq!(store.get_cards(), hand("334王"));
}

#[test]
fn the_sentinel_is_not_stored() {
    let mut store = CardStore { raw: 17 };
    store.add(&Card::Unknown);
    assert_eq!(store.raw, 17);
    assert_eq!(store.get_card_count(&Card::Unknown), 0);
    assert_eq!(store.get_cards(), hand("34"));
}

#[test]
fn a_counter_holds_up_to_fifteen() {
    let mut store = CardStore::default();
    for n in 1..16 {
        store.add(&Card::Card2);
        assert_eq!(store.get_card_count(&Card::Card2), n);
    }
    assert_eq!(store.get_card_count(&Card::CardA), 0);
    assert_eq!(store.get_card_count(&Card::CardGhost), 0);
    assert_eq!(store.get_cards().len(), 15);
}

#[test]
fn the_whole_deck_fits() {
    let mut store = CardStore::default();
    let deck = new_deck();
    for card in deck.iter().rev() {
        store.add(card);
    }
    assert_eq!(store.get_cards(), deck);
    assert_eq!(store.raw, 0x0114_4444_4444_4444);
}

#[test]
fn groups_of_a_store() {
    let mut store = CardStore::default();
    for card in hand("3355K") {
        store.add(&card);
    }
    let groups = store.get_card_groups();
    assert_eq!(groups.len(), 15);
    let arr = store.get_card_groups_arr();
    for k in 0..15 {
        assert_eq!(groups[k].card, Card::from_value(k as u32 + 1));
        assert_eq!(arr[k].card, groups[k].card);
        assert_eq!(arr[k].count, groups[k].count);
    }
    assert_eq!(groups[0].count, 2);
    assert_eq!(groups[1].count, 0);
    assert_eq!(groups[2].count, 2);
    assert_eq!(groups[10].count, 1);
    assert_eq!(arr[15].card, Card::Unknown);
    assert_eq!(arr[15].count, 0);
}
