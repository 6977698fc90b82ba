//! The deck of fifty-four cards, and its shuffling.
use crate::card::{rank_round_trip, Card, RANKS};
use crate::group::{
    count_of, flatten, groups_from_counts, groups_from_table, lemma_count_is_multiplicity,
    lemma_flatten_count, lemma_groups_from_counts, table,
};
use rand::rngs::StdRng;
use rand::seq::SliceRandom;
use rand::Rng;
use rand::SeedableRng;
use vstd::prelude::*;

verus! {

/// The number of cards in the deck.
pub const DECK_SIZE: usize = 54;

/// How often a card is in the deck: each joker once, every other rank four
/// times, the sentinel never.
pub open spec fn deck_count(c: Card) -> nat {
    match c {
        Card::Unknown => 0,
        Card::CardGhost => 1,
        Card::CardKing => 1,
        _ => 4,
    }
}

/// The deck's counts by rank index.
pub open spec fn deck_table() -> Seq<nat> {
    Seq::new(RANKS as nat, |r: int| deck_count(Card::of_rank(r as nat)))
}

/// The deck in ascending rank order.
pub open spec fn ordered_deck() -> Seq<Card> {
    flatten(groups_from_counts(deck_table(), RANKS as nat))
}

/// Whether a card list is the deck in some order.
pub open spec fn is_full_deck(cards: Seq<Card>) -> bool {
    &&& cards.len() == DECK_SIZE
    &&& forall|c: Card| #[trigger] count_of(cards, c) == deck_count(c)
}

/// A card list that holds every card as often as the deck does has fifty-four
/// cards.
pub proof fn lemma_deck_len(cards: Seq<Card>)
    requires
        forall|c: Card| #[trigger] count_of(cards, c) == deck_count(c),
    ensures
        cards.len() == DECK_SIZE,
{
    let t = crate::group::tally(cards);
    crate::group::lemma_tally_sum(cards);
    assert(t =~= deck_table());
    lemma_deck_table_sum();
}

/// The deck's counts sum to fifty-four.
pub proof fn lemma_deck_table_sum()
    ensures
        crate::group::counts_sum(deck_table(), RANKS as nat) == DECK_SIZE,
{
    let t = deck_table();
    reveal_with_fuel(crate::group::counts_sum, 17);
    assert(t[0] == 0);
    assert(t[1] == 4);
    assert(t[2] == 4);
    assert(t[3] == 4);
    assert(t[4] == 4);
    assert(t[5] == 4);
    assert(t[6] == 4);
    assert(t[7] == 4);
    assert(t[8] == 4);
    assert(t[9] == 4);
    assert(t[10] == 4);
    assert(t[11] == 4);
    assert(t[12] == 4);
    assert(t[13] == 4);
    assert(t[14] == 1);
    assert(t[15] == 1);
}

/// The generator that the deck is shuffled with.
#[verifier::external_type_specification]
#[verifier::external_body]
pub struct ExStdRng(StdRng);

/// `rand`'s `StdRng::from_entropy`: a generator seeded by the operating
/// system. Nothing is claimed of it.
#[verifier::external_body]
pub(crate) fn entropy_rng() -> (rng: StdRng) {
    StdRng::from_entropy()
}

/// `rand`'s `SliceRandom::shuffle` on the cards. It swaps cards in place, so
/// whatever the generator gives, the list afterwards holds the same cards as
/// before; nothing is claimed of their order.
#[verifier::external_body]
fn shuffle_cards(cards: &mut Vec<Card>, rng: &mut StdRng)
    ensures
        final(cards)@.to_multiset() == old(cards)@.to_multiset(),
{
    cards.shuffle(rng);
}

/// `rand`'s `Rng::gen_range` on the range from zero up to but without
/// `bound`, which must not be empty. Whatever the generator gives, the number
/// lies in the range.
#[verifier::external_body]
fn pick_below(rng: &mut StdRng, bound: usize) -> (n: usize)
    requires
        bound > 0,
    ensures
        n < bound,
{
    rng.gen_range(0..bound)
}

/// The deck in ascending rank order.
pub fn new_deck() -> (cards: Vec<Card>)
    ensures
        cards@ == ordered_deck(),
        is_full_deck(cards@),
{
    let mut counts: Vec<u32> = Vec::new();
    counts.push(0);
    let mut i: usize = 1;
    while i < 14
        invariant
            1 <= i <= 14,
            counts.len() == i,
            counts[0] == 0,
            forall|r: int| 1 <= r < i ==> counts[r] == 4,
        decreases 14 - i,
    {
        counts.push(4);
        i += 1;
    }
    counts.push(1);
    counts.push(1);
    proof {
        assert(table(counts@) =~= deck_table()) by {
            assert forall|r: int| 0 <= r < RANKS implies table(counts@)[r] == deck_table()[r] by {
                rank_round_trip(Card::Unknown, r as nat);
            }
        }
        lemma_groups_from_counts(deck_table(), RANKS as nat);
    }
    let groups = groups_from_table(&counts);
    let cards = groups.into_cards();
    proof {
        assert forall|c: Card| #[trigger] count_of(cards@, c) == deck_count(c) by {
            lemma_flatten_count(groups@, c);
            rank_round_trip(c, 0);
        }
        lemma_deck_len(cards@);
    }
    cards
}

/// The deck, shuffled with `rng`.
pub fn gen_cards_with(rng: &mut StdRng) -> (cards: Vec<Card>)
    ensures
        is_full_deck(cards@),
{
    let mut cards = new_deck();
    let ghost before = cards@;
    shuffle_cards(&mut cards, rng);
    proof {
        assert forall|c: Card| #[trigger] count_of(cards@, c) == deck_count(c) by {
            lemma_count_is_multiplicity(cards@, c);
            lemma_count_is_multiplicity(before, c);
        }
        lemma_deck_len(cards@);
    }
    cards
}

/// The deck, shuffled with a generator that the operating system seeds.
pub fn gen_cards() -> (cards: Vec<Card>)
    ensures
        is_full_deck(cards@),
{
    let mut rng = entropy_rng();
    gen_cards_with(&mut rng)
}

/// A seat number below three, drawn with `rng`.
pub fn pick_seat_with(rng: &mut StdRng) -> (seat: usize)
    ensures
        seat < 3,
{
    pick_below(rng, 3)
}

} // verus!
