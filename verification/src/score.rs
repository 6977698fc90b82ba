//! How often the factor on the points can double.
//!
//! A bomb takes all four cards of a rank and the rocket both jokers, so in a
//! game that is played with one deck there are at most thirteen bombs and one
//! rocket, and the factor stays far below the largest number.
use crate::card::{rank_round_trip, Card, RANKS};
use crate::deck::deck_count;
use crate::group::{
    count_of, group_seq, groups_total, lemma_count_concat, lemma_group_seq,
    lemma_groups_count_at, lemma_groups_total_take, CardGroup,
};
use crate::rule::{classify, Rule};
use vstd::prelude::*;

verus! {

/// The most that the factor can be in a game with one deck: two to the
/// power of fourteen.
pub const MAX_FACTOR: u32 = 16384;

/// Two to the power of `n`.
pub open spec fn two_pow(n: nat) -> nat
    decreases n,
{
    if n == 0 {
        1
    } else {
        2 * two_pow((n - 1) as nat)
    }
}

/// The number of rank indices below `n` of which `cards` hold four cards or
/// more.
pub open spec fn quads_in(cards: Seq<Card>, n: nat) -> nat
    decreases n,
{
    if n == 0 {
        0
    } else {
        quads_in(cards, (n - 1) as nat) + if count_of(cards, Card::of_rank((n - 1) as nat)) >= 4 {
            1nat
        } else {
            0nat
        }
    }
}

/// One where `cards` hold both jokers, zero otherwise.
pub open spec fn rocket_in(cards: Seq<Card>) -> nat {
    if count_of(cards, Card::CardGhost) >= 1 && count_of(cards, Card::CardKing) >= 1 {
        1
    } else {
        0
    }
}

/// The number of bombs and rockets that `cards` have room for: the ranks
/// held four times, and the two jokers together.
pub open spec fn doublings(cards: Seq<Card>) -> nat {
    quads_in(cards, RANKS as nat) + rocket_in(cards)
}

/// Whether `cards` hold no card more often than the deck does.
pub open spec fn within_deck(cards: Seq<Card>) -> bool {
    forall|c: Card| #[trigger] count_of(cards, c) <= deck_count(c)
}

/// Whether `more` holds every card at least as often as `fewer`.
pub open spec fn grown(fewer: Seq<Card>, more: Seq<Card>) -> bool {
    forall|c: Card| #[trigger] count_of(fewer, c) <= count_of(more, c)
}

/// Powers of two grow with the exponent.
pub proof fn lemma_two_pow_grows(a: nat, b: nat)
    requires
        a <= b,
    ensures
        two_pow(a) <= two_pow(b),
        two_pow(a) >= 1,
    decreases b,
{
    if b > 0 {
        if a < b {
            lemma_two_pow_grows(a, (b - 1) as nat);
        } else {
            lemma_two_pow_grows((a - 1) as nat, (b - 1) as nat);
        }
    }
}

/// Two to the power of fourteen.
pub proof fn lemma_two_pow_14()
    ensures
        two_pow(14) == MAX_FACTOR,
{
    reveal_with_fuel(two_pow, 15);
}

/// More cards hold no fewer ranks four times.
pub proof fn lemma_quads_grow(fewer: Seq<Card>, more: Seq<Card>, n: nat)
    requires
        grown(fewer, more),
    ensures
        quads_in(fewer, n) <= quads_in(more, n),
        rocket_in(fewer) <= rocket_in(more),
    decreases n,
{
    assert(count_of(fewer, Card::CardGhost) <= count_of(more, Card::CardGhost));
    assert(count_of(fewer, Card::CardKing) <= count_of(more, Card::CardKing));
    if n > 0 {
        lemma_quads_grow(fewer, more, (n - 1) as nat);
        let c = Card::of_rank((n - 1) as nat);
        assert(count_of(fewer, c) <= count_of(more, c));
    }
}

/// A rank that the cards come to hold four times is one rank more.
pub proof fn lemma_quads_step(fewer: Seq<Card>, more: Seq<Card>, card: Card, n: nat)
    requires
        grown(fewer, more),
        count_of(fewer, card) < 4,
        count_of(more, card) >= 4,
        card.rank() < n <= RANKS,
    ensures
        quads_in(fewer, n) + 1 <= quads_in(more, n),
    decreases n,
{
    let m = (n - 1) as nat;
    rank_round_trip(card, m);
    if card.rank() == m {
        lemma_quads_grow(fewer, more, m);
    } else {
        lemma_quads_step(fewer, more, card, m);
        let c = Card::of_rank(m);
        assert(count_of(fewer, c) <= count_of(more, c));
    }
}

/// Cards of one deck hold at most thirteen ranks four times.
pub proof fn lemma_quads_of_deck(cards: Seq<Card>, n: nat)
    requires
        within_deck(cards),
        n <= RANKS,
    ensures
        quads_in(cards, n) <= 13,
        1 <= n <= 14 ==> quads_in(cards, n) <= n - 1,
    decreases n,
{
    if n > 0 {
        let m = (n - 1) as nat;
        lemma_quads_of_deck(cards, m);
        let c = Card::of_rank(m);
        assert(count_of(cards, c) <= deck_count(c));
    }
}

/// Cards of one deck have room for at most fourteen bombs and rockets.
pub proof fn lemma_doublings_of_deck(cards: Seq<Card>)
    requires
        within_deck(cards),
    ensures
        doublings(cards) <= 14,
        two_pow(doublings(cards)) <= MAX_FACTOR,
{
    lemma_quads_of_deck(cards, RANKS as nat);
    lemma_two_pow_grows(doublings(cards), 14);
    lemma_two_pow_14();
}

/// What a bomb and the rocket are made of: a bomb holds its card four
/// times, the rocket each joker once.
pub proof fn lemma_bomb_cards(cards: Seq<Card>)
    requires
        cards.len() <= u32::MAX,
    ensures
        classify(cards) matches Rule::Bomb(b) ==> count_of(cards, b.card) == 4,
        classify(cards) is Rocket ==> count_of(cards, Card::CardGhost) == 1 && count_of(
            cards,
            Card::CardKing,
        ) == 1,
        classify(cards).priority() > 0 ==> classify(cards) is Bomb || classify(cards) is Rocket,
{
    let gs = group_seq(cards);
    lemma_group_seq(cards);
    if classify(cards) is Bomb {
        lemma_groups_count_at(gs, 0);
    }
    if classify(cards) is Rocket {
        assert(groups_total(gs) == 2);
        if gs.len() == 1 {
            assert(groups_total(gs.drop_last()) == 0);
        }
        assert(gs.len() >= 1);
        if gs.len() >= 3 {
            lemma_groups_total_take(gs, 3);
            let t = gs.take(3);
            assert(t.drop_last().drop_last().drop_last() =~= Seq::<CardGroup>::empty());
            assert(t[0].count > 0 && t[1].count > 0 && t[2].count > 0) by {
                assert(gs[0].count > 0 && gs[1].count > 0 && gs[2].count > 0);
            }
            reveal_with_fuel(groups_total, 4);
            assert(groups_total(t) >= 3);
        }
        assert(gs.len() == 2);
        assert(gs[0].card.rank() < gs[1].card.rank());
        assert(gs[0].card == Card::CardGhost || gs[0].card == Card::CardKing);
        assert(gs[1].card == Card::CardGhost || gs[1].card == Card::CardKing);
        assert(gs[0].card == Card::CardGhost && gs[1].card == Card::CardKing);
        assert(gs.drop_last().drop_last() =~= Seq::<CardGroup>::empty());
        reveal_with_fuel(groups_total, 3);
        assert(groups_total(gs) == gs[0].count + gs[1].count);
        assert(gs[0].count > 0 && gs[1].count > 0);
        lemma_groups_count_at(gs, 0);
        lemma_groups_count_at(gs, 1);
    }
}

/// Laying cards onto a pile never lowers the bound on the factor, and a bomb
/// or the rocket raises it by one doubling: where the pile with the cards is
/// still within one deck and the factor was within the bound of the pile,
/// the factor after the play is within the bound of the new pile, and was
/// not cut off.
pub proof fn lemma_factor_step(pile: Seq<Card>, cards: Seq<Card>, factor: u32)
    requires
        cards.len() <= u32::MAX,
        within_deck(pile + cards),
        factor <= two_pow(doublings(pile)),
    ensures
        factor <= two_pow(doublings(pile + cards)),
        classify(cards).priority() > 0 ==> 2 * factor <= two_pow(doublings(pile + cards)),
        two_pow(doublings(pile + cards)) <= MAX_FACTOR,
{
    let after = pile + cards;
    assert forall|c: Card| #[trigger] count_of(pile, c) <= count_of(after, c) by {
        lemma_count_concat(pile, cards, c);
    }
    lemma_quads_grow(pile, after, RANKS as nat);
    lemma_two_pow_grows(doublings(pile), doublings(after));
    lemma_doublings_of_deck(after);
    lemma_bomb_cards(cards);
    if classify(cards).priority() > 0 {
        match classify(cards) {
            Rule::Bomb(b) => {
                lemma_count_concat(pile, cards, b.card);
                assert(count_of(after, b.card) <= deck_count(b.card));
                rank_round_trip(b.card, 0);
                lemma_quads_step(pile, after, b.card, RANKS as nat);
            },
            _ => {
                lemma_count_concat(pile, cards, Card::CardGhost);
                lemma_count_concat(pile, cards, Card::CardKing);
                assert(count_of(after, Card::CardGhost) <= deck_count(Card::CardGhost));
                assert(count_of(after, Card::CardKing) <= deck_count(Card::CardKing));
            },
        }
        assert(doublings(pile) + 1 <= doublings(after));
        lemma_two_pow_grows(doublings(pile) + 1, doublings(after));
    }
}

} // verus!
