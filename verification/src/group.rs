//! Grouping a list of cards by rank, and the multiset arithmetic on groups.
use crate::card::{rank_round_trip, Card, RANKS};
use vstd::prelude::*;
use vstd::std_specs::cmp::PartialEqSpecImpl;

verus! {

/// A rank together with how many cards of it are held. Two groups are equal
/// where they are of the same card, whatever their counts.
#[derive(Clone, Copy, Debug, Eq)]
pub struct CardGroup {
    pub card: Card,
    pub count: u32,
}

impl PartialEq for CardGroup {
    fn eq(&self, other: &CardGroup) -> (b: bool) {
        self.card == other.card
    }
}

impl PartialEqSpecImpl for CardGroup {
    open spec fn obeys_eq_spec() -> bool {
        true
    }

    open spec fn eq_spec(&self, other: &CardGroup) -> bool {
        self.card == other.card
    }
}

impl Default for CardGroup {
    /// An empty group of the sentinel.
    fn default() -> (g: CardGroup)
        ensures
            g.card == Card::Unknown,
            g.count == 0,
    {
        CardGroup { card: Card::Unknown, count: 0 }
    }
}

/// The groups of a card list, one per rank that occurs, lowest rank first.
#[derive(Clone, Debug)]
pub struct CardGroups {
    pub groups: Vec<CardGroup>,
}

/// How often `c` occurs in `cards`.
pub open spec fn count_of(cards: Seq<Card>, c: Card) -> nat
    decreases cards.len(),
{
    if cards.len() == 0 {
        0
    } else {
        count_of(cards.drop_last(), c) + if cards.last() == c {
            1nat
        } else {
            0nat
        }
    }
}

/// `n` copies of one card.
pub open spec fn repeat(card: Card, n: nat) -> Seq<Card> {
    Seq::new(n, |i: int| card)
}

/// How many cards of `c` the groups hold, all groups of that card together.
pub open spec fn groups_count(gs: Seq<CardGroup>, c: Card) -> nat
    decreases gs.len(),
{
    if gs.len() == 0 {
        0
    } else {
        groups_count(gs.drop_last(), c) + if gs.last().card == c {
            gs.last().count as nat
        } else {
            0nat
        }
    }
}

/// How many cards the groups hold in all.
pub open spec fn groups_total(gs: Seq<CardGroup>) -> nat
    decreases gs.len(),
{
    if gs.len() == 0 {
        0
    } else {
        groups_total(gs.drop_last()) + gs.last().count as nat
    }
}

/// The cards that the groups stand for, group after group.
pub open spec fn flatten(gs: Seq<CardGroup>) -> Seq<Card>
    decreases gs.len(),
{
    if gs.len() == 0 {
        Seq::empty()
    } else {
        flatten(gs.drop_last()) + repeat(gs.last().card, gs.last().count as nat)
    }
}

/// Validity of a group list: no empty group, ranks strictly ascending (so no
/// rank twice).
pub open spec fn groups_wf(gs: Seq<CardGroup>) -> bool {
    &&& forall|i: int| 0 <= i < gs.len() ==> (#[trigger] gs[i]).count > 0
    &&& forall|i: int, j: int|
        0 <= i < j < gs.len() ==> (#[trigger] gs[i]).card.rank() < (#[trigger] gs[j]).card.rank()
}

/// A card list in ascending rank order.
pub open spec fn cards_sorted(cards: Seq<Card>) -> bool {
    forall|i: int, j: int|
        0 <= i <= j < cards.len() ==> (#[trigger] cards[i]).rank() <= (#[trigger] cards[j]).rank()
}

/// Counts by rank index: entry `r` is the number of cards of rank `r`.
pub open spec fn tally(cards: Seq<Card>) -> Seq<nat> {
    Seq::new(RANKS as nat, |r: int| count_of(cards, Card::of_rank(r as nat)))
}

/// Counts by rank index of a group list.
pub open spec fn groups_tally(gs: Seq<CardGroup>) -> Seq<nat> {
    Seq::new(RANKS as nat, |r: int| groups_count(gs, Card::of_rank(r as nat)))
}

/// The groups for the rank indices below `n`, read off a table of counts.
pub open spec fn groups_from_counts(counts: Seq<nat>, n: nat) -> Seq<CardGroup>
    decreases n,
{
    if n == 0 {
        Seq::empty()
    } else {
        let rest = groups_from_counts(counts, (n - 1) as nat);
        if counts[n - 1] > 0 {
            rest.push(CardGroup { card: Card::of_rank((n - 1) as nat), count: counts[n - 1] as u32 })
        } else {
            rest
        }
    }
}

/// The sum of the first `n` entries of a table of counts.
pub open spec fn counts_sum(counts: Seq<nat>, n: nat) -> nat
    decreases n,
{
    if n == 0 {
        0
    } else {
        counts_sum(counts, (n - 1) as nat) + counts[n - 1]
    }
}

/// The groups of a card list.
pub open spec fn group_seq(cards: Seq<Card>) -> Seq<CardGroup> {
    groups_from_counts(tally(cards), RANKS as nat)
}

/// Appending a card raises its own count by one and no other.
pub proof fn lemma_count_push(cards: Seq<Card>, x: Card, c: Card)
    ensures
        count_of(cards.push(x), c) == count_of(cards, c) + if x == c {
            1nat
        } else {
            0nat
        },
{
    assert(cards.push(x).drop_last() =~= cards);
}

/// No card occurs more often than the list is long.
pub proof fn lemma_count_le_len(cards: Seq<Card>, c: Card)
    ensures
        count_of(cards, c) <= cards.len(),
    decreases cards.len(),
{
    if cards.len() > 0 {
        lemma_count_le_len(cards.drop_last(), c);
    }
}

/// Counting in a concatenation adds the counts of its parts.
pub proof fn lemma_count_concat(a: Seq<Card>, b: Seq<Card>, c: Card)
    ensures
        count_of(a + b, c) == count_of(a, c) + count_of(b, c),
    decreases b.len(),
{
    if b.len() == 0 {
        assert(a + b =~= a);
    } else {
        assert((a + b).drop_last() =~= a + b.drop_last());
        lemma_count_concat(a, b.drop_last(), c);
    }
}

/// A run of one card holds that card `n` times and nothing else.
pub proof fn lemma_count_repeat(card: Card, n: nat, c: Card)
    ensures
        count_of(repeat(card, n), c) == if card == c {
            n
        } else {
            0
        },
    decreases n,
{
    if n > 0 {
        assert(repeat(card, n).drop_last() =~= repeat(card, (n - 1) as nat));
        lemma_count_repeat(card, (n - 1) as nat, c);
    }
}

/// The count of this crate's own definition is the multiplicity in the
/// list's multiset.
pub proof fn lemma_count_is_multiplicity(cards: Seq<Card>, c: Card)
    ensures
        count_of(cards, c) == cards.to_multiset().count(c),
    decreases cards.len(),
{
    broadcast use vstd::seq_lib::group_to_multiset_ensures;

    if cards.len() == 0 {
        assert(cards.to_multiset().len() == 0);
    } else {
        let front = cards.drop_last();
        lemma_count_is_multiplicity(front, c);
        assert(front.push(cards.last()) =~= cards);
        assert(cards.to_multiset() =~= front.to_multiset().insert(cards.last()));
    }
}

/// A table of counts as exact numbers.
pub open spec fn table(arr: Seq<u32>) -> Seq<nat> {
    Seq::new(arr.len(), |r: int| arr[r] as nat)
}

/// The first group with `count` cards, if there is one.
pub open spec fn find_count(gs: Seq<CardGroup>, count: u32) -> Option<CardGroup>
    decreases gs.len(),
{
    if gs.len() == 0 {
        None
    } else {
        match find_count(gs.drop_last(), count) {
            Some(g) => Some(g),
            None => if gs.last().count == count {
                Some(gs.last())
            } else {
                None
            },
        }
    }
}

/// The first group of card `c`, if there is one.
pub open spec fn find_card(gs: Seq<CardGroup>, c: Card) -> Option<CardGroup>
    decreases gs.len(),
{
    if gs.len() == 0 {
        None
    } else {
        match find_card(gs.drop_last(), c) {
            Some(g) => Some(g),
            None => if gs.last().card == c {
                Some(gs.last())
            } else {
                None
            },
        }
    }
}

/// `find_count` answers with a group of the list that has the count asked
/// for and stands before every other such group; it answers `None` only
/// where no group has that count.
pub proof fn lemma_find_count(gs: Seq<CardGroup>, count: u32)
    ensures
        match find_count(gs, count) {
            Some(g) => exists|i: int|
                0 <= i < gs.len() && gs[i] == g && g.count == count && forall|j: int|
                    0 <= j < i ==> (#[trigger] gs[j]).count != count,
            None => forall|j: int| 0 <= j < gs.len() ==> (#[trigger] gs[j]).count != count,
        },
    decreases gs.len(),
{
    if gs.len() > 0 {
        let front = gs.drop_last();
        lemma_find_count(front, count);
        match find_count(front, count) {
            Some(g) => {
                let i = choose|i: int|
                    0 <= i < front.len() && front[i] == g && g.count == count && forall|j: int|
                        0 <= j < i ==> (#[trigger] front[j]).count != count;
                assert(gs[i] == g);
                assert forall|j: int| 0 <= j < i implies (#[trigger] gs[j]).count != count by {
                    assert(front[j].count != count);
                }
            },
            None => {
                assert forall|j: int| 0 <= j < gs.len() - 1 implies (#[trigger] gs[j]).count
                    != count by {
                    assert(front[j].count != count);
                }
                if gs.last().count == count {
                    assert(gs[gs.len() - 1] == gs.last());
                }
            },
        }
    }
}

/// `find_card` answers with a group of the list that is of the card asked
/// for and stands before every other such group; it answers `None` only
/// where no group is of that card.
pub proof fn lemma_find_card(gs: Seq<CardGroup>, c: Card)
    ensures
        match find_card(gs, c) {
            Some(g) => exists|i: int|
                0 <= i < gs.len() && gs[i] == g && g.card == c && forall|j: int|
                    0 <= j < i ==> (#[trigger] gs[j]).card != c,
            None => forall|j: int| 0 <= j < gs.len() ==> (#[trigger] gs[j]).card != c,
        },
    decreases gs.len(),
{
    if gs.len() > 0 {
        let front = gs.drop_last();
        lemma_find_card(front, c);
        match find_card(front, c) {
            Some(g) => {
                let i = choose|i: int|
                    0 <= i < front.len() && front[i] == g && g.card == c && forall|j: int|
                        0 <= j < i ==> (#[trigger] front[j]).card != c;
                assert(gs[i] == g);
                assert forall|j: int| 0 <= j < i implies (#[trigger] gs[j]).card != c by {
                    assert(front[j].card != c);
                }
            },
            None => {
                assert forall|j: int| 0 <= j < gs.len() - 1 implies (#[trigger] gs[j]).card
                    != c by {
                    assert(front[j].card != c);
                }
                if gs.last().card == c {
                    assert(gs[gs.len() - 1] == gs.last());
                }
            },
        }
    }
}

/// Groups of other cards hold none of `c`.
pub proof fn lemma_groups_count_absent(gs: Seq<CardGroup>, c: Card)
    requires
        forall|i: int| 0 <= i < gs.len() ==> (#[trigger] gs[i]).card != c,
    ensures
        groups_count(gs, c) == 0,
    decreases gs.len(),
{
    if gs.len() > 0 {
        let front = gs.drop_last();
        assert forall|i: int| 0 <= i < front.len() implies (#[trigger] front[i]).card != c by {
            assert(gs[i].card != c);
        }
        lemma_groups_count_absent(front, c);
        assert(gs[gs.len() - 1].card != c);
    }
}

/// A prefix of a valid group list is valid.
pub proof fn lemma_wf_take(gs: Seq<CardGroup>, n: int)
    requires
        groups_wf(gs),
        0 <= n <= gs.len(),
    ensures
        groups_wf(gs.take(n)),
{
    let t = gs.take(n);
    assert forall|i: int| 0 <= i < t.len() implies (#[trigger] t[i]).count > 0 by {
        assert(gs[i].count > 0);
    }
    assert forall|i: int, j: int| 0 <= i < j < t.len() implies (#[trigger] t[i]).card.rank() < (
    #[trigger] t[j]).card.rank() by {
        assert(gs[i].card.rank() < gs[j].card.rank());
    }
}

/// In a valid group list the one group of a card holds all cards of it.
pub proof fn lemma_groups_count_at(gs: Seq<CardGroup>, i: int)
    requires
        groups_wf(gs),
        0 <= i < gs.len(),
    ensures
        groups_count(gs, gs[i].card) == gs[i].count,
        groups_count(gs.take(i), gs[i].card) == 0,
    decreases gs.len(),
{
    let c = gs[i].card;
    let front = gs.drop_last();
    assert(front =~= gs.take(gs.len() - 1));
    lemma_wf_take(gs, gs.len() - 1);
    let before = gs.take(i);
    assert forall|k: int| 0 <= k < before.len() implies (#[trigger] before[k]).card != c by {
        assert(gs[k].card.rank() < gs[i].card.rank());
    }
    lemma_groups_count_absent(before, c);
    if i == gs.len() - 1 {
        assert(before =~= front);
    } else {
        assert(gs[i].card.rank() < gs[gs.len() - 1].card.rank());
        lemma_groups_count_at(front, i);
        assert(front[i] == gs[i]);
    }
}

/// Appending a group adds its cards to the count of its own card only.
pub proof fn lemma_groups_count_push(gs: Seq<CardGroup>, g: CardGroup, c: Card)
    ensures
        groups_count(gs.push(g), c) == groups_count(gs, c) + if g.card == c {
            g.count as nat
        } else {
            0nat
        },
        groups_total(gs.push(g)) == groups_total(gs) + g.count,
        flatten(gs.push(g)) == flatten(gs) + repeat(g.card, g.count as nat),
{
    assert(gs.push(g).drop_last() =~= gs);
}

/// What the groups read off a table of counts hold: they are valid, hold of
/// each card what the table says, and in all the sum of the table.
pub proof fn lemma_groups_from_counts(counts: Seq<nat>, n: nat)
    requires
        counts.len() == RANKS,
        n <= RANKS,
        forall|r: int| 0 <= r < RANKS ==> counts[r] <= u32::MAX,
    ensures
        groups_wf(groups_from_counts(counts, n)),
        groups_from_counts(counts, n).len() <= n,
        forall|i: int|
            0 <= i < groups_from_counts(counts, n).len() ==> (#[trigger] groups_from_counts(
                counts,
                n,
            )[i]).card.rank() < n,
        forall|c: Card| #[trigger]
            groups_count(groups_from_counts(counts, n), c) == if c.rank() < n {
                counts[c.rank() as int]
            } else {
                0
            },
        groups_total(groups_from_counts(counts, n)) == counts_sum(counts, n),
    decreases n,
{
    if n > 0 {
        let m = (n - 1) as nat;
        let rest = groups_from_counts(counts, m);
        lemma_groups_from_counts(counts, m);
        let card = Card::of_rank(m);
        rank_round_trip(card, m);
        if counts[m as int] > 0 {
            let g = CardGroup { card, count: counts[m as int] as u32 };
            let gs = rest.push(g);
            assert(gs == groups_from_counts(counts, n));
            assert forall|i: int, j: int| 0 <= i < j < gs.len() implies (#[trigger] gs[i]).card.rank()
                < (#[trigger] gs[j]).card.rank() by {
                if j < rest.len() {
                    assert(rest[i].card.rank() < rest[j].card.rank());
                } else {
                    assert(rest[i].card.rank() < m);
                }
            }
            assert forall|i: int| 0 <= i < gs.len() implies (#[trigger] gs[i]).count > 0 by {
                if i < rest.len() {
                    assert(rest[i].count > 0);
                }
            }
            assert forall|i: int| 0 <= i < gs.len() implies (#[trigger] gs[i]).card.rank() < n by {
                if i < rest.len() {
                    assert(rest[i].card.rank() < m);
                }
            }
            assert forall|c: Card| #[trigger]
                groups_count(gs, c) == if c.rank() < n {
                    counts[c.rank() as int]
                } else {
                    0
                } by {
                lemma_groups_count_push(rest, g, c);
                rank_round_trip(c, 0);
            }
            lemma_groups_count_push(rest, g, card);
        } else {
            assert forall|c: Card| #[trigger]
                groups_count(rest, c) == if c.rank() < n {
                    counts[c.rank() as int]
                } else {
                    0
                } by {
                rank_round_trip(c, 0);
            }
        }
    }
}

/// Appending a card raises the sum of the tally's first `n` entries by one
/// where the card's rank index is below `n`, and leaves it otherwise.
pub proof fn lemma_tally_sum_push(cards: Seq<Card>, x: Card, n: nat)
    requires
        n <= RANKS,
    ensures
        counts_sum(tally(cards.push(x)), n) == counts_sum(tally(cards), n) + if x.rank() < n {
            1nat
        } else {
            0nat
        },
    decreases n,
{
    if n > 0 {
        let m = (n - 1) as nat;
        lemma_tally_sum_push(cards, x, m);
        lemma_count_push(cards, x, Card::of_rank(m));
        rank_round_trip(x, m);
    }
}

/// The tally of a card list sums to the list's length.
pub proof fn lemma_tally_sum(cards: Seq<Card>)
    ensures
        counts_sum(tally(cards), RANKS as nat) == cards.len(),
    decreases cards.len(),
{
    if cards.len() == 0 {
        lemma_counts_sum_zero(tally(cards), RANKS as nat);
    } else {
        let front = cards.drop_last();
        lemma_tally_sum(front);
        assert(front.push(cards.last()) =~= cards);
        lemma_tally_sum_push(front, cards.last(), RANKS as nat);
        rank_round_trip(cards.last(), 0);
    }
}

/// A table of zeros sums to zero.
pub proof fn lemma_counts_sum_zero(counts: Seq<nat>, n: nat)
    requires
        n <= counts.len(),
        forall|r: int| 0 <= r < counts.len() ==> counts[r] == 0,
    ensures
        counts_sum(counts, n) == 0,
    decreases n,
{
    if n > 0 {
        lemma_counts_sum_zero(counts, (n - 1) as nat);
    }
}

/// The groups of a card list are valid, hold each card as often as the list
/// does, and hold as many cards as the list is long.
pub proof fn lemma_group_seq(cards: Seq<Card>)
    requires
        cards.len() <= u32::MAX,
    ensures
        groups_wf(group_seq(cards)),
        group_seq(cards).len() <= RANKS,
        forall|c: Card| #[trigger] groups_count(group_seq(cards), c) == count_of(cards, c),
        groups_total(group_seq(cards)) == cards.len(),
{
    let t = tally(cards);
    assert forall|r: int| 0 <= r < RANKS implies t[r] <= u32::MAX by {
        lemma_count_le_len(cards, Card::of_rank(r as nat));
    }
    lemma_groups_from_counts(t, RANKS as nat);
    lemma_tally_sum(cards);
    assert forall|c: Card| #[trigger] groups_count(group_seq(cards), c) == count_of(cards, c) by {
        rank_round_trip(c, 0);
    }
}

/// Flattening keeps every count: the flat list holds each card as often as
/// the groups do.
pub proof fn lemma_flatten_count(gs: Seq<CardGroup>, c: Card)
    ensures
        count_of(flatten(gs), c) == groups_count(gs, c),
        flatten(gs).len() == groups_total(gs),
    decreases gs.len(),
{
    if gs.len() > 0 {
        let front = gs.drop_last();
        lemma_flatten_count(front, c);
        lemma_count_concat(flatten(front), repeat(gs.last().card, gs.last().count as nat), c);
        lemma_count_repeat(gs.last().card, gs.last().count as nat, c);
    }
}

/// Every card of the flat list is the card of one of the groups.
pub proof fn lemma_flatten_member(gs: Seq<CardGroup>, k: int)
    requires
        0 <= k < flatten(gs).len(),
    ensures
        exists|i: int| 0 <= i < gs.len() && (#[trigger] gs[i]).card == flatten(gs)[k],
    decreases gs.len(),
{
    if gs.len() > 0 {
        let front = gs.drop_last();
        if k < flatten(front).len() {
            lemma_flatten_member(front, k);
            let i = choose|i: int| 0 <= i < front.len() && (#[trigger] front[i]).card == flatten(front)[k];
            assert(gs[i].card == flatten(gs)[k]);
        } else {
            assert(gs[gs.len() - 1].card == flatten(gs)[k]);
        }
    }
}

/// The flat list of a valid group list is in ascending rank order.
pub proof fn lemma_flatten_sorted(gs: Seq<CardGroup>)
    requires
        groups_wf(gs),
    ensures
        cards_sorted(flatten(gs)),
    decreases gs.len(),
{
    if gs.len() > 0 {
        let front = gs.drop_last();
        assert(front =~= gs.take(gs.len() - 1));
        lemma_wf_take(gs, gs.len() - 1);
        lemma_flatten_sorted(front);
        let f = flatten(gs);
        let ff = flatten(front);
        assert forall|i: int, j: int| 0 <= i <= j < f.len() implies (#[trigger] f[i]).rank() <= (
        #[trigger] f[j]).rank() by {
            if j < ff.len() {
                assert(ff[i].rank() <= ff[j].rank());
            } else if i < ff.len() {
                lemma_flatten_member(front, i);
                let k = choose|k: int| 0 <= k < front.len() && (#[trigger] front[k]).card == ff[i];
                assert(gs[k].card.rank() < gs[gs.len() - 1].card.rank());
            }
        }
    }
}

impl View for CardGroups {
    type V = Seq<CardGroup>;

    open spec fn view(&self) -> Seq<CardGroup> {
        self.groups@
    }
}

impl CardGroup {
    /// The group as single cards.
    pub fn into_cards(self) -> (cards: Vec<Card>)
        ensures
            cards@ == repeat(self.card, self.count as nat),
    {
        let mut cards: Vec<Card> = Vec::new();
        let mut i: u32 = 0;
        while i < self.count
            invariant
                i <= self.count,
                cards@ == repeat(self.card, i as nat),
            decreases self.count - i,
        {
            cards.push(self.card);
            i += 1;
            assert(cards@ =~= repeat(self.card, i as nat));
        }
        cards
    }
}

/// Counts the cards of a list by rank index.
fn tally_cards(cards: &[Card]) -> (arr: Vec<u32>)
    requires
        cards@.len() <= u32::MAX,
    ensures
        arr.len() == RANKS,
        table(arr@) == tally(cards@),
{
    let mut arr: Vec<u32> = Vec::new();
    let mut k: usize = 0;
    while k < RANKS
        invariant
            k <= RANKS,
            arr.len() == k,
            forall|r: int| 0 <= r < k ==> arr[r] == 0,
        decreases RANKS - k,
    {
        arr.push(0);
        k += 1;
    }
    let mut i: usize = 0;
    while i < cards.len()
        invariant
            i <= cards.len(),
            cards@.len() <= u32::MAX,
            arr.len() == RANKS,
            forall|r: int|
                0 <= r < RANKS ==> #[trigger] arr[r] == count_of(
                    cards@.take(i as int),
                    Card::of_rank(r as nat),
                ),
        decreases cards.len() - i,
    {
        let card = cards[i];
        let idx = card.value() as usize;
        proof {
            rank_round_trip(card, 0);
            lemma_count_le_len(cards@.take(i as int), card);
            assert(cards@.take(i + 1) =~= cards@.take(i as int).push(card));
            assert forall|r: int| 0 <= r < RANKS implies count_of(
                cards@.take(i + 1),
                Card::of_rank(r as nat),
            ) == arr[r] + if r == idx {
                1nat
            } else {
                0nat
            } by {
                lemma_count_push(cards@.take(i as int), card, Card::of_rank(r as nat));
                rank_round_trip(card, r as nat);
            }
        }
        let old_count = arr[idx];
        arr.set(idx, old_count + 1);
        i += 1;
    }
    proof {
        assert(cards@.take(cards@.len() as int) =~= cards@);
        assert(table(arr@) =~= tally(cards@));
    }
    arr
}

/// Reads the groups off a table of counts by rank index.
pub(crate) fn groups_from_table(arr: &Vec<u32>) -> (groups: CardGroups)
    requires
        arr.len() == RANKS,
    ensures
        groups@ == groups_from_counts(table(arr@), RANKS as nat),
{
    let mut groups: Vec<CardGroup> = Vec::new();
    let mut i: u32 = 0;
    while i < 16
        invariant
            i <= 16,
            arr.len() == RANKS,
            groups@ == groups_from_counts(table(arr@), i as nat),
        decreases 16 - i,
    {
        let count = arr[i as usize];
        if count > 0 {
            groups.push(CardGroup { card: Card::from_value(i), count });
        }
        i += 1;
    }
    CardGroups { groups }
}

/// Groups a card list by rank: one group per rank that occurs, lowest rank
/// first, each with the number of cards of that rank.
pub fn to_card_groups(vec: &[Card]) -> (r: CardGroups)
    requires
        vec@.len() <= u32::MAX,
    ensures
        r@ == group_seq(vec@),
        groups_wf(r@),
        r@.len() <= RANKS,
        forall|c: Card| #[trigger] groups_count(r@, c) == count_of(vec@, c),
        groups_total(r@) == vec@.len(),
{
    let arr = tally_cards(vec);
    proof {
        lemma_group_seq(vec@);
    }
    groups_from_table(&arr)
}

/// A prefix of a group list holds no more cards than the whole.
pub proof fn lemma_groups_total_take(gs: Seq<CardGroup>, n: int)
    requires
        0 <= n <= gs.len(),
    ensures
        groups_total(gs.take(n)) <= groups_total(gs),
    decreases gs.len() - n,
{
    if n == gs.len() {
        assert(gs.take(n) =~= gs);
    } else {
        lemma_groups_total_take(gs, n + 1);
        assert(gs.take(n + 1).drop_last() =~= gs.take(n));
    }
}

/// What is found in a prefix is what is found in the whole list.
pub proof fn lemma_find_prefix(gs: Seq<CardGroup>, n: int, count: u32, c: Card)
    requires
        0 <= n <= gs.len(),
    ensures
        find_count(gs.take(n), count).is_some() ==> find_count(gs, count) == find_count(
            gs.take(n),
            count,
        ),
        find_card(gs.take(n), c).is_some() ==> find_card(gs, c) == find_card(gs.take(n), c),
    decreases gs.len() - n,
{
    if n == gs.len() {
        assert(gs.take(n) =~= gs);
    } else {
        lemma_find_prefix(gs, n + 1, count, c);
        assert(gs.take(n + 1).drop_last() =~= gs.take(n));
    }
}

/// In a valid group list the group found for a card holds all cards of it,
/// and no group is found exactly where the list holds none of the card.
pub proof fn lemma_find_card_count(gs: Seq<CardGroup>, c: Card)
    requires
        groups_wf(gs),
    ensures
        match find_card(gs, c) {
            Some(g) => g.card == c && g.count == groups_count(gs, c) && g.count > 0,
            None => groups_count(gs, c) == 0,
        },
{
    lemma_find_card(gs, c);
    match find_card(gs, c) {
        Some(g) => {
            let i = choose|i: int|
                0 <= i < gs.len() && gs[i] == g && g.card == c && forall|j: int|
                    0 <= j < i ==> (#[trigger] gs[j]).card != c;
            lemma_groups_count_at(gs, i);
        },
        None => {
            lemma_groups_count_absent(gs, c);
        },
    }
}

impl CardGroups {
    /// Validity: no empty group, ranks strictly ascending.
    pub open spec fn wf(&self) -> bool {
        groups_wf(self@)
    }

    /// The number of groups, that is of distinct ranks.
    pub fn type_len(&self) -> (n: usize)
        ensures
            n == self@.len(),
    {
        self.groups.len()
    }

    /// The number of cards in all groups together.
    pub fn card_len(&self) -> (n: usize)
        requires
            groups_total(self@) <= u32::MAX,
        ensures
            n == groups_total(self@),
    {
        let mut size: u32 = 0;
        let mut i: usize = 0;
        while i < self.groups.len()
            invariant
                i <= self.groups.len(),
                groups_total(self@) <= u32::MAX,
                size == groups_total(self@.take(i as int)),
            decreases self.groups.len() - i,
        {
            proof {
                lemma_groups_total_take(self@, i + 1);
                assert(self@.take(i + 1).drop_last() =~= self@.take(i as int));
            }
            size += self.groups[i].count;
            i += 1;
        }
        proof {
            assert(self@.take(self@.len() as int) =~= self@);
        }
        size as usize
    }

    /// The first group that holds exactly `count` cards.
    pub fn find_group_by_count(&self, count: u32) -> (r: Option<&CardGroup>)
        ensures
            match r {
                Some(g) => find_count(self@, count) == Some(*g),
                None => find_count(self@, count).is_none(),
            },
    {
        let mut i: usize = 0;
        while i < self.groups.len()
            invariant
                i <= self.groups.len(),
                find_count(self@.take(i as int), count).is_none(),
            decreases self.groups.len() - i,
        {
            proof {
                assert(self@.take(i + 1).drop_last() =~= self@.take(i as int));
            }
            if self.groups[i].count == count {
                proof {
                    lemma_find_prefix(self@, i + 1, count, Card::Unknown);
                }
                return Some(&self.groups[i]);
            }
            i += 1;
        }
        proof {
            assert(self@.take(self@.len() as int) =~= self@);
        }
        None
    }

    /// The first group of card `card`.
    pub fn find_group_by_card(&self, card: Card) -> (r: Option<&CardGroup>)
        ensures
            match r {
                Some(g) => find_card(self@, card) == Some(*g),
                None => find_card(self@, card).is_none(),
            },
    {
        let mut i: usize = 0;
        while i < self.groups.len()
            invariant
                i <= self.groups.len(),
                find_card(self@.take(i as int), card).is_none(),
            decreases self.groups.len() - i,
        {
            proof {
                assert(self@.take(i + 1).drop_last() =~= self@.take(i as int));
            }
            if self.groups[i].card == card {
                proof {
                    lemma_find_prefix(self@, i + 1, 0, card);
                }
                return Some(&self.groups[i]);
            }
            i += 1;
        }
        proof {
            assert(self@.take(self@.len() as int) =~= self@);
        }
        None
    }

    /// Whether some group holds exactly `count` cards.
    pub fn has_group(&self, count: u32) -> (b: bool)
        ensures
            b <==> exists|i: int| 0 <= i < self@.len() && (#[trigger] self@[i]).count == count,
            b == find_count(self@, count).is_some(),
    {
        proof {
            lemma_find_count(self@, count);
        }
        self.find_group_by_count(count).is_some()
    }

    /// Whether there is one group only, and it holds exactly `count` cards.
    pub fn only_has_group(&self, count: u32) -> (b: bool)
        ensures
            b == (self@.len() == 1 && self@[0].count == count),
    {
        self.groups.len() == 1 && self.groups[0].count == count
    }

    /// The groups as single cards, group after group. For a valid group list
    /// the cards come out in ascending rank order.
    pub fn into_cards(self) -> (cards: Vec<Card>)
        ensures
            cards@ == flatten(self@),
            cards@.len() == groups_total(self@),
            forall|c: Card| #[trigger] count_of(cards@, c) == groups_count(self@, c),
            groups_wf(self@) ==> cards_sorted(cards@),
    {
        let mut cards: Vec<Card> = Vec::new();
        let mut i: usize = 0;
        while i < self.groups.len()
            invariant
                i <= self.groups.len(),
                cards@ == flatten(self@.take(i as int)),
            decreases self.groups.len() - i,
        {
            let g = self.groups[i];
            let mut j: u32 = 0;
            while j < g.count
                invariant
                    j <= g.count,
                    cards@ == flatten(self@.take(i as int)) + repeat(g.card, j as nat),
                decreases g.count - j,
            {
                cards.push(g.card);
                j += 1;
                assert(cards@ =~= flatten(self@.take(i as int)) + repeat(g.card, j as nat));
            }
            proof {
                assert(self@.take(i + 1).drop_last() =~= self@.take(i as int));
            }
            i += 1;
        }
        proof {
            assert(self@.take(self@.len() as int) =~= self@);
            assert forall|c: Card| #[trigger] count_of(cards@, c) == groups_count(self@, c) by {
                lemma_flatten_count(self@, c);
            }
            lemma_flatten_count(self@, Card::Unknown);
            if groups_wf(self@) {
                lemma_flatten_sorted(self@);
            }
        }
        cards
    }
}

/// Whether `a` holds of every card at least as many as `b`.
pub open spec fn groups_cover(a: Seq<CardGroup>, b: Seq<CardGroup>) -> bool {
    forall|c: Card| groups_count(b, c) <= #[trigger] groups_count(a, c)
}

/// What is left of `a` when the cards of `b` are taken out of it; nothing
/// where `a` does not hold them all.
pub open spec fn groups_sub(a: Seq<CardGroup>, b: Seq<CardGroup>) -> Option<Seq<CardGroup>> {
    if groups_cover(a, b) {
        Some(
            groups_from_counts(
                Seq::new(
                    RANKS as nat,
                    |r: int| (groups_tally(a)[r] - groups_tally(b)[r]) as nat,
                ),
                RANKS as nat,
            ),
        )
    } else {
        None
    }
}

/// Counts the cards of a valid group list by rank index.
fn tally_groups(gs: &Vec<CardGroup>) -> (arr: Vec<u32>)
    requires
        groups_wf(gs@),
    ensures
        arr.len() == RANKS,
        table(arr@) == groups_tally(gs@),
{
    let mut arr: Vec<u32> = Vec::new();
    let mut k: usize = 0;
    while k < RANKS
        invariant
            k <= RANKS,
            arr.len() == k,
            forall|r: int| 0 <= r < k ==> arr[r] == 0,
        decreases RANKS - k,
    {
        arr.push(0);
        k += 1;
    }
    let mut i: usize = 0;
    while i < gs.len()
        invariant
            i <= gs.len(),
            groups_wf(gs@),
            arr.len() == RANKS,
            forall|r: int|
                0 <= r < RANKS ==> #[trigger] arr[r] == groups_count(
                    gs@.take(i as int),
                    Card::of_rank(r as nat),
                ),
        decreases gs.len() - i,
    {
        let g = gs[i];
        let idx = g.card.value() as usize;
        proof {
            rank_round_trip(g.card, 0);
            lemma_groups_count_at(gs@, i as int);
            assert(gs@.take(i + 1) =~= gs@.take(i as int).push(g));
            assert forall|r: int| 0 <= r < RANKS implies groups_count(
                gs@.take(i + 1),
                #[trigger] Card::of_rank(r as nat),
            ) == if r == idx {
                g.count as nat
            } else {
                arr[r] as nat
            } by {
                lemma_groups_count_push(gs@.take(i as int), g, Card::of_rank(r as nat));
                rank_round_trip(g.card, r as nat);
            }
        }
        arr.set(idx, g.count);
        i += 1;
    }
    proof {
        assert(gs@.take(gs@.len() as int) =~= gs@);
        assert(table(arr@) =~= groups_tally(gs@));
    }
    arr
}

impl CardGroups {
    /// Takes the cards of `rhs` out of `self`. There is no result where `rhs`
    /// holds more cards of some rank than `self` does; otherwise the result
    /// is the valid group list that holds of every card what is left.
    pub fn sub(self, rhs: CardGroups) -> (r: Option<CardGroups>)
        requires
            groups_wf(self@),
            groups_wf(rhs@),
        ensures
            match r {
                Some(d) => groups_sub(self@, rhs@) == Some(d@),
                None => groups_sub(self@, rhs@).is_none(),
            },
            r.is_none() <==> exists|c: Card|
                groups_count(rhs@, c) > #[trigger] groups_count(self@, c),
            r matches Some(d) ==> {
                &&& groups_wf(d@)
                &&& forall|c: Card| #[trigger]
                    groups_count(d@, c) == groups_count(self@, c) - groups_count(rhs@, c)
                &&& groups_total(d@) == groups_total(self@) - groups_total(rhs@)
            },
    {
        let have = tally_groups(&self.groups);
        let take = tally_groups(&rhs.groups);
        let mut left: Vec<u32> = Vec::new();
        let mut i: usize = 0;
        while i < RANKS
            invariant
                i <= RANKS,
                have.len() == RANKS,
                take.len() == RANKS,
                left.len() == i,
                table(have@) == groups_tally(self@),
                table(take@) == groups_tally(rhs@),
                forall|r: int| 0 <= r < i ==> #[trigger] left[r] == have[r] - take[r],
                forall|r: int| 0 <= r < i ==> take[r] <= have[r],
            decreases RANKS - i,
        {
            if have[i] < take[i] {
                proof {
                    let c = Card::of_rank(i as nat);
                    assert(groups_tally(rhs@)[i as int] == groups_count(rhs@, c));
                    assert(groups_tally(self@)[i as int] == groups_count(self@, c));
                    assert(table(take@)[i as int] == take[i as int]);
                    assert(table(have@)[i as int] == have[i as int]);
                    assert(groups_count(rhs@, c) > groups_count(self@, c));
                }
                return None;
            }
            left.push(have[i] - take[i]);
            i += 1;
        }
        let d = groups_from_table(&left);
        proof {
            let counts = table(left@);
            lemma_groups_from_counts(counts, RANKS as nat);
            assert forall|c: Card| #[trigger]
                groups_count(d@, c) == groups_count(self@, c) - groups_count(rhs@, c) by {
                rank_round_trip(c, 0);
                let r = c.rank() as int;
                assert(groups_tally(rhs@)[r] == groups_count(rhs@, c));
                assert(groups_tally(self@)[r] == groups_count(self@, c));
                assert(table(take@)[r] == take[r]);
                assert(table(have@)[r] == have[r]);
                assert(counts[r] == left[r]);
            }
            assert forall|c: Card| groups_count(rhs@, c) <= #[trigger] groups_count(self@, c) by {
                rank_round_trip(c, 0);
                let r = c.rank() as int;
                assert(groups_tally(rhs@)[r] == groups_count(rhs@, c));
                assert(groups_tally(self@)[r] == groups_count(self@, c));
                assert(table(take@)[r] == take[r]);
                assert(table(have@)[r] == have[r]);
            }
            assert(counts =~= Seq::new(
                RANKS as nat,
                |r: int| (groups_tally(self@)[r] - groups_tally(rhs@)[r]) as nat,
            )) by {
                assert forall|r: int| 0 <= r < RANKS implies #[trigger] counts[r] == (groups_tally(
                    self@,
                )[r] - groups_tally(rhs@)[r]) as nat by {
                    assert(table(take@)[r] == take[r]);
                    assert(table(have@)[r] == have[r]);
                    assert(counts[r] == left[r]);
                }
            }
            lemma_groups_tally_sum(self@);
            lemma_groups_tally_sum(rhs@);
            lemma_counts_sum_diff(table(have@), table(take@), counts, RANKS as nat);
        }
        Some(d)
    }
}

/// The sum of an entrywise difference is the difference of the sums.
pub proof fn lemma_counts_sum_diff(a: Seq<nat>, b: Seq<nat>, d: Seq<nat>, n: nat)
    requires
        n <= a.len(),
        a.len() == b.len(),
        a.len() == d.len(),
        forall|r: int| 0 <= r < a.len() ==> #[trigger] d[r] == a[r] - b[r],
    ensures
        counts_sum(d, n) == counts_sum(a, n) - counts_sum(b, n),
    decreases n,
{
    if n > 0 {
        lemma_counts_sum_diff(a, b, d, (n - 1) as nat);
        assert(d[n - 1] == a[n - 1] - b[n - 1]);
    }
}

/// Appending a group raises the sum of the tally's first `n` entries by the
/// group's count where the group's rank index is below `n`.
pub proof fn lemma_groups_tally_sum_push(gs: Seq<CardGroup>, g: CardGroup, n: nat)
    requires
        n <= RANKS,
    ensures
        counts_sum(groups_tally(gs.push(g)), n) == counts_sum(groups_tally(gs), n) + if g.card.rank()
            < n {
            g.count as nat
        } else {
            0nat
        },
    decreases n,
{
    if n > 0 {
        let m = (n - 1) as nat;
        lemma_groups_tally_sum_push(gs, g, m);
        lemma_groups_count_push(gs, g, Card::of_rank(m));
        rank_round_trip(g.card, m);
    }
}

/// The tally of a group list sums to the number of cards it holds.
pub proof fn lemma_groups_tally_sum(gs: Seq<CardGroup>)
    ensures
        counts_sum(groups_tally(gs), RANKS as nat) == groups_total(gs),
    decreases gs.len(),
{
    if gs.len() == 0 {
        lemma_counts_sum_zero(groups_tally(gs), RANKS as nat);
    } else {
        let front = gs.drop_last();
        lemma_groups_tally_sum(front);
        assert(front.push(gs.last()) =~= gs);
        lemma_groups_tally_sum_push(front, gs.last(), RANKS as nat);
        rank_round_trip(gs.last().card, 0);
    }
}

/// Grouping a card list and flattening the groups again gives a list that
/// holds every card exactly as often as the first one, in ascending rank
/// order.
pub proof fn group_then_flatten(cards: Seq<Card>)
    requires
        cards.len() <= u32::MAX,
    ensures
        flatten(group_seq(cards)).to_multiset() =~= cards.to_multiset(),
        forall|c: Card| #[trigger] count_of(flatten(group_seq(cards)), c) == count_of(cards, c),
        flatten(group_seq(cards)).len() == cards.len(),
        cards_sorted(flatten(group_seq(cards))),
{
    let gs = group_seq(cards);
    let flat = flatten(gs);
    lemma_group_seq(cards);
    lemma_flatten_sorted(gs);
    lemma_flatten_count(gs, Card::Unknown);
    assert forall|c: Card| #[trigger] count_of(flat, c) == count_of(cards, c) by {
        lemma_flatten_count(gs, c);
    }
    assert forall|c: Card| flat.to_multiset().count(c) == cards.to_multiset().count(c) by {
        lemma_count_is_multiplicity(flat, c);
        lemma_count_is_multiplicity(cards, c);
        assert(count_of(flat, c) == count_of(cards, c));
    }
}

/// Taking the groups of `played` out of the groups of `hand` fails exactly
/// where `played` holds some card more often than `hand` does.
pub proof fn subtract_fails_iff_short(hand: Seq<Card>, played: Seq<Card>)
    requires
        hand.len() <= u32::MAX,
        played.len() <= u32::MAX,
    ensures
        groups_sub(group_seq(hand), group_seq(played)).is_none() <==> exists|c: Card|
            count_of(played, c) > #[trigger] count_of(hand, c),
{
    let a = group_seq(hand);
    let b = group_seq(played);
    lemma_group_seq(hand);
    lemma_group_seq(played);
    if groups_cover(a, b) {
        assert forall|c: Card| count_of(played, c) <= #[trigger] count_of(hand, c) by {
            assert(groups_count(b, c) <= groups_count(a, c));
        }
    } else {
        let c = choose|c: Card| !(groups_count(b, c) <= #[trigger] groups_count(a, c));
        assert(count_of(played, c) > count_of(hand, c));
    }
}

/// Where the subtraction succeeds, what is left holds of every card the
/// difference of the two counts, and is a valid group list.
pub proof fn subtract_leaves_difference(a: Seq<CardGroup>, b: Seq<CardGroup>)
    requires
        groups_wf(a),
        groups_wf(b),
        groups_cover(a, b),
    ensures
        groups_sub(a, b) matches Some(d) && groups_wf(d) && (forall|c: Card| #[trigger]
            groups_count(d, c) == groups_count(a, c) - groups_count(b, c)) && groups_total(d)
            == groups_total(a) - groups_total(b),
{
    let diff = Seq::new(RANKS as nat, |r: int| (groups_tally(a)[r] - groups_tally(b)[r]) as nat);
    let d = groups_from_counts(diff, RANKS as nat);
    assert forall|r: int| 0 <= r < RANKS implies diff[r] <= u32::MAX && #[trigger] diff[r]
        == groups_tally(a)[r] - groups_tally(b)[r] by {
        let c = Card::of_rank(r as nat);
        assert(groups_count(b, c) <= groups_count(a, c));
        lemma_groups_count_le_max(a, c);
    }
    lemma_groups_from_counts(diff, RANKS as nat);
    assert forall|c: Card| #[trigger]
        groups_count(d, c) == groups_count(a, c) - groups_count(b, c) by {
        rank_round_trip(c, 0);
        assert(diff[c.rank() as int] == groups_tally(a)[c.rank() as int] - groups_tally(b)[c.rank() as int]);
    }
    lemma_groups_tally_sum(a);
    lemma_groups_tally_sum(b);
    lemma_counts_sum_diff(groups_tally(a), groups_tally(b), diff, RANKS as nat);
}

/// A valid group list holds of no card more than a group's counter can.
pub proof fn lemma_groups_count_le_max(gs: Seq<CardGroup>, c: Card)
    requires
        groups_wf(gs),
    ensures
        groups_count(gs, c) <= u32::MAX,
{
    lemma_find_card_count(gs, c);
}

/// In a valid group list each group's rank index is at least its position.
pub proof fn lemma_wf_rank_at(gs: Seq<CardGroup>, i: int)
    requires
        groups_wf(gs),
        0 <= i < gs.len(),
    ensures
        gs[i].card.rank() >= i,
    decreases i,
{
    if i > 0 {
        lemma_wf_rank_at(gs, i - 1);
        assert(gs[i - 1].card.rank() < gs[i].card.rank());
    }
}

/// A valid group list has at most one group per rank index.
pub proof fn lemma_wf_len(gs: Seq<CardGroup>)
    requires
        groups_wf(gs),
    ensures
        gs.len() <= RANKS,
{
    if gs.len() > 0 {
        lemma_wf_rank_at(gs, gs.len() - 1);
        rank_round_trip(gs[gs.len() - 1].card, 0);
    }
}

/// The cards of a list in ascending rank order.
pub open spec fn sorted(cards: Seq<Card>) -> Seq<Card> {
    flatten(group_seq(cards))
}

/// Sorts a card list into ascending rank order.
pub fn sort_cards(cards: &Vec<Card>) -> (r: Vec<Card>)
    requires
        cards@.len() <= u32::MAX,
    ensures
        r@ == sorted(cards@),
        cards_sorted(r@),
        r@.len() == cards@.len(),
        forall|c: Card| #[trigger] count_of(r@, c) == count_of(cards@, c),
{
    proof {
        group_then_flatten(cards@);
    }
    to_card_groups(cards.as_slice()).into_cards()
}

/// The cards of a list from position `from` up to but without `to`.
pub fn copy_range(cards: &Vec<Card>, from: usize, to: usize) -> (r: Vec<Card>)
    requires
        from <= to <= cards@.len(),
    ensures
        r@ == cards@.subrange(from as int, to as int),
{
    let mut r: Vec<Card> = Vec::new();
    let mut i: usize = from;
    while i < to
        invariant
            from <= i <= to,
            to <= cards@.len(),
            r@ == cards@.subrange(from as int, i as int),
        decreases to - i,
    {
        r.push(cards[i]);
        i += 1;
        assert(r@ =~= cards@.subrange(from as int, i as int));
    }
    r
}

/// Counting in a concatenation of four lists adds the four counts.
pub proof fn lemma_count_concat4(a: Seq<Card>, b: Seq<Card>, c: Seq<Card>, d: Seq<Card>, x: Card)
    ensures
        count_of(a + b + c + d, x) == count_of(a, x) + count_of(b, x) + count_of(c, x) + count_of(
            d,
            x,
        ),
        (a + b + c + d).len() == a.len() + b.len() + c.len() + d.len(),
{
    lemma_count_concat(a, b, x);
    lemma_count_concat(a + b, c, x);
    lemma_count_concat(a + b + c, d, x);
}

/// Ranks strictly ascending, so no rank twice; groups may be empty.
pub open spec fn groups_ascending(gs: Seq<CardGroup>) -> bool {
    forall|i: int, j: int|
        0 <= i < j < gs.len() ==> (#[trigger] gs[i]).card.rank() < (#[trigger] gs[j]).card.rank()
}

/// In a group list with ascending ranks the one group of a card holds all
/// cards of it.
pub proof fn lemma_ascending_count_at(gs: Seq<CardGroup>, i: int)
    requires
        groups_ascending(gs),
        0 <= i < gs.len(),
    ensures
        groups_count(gs, gs[i].card) == gs[i].count,
    decreases gs.len(),
{
    let c = gs[i].card;
    let front = gs.drop_last();
    assert forall|a: int, b: int| 0 <= a < b < front.len() implies (#[trigger] front[a]).card.rank()
        < (#[trigger] front[b]).card.rank() by {
        assert(gs[a].card.rank() < gs[b].card.rank());
    }
    if i == gs.len() - 1 {
        assert forall|k: int| 0 <= k < front.len() implies (#[trigger] front[k]).card != c by {
            assert(gs[k].card.rank() < gs[i].card.rank());
        }
        lemma_groups_count_absent(front, c);
    } else {
        assert(gs[i].card.rank() < gs[gs.len() - 1].card.rank());
        lemma_ascending_count_at(front, i);
        assert(front[i] == gs[i]);
    }
}

/// A valid group list is known by what it holds: two valid group lists
/// that hold every card equally often are the same list.
pub proof fn groups_unique(a: Seq<CardGroup>, b: Seq<CardGroup>)
    requires
        groups_wf(a),
        groups_wf(b),
        forall|c: Card| #[trigger] groups_count(a, c) == groups_count(b, c),
    ensures
        a == b,
    decreases a.len(),
{
    if a.len() == 0 {
        if b.len() > 0 {
            lemma_groups_count_at(b, 0);
            assert(groups_count(a, b[0].card) == 0);
        }
        assert(a =~= b);
    } else {
        let last = a.len() - 1;
        let card = a[last].card;
        lemma_groups_count_at(a, last);
        lemma_find_card_count(b, card);
        lemma_find_card(b, card);
        let g = find_card(b, card).unwrap();
        let at = choose|i: int| 0 <= i < b.len() && b[i] == g && g.card == card;
        if at < b.len() - 1 {
            let higher = b[b.len() - 1].card;
            assert(b[at].card.rank() < higher.rank());
            lemma_groups_count_at(b, b.len() - 1);
            lemma_find_card_count(a, higher);
            lemma_find_card(a, higher);
            let h = find_card(a, higher).unwrap();
            let i = choose|i: int| 0 <= i < a.len() && a[i] == h && h.card == higher;
            if i < last {
                assert(a[i].card.rank() < a[last].card.rank());
            }
        }
        assert(b[b.len() - 1].card == card);
        assert(b[b.len() - 1].count == a[last].count);
        let fa = a.drop_last();
        let fb = b.drop_last();
        assert(fa =~= a.take(last));
        assert(fb =~= b.take(b.len() - 1));
        lemma_wf_take(a, last);
        lemma_wf_take(b, b.len() - 1);
        assert forall|c: Card| #[trigger] groups_count(fa, c) == groups_count(fb, c) by {
            assert(groups_count(a, c) == groups_count(b, c));
        }
        groups_unique(fa, fb);
        assert(a =~= fa.push(a[last]));
        assert(b =~= fb.push(b[b.len() - 1]));
    }
}

/// The groups of a card list are the one valid group list that holds every
/// card as often as the card list does.
pub proof fn grouping_is_unique(cards: Seq<Card>, gs: Seq<CardGroup>)
    requires
        cards.len() <= u32::MAX,
        groups_wf(gs),
        forall|c: Card| #[trigger] groups_count(gs, c) == count_of(cards, c),
    ensures
        gs == group_seq(cards),
{
    lemma_group_seq(cards);
    groups_unique(gs, group_seq(cards));
}

} // verus!
