//! A deck-sized multiset of cards packed into one machine word.
use crate::card::{rank_round_trip, Card};
use crate::group::{
    count_of, flatten, groups_ascending, groups_count, lemma_ascending_count_at,
    lemma_flatten_count, lemma_groups_count_absent, repeat, CardGroup,
};
use vstd::prelude::*;

verus! {

/// The counter of slot `k` in a packed word: four bits each.
pub open spec fn slot(raw: u64, k: u64) -> u64 {
    (raw >> (4 * k)) & 15
}

/// The word with the counter of slot `k` set to `v`.
pub open spec fn with_slot(raw: u64, k: u64, v: u64) -> u64 {
    (raw & !(15u64 << (4 * k))) | (v << (4 * k))
}

/// Setting one counter changes that counter and no other, and leaves the
/// word's unused top bits clear.
pub proof fn lemma_with_slot(raw: u64, k: u64, j: u64, v: u64)
    requires
        k < 15,
        j < 16,
        v <= 15,
    ensures
        slot(with_slot(raw, k, v), k) == v,
        j != k ==> slot(with_slot(raw, k, v), j) == slot(raw, j),
        raw < 0x1000_0000_0000_0000 ==> with_slot(raw, k, v) < 0x1000_0000_0000_0000,
{
    let off = (4 * k) as u64;
    let offj = (4 * j) as u64;
    assert(off <= 56 && off & 3 == 0) by (bit_vector)
        requires
            off == 4 * k,
            k < 15,
    ;
    assert(offj <= 60 && offj & 3 == 0) by (bit_vector)
        requires
            offj == 4 * j,
            j < 16,
    ;
    assert((((raw & !(15u64 << off)) | (v << off)) >> off) & 15 == v) by (bit_vector)
        requires
            off <= 56,
            v <= 15,
    ;
    if j != k {
        assert((((raw & !(15u64 << off)) | (v << off)) >> offj) & 15 == (raw >> offj) & 15)
            by (bit_vector)
            requires
                off <= 56,
                offj <= 60,
                off & 3 == 0,
                offj & 3 == 0,
                off != offj,
                v <= 15,
        ;
    }
    if raw < 0x1000_0000_0000_0000 {
        assert(((raw & !(15u64 << off)) | (v << off)) < 0x1000_0000_0000_0000) by (bit_vector)
            requires
                off <= 56,
                v <= 15,
                raw < 0x1000_0000_0000_0000,
        ;
    }
}

/// A counter is at most fifteen.
pub proof fn lemma_slot_small(raw: u64, k: u64)
    requires
        k < 16,
    ensures
        slot(raw, k) <= 15,
{
    let off = (4 * k) as u64;
    assert((raw >> off) & 15 <= 15) by (bit_vector);
}

/// All counters of the word zero are zero.
pub proof fn lemma_slot_zero(k: u64)
    requires
        k < 16,
    ensures
        slot(0, k) == 0,
{
    let off = (4 * k) as u64;
    assert((0u64 >> off) & 15 == 0) by (bit_vector);
}

/// The number of ranks that the store has a counter for.
pub const SLOTS: usize = 15;

/// A multiset of cards in one word: a counter of four bits for each of the
/// fifteen ranks, the three's lowest. The sentinel has no counter and is not
/// stored.
#[derive(Debug)]
pub struct CardStore {
    pub raw: i64,
}

impl Default for CardStore {
    /// The store that holds nothing.
    fn default() -> (s: CardStore)
        ensures
            s.raw == 0,
            s.wf(),
            forall|c: Card| #[trigger] s.count(c) == 0,
    {
        proof {
            assert forall|k: u64| k < 16 implies #[trigger] slot(0, k) == 0 by {
                lemma_slot_zero(k);
            }
            assert forall|c: Card| c != Card::Unknown implies slot(0, (c.rank() - 1) as u64)
                == 0 by {
                rank_round_trip(c, 0);
            }
        }
        CardStore { raw: 0 }
    }
}

impl CardStore {
    /// Validity: the word is not negative and its top four bits, which are
    /// no counter, are clear.
    pub open spec fn wf(&self) -> bool {
        0 <= self.raw < 0x1000_0000_0000_0000
    }

    /// How many cards of `card` the store holds.
    pub open spec fn count(&self, card: Card) -> nat {
        if card == Card::Unknown {
            0
        } else {
            slot(self.raw as u64, (card.rank() - 1) as u64) as nat
        }
    }

    /// The store's counters as groups, one for each rank whether or not the
    /// store holds it, lowest rank first.
    pub open spec fn groups(&self) -> Seq<CardGroup> {
        Seq::new(
            SLOTS as nat,
            |k: int|
                CardGroup {
                    card: Card::of_rank((k + 1) as nat),
                    count: slot(self.raw as u64, k as u64) as u32,
                },
        )
    }

    /// Reads the counter of slot `k`.
    fn read_slot(&self, k: u32) -> (v: u32)
        requires
            self.wf(),
            k < 16,
        ensures
            v == slot(self.raw as u64, k as u64),
            v <= 15,
    {
        let raw = self.raw as u64;
        let off: u64 = 4 * (k as u64);
        let v = (raw >> off) & 15;
        assert(v <= 15) by (bit_vector)
            requires
                v == (raw >> off) & 15,
        ;
        v as u32
    }

    /// How many cards of `card` the store holds.
    pub fn get_card_count(&self, card: &Card) -> (n: i64)
        requires
            self.wf(),
        ensures
            n == self.count(*card),
            0 <= n <= 15,
    {
        let rank = card.value();
        if rank == 0 {
            return 0;
        }
        self.read_slot(rank - 1) as i64
    }

    /// Puts one more card of `card` into the store. The sentinel is not
    /// stored: adding it changes nothing.
    pub fn add(&mut self, card: &Card)
        requires
            old(self).wf(),
            old(self).count(*card) < 15,
        ensures
            final(self).wf(),
            *card == Card::Unknown ==> final(self).raw == old(self).raw,
            *card != Card::Unknown ==> final(self).count(*card) == old(self).count(*card) + 1,
            forall|c: Card| c != *card ==> final(self).count(c) == old(self).count(c),
    {
        let rank = card.value();
        if rank == 0 {
            return ;
        }
        let k = rank - 1;
        let count = self.read_slot(k) as u64 + 1;
        let raw = self.raw as u64;
        let off: u64 = 4 * (k as u64);
        let next = (raw & !(15u64 << off)) | (count << off);
        proof {
            lemma_with_slot(raw, k as u64, 0, count);
            assert forall|c: Card| c != *card implies slot(next, (c.rank() - 1) as u64) == slot(
                raw,
                (c.rank() - 1) as u64,
            ) || c == Card::Unknown by {
                if c != Card::Unknown {
                    rank_round_trip(c, 0);
                    rank_round_trip(*card, 0);
                    lemma_with_slot(raw, k as u64, (c.rank() - 1) as u64, count);
                }
            }
        }
        self.raw = next as i64;
    }

    /// The store's cards in ascending rank order.
    pub fn get_cards(&self) -> (cards: Vec<Card>)
        requires
            self.wf(),
        ensures
            cards@ == flatten(self.groups()),
            forall|c: Card| #[trigger] count_of(cards@, c) == self.count(c),
    {
        let mut cards: Vec<Card> = Vec::new();
        let mut k: u32 = 0;
        while k < 15
            invariant
                k <= 15,
                self.wf(),
                cards@ == flatten(self.groups().take(k as int)),
            decreases 15 - k,
        {
            let count = self.read_slot(k);
            let card = Card::from_value(k + 1);
            let mut j: u32 = 0;
            while j < count
                invariant
                    j <= count,
                    cards@ == flatten(self.groups().take(k as int)) + repeat(card, j as nat),
                decreases count - j,
            {
                cards.push(card);
                j += 1;
                assert(cards@ =~= flatten(self.groups().take(k as int)) + repeat(card, j as nat));
            }
            proof {
                assert(self.groups().take(k + 1).drop_last() =~= self.groups().take(k as int));
            }
            k += 1;
        }
        proof {
            assert(self.groups().take(15) =~= self.groups());
            self.lemma_groups_count();
            assert forall|c: Card| #[trigger] count_of(cards@, c) == self.count(c) by {
                lemma_flatten_count(self.groups(), c);
            }
        }
        cards
    }

    /// The store's groups hold of every card what the store counts.
    pub proof fn lemma_groups_count(&self)
        ensures
            groups_ascending(self.groups()),
            forall|c: Card| #[trigger] groups_count(self.groups(), c) == self.count(c),
    {
        let gs = self.groups();
        assert forall|i: int, j: int| 0 <= i < j < gs.len() implies (#[trigger] gs[i]).card.rank() < (
        #[trigger] gs[j]).card.rank() by {
            rank_round_trip(Card::Unknown, (i + 1) as nat);
            rank_round_trip(Card::Unknown, (j + 1) as nat);
        }
        assert forall|c: Card| #[trigger] groups_count(gs, c) == self.count(c) by {
            rank_round_trip(c, 0);
            if c == Card::Unknown {
                assert forall|i: int| 0 <= i < gs.len() implies (#[trigger] gs[i]).card != c by {
                    rank_round_trip(Card::Unknown, (i + 1) as nat);
                }
                lemma_groups_count_absent(gs, c);
            } else {
                let i = c.rank() - 1;
                assert(gs[i].card == c);
                lemma_ascending_count_at(gs, i);
                lemma_slot_small(self.raw as u64, i as u64);
            }
        }
    }

    /// The store's counters as groups, one for each rank whether or not the
    /// store holds it, lowest rank first.
    pub fn get_card_groups(&self) -> (groups: Vec<CardGroup>)
        requires
            self.wf(),
        ensures
            groups@ == self.groups(),
    {
        let mut groups: Vec<CardGroup> = Vec::new();
        let mut k: u32 = 0;
        while k < 15
            invariant
                k <= 15,
                self.wf(),
                groups@ == self.groups().take(k as int),
            decreases 15 - k,
        {
            let count = self.read_slot(k);
            groups.push(CardGroup { card: Card::from_value(k + 1), count });
            k += 1;
            assert(groups@ =~= self.groups().take(k as int));
        }
        assert(self.groups().take(15) =~= self.groups());
        groups
    }

    /// The store's counters as an array of groups: those of
    /// [`CardStore::get_card_groups`], and an empty group of the sentinel at
    /// the end.
    pub fn get_card_groups_arr(&self) -> (arr: [CardGroup; 16])
        requires
            self.wf(),
        ensures
            arr@.take(SLOTS as int) == self.groups(),
            arr@[SLOTS as int] == (CardGroup { card: Card::Unknown, count: 0 }),
    {
        let mut arr: [CardGroup; 16] = [CardGroup { card: Card::Unknown, count: 0 };16];
        let mut k: u32 = 0;
        while k < 15
            invariant
                k <= 15,
                self.wf(),
                arr@.take(k as int) == self.groups().take(k as int),
                arr@[SLOTS as int] == (CardGroup { card: Card::Unknown, count: 0 }),
            decreases 15 - k,
        {
            let count = self.read_slot(k);
            arr[k as usize] = CardGroup { card: Card::from_value(k + 1), count };
            k += 1;
            assert(arr@.take(k as int) =~= self.groups().take(k as int));
        }
        assert(self.groups().take(15) =~= self.groups());
        arr
    }
}

} // verus!
