//! The shapes a play can have, how a card list is classified as one of them,
//! and when one play beats another.
//!
//! Every shape is read off the groups of the cards, never off their order.
//! No rank is barred from a run: the two, the jokers and the sentinel take
//! part in chains and airplanes wherever their rank indices are consecutive.
use crate::card::Card;
use crate::group::{
    find_count, group_seq, groups_total, groups_wf, lemma_count_is_multiplicity, lemma_find_count,
    lemma_group_seq, lemma_wf_len, tally, to_card_groups, CardGroup, CardGroups,
};
use vstd::prelude::*;

verus! {

/// One card.
#[derive(Clone, Copy, Debug, PartialEq, Eq, Structural)]
pub struct RuleOne {
    pub card: Card,
}

/// Two cards of one rank.
#[derive(Clone, Copy, Debug, PartialEq, Eq, Structural)]
pub struct RuleTwo {
    pub card: Card,
}

/// Three cards of one rank and one card of another.
#[derive(Clone, Copy, Debug, PartialEq, Eq, Structural)]
pub struct RuleThreeWithOne {
    pub first: Card,
    pub second: Card,
}

/// Three cards of one rank and two of another.
#[derive(Clone, Copy, Debug, PartialEq, Eq, Structural)]
pub struct RuleThreeWithTwo {
    pub first: Card,
    pub second: Card,
}

/// Four cards of one rank and two of another.
#[derive(Clone, Copy, Debug, PartialEq, Eq, Structural)]
pub struct RuleFourWithTwo {
    pub first: Card,
    pub second: Card,
}

/// Four cards of one rank.
#[derive(Clone, Copy, Debug, PartialEq, Eq, Structural)]
pub struct RuleBomb {
    pub card: Card,
}

/// The two jokers.
#[derive(Clone, Copy, Debug, PartialEq, Eq, Structural)]
pub struct RuleRocket;

/// A run of consecutive ranks, each held once, twice or three times; `count`
/// is the number of ranks.
#[derive(Clone, Copy, Debug, PartialEq, Eq, Structural)]
pub struct RuleChain {
    pub first: Card,
    pub count: u32,
}

/// A run of triples with as many single cards beside it; `count` is the
/// number of triples.
#[derive(Clone, Copy, Debug, PartialEq, Eq, Structural)]
pub struct RuleAirplaneWithOneWing {
    pub first: Card,
    pub count: u32,
}

/// A run of triples with as many pairs beside it; `count` is the number of
/// triples.
#[derive(Clone, Copy, Debug, PartialEq, Eq, Structural)]
pub struct RuleAirplaneWithTwoWings {
    pub first: Card,
    pub count: u32,
}

/// The shape of an empty table, which every legal play beats.
#[derive(Clone, Copy, Debug, PartialEq, Eq, Structural)]
pub struct RuleNone;

/// The shape of a play, with the ranks that decide what beats it.
#[derive(Clone, Copy, Debug, PartialEq, Eq, Structural)]
pub enum Rule {
    Empty(RuleNone),
    Single(RuleOne),
    Pair(RuleTwo),
    TripleWithSingle(RuleThreeWithOne),
    TripleWithPair(RuleThreeWithTwo),
    FourWithTwo(RuleFourWithTwo),
    Bomb(RuleBomb),
    Rocket(RuleRocket),
    Chain(RuleChain),
    AirplaneSingleWing(RuleAirplaneWithOneWing),
    AirplaneTwoWings(RuleAirplaneWithTwoWings),
}

/// The groups of three cards, in the order of the list.
pub open spec fn bodies(gs: Seq<CardGroup>) -> Seq<CardGroup>
    decreases gs.len(),
{
    if gs.len() == 0 {
        Seq::empty()
    } else if gs.last().count == 3 {
        bodies(gs.drop_last()).push(gs.last())
    } else {
        bodies(gs.drop_last())
    }
}

/// The number of cards in groups of other than three cards.
pub open spec fn wing_cards(gs: Seq<CardGroup>) -> nat
    decreases gs.len(),
{
    if gs.len() == 0 {
        0
    } else if gs.last().count == 3 {
        wing_cards(gs.drop_last())
    } else {
        wing_cards(gs.drop_last()) + gs.last().count as nat
    }
}

/// Each group's rank index is at most one above that of the group before.
pub open spec fn is_run(gs: Seq<CardGroup>) -> bool {
    forall|i: int, j: int|
        0 <= i && j == i + 1 && j < gs.len() ==> (#[trigger] gs[j]).card.rank() <= (
        #[trigger] gs[i]).card.rank() + 1
}

/// Each group's rank index is exactly one above that of the group before.
pub open spec fn is_strict_run(gs: Seq<CardGroup>) -> bool {
    forall|i: int, j: int|
        0 <= i && j == i + 1 && j < gs.len() ==> (#[trigger] gs[j]).card.rank() == (
        #[trigger] gs[i]).card.rank() + 1
}

/// All groups hold `count` cards.
pub open spec fn all_count(gs: Seq<CardGroup>, count: u32) -> bool {
    forall|i: int| 0 <= i < gs.len() ==> (#[trigger] gs[i]).count == count
}

/// All groups hold two or three cards.
pub open spec fn all_pairs_or_triples(gs: Seq<CardGroup>) -> bool {
    forall|i: int| 0 <= i < gs.len() ==> (#[trigger] gs[i]).count == 2 || gs[i].count == 3
}

/// All groups are of a joker.
pub open spec fn all_jokers(gs: Seq<CardGroup>) -> bool {
    forall|i: int|
        0 <= i < gs.len() ==> (#[trigger] gs[i]).card == Card::CardGhost || gs[i].card
            == Card::CardKing
}

/// The least number of ranks in a chain whose ranks are held `count` times
/// each; zero where no chain has such groups.
pub open spec fn min_run(count: u32) -> nat {
    if count == 1 {
        5
    } else if count == 2 {
        3
    } else if count == 3 {
        2
    } else {
        0
    }
}

impl RuleOne {
    /// The shape of groups that are one card.
    pub open spec fn of_groups(gs: Seq<CardGroup>) -> Option<RuleOne> {
        if gs.len() == 1 && gs[0].count == 1 {
            Some(RuleOne { card: gs[0].card })
        } else {
            None
        }
    }
}

impl RuleTwo {
    /// The shape of groups that are two cards of one rank.
    pub open spec fn of_groups(gs: Seq<CardGroup>) -> Option<RuleTwo> {
        if gs.len() == 1 && gs[0].count == 2 {
            Some(RuleTwo { card: gs[0].card })
        } else {
            None
        }
    }
}

impl RuleThreeWithOne {
    /// The shape of four cards with a group of three and a group of one.
    pub open spec fn of_groups(gs: Seq<CardGroup>) -> Option<RuleThreeWithOne> {
        if groups_total(gs) == 4 && find_count(gs, 3).is_some() && find_count(gs, 1).is_some() {
            Some(
                RuleThreeWithOne {
                    first: find_count(gs, 3).unwrap().card,
                    second: find_count(gs, 1).unwrap().card,
                },
            )
        } else {
            None
        }
    }
}

impl RuleThreeWithTwo {
    /// The shape of five cards with a group of three and a group of two.
    pub open spec fn of_groups(gs: Seq<CardGroup>) -> Option<RuleThreeWithTwo> {
        if groups_total(gs) == 5 && find_count(gs, 3).is_some() && find_count(gs, 2).is_some() {
            Some(
                RuleThreeWithTwo {
                    first: find_count(gs, 3).unwrap().card,
                    second: find_count(gs, 2).unwrap().card,
                },
            )
        } else {
            None
        }
    }
}

impl RuleFourWithTwo {
    /// The shape of six cards with a group of four and a group of two.
    pub open spec fn of_groups(gs: Seq<CardGroup>) -> Option<RuleFourWithTwo> {
        if groups_total(gs) == 6 && find_count(gs, 4).is_some() && find_count(gs, 2).is_some() {
            Some(
                RuleFourWithTwo {
                    first: find_count(gs, 4).unwrap().card,
                    second: find_count(gs, 2).unwrap().card,
                },
            )
        } else {
            None
        }
    }
}

impl RuleBomb {
    /// The shape of groups that are four cards of one rank.
    pub open spec fn of_groups(gs: Seq<CardGroup>) -> Option<RuleBomb> {
        if gs.len() == 1 && gs[0].count == 4 {
            Some(RuleBomb { card: gs[0].card })
        } else {
            None
        }
    }
}

impl RuleRocket {
    /// The shape of two cards that are both jokers.
    pub open spec fn of_groups(gs: Seq<CardGroup>) -> Option<RuleRocket> {
        if groups_total(gs) == 2 && all_jokers(gs) {
            Some(RuleRocket)
        } else {
            None
        }
    }
}

impl RuleChain {
    /// The shape of groups of equal size on consecutive ranks: at least five
    /// single cards, three pairs or two triples.
    pub open spec fn of_groups(gs: Seq<CardGroup>) -> Option<RuleChain> {
        if gs.len() > 0 && all_count(gs, gs[0].count) && is_run(gs) && min_run(gs[0].count) > 0
            && gs.len() >= min_run(gs[0].count) {
            Some(RuleChain { first: gs[0].card, count: gs.len() as u32 })
        } else {
            None
        }
    }
}

impl RuleAirplaneWithOneWing {
    /// The shape of at least four groups whose triples, two or more, are on
    /// consecutive ranks, with as many other cards as there are triples.
    pub open spec fn of_groups(gs: Seq<CardGroup>) -> Option<RuleAirplaneWithOneWing> {
        if gs.len() >= 4 && bodies(gs).len() >= 2 && is_strict_run(bodies(gs)) && wing_cards(gs)
            == bodies(gs).len() {
            Some(
                RuleAirplaneWithOneWing {
                    first: bodies(gs)[0].card,
                    count: bodies(gs).len() as u32,
                },
            )
        } else {
            None
        }
    }
}

impl RuleAirplaneWithTwoWings {
    /// The shape of at least four groups, all pairs or triples, whose
    /// triples, two or more, are on consecutive ranks, with as many pairs as
    /// triples.
    pub open spec fn of_groups(gs: Seq<CardGroup>) -> Option<RuleAirplaneWithTwoWings> {
        if gs.len() >= 4 && all_pairs_or_triples(gs) && bodies(gs).len() >= 2 && is_strict_run(
            bodies(gs),
        ) && gs.len() - bodies(gs).len() == bodies(gs).len() {
            Some(
                RuleAirplaneWithTwoWings {
                    first: bodies(gs)[0].card,
                    count: bodies(gs).len() as u32,
                },
            )
        } else {
            None
        }
    }
}

/// The triples of a prefix are a prefix of the triples, and the other cards
/// of a prefix are no more than the other cards of the whole.
pub proof fn lemma_bodies_prefix(gs: Seq<CardGroup>, n: int)
    requires
        0 <= n <= gs.len(),
    ensures
        bodies(gs.take(n)).len() <= bodies(gs).len(),
        bodies(gs.take(n)) =~= bodies(gs).take(bodies(gs.take(n)).len() as int),
        wing_cards(gs.take(n)) <= wing_cards(gs),
    decreases gs.len() - n,
{
    if n == gs.len() {
        assert(gs.take(n) =~= gs);
    } else {
        lemma_bodies_prefix(gs, n + 1);
        assert(gs.take(n + 1).drop_last() =~= gs.take(n));
    }
}

/// The cards of a group list are those of its triples and the others.
pub proof fn lemma_bodies_total(gs: Seq<CardGroup>)
    ensures
        groups_total(gs) == 3 * bodies(gs).len() + wing_cards(gs),
        bodies(gs).len() <= gs.len(),
        forall|i: int| 0 <= i < bodies(gs).len() ==> (#[trigger] bodies(gs)[i]).count == 3,
    decreases gs.len(),
{
    if gs.len() > 0 {
        lemma_bodies_total(gs.drop_last());
    }
}

/// Scans the triples of a group list. Gives the first triple's card and the
/// number of triples where there is a triple and the triples are on
/// consecutive ranks, and nothing otherwise.
fn body_run(groups: &CardGroups) -> (r: Option<(Card, u32)>)
    requires
        groups_wf(groups@),
    ensures
        match r {
            Some((first, k)) => k == bodies(groups@).len() && k >= 1 && is_strict_run(
                bodies(groups@),
            ) && first == bodies(groups@)[0].card,
            None => bodies(groups@).len() == 0 || !is_strict_run(bodies(groups@)),
        },
{
    let n = groups.groups.len();
    let mut first: Card = Card::Unknown;
    let mut last: Card = Card::Unknown;
    let mut k: u32 = 0;
    let mut i: usize = 0;
    proof {
        lemma_wf_len(groups@);
    }
    while i < n
        invariant
            i <= n,
            n == groups@.len(),
            n <= 16,
            k <= i,
            k == bodies(groups@.take(i as int)).len(),
            is_strict_run(bodies(groups@.take(i as int))),
            k > 0 ==> first == bodies(groups@.take(i as int))[0].card,
            k > 0 ==> last == bodies(groups@.take(i as int)).last().card,
        decreases n - i,
    {
        let g = groups.groups[i];
        proof {
            assert(groups@.take(i + 1).drop_last() =~= groups@.take(i as int));
        }
        if g.count == 3 {
            if k > 0 && g.card.value() != last.value() + 1 {
                proof {
                    let part = bodies(groups@.take(i + 1));
                    lemma_bodies_prefix(groups@, i + 1);
                    let all = bodies(groups@);
                    assert(part[k as int] == all[k as int]);
                    assert(part[k - 1] == all[k - 1]);
                    assert(all[k as int].card.rank() != all[k - 1].card.rank() + 1);
                }
                return None;
            }
            if k == 0 {
                first = g.card;
            }
            last = g.card;
            k += 1;
        }
        i += 1;
    }
    proof {
        assert(groups@.take(n as int) =~= groups@);
    }
    if k == 0 {
        None
    } else {
        Some((first, k))
    }
}

/// Counts the cards in groups of other than three cards.
fn wing_total(groups: &CardGroups) -> (w: u32)
    requires
        groups_total(groups@) <= u32::MAX,
    ensures
        w == wing_cards(groups@),
{
    let n = groups.groups.len();
    let mut w: u32 = 0;
    let mut i: usize = 0;
    proof {
        lemma_bodies_total(groups@);
    }
    while i < n
        invariant
            i <= n,
            n == groups@.len(),
            wing_cards(groups@) <= u32::MAX,
            w == wing_cards(groups@.take(i as int)),
        decreases n - i,
    {
        let g = groups.groups[i];
        proof {
            assert(groups@.take(i + 1).drop_last() =~= groups@.take(i as int));
            lemma_bodies_prefix(groups@, i + 1);
        }
        if g.count != 3 {
            w += g.count;
        }
        i += 1;
    }
    proof {
        assert(groups@.take(n as int) =~= groups@);
    }
    w
}

impl RuleNone {
    /// Nothing is measured against the empty shape by rank.
    pub fn matches(&self, _cards: &[Card]) -> (b: bool)
        ensures
            !b,
    {
        false
    }

    /// The shape's name.
    pub fn to_string(&self) -> (s: &'static str)
        ensures
            s@ == "无"@,
    {
        "无"
    }

    /// This is the empty shape.
    pub fn is_none(&self) -> (b: bool)
        ensures
            b,
    {
        true
    }
}

impl RuleOne {
    /// Whether `other` is a higher single card.
    pub open spec fn lower_than(self, other: RuleOne) -> bool {
        other.card.rank() > self.card.rank()
    }

    /// Reads the shape off a group list.
    pub fn from_groups(groups: &CardGroups) -> (r: Option<RuleOne>)
        ensures
            r == RuleOne::of_groups(groups@),
    {
        if groups.only_has_group(1) {
            Some(RuleOne { card: groups.groups[0].card })
        } else {
            None
        }
    }

    /// Reads the shape off a card list.
    pub fn try_new(cards: &[Card]) -> (r: Option<RuleOne>)
        requires
            cards@.len() <= u32::MAX,
        ensures
            r == RuleOne::of_groups(group_seq(cards@)),
    {
        let groups = to_card_groups(cards);
        RuleOne::from_groups(&groups)
    }

    /// Whether `cards` are a single card of higher rank.
    pub fn matches(&self, cards: &[Card]) -> (b: bool)
        requires
            cards@.len() <= u32::MAX,
        ensures
            b == (RuleOne::of_groups(group_seq(cards@)) matches Some(o) && self.lower_than(o)),
    {
        match RuleOne::try_new(cards) {
            Some(o) => o.card.value() > self.card.value(),
            None => false,
        }
    }

    /// The shape's name.
    pub fn to_string(&self) -> (s: &'static str)
        ensures
            s@ == "单牌"@,
    {
        "单牌"
    }
}

impl RuleTwo {
    /// Whether `other` is a higher pair.
    pub open spec fn lower_than(self, other: RuleTwo) -> bool {
        other.card.rank() > self.card.rank()
    }

    /// Reads the shape off a group list.
    pub fn from_groups(groups: &CardGroups) -> (r: Option<RuleTwo>)
        ensures
            r == RuleTwo::of_groups(groups@),
    {
        if groups.only_has_group(2) {
            Some(RuleTwo { card: groups.groups[0].card })
        } else {
            None
        }
    }

    /// Reads the shape off a card list.
    pub fn try_new(cards: &[Card]) -> (r: Option<RuleTwo>)
        requires
            cards@.len() <= u32::MAX,
        ensures
            r == RuleTwo::of_groups(group_seq(cards@)),
    {
        let groups = to_card_groups(cards);
        RuleTwo::from_groups(&groups)
    }

    /// Whether `cards` are a pair of higher rank.
    pub fn matches(&self, cards: &[Card]) -> (b: bool)
        requires
            cards@.len() <= u32::MAX,
        ensures
            b == (RuleTwo::of_groups(group_seq(cards@)) matches Some(o) && self.lower_than(o)),
    {
        match RuleTwo::try_new(cards) {
            Some(o) => o.card.value() > self.card.value(),
            None => false,
        }
    }

    /// The shape's name.
    pub fn to_string(&self) -> (s: &'static str)
        ensures
            s@ == "对子"@,
    {
        "对子"
    }
}

impl RuleThreeWithOne {
    /// Whether `other` has a higher triple.
    pub open spec fn lower_than(self, other: RuleThreeWithOne) -> bool {
        other.first.rank() > self.first.rank()
    }

    /// Reads the shape off a group list.
    pub fn from_groups(groups: &CardGroups) -> (r: Option<RuleThreeWithOne>)
        requires
            groups_total(groups@) <= u32::MAX,
        ensures
            r == RuleThreeWithOne::of_groups(groups@),
    {
        if groups.card_len() != 4 {
            return None;
        }
        match (groups.find_group_by_count(3), groups.find_group_by_count(1)) {
            (Some(first), Some(second)) => Some(
                RuleThreeWithOne { first: first.card, second: second.card },
            ),
            _ => None,
        }
    }

    /// Reads the shape off a card list.
    pub fn try_new(cards: &[Card]) -> (r: Option<RuleThreeWithOne>)
        requires
            cards@.len() <= u32::MAX,
        ensures
            r == RuleThreeWithOne::of_groups(group_seq(cards@)),
    {
        let groups = to_card_groups(cards);
        RuleThreeWithOne::from_groups(&groups)
    }

    /// Whether `cards` are a triple of higher rank with a single card.
    pub fn matches(&self, cards: &[Card]) -> (b: bool)
        requires
            cards@.len() <= u32::MAX,
        ensures
            b == (RuleThreeWithOne::of_groups(group_seq(cards@)) matches Some(o)
                && self.lower_than(o)),
    {
        match RuleThreeWithOne::try_new(cards) {
            Some(o) => o.first.value() > self.first.value(),
            None => false,
        }
    }

    /// The shape's name.
    pub fn to_string(&self) -> (s: &'static str)
        ensures
            s@ == "三带一"@,
    {
        "三带一"
    }
}

impl RuleThreeWithTwo {
    /// Whether `other` has a higher triple.
    pub open spec fn lower_than(self, other: RuleThreeWithTwo) -> bool {
        other.first.rank() > self.first.rank()
    }

    /// Reads the shape off a group list.
    pub fn from_groups(groups: &CardGroups) -> (r: Option<RuleThreeWithTwo>)
        requires
            groups_total(groups@) <= u32::MAX,
        ensures
            r == RuleThreeWithTwo::of_groups(groups@),
    {
        if groups.card_len() != 5 {
            return None;
        }
        match (groups.find_group_by_count(3), groups.find_group_by_count(2)) {
            (Some(first), Some(second)) => Some(
                RuleThreeWithTwo { first: first.card, second: second.card },
            ),
            _ => None,
        }
    }

    /// Reads the shape off a card list.
    pub fn try_new(cards: &[Card]) -> (r: Option<RuleThreeWithTwo>)
        requires
            cards@.len() <= u32::MAX,
        ensures
            r == RuleThreeWithTwo::of_groups(group_seq(cards@)),
    {
        let groups = to_card_groups(cards);
        RuleThreeWithTwo::from_groups(&groups)
    }

    /// Whether `cards` are a triple of higher rank with a pair.
    pub fn matches(&self, cards: &[Card]) -> (b: bool)
        requires
            cards@.len() <= u32::MAX,
        ensures
            b == (RuleThreeWithTwo::of_groups(group_seq(cards@)) matches Some(o)
                && self.lower_than(o)),
    {
        match RuleThreeWithTwo::try_new(cards) {
            Some(o) => o.first.value() > self.first.value(),
            None => false,
        }
    }

    /// The shape's name.
    pub fn to_string(&self) -> (s: &'static str)
        ensures
            s@ == "三带二"@,
    {
        "三带二"
    }
}

impl RuleFourWithTwo {
    /// Whether `other` has a higher four of a kind.
    pub open spec fn lower_than(self, other: RuleFourWithTwo) -> bool {
        other.first.rank() > self.first.rank()
    }

    /// Reads the shape off a group list.
    pub fn from_groups(groups: &CardGroups) -> (r: Option<RuleFourWithTwo>)
        requires
            groups_total(groups@) <= u32::MAX,
        ensures
            r == RuleFourWithTwo::of_groups(groups@),
    {
        if groups.card_len() != 6 {
            return None;
        }
        match (groups.find_group_by_count(4), groups.find_group_by_count(2)) {
            (Some(first), Some(second)) => Some(
                RuleFourWithTwo { first: first.card, second: second.card },
            ),
            _ => None,
        }
    }

    /// Reads the shape off a card list.
    pub fn try_new(cards: &[Card]) -> (r: Option<RuleFourWithTwo>)
        requires
            cards@.len() <= u32::MAX,
        ensures
            r == RuleFourWithTwo::of_groups(group_seq(cards@)),
    {
        let groups = to_card_groups(cards);
        RuleFourWithTwo::from_groups(&groups)
    }

    /// Whether `cards` are four of a kind of higher rank with a pair.
    pub fn matches(&self, cards: &[Card]) -> (b: bool)
        requires
            cards@.len() <= u32::MAX,
        ensures
            b == (RuleFourWithTwo::of_groups(group_seq(cards@)) matches Some(o)
                && self.lower_than(o)),
    {
        match RuleFourWithTwo::try_new(cards) {
            Some(o) => o.first.value() > self.first.value(),
            None => false,
        }
    }

    /// The shape's name.
    pub fn to_string(&self) -> (s: &'static str)
        ensures
            s@ == "四带二"@,
    {
        "四带二"
    }
}

impl RuleBomb {
    /// Whether `other` is a higher bomb.
    pub open spec fn lower_than(self, other: RuleBomb) -> bool {
        other.card.rank() > self.card.rank()
    }

    /// Reads the shape off a group list.
    pub fn from_groups(groups: &CardGroups) -> (r: Option<RuleBomb>)
        ensures
            r == RuleBomb::of_groups(groups@),
    {
        if groups.only_has_group(4) {
            Some(RuleBomb { card: groups.groups[0].card })
        } else {
            None
        }
    }

    /// Reads the shape off a card list.
    pub fn try_new(cards: &[Card]) -> (r: Option<RuleBomb>)
        requires
            cards@.len() <= u32::MAX,
        ensures
            r == RuleBomb::of_groups(group_seq(cards@)),
    {
        let groups = to_card_groups(cards);
        RuleBomb::from_groups(&groups)
    }

    /// Whether `cards` are a bomb of higher rank.
    pub fn matches(&self, cards: &[Card]) -> (b: bool)
        requires
            cards@.len() <= u32::MAX,
        ensures
            b == (RuleBomb::of_groups(group_seq(cards@)) matches Some(o) && self.lower_than(o)),
    {
        match RuleBomb::try_new(cards) {
            Some(o) => o.card.value() > self.card.value(),
            None => false,
        }
    }

    /// The shape's name.
    pub fn to_string(&self) -> (s: &'static str)
        ensures
            s@ == "炸弹"@,
    {
        "炸弹"
    }

    /// A bomb's priority over plays of other shapes.
    pub fn bomb_priority(&self) -> (p: u32)
        ensures
            p == 1,
    {
        1
    }
}

impl RuleRocket {
    /// Reads the shape off a group list.
    pub fn from_groups(groups: &CardGroups) -> (r: Option<RuleRocket>)
        requires
            groups_total(groups@) <= u32::MAX,
        ensures
            r == RuleRocket::of_groups(groups@),
    {
        if groups.card_len() != 2 {
            return None;
        }
        let n = groups.groups.len();
        let mut i: usize = 0;
        while i < n
            invariant
                i <= n,
                n == groups@.len(),
                forall|j: int|
                    0 <= j < i ==> (#[trigger] groups@[j]).card == Card::CardGhost || groups@[j].card
                        == Card::CardKing,
            decreases n - i,
        {
            let card = groups.groups[i].card;
            if !(card == Card::CardGhost || card == Card::CardKing) {
                return None;
            }
            i += 1;
        }
        Some(RuleRocket)
    }

    /// Reads the shape off a card list.
    pub fn try_new(cards: &[Card]) -> (r: Option<RuleRocket>)
        requires
            cards@.len() <= u32::MAX,
        ensures
            r == RuleRocket::of_groups(group_seq(cards@)),
    {
        let groups = to_card_groups(cards);
        RuleRocket::from_groups(&groups)
    }

    /// Nothing is measured against the rocket by rank.
    pub fn matches(&self, _cards: &[Card]) -> (b: bool)
        ensures
            !b,
    {
        false
    }

    /// The shape's name.
    pub fn to_string(&self) -> (s: &'static str)
        ensures
            s@ == "火箭"@,
    {
        "火箭"
    }

    /// The rocket's priority over plays of other shapes.
    pub fn bomb_priority(&self) -> (p: u32)
        ensures
            p == 2,
    {
        2
    }
}

impl RuleChain {
    /// Whether `other` is a chain of as many ranks that starts higher.
    pub open spec fn lower_than(self, other: RuleChain) -> bool {
        other.first.rank() > self.first.rank() && other.count == self.count
    }

    /// Reads the shape off a group list.
    pub fn from_groups(groups: &CardGroups) -> (r: Option<RuleChain>)
        requires
            groups_wf(groups@),
        ensures
            r == RuleChain::of_groups(groups@),
    {
        let n = groups.groups.len();
        if n == 0 {
            return None;
        }
        proof {
            lemma_wf_len(groups@);
        }
        let count = groups.groups[0].count;
        let mut i: usize = 1;
        while i < n
            invariant
                1 <= i <= n,
                n == groups@.len(),
                count == groups@[0].count,
                forall|j: int| 0 <= j < i ==> (#[trigger] groups@[j]).count == count,
                forall|a: int, b: int|
                    0 <= a && b == a + 1 && b < i ==> (#[trigger] groups@[b]).card.rank() <= (
                    #[trigger] groups@[a]).card.rank() + 1,
            decreases n - i,
        {
            let g = groups.groups[i];
            let before = groups.groups[i - 1];
            if g.card.value() > before.card.value() + 1 || g.count != count {
                proof {
                    assert(groups@[i as int] == g);
                    assert(groups@[i - 1] == before);
                }
                return None;
            }
            i += 1;
        }
        let need: usize = if count == 1 {
            5
        } else if count == 2 {
            3
        } else if count == 3 {
            2
        } else {
            return None;
        };
        if n < need {
            return None;
        }
        Some(RuleChain { first: groups.groups[0].card, count: n as u32 })
    }

    /// Reads the shape off a card list.
    pub fn try_new(cards: &[Card]) -> (r: Option<RuleChain>)
        requires
            cards@.len() <= u32::MAX,
        ensures
            r == RuleChain::of_groups(group_seq(cards@)),
    {
        let groups = to_card_groups(cards);
        RuleChain::from_groups(&groups)
    }

    /// Whether `cards` are a chain of as many ranks that starts higher.
    pub fn matches(&self, cards: &[Card]) -> (b: bool)
        requires
            cards@.len() <= u32::MAX,
        ensures
            b == (RuleChain::of_groups(group_seq(cards@)) matches Some(o) && self.lower_than(o)),
    {
        match RuleChain::try_new(cards) {
            Some(o) => o.first.value() > self.first.value() && o.count == self.count,
            None => false,
        }
    }

    /// The shape's name.
    pub fn to_string(&self) -> (s: &'static str)
        ensures
            s@ == "顺子"@,
    {
        "顺子"
    }
}

impl RuleAirplaneWithOneWing {
    /// Whether `other` is an airplane of as many triples that starts higher.
    pub open spec fn lower_than(self, other: RuleAirplaneWithOneWing) -> bool {
        other.first.rank() > self.first.rank() && other.count == self.count
    }

    /// Reads the shape off a group list.
    pub fn from_groups(groups: &CardGroups) -> (r: Option<RuleAirplaneWithOneWing>)
        requires
            groups_wf(groups@),
            groups_total(groups@) <= u32::MAX,
        ensures
            r == RuleAirplaneWithOneWing::of_groups(groups@),
    {
        if groups.groups.len() < 4 {
            return None;
        }
        match body_run(groups) {
            Some((first, count)) => {
                let wings = wing_total(groups);
                if count < 2 || wings != count {
                    None
                } else {
                    Some(RuleAirplaneWithOneWing { first, count })
                }
            },
            None => None,
        }
    }

    /// Reads the shape off a card list.
    pub fn try_new(cards: &[Card]) -> (r: Option<RuleAirplaneWithOneWing>)
        requires
            cards@.len() <= u32::MAX,
        ensures
            r == RuleAirplaneWithOneWing::of_groups(group_seq(cards@)),
    {
        let groups = to_card_groups(cards);
        RuleAirplaneWithOneWing::from_groups(&groups)
    }

    /// Whether `cards` are an airplane of as many triples that starts higher.
    pub fn matches(&self, cards: &[Card]) -> (b: bool)
        requires
            cards@.len() <= u32::MAX,
        ensures
            b == (RuleAirplaneWithOneWing::of_groups(group_seq(cards@)) matches Some(o)
                && self.lower_than(o)),
    {
        match RuleAirplaneWithOneWing::try_new(cards) {
            Some(o) => o.first.value() > self.first.value() && o.count == self.count,
            None => false,
        }
    }

    /// The shape's name.
    pub fn to_string(&self) -> (s: &'static str)
        ensures
            s@ == "单翼飞机"@,
    {
        "单翼飞机"
    }
}

/// Whether every group holds two or three cards.
fn only_pairs_and_triples(groups: &CardGroups) -> (b: bool)
    ensures
        b == all_pairs_or_triples(groups@),
{
    let n = groups.groups.len();
    let mut i: usize = 0;
    while i < n
        invariant
            i <= n,
            n == groups@.len(),
            forall|j: int| 0 <= j < i ==> (#[trigger] groups@[j]).count == 2 || groups@[j].count == 3,
        decreases n - i,
    {
        let count = groups.groups[i].count;
        if count != 2 && count != 3 {
            return false;
        }
        i += 1;
    }
    true
}

impl RuleAirplaneWithTwoWings {
    /// Whether `other` is an airplane of as many triples that starts higher.
    pub open spec fn lower_than(self, other: RuleAirplaneWithTwoWings) -> bool {
        other.first.rank() > self.first.rank() && other.count == self.count
    }

    /// Reads the shape off a group list.
    pub fn from_groups(groups: &CardGroups) -> (r: Option<RuleAirplaneWithTwoWings>)
        requires
            groups_wf(groups@),
        ensures
            r == RuleAirplaneWithTwoWings::of_groups(groups@),
    {
        let n = groups.groups.len();
        if n < 4 || !only_pairs_and_triples(groups) {
            return None;
        }
        proof {
            lemma_wf_len(groups@);
            lemma_bodies_total(groups@);
        }
        match body_run(groups) {
            Some((first, count)) => {
                if count < 2 || n - count as usize != count as usize {
                    None
                } else {
                    Some(RuleAirplaneWithTwoWings { first, count })
                }
            },
            None => None,
        }
    }

    /// Reads the shape off a card list.
    pub fn try_new(cards: &[Card]) -> (r: Option<RuleAirplaneWithTwoWings>)
        requires
            cards@.len() <= u32::MAX,
        ensures
            r == RuleAirplaneWithTwoWings::of_groups(group_seq(cards@)),
    {
        let groups = to_card_groups(cards);
        RuleAirplaneWithTwoWings::from_groups(&groups)
    }

    /// Whether `cards` are an airplane of as many triples that starts higher.
    pub fn matches(&self, cards: &[Card]) -> (b: bool)
        requires
            cards@.len() <= u32::MAX,
        ensures
            b == (RuleAirplaneWithTwoWings::of_groups(group_seq(cards@)) matches Some(o)
                && self.lower_than(o)),
    {
        match RuleAirplaneWithTwoWings::try_new(cards) {
            Some(o) => o.first.value() > self.first.value() && o.count == self.count,
            None => false,
        }
    }

    /// The shape's name.
    pub fn to_string(&self) -> (s: &'static str)
        ensures
            s@ == "双翼飞机"@,
    {
        "双翼飞机"
    }
}

/// The shape of a group list. Which shapes are tried, and in which order,
/// goes by the number of cards.
pub open spec fn classify_groups(gs: Seq<CardGroup>) -> Rule {
    let n = groups_total(gs);
    if n == 1 {
        match RuleOne::of_groups(gs) {
            Some(r) => Rule::Single(r),
            None => Rule::Empty(RuleNone),
        }
    } else if n == 2 {
        if let Some(r) = RuleTwo::of_groups(gs) {
            Rule::Pair(r)
        } else if let Some(r) = RuleRocket::of_groups(gs) {
            Rule::Rocket(r)
        } else {
            Rule::Empty(RuleNone)
        }
    } else if n == 4 {
        if let Some(r) = RuleThreeWithOne::of_groups(gs) {
            Rule::TripleWithSingle(r)
        } else if let Some(r) = RuleBomb::of_groups(gs) {
            Rule::Bomb(r)
        } else {
            Rule::Empty(RuleNone)
        }
    } else if let Some(r) = RuleThreeWithTwo::of_groups(gs) {
        Rule::TripleWithPair(r)
    } else if let Some(r) = RuleFourWithTwo::of_groups(gs) {
        Rule::FourWithTwo(r)
    } else if let Some(r) = RuleChain::of_groups(gs) {
        Rule::Chain(r)
    } else if let Some(r) = RuleAirplaneWithOneWing::of_groups(gs) {
        Rule::AirplaneSingleWing(r)
    } else if let Some(r) = RuleAirplaneWithTwoWings::of_groups(gs) {
        Rule::AirplaneTwoWings(r)
    } else {
        Rule::Empty(RuleNone)
    }
}

/// The shape of a card list.
pub open spec fn classify(cards: Seq<Card>) -> Rule {
    classify_groups(group_seq(cards))
}

/// Whether a play of shape `candidate` may be laid on a table that shows a
/// play of shape `table`.
pub open spec fn beats(table: Rule, candidate: Rule) -> bool {
    &&& !candidate.empty()
    &&& (table.empty() || candidate.priority() > table.priority() || table.lower_than(candidate))
}

impl Rule {
    /// Whether this is the shape of an empty table.
    pub open spec fn empty(self) -> bool {
        self is Empty
    }

    /// 2 for the rocket, 1 for a bomb, 0 for every other shape.
    pub open spec fn priority(self) -> nat {
        match self {
            Rule::Bomb(_) => 1,
            Rule::Rocket(_) => 2,
            _ => 0,
        }
    }

    /// Whether `other` has the same shape, the same number of ranks where the
    /// shape is a run, and a higher principal rank.
    pub open spec fn lower_than(self, other: Rule) -> bool {
        match (self, other) {
            (Rule::Single(a), Rule::Single(b)) => a.lower_than(b),
            (Rule::Pair(a), Rule::Pair(b)) => a.lower_than(b),
            (Rule::TripleWithSingle(a), Rule::TripleWithSingle(b)) => a.lower_than(b),
            (Rule::TripleWithPair(a), Rule::TripleWithPair(b)) => a.lower_than(b),
            (Rule::FourWithTwo(a), Rule::FourWithTwo(b)) => a.lower_than(b),
            (Rule::Bomb(a), Rule::Bomb(b)) => a.lower_than(b),
            (Rule::Chain(a), Rule::Chain(b)) => a.lower_than(b),
            (Rule::AirplaneSingleWing(a), Rule::AirplaneSingleWing(b)) => a.lower_than(b),
            (Rule::AirplaneTwoWings(a), Rule::AirplaneTwoWings(b)) => a.lower_than(b),
            _ => false,
        }
    }

    /// Whether cards read by this shape's own rule are of the same shape and
    /// higher.
    pub open spec fn matched_by(self, gs: Seq<CardGroup>) -> bool {
        match self {
            Rule::Empty(_) => false,
            Rule::Single(a) => RuleOne::of_groups(gs) matches Some(o) && a.lower_than(o),
            Rule::Pair(a) => RuleTwo::of_groups(gs) matches Some(o) && a.lower_than(o),
            Rule::TripleWithSingle(a) => RuleThreeWithOne::of_groups(gs) matches Some(o)
                && a.lower_than(o),
            Rule::TripleWithPair(a) => RuleThreeWithTwo::of_groups(gs) matches Some(o)
                && a.lower_than(o),
            Rule::FourWithTwo(a) => RuleFourWithTwo::of_groups(gs) matches Some(o) && a.lower_than(
                o,
            ),
            Rule::Bomb(a) => RuleBomb::of_groups(gs) matches Some(o) && a.lower_than(o),
            Rule::Rocket(_) => false,
            Rule::Chain(a) => RuleChain::of_groups(gs) matches Some(o) && a.lower_than(o),
            Rule::AirplaneSingleWing(a) => RuleAirplaneWithOneWing::of_groups(gs) matches Some(o)
                && a.lower_than(o),
            Rule::AirplaneTwoWings(a) => RuleAirplaneWithTwoWings::of_groups(gs) matches Some(o)
                && a.lower_than(o),
        }
    }

    /// The shape's name.
    pub open spec fn name(self) -> Seq<char> {
        match self {
            Rule::Empty(_) => "无"@,
            Rule::Single(_) => "单牌"@,
            Rule::Pair(_) => "对子"@,
            Rule::TripleWithSingle(_) => "三带一"@,
            Rule::TripleWithPair(_) => "三带二"@,
            Rule::FourWithTwo(_) => "四带二"@,
            Rule::Bomb(_) => "炸弹"@,
            Rule::Rocket(_) => "火箭"@,
            Rule::Chain(_) => "顺子"@,
            Rule::AirplaneSingleWing(_) => "单翼飞机"@,
            Rule::AirplaneTwoWings(_) => "双翼飞机"@,
        }
    }

    /// Whether `cards`, read by this shape's own rule, are of the same shape
    /// and higher.
    pub fn matches(&self, cards: &[Card]) -> (b: bool)
        requires
            cards@.len() <= u32::MAX,
        ensures
            b == self.matched_by(group_seq(cards@)),
            b == self.lower_than(classify(cards@)),
    {
        proof {
            own_rule_is_classifier(*self, cards@);
        }
        match self {
            Rule::Empty(r) => r.matches(cards),
            Rule::Single(r) => r.matches(cards),
            Rule::Pair(r) => r.matches(cards),
            Rule::TripleWithSingle(r) => r.matches(cards),
            Rule::TripleWithPair(r) => r.matches(cards),
            Rule::FourWithTwo(r) => r.matches(cards),
            Rule::Bomb(r) => r.matches(cards),
            Rule::Rocket(r) => r.matches(cards),
            Rule::Chain(r) => r.matches(cards),
            Rule::AirplaneSingleWing(r) => r.matches(cards),
            Rule::AirplaneTwoWings(r) => r.matches(cards),
        }
    }

    /// The shape's name.
    pub fn to_string(&self) -> (s: &'static str)
        ensures
            s@ == self.name(),
    {
        match self {
            Rule::Empty(r) => r.to_string(),
            Rule::Single(r) => r.to_string(),
            Rule::Pair(r) => r.to_string(),
            Rule::TripleWithSingle(r) => r.to_string(),
            Rule::TripleWithPair(r) => r.to_string(),
            Rule::FourWithTwo(r) => r.to_string(),
            Rule::Bomb(r) => r.to_string(),
            Rule::Rocket(r) => r.to_string(),
            Rule::Chain(r) => r.to_string(),
            Rule::AirplaneSingleWing(r) => r.to_string(),
            Rule::AirplaneTwoWings(r) => r.to_string(),
        }
    }

    /// Whether this is the shape of an empty table.
    pub fn is_none(&self) -> (b: bool)
        ensures
            b == self.empty(),
    {
        match self {
            Rule::Empty(_) => true,
            _ => false,
        }
    }

    /// 2 for the rocket, 1 for a bomb, 0 for every other shape.
    pub fn bomb_priority(&self) -> (p: u32)
        ensures
            p == self.priority(),
    {
        match self {
            Rule::Bomb(r) => r.bomb_priority(),
            Rule::Rocket(r) => r.bomb_priority(),
            _ => 0,
        }
    }

    /// Whether a play of shape `candidate` may be laid on this one.
    pub fn beaten_by(&self, candidate: &Rule) -> (b: bool)
        ensures
            b == beats(*self, *candidate),
    {
        if candidate.is_none() {
            return false;
        }
        if self.is_none() || candidate.bomb_priority() > self.bomb_priority() {
            return true;
        }
        match (self, candidate) {
            (Rule::Single(a), Rule::Single(b)) => b.card.value() > a.card.value(),
            (Rule::Pair(a), Rule::Pair(b)) => b.card.value() > a.card.value(),
            (Rule::TripleWithSingle(a), Rule::TripleWithSingle(b)) => b.first.value()
                > a.first.value(),
            (Rule::TripleWithPair(a), Rule::TripleWithPair(b)) => b.first.value() > a.first.value(),
            (Rule::FourWithTwo(a), Rule::FourWithTwo(b)) => b.first.value() > a.first.value(),
            (Rule::Bomb(a), Rule::Bomb(b)) => b.card.value() > a.card.value(),
            (Rule::Chain(a), Rule::Chain(b)) => b.first.value() > a.first.value() && b.count
                == a.count,
            (Rule::AirplaneSingleWing(a), Rule::AirplaneSingleWing(b)) => b.first.value()
                > a.first.value() && b.count == a.count,
            (Rule::AirplaneTwoWings(a), Rule::AirplaneTwoWings(b)) => b.first.value()
                > a.first.value() && b.count == a.count,
            _ => false,
        }
    }
}

/// Classifies a card list: the shape it has, or the empty shape where it has
/// none. The order of the cards plays no part.
pub fn match_rule(cards: &[Card]) -> (r: Rule)
    requires
        cards@.len() <= u32::MAX,
    ensures
        r == classify(cards@),
{
    let groups = to_card_groups(cards);
    let n = cards.len();
    if n == 1 {
        if let Some(r) = RuleOne::from_groups(&groups) {
            return Rule::Single(r);
        }
    } else if n == 2 {
        if let Some(r) = RuleTwo::from_groups(&groups) {
            return Rule::Pair(r);
        }
        if let Some(r) = RuleRocket::from_groups(&groups) {
            return Rule::Rocket(r);
        }
    } else if n == 4 {
        if let Some(r) = RuleThreeWithOne::from_groups(&groups) {
            return Rule::TripleWithSingle(r);
        }
        if let Some(r) = RuleBomb::from_groups(&groups) {
            return Rule::Bomb(r);
        }
    } else {
        if let Some(r) = RuleThreeWithTwo::from_groups(&groups) {
            return Rule::TripleWithPair(r);
        }
        if let Some(r) = RuleFourWithTwo::from_groups(&groups) {
            return Rule::FourWithTwo(r);
        }
        if let Some(r) = RuleChain::from_groups(&groups) {
            return Rule::Chain(r);
        }
        if let Some(r) = RuleAirplaneWithOneWing::from_groups(&groups) {
            return Rule::AirplaneSingleWing(r);
        }
        if let Some(r) = RuleAirplaneWithTwoWings::from_groups(&groups) {
            return Rule::AirplaneTwoWings(r);
        }
    }
    Rule::Empty(RuleNone)
}

/// Whether `to_match` may be laid on a table that shows a play of shape
/// `rule`: they have a shape, and the table is empty, or they are a bomb or
/// the rocket of higher priority, or they have the table's shape, its number
/// of ranks and a higher principal rank.
pub fn rule_matches(rule: &Rule, to_match: &[Card]) -> (b: bool)
    requires
        to_match@.len() <= u32::MAX,
    ensures
        b == beats(*rule, classify(to_match@)),
{
    let candidate = match_rule(to_match);
    rule.beaten_by(&candidate)
}

/// Two card lists that hold the same cards, in whatever order, have the same
/// groups and so the same shape.
pub proof fn classify_ignores_order(a: Seq<Card>, b: Seq<Card>)
    requires
        a.to_multiset() == b.to_multiset(),
    ensures
        group_seq(a) == group_seq(b),
        classify(a) == classify(b),
{
    assert(tally(a) =~= tally(b)) by {
        assert forall|r: int| 0 <= r < tally(a).len() implies tally(a)[r] == tally(b)[r] by {
            lemma_count_is_multiplicity(a, Card::of_rank(r as nat));
            lemma_count_is_multiplicity(b, Card::of_rank(r as nat));
        }
    }
}

/// On an empty table every play that has a shape may be laid, and no other.
pub proof fn opening_beats_iff_legal(candidate: Rule)
    ensures
        beats(Rule::Empty(RuleNone), candidate) <==> !candidate.empty(),
{
}

/// Nothing without a shape beats anything.
pub proof fn shapeless_never_beats(table: Rule)
    ensures
        !beats(table, Rule::Empty(RuleNone)),
{
}

/// A bomb is beaten by a higher bomb and by the rocket only; the rocket by
/// nothing.
pub proof fn bomb_beaten_by(bomb: RuleBomb, candidate: Rule)
    ensures
        beats(Rule::Bomb(bomb), candidate) <==> (candidate matches Rule::Bomb(o)
            && o.card.rank() > bomb.card.rank()) || candidate is Rocket,
        !beats(Rule::Rocket(RuleRocket), candidate),
{
}

/// A bomb and the rocket beat every play that is neither.
pub proof fn bomb_beats_plain(table: Rule, candidate: Rule)
    requires
        table.priority() == 0,
        candidate.priority() > 0,
    ensures
        beats(table, candidate),
{
}

/// Between two single cards, and between two pairs, the higher rank decides.
pub proof fn same_shape_by_rank(a: Card, b: Card)
    ensures
        beats(Rule::Single(RuleOne { card: a }), Rule::Single(RuleOne { card: b })) <==> b.rank()
            > a.rank(),
        beats(Rule::Pair(RuleTwo { card: a }), Rule::Pair(RuleTwo { card: b })) <==> b.rank()
            > a.rank(),
{
}

/// Beating is never mutual, and nothing beats itself.
pub proof fn beats_is_asymmetric(a: Rule, b: Rule)
    requires
        beats(a, b),
    ensures
        !beats(b, a),
        a != b,
{
}

/// Groups of `count` cards each hold `count` times their number of cards.
pub proof fn lemma_all_count_total(gs: Seq<CardGroup>, count: u32)
    requires
        all_count(gs, count),
    ensures
        groups_total(gs) == count * gs.len(),
    decreases gs.len(),
{
    if gs.len() > 0 {
        let front = gs.drop_last();
        assert forall|i: int| 0 <= i < front.len() implies (#[trigger] front[i]).count == count by {
            assert(gs[i].count == count);
        }
        lemma_all_count_total(front, count);
        assert(gs[gs.len() - 1].count == count);
        assert(count * (gs.len() - 1) + count == count * gs.len()) by (nonlinear_arith);
    } else {
        assert(count * 0 == 0) by (nonlinear_arith);
    }
}

/// Where there are triples one group holds three cards, and where there are
/// other cards one group does not.
pub proof fn lemma_body_and_wing(gs: Seq<CardGroup>)
    ensures
        bodies(gs).len() > 0 ==> exists|i: int| 0 <= i < gs.len() && (#[trigger] gs[i]).count == 3,
        wing_cards(gs) > 0 ==> exists|i: int| 0 <= i < gs.len() && (#[trigger] gs[i]).count != 3,
    decreases gs.len(),
{
    if gs.len() > 0 {
        let front = gs.drop_last();
        lemma_body_and_wing(front);
        let last = gs.len() - 1;
        if bodies(gs).len() > 0 {
            if gs.last().count == 3 {
                assert(gs[last].count == 3);
            } else {
                let i = choose|i: int| 0 <= i < front.len() && (#[trigger] front[i]).count == 3;
                assert(gs[i].count == 3);
            }
        }
        if wing_cards(gs) > 0 {
            if gs.last().count != 3 {
                assert(gs[last].count != 3);
            } else {
                let i = choose|i: int| 0 <= i < front.len() && (#[trigger] front[i]).count != 3;
                assert(gs[i].count != 3);
            }
        }
    }
}

/// Where all groups are pairs or triples, the other cards are two for each
/// group that is no triple.
pub proof fn lemma_wings_of_pairs(gs: Seq<CardGroup>)
    requires
        all_pairs_or_triples(gs),
    ensures
        wing_cards(gs) == 2 * (gs.len() - bodies(gs).len()),
        bodies(gs).len() <= gs.len(),
    decreases gs.len(),
{
    if gs.len() > 0 {
        let front = gs.drop_last();
        assert forall|i: int| 0 <= i < front.len() implies (#[trigger] front[i]).count == 2
            || front[i].count == 3 by {
            assert(gs[i].count == 2 || gs[i].count == 3);
        }
        lemma_wings_of_pairs(front);
        assert(gs[gs.len() - 1].count == 2 || gs[gs.len() - 1].count == 3);
    }
}

/// A valid group list has at most one shape: where the rule of any one shape
/// reads it, the classifier gives that shape with the same ranks. (The rocket
/// is left out: two jokers of one kind are read as a pair first.)
pub proof fn lemma_one_shape(gs: Seq<CardGroup>)
    requires
        groups_wf(gs),
    ensures
        RuleOne::of_groups(gs) matches Some(o) ==> classify_groups(gs) == Rule::Single(o),
        RuleTwo::of_groups(gs) matches Some(o) ==> classify_groups(gs) == Rule::Pair(o),
        RuleThreeWithOne::of_groups(gs) matches Some(o) ==> classify_groups(gs)
            == Rule::TripleWithSingle(o),
        RuleThreeWithTwo::of_groups(gs) matches Some(o) ==> classify_groups(gs)
            == Rule::TripleWithPair(o),
        RuleFourWithTwo::of_groups(gs) matches Some(o) ==> classify_groups(gs) == Rule::FourWithTwo(
            o,
        ),
        RuleBomb::of_groups(gs) matches Some(o) ==> classify_groups(gs) == Rule::Bomb(o),
        RuleChain::of_groups(gs) matches Some(o) ==> classify_groups(gs) == Rule::Chain(o),
        RuleAirplaneWithOneWing::of_groups(gs) matches Some(o) ==> classify_groups(gs)
            == Rule::AirplaneSingleWing(o),
        RuleAirplaneWithTwoWings::of_groups(gs) matches Some(o) ==> classify_groups(gs)
            == Rule::AirplaneTwoWings(o),
{
    lemma_find_count(gs, 3);
    lemma_find_count(gs, 4);
    lemma_bodies_total(gs);
    lemma_body_and_wing(gs);
    if gs.len() == 1 {
        assert(groups_total(gs.drop_last()) == 0);
        assert(groups_total(gs) == gs[0].count);
    }
    if RuleChain::of_groups(gs) is Some {
        let c = gs[0].count;
        lemma_all_count_total(gs, c);
        assert(groups_total(gs) >= 5) by (nonlinear_arith)
            requires
                groups_total(gs) == c * gs.len(),
                (c == 1 && gs.len() >= 5) || (c == 2 && gs.len() >= 3) || (c == 3 && gs.len() >= 2),
        ;
        assert(groups_total(gs) != 5 || c == 1) by (nonlinear_arith)
            requires
                groups_total(gs) == c * gs.len(),
                c == 1 || c == 2 || c == 3,
                (c == 1 && gs.len() >= 5) || (c == 2 && gs.len() >= 3) || (c == 3 && gs.len() >= 2),
        ;
        assert(find_count(gs, 4).is_none());
        if c != 3 {
            assert(find_count(gs, 3).is_none());
        }
    }
    if RuleAirplaneWithOneWing::of_groups(gs) is Some {
        let i = choose|i: int| 0 <= i < gs.len() && (#[trigger] gs[i]).count == 3;
        let j = choose|j: int| 0 <= j < gs.len() && (#[trigger] gs[j]).count != 3;
        assert(!all_count(gs, gs[0].count));
    }
    if RuleAirplaneWithTwoWings::of_groups(gs) is Some {
        lemma_wings_of_pairs(gs);
        let i = choose|i: int| 0 <= i < gs.len() && (#[trigger] gs[i]).count == 3;
        let j = choose|j: int| 0 <= j < gs.len() && (#[trigger] gs[j]).count != 3;
        assert(!all_count(gs, gs[0].count));
    }
}

/// A shape's own rule and the classifier agree: cards are of the table's
/// shape and higher, as the table's rule reads them, exactly where the shape
/// that the classifier gives them is.
pub proof fn own_rule_is_classifier(table: Rule, cards: Seq<Card>)
    requires
        cards.len() <= u32::MAX,
    ensures
        table.matched_by(group_seq(cards)) == table.lower_than(classify(cards)),
{
    lemma_group_seq(cards);
    lemma_one_shape(group_seq(cards));
}

} // verus!
