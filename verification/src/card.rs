//! The card model: fifteen ranks and a sentinel, ordered by rank index.
use vstd::prelude::*;

verus! {

/// One card. The variants are listed in ascending game order, so the derived
/// ordering agrees with [`Card::value`].
#[derive(Clone, Copy, Debug, PartialEq, Eq, Structural, PartialOrd, Ord, Hash)]
pub enum Card {
    Unknown,
    Card3,
    Card4,
    Card5,
    Card6,
    Card7,
    Card8,
    Card9,
    Card10,
    CardJ,
    CardQ,
    CardK,
    CardA,
    Card2,
    CardGhost,
    CardKing,
}

/// Number of distinct rank indices, the sentinel's index 0 included.
pub const RANKS: usize = 16;

impl Card {
    /// The rank index: 0 for the sentinel, 1 for the three, up to 15 for the
    /// big joker.
    pub open spec fn rank(self) -> nat {
        match self {
            Card::Unknown => 0,
            Card::Card3 => 1,
            Card::Card4 => 2,
            Card::Card5 => 3,
            Card::Card6 => 4,
            Card::Card7 => 5,
            Card::Card8 => 6,
            Card::Card9 => 7,
            Card::Card10 => 8,
            Card::CardJ => 9,
            Card::CardQ => 10,
            Card::CardK => 11,
            Card::CardA => 12,
            Card::Card2 => 13,
            Card::CardGhost => 14,
            Card::CardKing => 15,
        }
    }

    /// The card with a given rank index; the sentinel for every index that no
    /// card has.
    pub open spec fn of_rank(n: nat) -> Card {
        if n == 1 {
            Card::Card3
        } else if n == 2 {
            Card::Card4
        } else if n == 3 {
            Card::Card5
        } else if n == 4 {
            Card::Card6
        } else if n == 5 {
            Card::Card7
        } else if n == 6 {
            Card::Card8
        } else if n == 7 {
            Card::Card9
        } else if n == 8 {
            Card::Card10
        } else if n == 9 {
            Card::CardJ
        } else if n == 10 {
            Card::CardQ
        } else if n == 11 {
            Card::CardK
        } else if n == 12 {
            Card::CardA
        } else if n == 13 {
            Card::Card2
        } else if n == 14 {
            Card::CardGhost
        } else if n == 15 {
            Card::CardKing
        } else {
            Card::Unknown
        }
    }

    /// The card that a glyph stands for. The ten is written with the single
    /// glyph `1`.
    pub open spec fn of_glyph(g: char) -> Card {
        if g == '2' {
            Card::Card2
        } else if g == '3' {
            Card::Card3
        } else if g == '4' {
            Card::Card4
        } else if g == '5' {
            Card::Card5
        } else if g == '6' {
            Card::Card6
        } else if g == '7' {
            Card::Card7
        } else if g == '8' {
            Card::Card8
        } else if g == '9' {
            Card::Card9
        } else if g == '1' {
            Card::Card10
        } else if g == 'J' {
            Card::CardJ
        } else if g == 'Q' {
            Card::CardQ
        } else if g == 'K' {
            Card::CardK
        } else if g == 'A' {
            Card::CardA
        } else if g == '鬼' {
            Card::CardGhost
        } else if g == '王' {
            Card::CardKing
        } else {
            Card::Unknown
        }
    }

    /// The text a card is shown as; empty for the sentinel.
    pub open spec fn text(self) -> Seq<char> {
        match self {
            Card::Unknown => seq![],
            Card::Card3 => seq!['3'],
            Card::Card4 => seq!['4'],
            Card::Card5 => seq!['5'],
            Card::Card6 => seq!['6'],
            Card::Card7 => seq!['7'],
            Card::Card8 => seq!['8'],
            Card::Card9 => seq!['9'],
            Card::Card10 => seq!['1', '0'],
            Card::CardJ => seq!['J'],
            Card::CardQ => seq!['Q'],
            Card::CardK => seq!['K'],
            Card::CardA => seq!['A'],
            Card::Card2 => seq!['2'],
            Card::CardGhost => seq!['鬼'],
            Card::CardKing => seq!['王'],
        }
    }

    /// Reads one glyph. Every glyph that names no card gives the sentinel.
    pub fn from_char(card: &char) -> (c: Card)
        ensures
            c == Card::of_glyph(*card),
    {
        match *card {
            '2' => Card::Card2,
            '3' => Card::Card3,
            '4' => Card::Card4,
            '5' => Card::Card5,
            '6' => Card::Card6,
            '7' => Card::Card7,
            '8' => Card::Card8,
            '9' => Card::Card9,
            '1' => Card::Card10,
            'J' => Card::CardJ,
            'Q' => Card::CardQ,
            'K' => Card::CardK,
            'A' => Card::CardA,
            '鬼' => Card::CardGhost,
            '王' => Card::CardKing,
            _ => Card::Unknown,
        }
    }

    /// The card's text.
    pub fn to_string(&self) -> (s: &'static str)
        ensures
            s@ == self.text(),
    {
        proof {
            reveal_strlit("");
            reveal_strlit("2");
            reveal_strlit("3");
            reveal_strlit("4");
            reveal_strlit("5");
            reveal_strlit("6");
            reveal_strlit("7");
            reveal_strlit("8");
            reveal_strlit("9");
            reveal_strlit("10");
            reveal_strlit("J");
            reveal_strlit("Q");
            reveal_strlit("K");
            reveal_strlit("A");
            reveal_strlit("鬼");
            reveal_strlit("王");
        }
        let s = match self {
            Card::Card2 => "2",
            Card::Card3 => "3",
            Card::Card4 => "4",
            Card::Card5 => "5",
            Card::Card6 => "6",
            Card::Card7 => "7",
            Card::Card8 => "8",
            Card::Card9 => "9",
            Card::Card10 => "10",
            Card::CardJ => "J",
            Card::CardQ => "Q",
            Card::CardK => "K",
            Card::CardA => "A",
            Card::CardGhost => "鬼",
            Card::CardKing => "王",
            Card::Unknown => "",
        };
        assert(s@ =~= self.text());
        s
    }

    /// The rank index, by which cards are ordered and counted.
    pub fn value(&self) -> (v: u32)
        ensures
            v == self.rank(),
            v < RANKS,
    {
        match self {
            Card::Unknown => 0,
            Card::Card3 => 1,
            Card::Card4 => 2,
            Card::Card5 => 3,
            Card::Card6 => 4,
            Card::Card7 => 5,
            Card::Card8 => 6,
            Card::Card9 => 7,
            Card::Card10 => 8,
            Card::CardJ => 9,
            Card::CardQ => 10,
            Card::CardK => 11,
            Card::CardA => 12,
            Card::Card2 => 13,
            Card::CardGhost => 14,
            Card::CardKing => 15,
        }
    }

    /// The card with rank index `i`, or the sentinel.
    pub fn from_value(i: u32) -> (c: Card)
        ensures
            c == Card::of_rank(i as nat),
    {
        match i {
            1 => Card::Card3,
            2 => Card::Card4,
            3 => Card::Card5,
            4 => Card::Card6,
            5 => Card::Card7,
            6 => Card::Card8,
            7 => Card::Card9,
            8 => Card::Card10,
            9 => Card::CardJ,
            10 => Card::CardQ,
            11 => Card::CardK,
            12 => Card::CardA,
            13 => Card::Card2,
            14 => Card::CardGhost,
            15 => Card::CardKing,
            _ => Card::Unknown,
        }
    }
}

impl Default for Card {
    fn default() -> (c: Card)
        ensures
            c == Card::Unknown,
    {
        Card::Unknown
    }
}

/// Rank indices name cards one for one: a card is found again from its index,
/// and every index below sixteen from its card.
pub proof fn rank_round_trip(c: Card, n: nat)
    ensures
        Card::of_rank(c.rank()) == c,
        c.rank() < 16,
        n < 16 ==> Card::of_rank(n).rank() == n,
        n >= 16 ==> Card::of_rank(n) == Card::Unknown,
{
}

/// Two cards with the same rank index are the same card.
pub proof fn rank_injective(a: Card, b: Card)
    requires
        a.rank() == b.rank(),
    ensures
        a == b,
{
    rank_round_trip(a, 0);
    rank_round_trip(b, 0);
}

/// Reading the first glyph of a card's text gives the card back, for every
/// card but the sentinel, whose text is empty.
pub proof fn glyph_round_trip(c: Card)
    requires
        c != Card::Unknown,
    ensures
        c.text().len() >= 1,
        Card::of_glyph(c.text()[0]) == c,
{
}

} // verus!
