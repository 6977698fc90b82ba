//! Reading cards from a line of text.
//!
//! A line is first normalised: ASCII letters are put in upper case and the
//! two glyphs `10` become the one glyph `1`, by which the ten is known; a
//! `1` that stood alone becomes `0`, which names no card. The cards are then
//! those of the first run of card glyphs in the line.
use crate::card::Card;
use regex::Regex;
use vstd::prelude::*;
use vstd::string::StrSliceExecFns;

verus! {

/// The ASCII upper case of a character.
pub open spec fn upper_char(c: char) -> char {
    if 'a' <= c <= 'z' {
        ((c as u32) - 32) as char
    } else {
        c
    }
}

/// The ASCII upper case of a text.
pub open spec fn upper(s: Seq<char>) -> Seq<char> {
    Seq::new(s.len(), |i: int| upper_char(s[i]))
}

/// The text with every occurrence of `from`, found from the left and not
/// overlapping, replaced by `to`.
pub open spec fn replaced(s: Seq<char>, from: Seq<char>, to: Seq<char>) -> Seq<char>
    decreases s.len(),
{
    if from.len() == 0 || s.len() < from.len() {
        s
    } else if s.take(from.len() as int) == from {
        to + replaced(s.skip(from.len() as int), from, to)
    } else {
        seq![s[0]] + replaced(s.skip(1), from, to)
    }
}

/// The normalised line: upper case, each `10` turned into `1` and each
/// other `1` into `0`. The letter `ß` serves as the stand-in for `10` on the
/// way, so a `ß` of the line itself comes out as `1` too.
pub open spec fn normalized(input: Seq<char>) -> Seq<char> {
    replaced(
        replaced(replaced(upper(input), seq!['1', '0'], seq!['ß']), seq!['1'], seq!['0']),
        seq!['ß'],
        seq!['1'],
    )
}

/// The cards that the glyphs of a text name, in order; glyphs that name no
/// card are passed over.
pub open spec fn cards_of_text(t: Seq<char>) -> Seq<Card>
    decreases t.len(),
{
    if t.len() == 0 {
        Seq::empty()
    } else if Card::of_glyph(t.last()) != Card::Unknown {
        cards_of_text(t.drop_last()).push(Card::of_glyph(t.last()))
    } else {
        cards_of_text(t.drop_last())
    }
}

/// The cards of a run of glyphs, with `10` read as the ten; nothing where
/// the run names no card.
pub open spec fn cards_of_run(run: Seq<char>) -> Option<Seq<Card>> {
    let cards = cards_of_text(replaced(run, seq!['1', '0'], seq!['1']));
    if cards.len() == 0 {
        None
    } else {
        Some(cards)
    }
}

/// The first match of the regular expression `pattern` in `text`, as the
/// `regex` crate finds it; nothing where there is no match or `pattern` is
/// no regular expression that the crate accepts.
pub uninterp spec fn regex_first_match(pattern: Seq<char>, text: Seq<char>) -> Option<Seq<char>>;

/// The cards of a line, as [`parse_input`] reads them.
pub open spec fn parsed(input: Seq<char>) -> Option<Seq<Card>> {
    match regex_first_match(card_run_pattern(), normalized(input)) {
        Some(run) => cards_of_run(run),
        None => None,
    }
}

/// The regular expression for a run of card glyphs: one or more of the
/// digits `1` to `9`, the letters `J`, `Q`, `K`, `A` in either case, and the
/// two joker glyphs.
pub open spec fn card_run_pattern() -> Seq<char> {
    "([1-9jqkaJQKA]|鬼|王)+"@
}

/// std's `str::to_ascii_uppercase`: a copy of the text in which the ASCII
/// letters `a` to `z` are replaced by `A` to `Z` and nothing else is
/// changed.
#[verifier::external_body]
fn ascii_uppercase(s: &str) -> (r: String)
    ensures
        r@ == upper(s@),
{
    s.to_ascii_uppercase()
}

/// std's `str::replace` with a text as the pattern: a copy of `s` in which
/// all matches of `from`, which do not overlap and are found from the left,
/// are replaced by `to`.
#[verifier::external_body]
fn replace_str(s: &str, from: &str, to: &str) -> (r: String)
    requires
        from@.len() > 0,
    ensures
        r@ == replaced(s@, from@, to@),
{
    s.replace(from, to)
}

/// `regex`'s `Regex::new` and, on the expression it gives, `Regex::find`:
/// the text of the first match of `pattern` in `text`. Nothing is returned
/// where `Regex::new` refuses the pattern or `Regex::find` finds no match.
/// The contract claims only that the answer depends on the two texts alone.
#[verifier::external_body]
fn regex_find(pattern: &str, text: &str) -> (r: Option<String>)
    ensures
        match r {
            Some(m) => regex_first_match(pattern@, text@) == Some(m@),
            None => regex_first_match(pattern@, text@).is_none(),
        },
{
    match Regex::new(pattern) {
        Ok(re) => match re.find(text) {
            Some(found) => Some(found.as_str().to_string()),
            None => None,
        },
        Err(_) => None,
    }
}

/// Reads the cards of a run of glyphs. `10` is read as the ten, as `1` is;
/// glyphs that name no card are passed over; there is no result where no
/// card is left.
pub fn cards_from_run(run: &str) -> (r: Option<Vec<Card>>)
    ensures
        match r {
            Some(cards) => cards_of_run(run@) == Some(cards@),
            None => cards_of_run(run@).is_none(),
        },
{
    proof {
        reveal_strlit("10");
        reveal_strlit("1");
        assert("10"@ =~= seq!['1', '0']);
        assert("1"@ =~= seq!['1']);
    }
    let text = replace_str(run, "10", "1");
    let n = text.as_str().unicode_len();
    let mut cards: Vec<Card> = Vec::new();
    let mut i: usize = 0;
    while i < n
        invariant
            i <= n,
            n == text@.len(),
            cards@ == cards_of_text(text@.take(i as int)),
        decreases n - i,
    {
        let glyph = text.as_str().get_char(i);
        let card = Card::from_char(&glyph);
        proof {
            assert(text@.take(i + 1).drop_last() =~= text@.take(i as int));
        }
        if card != Card::Unknown {
            cards.push(card);
        }
        i += 1;
    }
    proof {
        assert(text@.take(n as int) =~= text@);
    }
    if cards.len() == 0 {
        None
    } else {
        Some(cards)
    }
}

/// Reads the cards of a line of text: the line is normalised, and the cards
/// are those of the first run of card glyphs in it. There is no result where
/// the line has no such run.
pub fn parse_input(input: &str) -> (r: Option<Vec<Card>>)
    ensures
        match r {
            Some(cards) => parsed(input@) == Some(cards@),
            None => parsed(input@).is_none(),
        },
{
    proof {
        reveal_strlit("10");
        reveal_strlit("1");
        reveal_strlit("0");
        reveal_strlit("ß");
        assert("10"@ =~= seq!['1', '0']);
        assert("1"@ =~= seq!['1']);
        assert("0"@ =~= seq!['0']);
        assert("ß"@ =~= seq!['ß']);
    }
    let text = ascii_uppercase(input);
    let text = replace_str(text.as_str(), "10", "ß");
    let text = replace_str(text.as_str(), "1", "0");
    let text = replace_str(text.as_str(), "ß", "1");
    match regex_find("([1-9jqkaJQKA]|鬼|王)+", text.as_str()) {
        Some(run) => cards_from_run(run.as_str()),
        None => None,
    }
}

} // verus!
