//! A seat at the table: who sits there, what they hold and which side they
//! play on.
use crate::card::Card;
use crate::group::cards_sorted;
use vstd::prelude::*;

verus! {

/// What identifies a user: the user's unique name.
pub type UserId = String;

/// The side a player is on.
#[derive(Clone, Copy, Debug, PartialEq, Eq, Structural)]
pub enum PlayerType {
    Farmer,
    Landlord,
}

/// One player of a game, for as long as the game lasts.
#[derive(Debug, PartialEq, Eq)]
pub struct Player {
    pub user: UserId,
    pub cards: Vec<Card>,
    pub player_type: PlayerType,
}

impl Player {
    /// Validity of a seat: the hand is in ascending rank order and short
    /// enough to be counted.
    pub open spec fn wf(&self) -> bool {
        &&& cards_sorted(self.cards@)
        &&& self.cards@.len() <= u32::MAX
    }

    /// A farmer with an empty hand.
    pub fn new(user: UserId) -> (p: Player)
        ensures
            p.user == user,
            p.cards@ == Seq::<Card>::empty(),
            p.player_type == PlayerType::Farmer,
            p.wf(),
    {
        Player { user, cards: Vec::new(), player_type: PlayerType::Farmer }
    }
}

} // verus!
