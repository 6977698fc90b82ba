//! What a room, the lobby or a game answers when it does not do what was
//! asked.
use crate::player::{PlayerType, UserId};
use vstd::prelude::*;

verus! {

/// Why a room refused.
#[derive(Clone, Copy, Debug, PartialEq, Eq, Structural)]
pub enum RoomError {
    /// The room is not ready: too few players.
    NotReady,
    /// The game has not come to the choice of a landlord.
    NotStarted,
    /// It is another player's turn to take or leave the landlord's part.
    NotLandlordPlayer,
    /// The room is full.
    RoomFull,
}

/// Why the lobby refused.
#[derive(Clone, Copy, Debug, PartialEq, Eq, Structural)]
pub enum LobbyError {
    /// The user is in the room already.
    HasJoinedRoom,
    /// The room is full.
    RoomFull,
    RoomErr(RoomError),
    OtherError,
}

/// What a game answers in place of the next player: a refusal, or the news
/// that the game is won.
#[derive(Clone, Debug, PartialEq, Eq)]
pub enum GameError {
    NotEnoughPlayers,
    NotRunning,
    IsRunning,
    NotReady,
    NotYourTurn,
    NoSuchCards,
    WrongRule,
    NoRule,
    /// The game is won: who laid the last card, on which side, and the
    /// points won.
    Win(UserId, PlayerType, u32),
    /// The player must lead and cannot pass.
    YourTurn,
}

impl RoomError {
    /// The text shown for the refusal.
    pub open spec fn text(self) -> Seq<char> {
        match self {
            RoomError::NotReady => "房间未准备好"@,
            RoomError::NotStarted => "游戏尚未开始"@,
            RoomError::NotLandlordPlayer => "不是你叫地主"@,
            RoomError::RoomFull => "房间已满"@,
        }
    }

    /// The text shown for the refusal.
    pub fn to_string(&self) -> (s: &'static str)
        ensures
            s@ == self.text(),
    {
        match self {
            RoomError::NotReady => "房间未准备好",
            RoomError::NotStarted => "游戏尚未开始",
            RoomError::NotLandlordPlayer => "不是你叫地主",
            RoomError::RoomFull => "房间已满",
        }
    }
}

impl LobbyError {
    /// The text shown for the refusal.
    pub open spec fn text(self) -> Seq<char> {
        match self {
            LobbyError::RoomFull => "Room is full"@,
            _ => "Lobby error"@,
        }
    }

    /// The text shown for the refusal.
    pub fn to_string(&self) -> (s: &'static str)
        ensures
            s@ == self.text(),
    {
        match self {
            LobbyError::RoomFull => "Room is full",
            _ => "Lobby error",
        }
    }
}

impl GameError {
    /// The text shown for the answer, the same for all.
    pub fn to_string(&self) -> (s: &'static str)
        ensures
            s@ == "Game error"@,
    {
        "Game error"
    }
}

} // verus!
