//! What server and client tell each other, as plain data.
use crate::card::Card;
use crate::error::{GameError, LobbyError, RoomError};
use crate::player::UserId;
use crate::user::User;
use std::time::Duration;
use vstd::prelude::*;

verus! {

/// What the process that owns the rooms is woken for.
#[derive(Clone, Copy, Debug, PartialEq, Eq, Structural)]
pub enum Signal {
    Greet,
    Matchmake,
}

/// From the server to a client.
#[derive(Debug, PartialEq, Eq)]
pub enum S2CMessage {
    /// The answer to a ping.
    Pong,
    /// The user's data have changed.
    UpdateData(User),
    /// The user is logged in.
    LoggedIn,
    /// The names of the rooms.
    RoomList(Vec<String>),
    /// The user has joined the room of this name.
    RoomJoined(String),
    /// A room refused.
    RoomErr(RoomError),
    /// The lobby refused.
    LobbyErr(LobbyError),
    /// A game refused, or is won.
    GameErr(GameError),
    /// The game has started: the client's hand, and who is asked first to be
    /// landlord.
    GameStarted(Vec<Card>, String),
    /// Who is asked next to be landlord.
    LandlordMove(String),
    /// Who is landlord, and the landlord's three cards.
    LordCards(String, Vec<Card>),
    /// Who laid which cards.
    CardsSubmitted(String, Vec<Card>),
    /// How many players wait for a match, the time expected and the time
    /// left.
    MatchmakeStatus(u32, Duration, Duration),
    /// Whose turn it is.
    Move(String),
    /// Who voted on a rematch, how, and how many are for it.
    RematchVote(UserId, bool, u32),
}

/// From a client to the server.
#[derive(Clone, Debug, PartialEq, Eq)]
pub enum C2SMessage {
    /// Lay these cards.
    SubmitCards(Vec<Card>),
    /// Lay nothing.
    Pass,
    /// Take or leave the landlord's part.
    ChooseLandlord(bool),
    Ping,
    Login(String),
    QueryRoomList,
    JoinRoom(String),
    /// Wait for a match.
    Matchmake,
    /// Ask how the wait for a match stands.
    QueryMatchmake,
    StartGame(String),
    RematchVote(bool),
}

} // verus!
