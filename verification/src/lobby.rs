//! Rooms, and the lobby that keeps them: who has joined which room, what
//! each user is doing, and what the users are to be told.
use crate::card::Card;
use crate::deck::is_full_deck;
use crate::error::{GameError, LobbyError, RoomError};
use crate::game::{Game, GameState, SEATS};
use crate::messages::S2CMessage;
use crate::player::{Player, UserId};
use rand::rngs::StdRng;
use vstd::prelude::*;

verus! {

/// Where a room stands.
#[derive(Clone, Copy, Debug, PartialEq, Eq, Structural)]
pub enum RoomState {
    /// Players may join.
    Waiting,
    /// The room is full and the game may start.
    Ready,
    /// A game is over and so many players have voted for another.
    WaitingForRematch(u32),
}

/// A room and its game.
pub struct Room {
    pub name: String,
    pub users: Vec<UserId>,
    pub game: Game,
    pub game_name: String,
    pub state: RoomState,
}

/// What a lobby does when users come and go. The library states nothing of
/// an implementation.
pub trait Lobby {
    /// A user has logged in.
    fn login(&mut self, user: String);

    /// A user's connection is gone.
    fn disconnect(&mut self, user: &str);
}

/// Whether a user of that name is in the list.
pub open spec fn has_user(users: Seq<UserId>, id: Seq<char>) -> bool {
    exists|i: int| 0 <= i < users.len() && (#[trigger] users[i])@ == id
}

/// Whether a user of that name is in the list.
fn contains_user(users: &Vec<UserId>, id: &UserId) -> (b: bool)
    ensures
        b == has_user(users@, id@),
{
    let mut i: usize = 0;
    while i < users.len()
        invariant
            i <= users@.len(),
            forall|j: int| 0 <= j < i ==> (#[trigger] users@[j])@ != id@,
        decreases users.len() - i,
    {
        if users[i] == *id {
            return true;
        }
        i += 1;
    }
    false
}

impl Room {
    /// Validity of a room: that of its game, and fewer than three votes
    /// where votes are counted.
    pub open spec fn wf(&self) -> bool {
        &&& self.game.wf()
        &&& self.state matches RoomState::WaitingForRematch(count) ==> count < SEATS
    }

    /// Whether the room is new: it has the name `name`, no users, and a game
    /// without players that waits for players.
    pub open spec fn is_new(&self, name: String) -> bool {
        &&& self.name == name
        &&& self.users@.len() == 0
        &&& self.game.players@.len() == 0
        &&& self.game.state == GameState::WaitingForPlayers
        &&& self.game.score_multiplier == 1
        &&& self.game_name@.len() == 0
        &&& self.state == RoomState::Waiting
    }

    /// Whether all but the game is the same in both rooms.
    pub open spec fn same_room(&self, other: &Room) -> bool {
        &&& self.name == other.name
        &&& self.users@ == other.users@
        &&& self.game_name == other.game_name
        &&& self.state == other.state
    }

    /// Whether the room is new but for its first user: it has the name
    /// `name`, the one user `user`, who is seated as a farmer with an empty
    /// hand, and a game that waits for players.
    pub open spec fn is_new_with(&self, name: String, user: UserId) -> bool {
        &&& self.name == name
        &&& self.users@.len() == 1
        &&& self.users@[0] == user
        &&& self.game.players@.len() == 1
        &&& self.game.players@[0].user == user
        &&& self.game.players@[0].cards@.len() == 0
        &&& self.game.players@[0].player_type == crate::player::PlayerType::Farmer
        &&& self.game.state == GameState::WaitingForPlayers
        &&& self.game.score_multiplier == 1
        &&& self.game_name@.len() == 0
        &&& self.state == RoomState::Waiting
    }

    /// Whether a user of that name may join: no user of that name has, and
    /// there are not three users yet.
    pub open spec fn may_join(&self, user: Seq<char>) -> bool {
        !has_user(self.users@, user) && self.users@.len() != SEATS
    }

    /// Why a user may not join, where not.
    pub open spec fn join_error(&self, user: Seq<char>) -> LobbyError {
        if has_user(self.users@, user) {
            LobbyError::HasJoinedRoom
        } else {
            LobbyError::RoomFull
        }
    }

    /// Whether the room's game may start: the room is `Ready`, and the game
    /// has three players and waits for players.
    pub open spec fn may_start(&self) -> bool {
        self.state == RoomState::Ready && self.game.ready()
    }

    /// Whether `after` is `before` with `user` taken in, whatever the room's
    /// state is then: the user is the last of the room's users, and is seated
    /// as a farmer with an empty hand where the game has a free seat.
    pub open spec fn pushed(before: &Room, user: UserId, after: &Room) -> bool {
        &&& after.users@ == before.users@.push(user)
        &&& after.name == before.name
        &&& after.game_name == before.game_name
        &&& after.game.same_table(&before.game)
        &&& if before.game.state == GameState::WaitingForPlayers && before.game.players@.len()
            < SEATS {
            &&& after.game.players@.len() == before.game.players@.len() + 1
            &&& after.game.players@.drop_last() == before.game.players@
            &&& after.game.players@.last().user == user
            &&& after.game.players@.last().cards@.len() == 0
            &&& after.game.players@.last().player_type == crate::player::PlayerType::Farmer
        } else {
            after.game.players@ == before.game.players@
        }
    }

    /// What `join` does: where the user may join, the user is taken in, see
    /// [`Room::pushed`], and the room is `Ready` where it is full now, which
    /// the answer says; where not, nothing changes.
    pub open spec fn joined(
        before: &Room,
        user: UserId,
        after: &Room,
        r: Result<bool, LobbyError>,
    ) -> bool {
        if before.may_join(user@) {
            let full = before.users@.len() + 1 == SEATS;
            &&& r == Ok::<bool, LobbyError>(full)
            &&& Room::pushed(before, user, after)
            &&& after.state == if full {
                RoomState::Ready
            } else {
                before.state
            }
        } else {
            *after == *before && r == Err::<bool, LobbyError>(before.join_error(user@))
        }
    }

    /// What `start_game` does: where the game may start, it is started, see
    /// [`Game::start_with`], and the answer names the first candidate for
    /// landlord; where not, nothing changes.
    pub open spec fn started(before: &Room, after: &Room, r: Result<UserId, RoomError>) -> bool {
        if before.may_start() {
            &&& after.same_room(before)
            &&& after.game.conserved()
            &&& exists|deck: Seq<Card>, candidate: usize|
                {
                    &&& is_full_deck(deck)
                    &&& candidate < SEATS
                    &&& #[trigger] Game::dealt(&before.game, deck, candidate, &after.game)
                    &&& r == Ok::<UserId, RoomError>(after.game.players@[candidate as int].user)
                }
        } else {
            *after == *before && r == Err::<UserId, RoomError>(RoomError::NotReady)
        }
    }

    /// What `choose_landlord` does: where `user` is the candidate, the user
    /// becomes landlord, see [`Game::settled`], or the next seat is asked,
    /// see [`Game::asked_on`], and the answer is what the room is to be told;
    /// where not, nothing changes.
    pub open spec fn chose(
        before: &Room,
        user: Seq<char>,
        choose: bool,
        after: &Room,
        r: Result<S2CMessage, RoomError>,
    ) -> bool {
        if !before.game.asks(user) {
            *after == *before && r == Err::<S2CMessage, RoomError>(before.game.landlord_error())
        } else if choose {
            &&& after.same_room(before)
            &&& Game::settled(&before.game, &after.game)
            &&& r matches Ok(S2CMessage::LordCards(id, pool)) && id@ == user && pool@
                == before.game.landlord_cards@
        } else {
            &&& after.same_room(before)
            &&& Game::asked_on(&before.game, &after.game)
            &&& r matches Ok(S2CMessage::LandlordMove(id)) && id
                == after.game.players@[after.game.landlord_index as int].user
        }
    }

    /// What `submit_cards` does: where it is `user`'s turn and the play is
    /// accepted, the play is made, see [`Game::played`], and the room waits
    /// for a rematch, with no vote yet, where the play wins the game; where
    /// not, nothing changes.
    pub open spec fn laid(
        before: &Room,
        user: Seq<char>,
        cards: Seq<Card>,
        after: &Room,
        r: Result<UserId, GameError>,
    ) -> bool {
        if !before.game.turn_of(user) {
            *after == *before && r == Err::<UserId, GameError>(before.game.turn_error())
        } else if !before.game.accepts(cards) {
            *after == *before && r == Err::<UserId, GameError>(before.game.play_error(cards))
        } else {
            &&& Game::played(&before.game, cards, &after.game, r)
            &&& after.name == before.name
            &&& after.users@ == before.users@
            &&& after.game_name == before.game_name
            &&& after.state == if r.is_err() {
                RoomState::WaitingForRematch(0)
            } else {
                before.state
            }
        }
    }

    /// What `pass` does: where it is `user`'s turn and the user may pass, the
    /// turn moves on, see [`Game::moved_on`]; where not, nothing changes.
    pub open spec fn passed(
        before: &Room,
        user: Seq<char>,
        after: &Room,
        r: Result<UserId, GameError>,
    ) -> bool {
        if !before.game.turn_of(user) {
            *after == *before && r == Err::<UserId, GameError>(before.game.turn_error())
        } else if !before.game.may_pass() {
            *after == *before && r == Err::<UserId, GameError>(GameError::YourTurn)
        } else {
            &&& after.same_room(before)
            &&& Game::moved_on(&before.game, &after.game)
            &&& r == Ok::<UserId, GameError>(after.game.players@[after.game.index as int].user)
        }
    }

    /// The votes for a rematch with one more vote: counted where the room
    /// waits for a rematch, with the vote added where it is for it.
    pub open spec fn votes(&self, vote: bool) -> Result<(u32, bool), RoomError> {
        match self.state {
            RoomState::WaitingForRematch(count) => Ok(
                (
                    if vote {
                        (count + 1) as u32
                    } else {
                        count
                    },
                    vote,
                ),
            ),
            _ => Err(RoomError::NotReady),
        }
    }

    /// What `vote` does: the vote is counted, see [`Room::votes`], and the
    /// count is noted. With the third vote for a rematch the room is
    /// `Ready` again, so that its game can be started once more.
    pub open spec fn voted(
        before: &Room,
        vote: bool,
        after: &Room,
        r: Result<(u32, bool), RoomError>,
    ) -> bool {
        &&& r == before.votes(vote)
        &&& after.name == before.name
        &&& after.users@ == before.users@
        &&& after.game_name == before.game_name
        &&& after.game == before.game
        &&& after.state == match r {
            Ok((count, _)) => if count == SEATS {
                RoomState::Ready
            } else {
                RoomState::WaitingForRematch(count)
            },
            Err(_) => before.state,
        }
    }

    /// An empty room that waits for players.
    pub fn new(name: String) -> (room: Room)
        ensures
            room.wf(),
            room.is_new(name),
    {
        Room {
            name,
            users: Vec::new(),
            game: Game::new(),
            game_name: String::new(),
            state: RoomState::Waiting,
        }
    }

    /// Takes a user into the room: see [`Room::pushed`].
    pub fn push(&mut self, user: UserId)
        requires
            old(self).wf(),
        ensures
            final(self).wf(),
            Room::pushed(old(self), user, final(self)),
            final(self).state == old(self).state,
            old(self).game.conserved() ==> final(self).game.conserved(),
    {
        let seat = Player::new(user.clone());
        self.users.push(user);
        let ghost before = self.game.players@;
        let seated = self.game.add_player(seat);
        proof {
            if seated {
                assert(self.game.players@.drop_last() =~= before);
            }
        }
    }

    /// A user joins the room: see [`Room::joined`].
    ///
    /// Refused with `HasJoinedRoom` where a user of that name is in the room,
    /// else with `RoomFull` where three users are; nothing changes then.
    pub fn join(&mut self, user: UserId) -> (r: Result<bool, LobbyError>)
        requires
            old(self).wf(),
        ensures
            final(self).wf(),
            Room::joined(old(self), user, final(self), r),
            old(self).game.conserved() ==> final(self).game.conserved(),
    {
        if contains_user(&self.users, &user) {
            return Err(LobbyError::HasJoinedRoom);
        }
        if self.users.len() == SEATS {
            return Err(LobbyError::RoomFull);
        }
        self.push(user);
        if self.users.len() == SEATS {
            self.state = RoomState::Ready;
            Ok(true)
        } else {
            Ok(false)
        }
    }

    /// Starts the room's game with a generator that the operating system
    /// seeds: see [`Room::started`].
    ///
    /// Refused with `NotReady` unless the room is `Ready` and the game can
    /// start; nothing changes then.
    pub fn start_game(&mut self) -> (r: Result<UserId, RoomError>)
        requires
            old(self).wf(),
        ensures
            final(self).wf(),
            Room::started(old(self), final(self), r),
    {
        if self.state != RoomState::Ready {
            return Err(RoomError::NotReady);
        }
        match self.game.start() {
            Ok(id) => Ok(id),
            Err(_) => Err(RoomError::NotReady),
        }
    }

    /// Starts the room's game with `rng`: see [`Room::started`].
    ///
    /// Refused with `NotReady` unless the room is `Ready` and the game can
    /// start; nothing changes then.
    pub fn start_game_with(&mut self, rng: &mut StdRng) -> (r: Result<UserId, RoomError>)
        requires
            old(self).wf(),
        ensures
            final(self).wf(),
            Room::started(old(self), final(self), r),
    {
        if self.state != RoomState::Ready {
            return Err(RoomError::NotReady);
        }
        match self.game.start_with(rng) {
            Ok(id) => Ok(id),
            Err(_) => Err(RoomError::NotReady),
        }
    }

    /// The user `user` takes the landlord's part (`choose`) or leaves it to
    /// the next seat: see [`Room::chose`].
    ///
    /// Refused with `NotStarted` unless the game waits for a landlord, and
    /// with `NotLandlordPlayer` unless `user` is the candidate; nothing
    /// changes then.
    pub fn choose_landlord(&mut self, user: &UserId, choose: bool) -> (r: Result<
        S2CMessage,
        RoomError,
    >)
        requires
            old(self).wf(),
        ensures
            final(self).wf(),
            Room::chose(old(self), user@, choose, final(self), r),
            old(self).game.conserved() ==> final(self).game.conserved(),
    {
        if choose {
            match self.game.accept_landlord(user) {
                Ok((id, pool)) => Ok(S2CMessage::LordCards(id, pool)),
                Err(e) => Err(e),
            }
        } else {
            match self.game.decline_landlord(user) {
                Ok(id) => Ok(S2CMessage::LandlordMove(id)),
                Err(e) => Err(e),
            }
        }
    }

    /// The user `user` lays `cards` in the room's game: see [`Room::laid`].
    pub fn submit_cards(&mut self, user: &UserId, cards: Vec<Card>) -> (r: Result<
        UserId,
        GameError,
    >)
        requires
            old(self).wf(),
            cards@.len() <= u32::MAX,
        ensures
            final(self).wf(),
            Room::laid(old(self), user@, cards@, final(self), r),
            old(self).game.conserved() ==> final(self).game.conserved(),
    {
        let r = self.game.submit_cards_as(user, cards);
        if let Err(GameError::Win(_, _, _)) = &r {
            self.state = RoomState::WaitingForRematch(0);
        }
        r
    }

    /// The user `user` passes in the room's game: see [`Room::passed`].
    pub fn pass(&mut self, user: &UserId) -> (r: Result<UserId, GameError>)
        requires
            old(self).wf(),
        ensures
            final(self).wf(),
            Room::passed(old(self), user@, final(self), r),
            old(self).game.conserved() ==> final(self).game.conserved(),
    {
        self.game.pass_as(user)
    }

    /// Counts a vote on a rematch: the number of votes for it with this one,
    /// and the vote.
    ///
    /// Refused with `NotReady` unless the room waits for a rematch.
    pub fn rematch_vote(&self, vote: bool) -> (r: Result<(u32, bool), RoomError>)
        requires
            self.wf(),
        ensures
            r == self.votes(vote),
    {
        match self.state {
            RoomState::WaitingForRematch(count) => {
                if vote {
                    Ok((count + 1, vote))
                } else {
                    Ok((count, vote))
                }
            },
            _ => Err(RoomError::NotReady),
        }
    }

    /// Counts a vote on a rematch and notes the count: see [`Room::voted`].
    ///
    /// Refused with `NotReady` unless the room waits for a rematch; nothing
    /// changes then.
    pub fn vote(&mut self, vote: bool) -> (r: Result<(u32, bool), RoomError>)
        requires
            old(self).wf(),
        ensures
            final(self).wf(),
            Room::voted(old(self), vote, final(self), r),
    {
        let r = self.rematch_vote(vote);
        if let Ok((count, _)) = r {
            if count as usize == SEATS {
                self.state = RoomState::Ready;
            } else {
                self.state = RoomState::WaitingForRematch(count);
            }
        }
        r
    }
}

} // verus!
