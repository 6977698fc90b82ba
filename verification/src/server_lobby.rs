//! The lobby of a server: the users that are logged in, what each of them is
//! doing, and the rooms.
use crate::card::Card;
use crate::error::{GameError, LobbyError, RoomError};
use crate::group::copy_range;
use crate::player::Player;
use crate::keyed::{
    distinct, index_of, lemma_index_of, lemma_index_prefix, lemma_index_push, lemma_index_remove,
};
use crate::lobby::{Lobby, Room};
use crate::messages::{C2SMessage, S2CMessage};
use crate::player::UserId;
use crate::user::UserState;
use vstd::prelude::*;

verus! {

/// Who is to be told.
#[derive(Debug, PartialEq, Eq)]
pub enum MessageTarget {
    /// Every user.
    All,
    /// The user who asked.
    Reply,
    /// The user of this name.
    User(UserId),
    /// The users of the room of this name.
    Room(String),
}

/// A message and who is to be told it.
pub type MessagePacket = (MessageTarget, S2CMessage);

/// A user and what the user is doing.
#[derive(Debug)]
pub struct UserStatus {
    pub user: UserId,
    pub state: UserState,
}

/// The lobby.
pub struct ServerLobby {
    /// The users that are logged in, in the order in which they came; one
    /// who logged in twice is there twice.
    pub users: Vec<UserId>,
    /// What each user that ever logged in is doing, each user once.
    pub user_states: Vec<UserStatus>,
    /// The users that wait for a match.
    pub waiting_list: Vec<UserId>,
    /// The rooms, each name once.
    pub rooms: Vec<Room>,
}

/// The names of a list of users.
pub open spec fn names(users: Seq<UserId>) -> Seq<Seq<char>> {
    Seq::new(users.len(), |i: int| users[i]@)
}

/// The names of the users whose states are listed.
pub open spec fn status_names(states: Seq<UserStatus>) -> Seq<Seq<char>> {
    Seq::new(states.len(), |i: int| states[i].user@)
}

/// The names of the rooms.
pub open spec fn room_names(rooms: Seq<Room>) -> Seq<Seq<char>> {
    Seq::new(rooms.len(), |i: int| rooms[i].name@)
}

/// What the user named `user` is doing by a list of states.
pub open spec fn index_of_state(states: Seq<UserStatus>, user: Seq<char>) -> Option<UserState> {
    match index_of(status_names(states), user) {
        Some(i) => Some(states[i].state),
        None => None,
    }
}

/// Whether the packet tells the player the hand and who is asked first to be
/// landlord.
pub open spec fn is_start_packet(p: MessagePacket, player: Player, candidate: Seq<char>) -> bool {
    &&& p.0 matches MessageTarget::User(user) && user@ == player.user@
    &&& p.1 matches S2CMessage::GameStarted(cards, first) && cards@ == player.cards@ && first@
        == candidate
}

/// Whether the packets tell each player, in the order of the seats, the hand
/// and who is asked first to be landlord.
pub open spec fn are_start_packets(
    packets: Seq<MessagePacket>,
    players: Seq<Player>,
    candidate: Seq<char>,
) -> bool {
    &&& packets.len() == players.len()
    &&& forall|i: int|
        0 <= i < packets.len() ==> is_start_packet(#[trigger] packets[i], players[i], candidate)
}

/// Whether the packet tells the user that the user has joined the room.
pub open spec fn is_joined_packet(p: MessagePacket, user: Seq<char>, room: Seq<char>) -> bool {
    &&& p.0 matches MessageTarget::User(to) && to@ == user
    &&& p.1 matches S2CMessage::RoomJoined(name) && name@ == room
}

/// Whether a player of that name is among the players.
pub open spec fn has_player(players: Seq<Player>, user: Seq<char>) -> bool {
    exists|i: int| 0 <= i < players.len() && (#[trigger] players[i]).user@ == user
}

/// Whether the packet answers the user who asked with `message`.
pub open spec fn is_reply(p: MessagePacket, message: S2CMessage) -> bool {
    p.0 == MessageTarget::Reply && p.1 == message
}

/// Whether the packet goes to the room of that name.
pub open spec fn tells_room(p: MessagePacket, room: Seq<char>) -> bool {
    p.0 matches MessageTarget::Room(name) && name@ == room
}

/// Rooms stay valid and findable where one of them is replaced by a valid
/// room of the same name.
pub proof fn lemma_room_replaced(before: Seq<Room>, after: Seq<Room>, at: int)
    requires
        0 <= at < before.len(),
        after.len() == before.len(),
        forall|j: int| 0 <= j < before.len() && j != at ==> after[j] == before[j],
        after[at].name@ == before[at].name@,
    ensures
        room_names(after) == room_names(before),
        (forall|j: int| 0 <= j < before.len() ==> (#[trigger] before[j]).wf()) && after[at].wf()
            ==> forall|j: int| 0 <= j < after.len() ==> (#[trigger] after[j]).wf(),
{
    assert(room_names(after) =~= room_names(before)) by {
        assert forall|j: int| 0 <= j < after.len() implies room_names(after)[j] == room_names(
            before,
        )[j] by {
            if j != at {
                assert(after[j] == before[j]);
            }
        }
    }
    if (forall|j: int| 0 <= j < before.len() ==> (#[trigger] before[j]).wf()) && after[at].wf() {
        assert forall|j: int| 0 <= j < after.len() implies (#[trigger] after[j]).wf() by {
            if j != at {
                assert(before[j].wf());
            }
        }
    }
}

impl ServerLobby {
    /// Validity of a lobby: no user's state is listed twice, no two rooms
    /// have one name, and every room is valid.
    pub open spec fn wf(&self) -> bool {
        &&& distinct(status_names(self.user_states@))
        &&& distinct(room_names(self.rooms@))
        &&& forall|i: int| 0 <= i < self.rooms@.len() ==> (#[trigger] self.rooms@[i]).wf()
    }

    /// What the user named `user` is doing, if the user ever logged in.
    pub open spec fn state_of(&self, user: Seq<char>) -> Option<UserState> {
        index_of_state(self.user_states@, user)
    }

    /// Where the room stands in which the user named `user` plays, if the
    /// user plays in a room that there is.
    pub open spec fn room_of(&self, user: Seq<char>) -> Option<int> {
        match self.state_of(user) {
            Some(UserState::Playing(room)) => index_of(room_names(self.rooms@), room@),
            _ => None,
        }
    }

    /// A lobby without users and rooms.
    pub fn new() -> (lobby: ServerLobby)
        ensures
            lobby.wf(),
            lobby.users@.len() == 0,
            lobby.user_states@.len() == 0,
            lobby.waiting_list@.len() == 0,
            lobby.rooms@.len() == 0,
    {
        ServerLobby {
            users: Vec::new(),
            user_states: Vec::new(),
            waiting_list: Vec::new(),
            rooms: Vec::new(),
        }
    }

    /// Where the state of the user named `user` is listed.
    fn find_status(&self, user: &UserId) -> (r: Option<usize>)
        ensures
            match r {
                Some(i) => index_of(status_names(self.user_states@), user@) == Some(i as int) && i
                    < self.user_states@.len(),
                None => index_of(status_names(self.user_states@), user@).is_none(),
            },
    {
        let ghost keys = status_names(self.user_states@);
        let mut i: usize = 0;
        while i < self.user_states.len()
            invariant
                i <= self.user_states@.len(),
                keys == status_names(self.user_states@),
                index_of(keys.take(i as int), user@).is_none(),
            decreases self.user_states.len() - i,
        {
            proof {
                assert(keys.take(i + 1).drop_last() =~= keys.take(i as int));
                assert(keys[i as int] == self.user_states@[i as int].user@);
            }
            if self.user_states[i].user == *user {
                proof {
                    lemma_index_prefix(keys, i + 1, user@);
                }
                return Some(i);
            }
            i += 1;
        }
        proof {
            assert(keys.take(keys.len() as int) =~= keys);
        }
        None
    }

    /// Where the room named `name` stands.
    fn find_room(&self, name: &String) -> (r: Option<usize>)
        ensures
            match r {
                Some(i) => index_of(room_names(self.rooms@), name@) == Some(i as int) && i
                    < self.rooms@.len(),
                None => index_of(room_names(self.rooms@), name@).is_none(),
            },
    {
        let ghost keys = room_names(self.rooms@);
        let mut i: usize = 0;
        while i < self.rooms.len()
            invariant
                i <= self.rooms@.len(),
                keys == room_names(self.rooms@),
                index_of(keys.take(i as int), name@).is_none(),
            decreases self.rooms.len() - i,
        {
            proof {
                assert(keys.take(i + 1).drop_last() =~= keys.take(i as int));
                assert(keys[i as int] == self.rooms@[i as int].name@);
            }
            if self.rooms[i].name == *name {
                proof {
                    lemma_index_prefix(keys, i + 1, name@);
                }
                return Some(i);
            }
            i += 1;
        }
        proof {
            assert(keys.take(keys.len() as int) =~= keys);
        }
        None
    }

    /// Where the user named `user` stands first among the users logged in.
    fn find_user(&self, user: &UserId) -> (r: Option<usize>)
        ensures
            match r {
                Some(i) => index_of(names(self.users@), user@) == Some(i as int) && i
                    < self.users@.len(),
                None => index_of(names(self.users@), user@).is_none(),
            },
    {
        let ghost keys = names(self.users@);
        let mut i: usize = 0;
        while i < self.users.len()
            invariant
                i <= self.users@.len(),
                keys == names(self.users@),
                index_of(keys.take(i as int), user@).is_none(),
            decreases self.users.len() - i,
        {
            proof {
                assert(keys.take(i + 1).drop_last() =~= keys.take(i as int));
                assert(keys[i as int] == self.users@[i as int]@);
            }
            if self.users[i] == *user {
                proof {
                    lemma_index_prefix(keys, i + 1, user@);
                }
                return Some(i);
            }
            i += 1;
        }
        proof {
            assert(keys.take(keys.len() as int) =~= keys);
        }
        None
    }

    /// Whether all but the states of the users is the same in both lobbies.
    pub open spec fn same_but_states(&self, other: &ServerLobby) -> bool {
        &&& self.users@ == other.users@
        &&& self.waiting_list@ == other.waiting_list@
        &&& self.rooms@ == other.rooms@
    }

    /// The states with `user` doing `state`: in place of what the user did,
    /// or at the end where the user was not listed.
    pub open spec fn states_with(&self, user: UserId, state: UserState) -> Seq<UserStatus> {
        match index_of(status_names(self.user_states@), user@) {
            Some(i) => self.user_states@.update(i, UserStatus { user, state }),
            None => self.user_states@.push(UserStatus { user, state }),
        }
    }

    /// Notes that `user` is doing `state`.
    fn set_state(&mut self, user: UserId, state: UserState)
        ensures
            final(self).user_states@ == old(self).states_with(user, state),
            final(self).same_but_states(old(self)),
            final(self).state_of(user@) == Some(state),
            forall|other: Seq<char>|
                other != user@ ==> #[trigger] index_of_state(final(self).user_states@, other)
                    == index_of_state(old(self).user_states@, other),
            old(self).wf() ==> final(self).wf(),
    {
        let ghost before = self.user_states@;
        let ghost keys = status_names(before);
        proof {
            lemma_index_of(keys, user@);
        }
        match self.find_status(&user) {
            Some(i) => {
                self.user_states.set(i, UserStatus { user, state });
                proof {
                    assert(status_names(self.user_states@) =~= keys);
                    assert forall|other: Seq<char>| other != user@ implies #[trigger] index_of_state(
                        self.user_states@,
                        other,
                    ) == index_of_state(before, other) by {
                        lemma_index_of(keys, other);
                    }
                }
            },
            None => {
                self.user_states.push(UserStatus { user, state });
                proof {
                    assert(status_names(self.user_states@) =~= keys.push(user@));
                    lemma_index_push(keys, user@, user@);
                    assert forall|other: Seq<char>| other != user@ implies #[trigger] index_of_state(
                        self.user_states@,
                        other,
                    ) == index_of_state(before, other) by {
                        lemma_index_push(keys, user@, other);
                        lemma_index_of(keys, other);
                    }
                }
            },
        }
    }

    /// Whether `after` is `before` with `user` logged in: the user is one
    /// more of the users logged in, and is noted as idle where the user
    /// never logged in before.
    pub open spec fn logged_in(before: &ServerLobby, user: UserId, after: &ServerLobby) -> bool {
        &&& after.users@ == before.users@.push(user)
        &&& after.waiting_list@ == before.waiting_list@
        &&& after.rooms@ == before.rooms@
        &&& after.user_states@ == if before.state_of(user@).is_some() {
            before.user_states@
        } else {
            before.states_with(user, UserState::Idle)
        }
    }

    /// Whether `after` is `before` with `user` connected: the user is logged
    /// in, see [`ServerLobby::logged_in`], and is noted as idle where the
    /// user waited for a match.
    pub open spec fn connected(before: &ServerLobby, user: UserId, after: &ServerLobby) -> bool {
        &&& after.users@ == before.users@.push(user)
        &&& after.waiting_list@ == before.waiting_list@
        &&& after.rooms@ == before.rooms@
        &&& after.user_states@ == match before.state_of(user@) {
            Some(UserState::Idle) => before.user_states@,
            Some(UserState::Playing(_)) => before.user_states@,
            _ => before.states_with(user, UserState::Idle),
        }
    }

    /// Whether `after` is `before` with `user` waiting for a match: the user
    /// is the last of those who wait, and is noted as waiting.
    pub open spec fn matched(before: &ServerLobby, user: UserId, after: &ServerLobby) -> bool {
        &&& after.waiting_list@ == before.waiting_list@.push(user)
        &&& after.users@ == before.users@
        &&& after.rooms@ == before.rooms@
        &&& after.user_states@ == before.states_with(user, UserState::Matchmaking)
    }

    /// A user has logged in: see [`ServerLobby::logged_in`].
    pub fn login(&mut self, user: String)
        ensures
            ServerLobby::logged_in(old(self), user, final(self)),
            old(self).wf() ==> final(self).wf(),
    {
        if self.find_status(&user).is_none() {
            self.set_state(user.clone(), UserState::Idle);
        }
        self.users.push(user);
    }

    /// A user has connected: see [`ServerLobby::connected`].
    pub fn connect(&mut self, user: UserId)
        ensures
            ServerLobby::connected(old(self), user, final(self)),
            old(self).wf() ==> final(self).wf(),
    {
        let waits = match self.find_status(&user) {
            Some(i) => match &self.user_states[i].state {
                UserState::Matchmaking => true,
                _ => false,
            },
            None => false,
        };
        if waits {
            self.set_state(user.clone(), UserState::Idle);
        }
        self.login(user);
    }

    /// A user asks for a match: see [`ServerLobby::matched`].
    pub fn matchmake(&mut self, user: UserId)
        ensures
            ServerLobby::matched(old(self), user, final(self)),
            old(self).wf() ==> final(self).wf(),
    {
        self.set_state(user.clone(), UserState::Matchmaking);
        self.waiting_list.push(user);
    }

    /// Whether `after` is `before` with the connection of the user named
    /// `user` gone: the room in which the user plays is closed, and the user
    /// is logged in once less, the first time being the one that is struck.
    /// What the users are doing stays as it is noted.
    pub open spec fn disconnected(
        before: &ServerLobby,
        user: Seq<char>,
        after: &ServerLobby,
    ) -> bool {
        &&& after.rooms@ == match before.room_of(user) {
            Some(i) => before.rooms@.remove(i),
            None => before.rooms@,
        }
        &&& after.users@ == match index_of(names(before.users@), user) {
            Some(i) => before.users@.remove(i),
            None => before.users@,
        }
        &&& after.user_states@ == before.user_states@
        &&& after.waiting_list@ == before.waiting_list@
    }

    /// A user's connection is gone: see [`ServerLobby::disconnected`].
    pub fn disconnect(&mut self, user: &UserId)
        ensures
            ServerLobby::disconnected(old(self), user@, final(self)),
            old(self).wf() ==> final(self).wf(),
    {
        if let Some(i) = self.find_room_of(user) {
            let ghost before = self.rooms@;
            self.rooms.remove(i);
            proof {
                assert(room_names(self.rooms@) =~= room_names(before).remove(i as int));
                if distinct(room_names(before)) {
                    lemma_index_remove(room_names(before), i as int, user@);
                }
            }
        }
        if let Some(i) = self.find_user(user) {
            self.users.remove(i);
        }
    }

    /// Where the room stands in which the user named `user` plays.
    fn find_room_of(&self, user: &UserId) -> (r: Option<usize>)
        ensures
            match r {
                Some(i) => self.room_of(user@) == Some(i as int) && i < self.rooms@.len(),
                None => self.room_of(user@).is_none(),
            },
    {
        match self.find_status(user) {
            Some(i) => match &self.user_states[i].state {
                UserState::Playing(room) => self.find_room(room),
                _ => None,
            },
            None => None,
        }
    }

    /// The room in which the user named `user` plays, if the user plays in a
    /// room that there is.
    pub fn get_room_by_user(&self, user: &UserId) -> (r: Option<&Room>)
        ensures
            match r {
                Some(room) => self.room_of(user@) matches Some(i) && *room == self.rooms@[i],
                None => self.room_of(user@).is_none(),
            },
    {
        match self.find_room_of(user) {
            Some(i) => Some(&self.rooms[i]),
            None => None,
        }
    }

    /// Whether all but room `at` is the same in both lobbies, and room `at`
    /// has kept its name.
    pub open spec fn same_but_room(&self, other: &ServerLobby, at: int) -> bool {
        &&& self.users@ == other.users@
        &&& self.user_states@ == other.user_states@
        &&& self.waiting_list@ == other.waiting_list@
        &&& self.rooms@.len() == other.rooms@.len()
        &&& 0 <= at < self.rooms@.len()
        &&& self.rooms@[at].name@ == other.rooms@[at].name@
        &&& forall|j: int|
            0 <= j < self.rooms@.len() && j != at ==> self.rooms@[j] == other.rooms@[j]
    }

    /// What `submit_cards` does: the user lays the cards in the room in
    /// which the user plays, see [`Room::laid`], and no other room changes;
    /// a user who plays in no room is refused with `NotRunning`, and nothing
    /// changes.
    pub open spec fn laid(
        before: &ServerLobby,
        user: Seq<char>,
        cards: Seq<Card>,
        after: &ServerLobby,
        r: Result<UserId, GameError>,
    ) -> bool {
        match before.room_of(user) {
            Some(i) => after.same_but_room(before, i) && Room::laid(
                &before.rooms@[i],
                user,
                cards,
                &after.rooms@[i],
                r,
            ),
            None => after.same_lists(before) && r == Err::<UserId, GameError>(GameError::NotRunning),
        }
    }

    /// What `pass` does: the user passes in the room in which the user
    /// plays, see [`Room::passed`], and no other room changes; a user who
    /// plays in no room is refused with `NotRunning`, and nothing changes.
    pub open spec fn passed(
        before: &ServerLobby,
        user: Seq<char>,
        after: &ServerLobby,
        r: Result<UserId, GameError>,
    ) -> bool {
        match before.room_of(user) {
            Some(i) => after.same_but_room(before, i) && Room::passed(
                &before.rooms@[i],
                user,
                &after.rooms@[i],
                r,
            ),
            None => after.same_lists(before) && r == Err::<UserId, GameError>(GameError::NotRunning),
        }
    }

    /// What `choose_landlord` does: the user takes or leaves the landlord's
    /// part in the room in which the user plays, see [`Room::chose`], the
    /// answer is what that room is to be told, and no other room changes; a
    /// user who plays in no room is refused with `NotReady`, and nothing
    /// changes.
    pub open spec fn chose(
        before: &ServerLobby,
        user: Seq<char>,
        choose: bool,
        after: &ServerLobby,
        r: Result<MessagePacket, RoomError>,
    ) -> bool {
        match before.room_of(user) {
            Some(i) => after.same_but_room(before, i) && match r {
                Ok((target, message)) => (target matches MessageTarget::Room(name) && name@
                    == before.rooms@[i].name@) && Room::chose(
                    &before.rooms@[i],
                    user,
                    choose,
                    &after.rooms@[i],
                    Ok(message),
                ),
                Err(e) => Room::chose(&before.rooms@[i], user, choose, &after.rooms@[i], Err(e)),
            },
            None => after.same_lists(before) && r == Err::<MessagePacket, RoomError>(
                RoomError::NotReady,
            ),
        }
    }

    /// What `vote` does: the user's vote is counted and noted in the room in
    /// which the user plays, see [`Room::voted`], and no other room changes;
    /// a user who plays in no room is refused with `NotReady`, and nothing
    /// changes.
    pub open spec fn voted(
        before: &ServerLobby,
        user: Seq<char>,
        vote: bool,
        after: &ServerLobby,
        r: Result<(u32, bool), RoomError>,
    ) -> bool {
        match before.room_of(user) {
            Some(i) => after.same_but_room(before, i) && Room::voted(
                &before.rooms@[i],
                vote,
                &after.rooms@[i],
                r,
            ),
            None => after.same_lists(before) && r == Err::<(u32, bool), RoomError>(
                RoomError::NotReady,
            ),
        }
    }

    /// The user `user` lays `cards`: see [`ServerLobby::laid`].
    pub fn submit_cards(&mut self, user: &UserId, cards: Vec<Card>) -> (r: Result<
        UserId,
        GameError,
    >)
        requires
            old(self).wf(),
            cards@.len() <= u32::MAX,
        ensures
            final(self).wf(),
            ServerLobby::laid(old(self), user@, cards@, final(self), r),
    {
        match self.find_room_of(user) {
            Some(i) => {
                let ghost before = self.rooms@;
                let r = self.rooms[i].submit_cards(user, cards);
                proof {
                    lemma_room_replaced(before, self.rooms@, i as int);
                }
                r
            },
            None => Err(GameError::NotRunning),
        }
    }

    /// The user `user` passes: see [`ServerLobby::passed`].
    pub fn pass(&mut self, user: &UserId) -> (r: Result<UserId, GameError>)
        requires
            old(self).wf(),
        ensures
            final(self).wf(),
            ServerLobby::passed(old(self), user@, final(self), r),
    {
        match self.find_room_of(user) {
            Some(i) => {
                let ghost before = self.rooms@;
                let r = self.rooms[i].pass(user);
                proof {
                    lemma_room_replaced(before, self.rooms@, i as int);
                }
                r
            },
            None => Err(GameError::NotRunning),
        }
    }

    /// The user `user` takes the landlord's part (`choose`) or leaves it to
    /// the next seat: see [`ServerLobby::chose`].
    pub fn choose_landlord(&mut self, user: &UserId, choose: bool) -> (r: Result<
        MessagePacket,
        RoomError,
    >)
        requires
            old(self).wf(),
        ensures
            final(self).wf(),
            ServerLobby::chose(old(self), user@, choose, final(self), r),
    {
        match self.find_room_of(user) {
            Some(i) => {
                let ghost before = self.rooms@;
                let r = self.rooms[i].choose_landlord(user, choose);
                proof {
                    lemma_room_replaced(before, self.rooms@, i as int);
                }
                match r {
                    Ok(message) => Ok((MessageTarget::Room(self.rooms[i].name.clone()), message)),
                    Err(e) => Err(e),
                }
            },
            None => Err(RoomError::NotReady),
        }
    }

    /// Counts the vote of the user `user` on a rematch in the room in which
    /// the user plays, and notes nothing: see [`Room::votes`].
    ///
    /// Refused with `NotReady` where the user plays in no room.
    pub fn rematch_vote(&self, user: &UserId, vote: bool) -> (r: Result<(u32, bool), RoomError>)
        requires
            self.wf(),
        ensures
            r == match self.room_of(user@) {
                Some(i) => self.rooms@[i].votes(vote),
                None => Err::<(u32, bool), RoomError>(RoomError::NotReady),
            },
    {
        match self.find_room_of(user) {
            Some(i) => {
                assert(self.rooms@[i as int].wf());
                self.rooms[i].rematch_vote(vote)
            },
            None => Err(RoomError::NotReady),
        }
    }

    /// The user `user` votes on a rematch: see [`ServerLobby::voted`].
    pub fn vote(&mut self, user: &UserId, vote: bool) -> (r: Result<(u32, bool), RoomError>)
        requires
            old(self).wf(),
        ensures
            final(self).wf(),
            ServerLobby::voted(old(self), user@, vote, final(self), r),
    {
        match self.find_room_of(user) {
            Some(i) => {
                let ghost before = self.rooms@;
                assert(before[i as int].wf());
                let r = self.rooms[i].vote(vote);
                proof {
                    lemma_room_replaced(before, self.rooms@, i as int);
                }
                r
            },
            None => Err(RoomError::NotReady),
        }
    }

    /// What starting the game of room `at` does to the lobby: see
    /// [`Room::started`]. Where the game starts, the packets tell each
    /// player the hand and the first candidate for landlord, and every
    /// player is noted as playing in the room named `room_name`. No other
    /// room changes, and no other user's state.
    pub open spec fn room_started(
        before: &ServerLobby,
        at: int,
        room_name: String,
        after: &ServerLobby,
        r: Result<Vec<MessagePacket>, RoomError>,
    ) -> bool {
        &&& after.users@ == before.users@
        &&& after.waiting_list@ == before.waiting_list@
        &&& after.rooms@.len() == before.rooms@.len()
        &&& forall|j: int|
            0 <= j < before.rooms@.len() && j != at ==> after.rooms@[j] == before.rooms@[j]
        &&& match r {
            Ok(packets) => {
                &&& exists|candidate: UserId|
                    {
                        &&& #[trigger] Room::started(
                            &before.rooms@[at],
                            &after.rooms@[at],
                            Ok(candidate),
                        )
                        &&& are_start_packets(
                            packets@,
                            after.rooms@[at].game.players@,
                            candidate@,
                        )
                    }
                &&& forall|user: Seq<char>| #[trigger]
                    index_of_state(after.user_states@, user) == if has_player(
                        after.rooms@[at].game.players@,
                        user,
                    ) {
                        Some(UserState::Playing(room_name))
                    } else {
                        index_of_state(before.user_states@, user)
                    }
            },
            Err(e) => {
                &&& Room::started(&before.rooms@[at], &after.rooms@[at], Err(e))
                &&& after.user_states@ == before.user_states@
            },
        }
    }

    /// Notes that the players of room `at` play in the room named `room`.
    fn mark_playing(&mut self, at: usize, room: &String)
        requires
            at < old(self).rooms@.len(),
        ensures
            final(self).same_but_states(old(self)),
            forall|user: Seq<char>| #[trigger]
                index_of_state(final(self).user_states@, user) == if has_player(
                    old(self).rooms@[at as int].game.players@,
                    user,
                ) {
                    Some(UserState::Playing(*room))
                } else {
                    index_of_state(old(self).user_states@, user)
                },
            old(self).wf() ==> final(self).wf(),
    {
        let ghost before = *self;
        let ghost players = self.rooms@[at as int].game.players@;
        let n = self.rooms[at].game.players.len();
        let mut k: usize = 0;
        while k < n
            invariant
                k <= n,
                at < self.rooms@.len(),
                n == players.len(),
                players == self.rooms@[at as int].game.players@,
                self.same_but_states(&before),
                before.wf() ==> self.wf(),
                forall|user: Seq<char>| #[trigger]
                    index_of_state(self.user_states@, user) == if has_player(
                        players.take(k as int),
                        user,
                    ) {
                        Some(UserState::Playing(*room))
                    } else {
                        index_of_state(before.user_states@, user)
                    },
            decreases n - k,
        {
            let name = self.rooms[at].game.players[k].user.clone();
            let ghost mid = self.user_states@;
            self.set_state(name, UserState::Playing(room.clone()));
            proof {
                let done = players.take(k as int);
                let more = players.take(k + 1);
                assert forall|user: Seq<char>| #[trigger]
                    index_of_state(self.user_states@, user) == if has_player(more, user) {
                        Some(UserState::Playing(*room))
                    } else {
                        index_of_state(before.user_states@, user)
                    } by {
                    assert(more[k as int].user@ == name@);
                    if has_player(done, user) {
                        let i = choose|i: int| 0 <= i < done.len() && (#[trigger] done[i]).user@ == user;
                        assert(more[i].user@ == user);
                    }
                    if has_player(more, user) && user != name@ {
                        let i = choose|i: int| 0 <= i < more.len() && (#[trigger] more[i]).user@ == user;
                        assert(done[i].user@ == user);
                    }
                    if user != name@ {
                        assert(index_of_state(self.user_states@, user) == index_of_state(mid, user));
                    }
                }
            }
            k += 1;
        }
        proof {
            assert(players.take(n as int) =~= players);
        }
    }

    /// The packets that tell each player of a room the hand and the first
    /// candidate for landlord.
    fn start_packets(room: &Room, candidate: &UserId) -> (packets: Vec<MessagePacket>)
        ensures
            are_start_packets(packets@, room.game.players@, candidate@),
    {
        let mut packets: Vec<MessagePacket> = Vec::new();
        let n = room.game.players.len();
        let mut k: usize = 0;
        while k < n
            invariant
                k <= n,
                n == room.game.players@.len(),
                packets@.len() == k,
                forall|i: int|
                    0 <= i < k ==> is_start_packet(
                        #[trigger] packets@[i],
                        room.game.players@[i],
                        candidate@,
                    ),
            decreases n - k,
        {
            let player = &room.game.players[k];
            let hand = copy_range(&player.cards, 0, player.cards.len());
            assert(hand@ =~= player.cards@);
            packets.push(
                (
                    MessageTarget::User(player.user.clone()),
                    S2CMessage::GameStarted(hand, candidate.clone()),
                ),
            );
            k += 1;
        }
        packets
    }

    /// Starts the game of room `at`, which has the name `room_name`.
    fn start_room(&mut self, at: usize, room_name: &String) -> (r: Result<
        Vec<MessagePacket>,
        RoomError,
    >)
        requires
            old(self).wf(),
            at < old(self).rooms@.len(),
        ensures
            final(self).wf(),
            ServerLobby::room_started(old(self), at as int, *room_name, final(self), r),
            final(self).rooms@[at as int].name@ == old(self).rooms@[at as int].name@,
    {
        let ghost before = *self;
        let started = self.rooms[at].start_game();
        proof {
            lemma_room_replaced(before.rooms@, self.rooms@, at as int);
        }
        match started {
            Ok(candidate) => {
                let packets = ServerLobby::start_packets(&self.rooms[at], &candidate);
                let ghost room = self.rooms@[at as int];
                self.mark_playing(at, room_name);
                proof {
                    assert(Room::started(&before.rooms@[at as int], &room, Ok(candidate)));
                }
                Ok(packets)
            },
            Err(e) => Err(e),
        }
    }

    /// What `start_game_by_name` does: the game of the room of that name is
    /// started, see [`ServerLobby::room_started`]; where there is no room of
    /// that name the answer is `NotReady`, and nothing changes.
    pub open spec fn started_by_name(
        before: &ServerLobby,
        room_name: String,
        after: &ServerLobby,
        r: Result<Vec<MessagePacket>, RoomError>,
    ) -> bool {
        match index_of(room_names(before.rooms@), room_name@) {
            Some(i) => ServerLobby::room_started(before, i, room_name, after, r),
            None => after.same_lists(before) && r == Err::<Vec<MessagePacket>, RoomError>(
                RoomError::NotReady,
            ),
        }
    }

    /// Starts the game of the room named `room_name`: see
    /// [`ServerLobby::started_by_name`].
    ///
    /// Refused with `NotReady` where there is no room of that name, or the
    /// room is not `Ready`, or its game cannot start; nothing changes then.
    pub fn start_game_by_name(&mut self, room_name: &String) -> (r: Result<
        Vec<MessagePacket>,
        RoomError,
    >)
        requires
            old(self).wf(),
        ensures
            final(self).wf(),
            ServerLobby::started_by_name(old(self), *room_name, final(self), r),
    {
        match self.find_room(room_name) {
            Some(i) => self.start_room(i, room_name),
            None => Err(RoomError::NotReady),
        }
    }
    /// Whether the four lists hold the same in both lobbies.
    pub open spec fn same_lists(&self, other: &ServerLobby) -> bool {
        &&& self.users@ == other.users@
        &&& self.user_states@ == other.user_states@
        &&& self.waiting_list@ == other.waiting_list@
        &&& self.rooms@ == other.rooms@
    }

    /// Where the room named `name` stands, or will stand once it is made:
    /// behind the rooms that there are.
    pub open spec fn place_of(&self, name: Seq<char>) -> int {
        match index_of(room_names(self.rooms@), name) {
            Some(i) => i,
            None => self.rooms@.len() as int,
        }
    }

    /// Whether `mid` is `before` with `user` entered into the room named
    /// `room_name`, and `entered` the room's answer: see [`Room::joined`]. A
    /// room of that name is made where there is none. A user who has entered
    /// is noted as playing in the room.
    pub open spec fn entered(
        before: &ServerLobby,
        room_name: String,
        user: UserId,
        mid: &ServerLobby,
        entered: Result<bool, LobbyError>,
    ) -> bool {
        let at = before.place_of(room_name@);
        &&& mid.users@ == before.users@
        &&& mid.waiting_list@ == before.waiting_list@
        &&& mid.user_states@ == if entered.is_ok() {
            before.states_with(user, UserState::Playing(room_name))
        } else {
            before.user_states@
        }
        &&& forall|j: int|
            0 <= j < before.rooms@.len() && j != at ==> mid.rooms@[j] == before.rooms@[j]
        &&& if at < before.rooms@.len() {
            &&& mid.rooms@.len() == before.rooms@.len()
            &&& Room::joined(&before.rooms@[at], user, &mid.rooms@[at], entered)
        } else {
            &&& mid.rooms@.len() == before.rooms@.len() + 1
            &&& mid.rooms@[at].is_new_with(room_name, user)
            &&& entered == Ok::<bool, LobbyError>(false)
        }
    }

    /// What `join_room` does, by way of the lobby `mid` in which the user
    /// has entered the room, see [`ServerLobby::entered`], and of the answer
    /// `begun` of the start of the room's game, see
    /// [`ServerLobby::room_started`], which is tried where the room is full
    /// then.
    ///
    /// Where the user cannot enter, that is the answer and nothing has
    /// changed. Where the game does not start though the room is full, that
    /// is the answer. Otherwise the answer is the packets of the start, if
    /// there was one, and then the packet that tells the user that the user
    /// has joined.
    pub open spec fn joined_via(
        before: &ServerLobby,
        room_name: String,
        user: UserId,
        mid: &ServerLobby,
        entered: Result<bool, LobbyError>,
        begun: Result<Vec<MessagePacket>, RoomError>,
        after: &ServerLobby,
        r: Result<Vec<MessagePacket>, LobbyError>,
    ) -> bool {
        let at = before.place_of(room_name@);
        &&& ServerLobby::entered(before, room_name, user, mid, entered)
        &&& match entered {
            Err(e) => after.same_lists(before) && r == Err::<Vec<MessagePacket>, LobbyError>(e),
            Ok(false) => {
                &&& after.same_lists(mid)
                &&& r matches Ok(packets) && packets@.len() == 1 && is_joined_packet(
                    packets@[0],
                    user@,
                    room_name@,
                )
            },
            Ok(true) => {
                &&& ServerLobby::room_started(mid, at, room_name, after, begun)
                &&& match begun {
                    Ok(told) => r matches Ok(packets) && packets@.len() == told@.len() + 1
                        && packets@.drop_last() == told@ && is_joined_packet(
                        packets@.last(),
                        user@,
                        room_name@,
                    ),
                    Err(e) => r == Err::<Vec<MessagePacket>, LobbyError>(LobbyError::RoomErr(e)),
                }
            },
        }
    }

    /// What `join_room` does: see [`ServerLobby::joined_via`].
    pub open spec fn joined_room(
        before: &ServerLobby,
        room_name: String,
        user: UserId,
        after: &ServerLobby,
        r: Result<Vec<MessagePacket>, LobbyError>,
    ) -> bool {
        exists|
            mid: ServerLobby,
            entered: Result<bool, LobbyError>,
            begun: Result<Vec<MessagePacket>, RoomError>,
        | #[trigger]
            ServerLobby::joined_via(before, room_name, user, &mid, entered, begun, after, r)
    }

    /// The user `user` joins the room named `room_name`, which is made where
    /// there is none, and the room's game starts where the user is the
    /// third: see [`ServerLobby::joined_room`]. The answer is what is to be
    /// told, and to whom.
    ///
    /// Refused with `HasJoinedRoom` where a user of that name is in the room,
    /// else with `RoomFull` where three users are, and nothing changes then;
    /// and with `RoomErr` where the game of the full room does not start.
    pub fn join_room(&mut self, room_name: &String, user: UserId) -> (r: Result<
        Vec<MessagePacket>,
        LobbyError,
    >)
        requires
            old(self).wf(),
        ensures
            final(self).wf(),
            ServerLobby::joined_room(old(self), *room_name, user, final(self), r),
    {
        let ghost before = *self;
        let ghost keys = room_names(self.rooms@);
        proof {
            lemma_index_of(keys, room_name@);
        }
        let at = match self.find_room(room_name) {
            Some(i) => i,
            None => {
                self.rooms.push(Room::new(room_name.clone()));
                proof {
                    assert(room_names(self.rooms@) =~= keys.push(room_name@));
                    lemma_index_push(keys, room_name@, room_name@);
                }
                self.rooms.len() - 1
            },
        };
        let ghost made = self.rooms@;
        assert(made[at as int].wf());
        let entered = self.rooms[at].join(user.clone());
        proof {
            lemma_room_replaced(made, self.rooms@, at as int);
        }
        let full = match entered {
            Ok(full) => full,
            Err(e) => {
                proof {
                    assert(self.rooms@ =~= before.rooms@);
                    assert(ServerLobby::joined_via(
                        &before,
                        *room_name,
                        user,
                        &before,
                        entered,
                        Err(RoomError::NotReady),
                        self,
                        Err(e),
                    ));
                }
                return Err(e);
            },
        };
        self.set_state(user.clone(), UserState::Playing(room_name.clone()));
        let ghost mid = *self;
        proof {
            assert(ServerLobby::entered(&before, *room_name, user, &mid, entered));
        }
        let mut packets: Vec<MessagePacket> = Vec::new();
        let ghost mut begun: Result<Vec<MessagePacket>, RoomError> = Err(RoomError::NotReady);
        if full {
            let started = self.start_room(at, room_name);
            proof {
                begun = started;
            }
            match started {
                Ok(told) => {
                    packets = told;
                },
                Err(e) => {
                    proof {
                        assert(ServerLobby::joined_via(
                            &before,
                            *room_name,
                            user,
                            &mid,
                            entered,
                            begun,
                            self,
                            Err(LobbyError::RoomErr(e)),
                        ));
                    }
                    return Err(LobbyError::RoomErr(e));
                },
            }
        }
        let ghost told = packets@;
        packets.push((MessageTarget::User(user), S2CMessage::RoomJoined(room_name.clone())));
        proof {
            assert(packets@.drop_last() =~= told);
            assert(ServerLobby::joined_via(
                &before,
                *room_name,
                user,
                &mid,
                entered,
                begun,
                self,
                Ok(packets),
            ));
        }
        Ok(packets)
    }
    /// The names of the rooms.
    fn room_list(&self) -> (list: Vec<String>)
        ensures
            names(list@) == room_names(self.rooms@),
    {
        let mut list: Vec<String> = Vec::new();
        let mut k: usize = 0;
        while k < self.rooms.len()
            invariant
                k <= self.rooms@.len(),
                list@.len() == k,
                forall|i: int| 0 <= i < k ==> (#[trigger] list@[i])@ == self.rooms@[i].name@,
            decreases self.rooms.len() - k,
        {
            list.push(self.rooms[k].name.clone());
            k += 1;
        }
        assert(names(list@) =~= room_names(self.rooms@));
        list
    }

    /// What the lobby does on a message of the user `user`, and what it has
    /// to tell: `after` is the lobby then, `packets` what is to be told, in
    /// order.
    ///
    /// A refusal is told to the user who asked, and to nobody else. A ping is
    /// answered. A login connects the user named in the message. Joining a
    /// room, starting a game, and taking or leaving the landlord's part tell
    /// what the lobby's function of that name answers. A play that is
    /// accepted and does not end the game is told to the room, and then
    /// whose turn it is; a pass, whose turn it is. A vote on a rematch is
    /// answered with the count, and a refused one with nothing. Asking for a
    /// match tells nothing, and asking how the wait for a match stands does
    /// nothing.
    pub open spec fn handled(
        before: &ServerLobby,
        user: UserId,
        message: C2SMessage,
        after: &ServerLobby,
        packets: Seq<MessagePacket>,
    ) -> bool {
        match message {
            C2SMessage::Ping => after.same_lists(before) && packets.len() == 1 && is_reply(
                packets[0],
                S2CMessage::Pong,
            ),
            C2SMessage::Login(name) => ServerLobby::connected(before, name, after) && packets.len()
                == 1 && is_reply(packets[0], S2CMessage::LoggedIn),
            C2SMessage::JoinRoom(room) => exists|r: Result<Vec<MessagePacket>, LobbyError>|
                {
                    &&& #[trigger] ServerLobby::joined_room(before, room, user, after, r)
                    &&& match r {
                        Ok(told) => packets == told@,
                        Err(e) => packets.len() == 1 && is_reply(
                            packets[0],
                            S2CMessage::LobbyErr(e),
                        ),
                    }
                },
            C2SMessage::StartGame(room) => exists|r: Result<Vec<MessagePacket>, RoomError>|
                {
                    &&& #[trigger] ServerLobby::started_by_name(before, room, after, r)
                    &&& match r {
                        Ok(told) => packets == told@,
                        Err(e) => packets.len() == 1 && is_reply(packets[0], S2CMessage::RoomErr(e)),
                    }
                },
            C2SMessage::ChooseLandlord(choose) => exists|r: Result<MessagePacket, RoomError>|
                {
                    &&& #[trigger] ServerLobby::chose(before, user@, choose, after, r)
                    &&& packets.len() == 1
                    &&& match r {
                        Ok(told) => packets[0] == told,
                        Err(e) => is_reply(packets[0], S2CMessage::RoomErr(e)),
                    }
                },
            C2SMessage::Pass => exists|r: Result<UserId, GameError>|
                {
                    &&& #[trigger] ServerLobby::passed(before, user@, after, r)
                    &&& packets.len() == 1
                    &&& match r {
                        Ok(next) => before.room_of(user@) matches Some(i) && tells_room(
                            packets[0],
                            before.rooms@[i].name@,
                        ) && packets[0].1 == S2CMessage::Move(next),
                        Err(e) => is_reply(packets[0], S2CMessage::GameErr(e)),
                    }
                },
            C2SMessage::SubmitCards(cards) => exists|r: Result<UserId, GameError>|
                {
                    &&& #[trigger] ServerLobby::laid(before, user@, cards@, after, r)
                    &&& match r {
                        Ok(next) => {
                            &&& packets.len() == 2
                            &&& before.room_of(user@) matches Some(i) && tells_room(
                                packets[0],
                                before.rooms@[i].name@,
                            ) && tells_room(packets[1], before.rooms@[i].name@)
                            &&& packets[0].1 matches S2CMessage::CardsSubmitted(who, what) && who@
                                == user@ && what@ == cards@
                            &&& packets[1].1 == S2CMessage::Move(next)
                        },
                        Err(e) => packets.len() == 1 && is_reply(packets[0], S2CMessage::GameErr(e)),
                    }
                },
            C2SMessage::RematchVote(vote) => exists|r: Result<(u32, bool), RoomError>|
                {
                    &&& #[trigger] ServerLobby::voted(before, user@, vote, after, r)
                    &&& match r {
                        Ok((count, counted)) => packets.len() == 1 && packets[0].0
                            == MessageTarget::Reply && (packets[0].1 matches S2CMessage::RematchVote(
                            who,
                            how,
                            votes,
                        ) && who@ == user@ && how == counted && votes == count),
                        Err(_) => packets.len() == 0,
                    }
                },
            C2SMessage::Matchmake => ServerLobby::matched(before, user, after) && packets.len()
                == 0,
            C2SMessage::QueryRoomList => after.same_lists(before) && packets.len() == 1
                && packets[0].0 == MessageTarget::Reply && (packets[0].1 matches S2CMessage::RoomList(
                list,
            ) && names(list@) == room_names(before.rooms@)),
            C2SMessage::QueryMatchmake => after.same_lists(before) && packets.len() == 0,
        }
    }

    /// Does what a message of the user `user` asks for, and answers with what
    /// is to be told, and to whom: see [`ServerLobby::handled`].
    pub fn handle(&mut self, user: &UserId, message: C2SMessage) -> (packets: Vec<MessagePacket>)
        requires
            old(self).wf(),
            message matches C2SMessage::SubmitCards(cards) ==> cards@.len() <= u32::MAX,
        ensures
            final(self).wf(),
            ServerLobby::handled(old(self), *user, message, final(self), packets@),
    {
        let ghost before = *self;
        let mut packets: Vec<MessagePacket> = Vec::new();
        match message {
            C2SMessage::Ping => {
                packets.push((MessageTarget::Reply, S2CMessage::Pong));
            },
            C2SMessage::Login(name) => {
                self.connect(name);
                packets.push((MessageTarget::Reply, S2CMessage::LoggedIn));
            },
            C2SMessage::JoinRoom(room) => {
                let r = self.join_room(&room, user.clone());
                match r {
                    Ok(told) => {
                        packets = told;
                    },
                    Err(e) => {
                        packets.push((MessageTarget::Reply, S2CMessage::LobbyErr(e)));
                    },
                }
                proof {
                    assert(ServerLobby::joined_room(&before, room, *user, self, r));
                }
            },
            C2SMessage::StartGame(room) => {
                let r = self.start_game_by_name(&room);
                match r {
                    Ok(told) => {
                        packets = told;
                    },
                    Err(e) => {
                        packets.push((MessageTarget::Reply, S2CMessage::RoomErr(e)));
                    },
                }
                proof {
                    assert(ServerLobby::started_by_name(&before, room, self, r));
                }
            },
            C2SMessage::ChooseLandlord(choose) => {
                let r = self.choose_landlord(user, choose);
                match r {
                    Ok(told) => {
                        packets.push(told);
                    },
                    Err(e) => {
                        packets.push((MessageTarget::Reply, S2CMessage::RoomErr(e)));
                    },
                }
                proof {
                    assert(ServerLobby::chose(&before, user@, choose, self, r));
                }
            },
            C2SMessage::Pass => {
                let at = self.find_room_of(user);
                let r = self.pass(user);
                match r {
                    Ok(next) => {
                        let room = match at {
                            Some(i) => self.rooms[i].name.clone(),
                            None => String::new(),
                        };
                        packets.push((MessageTarget::Room(room), S2CMessage::Move(next)));
                    },
                    Err(e) => {
                        packets.push((MessageTarget::Reply, S2CMessage::GameErr(e)));
                    },
                }
                proof {
                    assert(ServerLobby::passed(&before, user@, self, r));
                }
            },
            C2SMessage::SubmitCards(cards) => {
                let at = self.find_room_of(user);
                let shown = copy_range(&cards, 0, cards.len());
                assert(shown@ =~= cards@);
                let ghost laid = cards@;
                let r = self.submit_cards(user, cards);
                match r {
                    Ok(next) => {
                        let room = match at {
                            Some(i) => self.rooms[i].name.clone(),
                            None => String::new(),
                        };
                        packets.push(
                            (
                                MessageTarget::Room(room.clone()),
                                S2CMessage::CardsSubmitted(user.clone(), shown),
                            ),
                        );
                        packets.push((MessageTarget::Room(room), S2CMessage::Move(next)));
                    },
                    Err(e) => {
                        packets.push((MessageTarget::Reply, S2CMessage::GameErr(e)));
                    },
                }
                proof {
                    assert(ServerLobby::laid(&before, user@, laid, self, r));
                }
            },
            C2SMessage::RematchVote(vote) => {
                let r = self.vote(user, vote);
                if let Ok((count, counted)) = r {
                    packets.push(
                        (MessageTarget::Reply, S2CMessage::RematchVote(user.clone(), counted, count)),
                    );
                }
                proof {
                    assert(ServerLobby::voted(&before, user@, vote, self, r));
                }
            },
            C2SMessage::Matchmake => {
                self.matchmake(user.clone());
            },
            C2SMessage::QueryRoomList => {
                let list = self.room_list();
                packets.push((MessageTarget::Reply, S2CMessage::RoomList(list)));
            },
            C2SMessage::QueryMatchmake => {},
        }
        packets
    }
}

impl Lobby for ServerLobby {
    /// A user has logged in: see [`ServerLobby::logged_in`].
    fn login(&mut self, user: String)
        ensures
            ServerLobby::logged_in(old(self), user, final(self)),
            old(self).wf() ==> final(self).wf(),
    {
        ServerLobby::login(self, user)
    }

    /// A user's connection is gone: see [`ServerLobby::disconnected`].
    fn disconnect(&mut self, user: &str)
        ensures
            ServerLobby::disconnected(old(self), user@, final(self)),
            old(self).wf() ==> final(self).wf(),
    {
        let user = user.to_owned();
        ServerLobby::disconnect(self, &user)
    }
}

} // verus!
