use cardgame::card::Card;
use cardgame::error::{GameError, LobbyError, RoomError};
use cardgame::game::GameState;
use cardgame::lobby::{Lobby, RoomState};
use cardgame::messages::S2CMessage;
use cardgame::player::PlayerType;
use cardgame::server_lobby::{MessagePacket, MessageTarget, ServerLobby};
use cardgame::user::UserState;

fn name(s: &str) -> String {
    s.to_string()
}

fn state_of(lobby: &ServerLobby, user: &str) -> Option<UserState> {
    lobby.user_states.iter().find(|s| s.user == user).map(|s| s.state.clone())
}

fn joined(user: &str, room: &str) -> MessagePacket {
    (MessageTarget::User(name(user)), S2CMessage::RoomJoined(name(room)))
}

/// A lobby with one room, `blue`, whose game has started.
fn started() -> (ServerLobby, Vec<MessagePacket>) {
    let mut lobby = ServerLobby::new();
    for user in ["ann", "bob", "cy"] {
        lobby.connect(name(user));
    }
    assert_eq!(lobby.join_room(&name("blue"), name("ann")), Ok(vec![joined("ann", "blue")]));
    assert_eq!(lobby.join_room(&name("blue"), name("bob")), Ok(vec![joined("bob", "blue")]));
    let packets = lobby.join_room(&name("blue"), name("cy")).unwrap();
    (lobby, packets)
}

#[test]
fn a_new_lobby_is_empty() {
    let lobby = ServerLobby::new();
    assert!(lobby.users.is_empty());
    assert!(lobby.user_states.is_empty());
    assert!(lobby.waiting_list.is_empty());
    assert!(lobby.rooms.is_empty());
}

#[test]
fn login_notes_the_user_as_idle_once() {
    let mut lobby = ServerLobby::new();
    lobby.login(name("ann"));
    lobby.login(name("bob"));
    lobby.login(name("ann"));
    assert_eq!(lobby.users, vec![name("ann"), name("bob"), name("ann")]);
    assert_eq!(lobby.user_states.len(), 2);
    assert_eq!(state_of(&lobby, "ann"), Some(UserState::Idle));
    assert_eq!(state_of(&lobby, "bob"), Some(UserState::Idle));
    assert_eq!(state_of(&lobby, "cy"), None);
}

#[test]
fn login_keeps_what_the_user_is_doing() {
    let mut lobby = ServerLobby::new();
    lobby.matchmake(name("ann"));
    lobby.login(name("ann"));
    assert_eq!(state_of(&lobby, "ann"), Some(UserState::Matchmaking));
    assert_eq!(lobby.waiting_list, vec![name("ann")]);
    assert_eq!(lobby.users, vec![name("ann")]);
}

#[test]
fn connecting_ends_the_wait_for_a_match_but_not_a_game() {
    let mut lobby = ServerLobby::new();
    lobby.matchmake(name("ann"));
    lobby.connect(name("ann"));
    assert_eq!(state_of(&lobby, "ann"), Some(UserState::Idle));
    lobby.join_room(&name("blue"), name("bob")).unwrap();
    lobby.connect(name("bob"));
    assert_eq!(state_of(&lobby, "bob"), Some(UserState::Playing(name("blue"))));
    lobby.connect(name("cy"));
    assert_eq!(state_of(&lobby, "cy"), Some(UserState::Idle));
    assert_eq!(lobby.users, vec![name("ann"), name("bob"), name("cy")]);
}

#[test]
fn the_lobby_is_a_lobby() {
    fn through_the_trait(lobby: &mut dyn Lobby) {
        lobby.login(name("ann"));
        lobby.login(name("bob"));
        lobby.disconnect("ann");
    }
    let mut lobby = ServerLobby::new();
    through_the_trait(&mut lobby);
    assert_eq!(lobby.users, vec![name("bob")]);
    assert_eq!(lobby.user_states.len(), 2);
}

#[test]
fn joining_makes_the_room() {
    let mut lobby = ServerLobby::new();
    assert_eq!(lobby.join_room(&name("blue"), name("ann")), Ok(vec![joined("ann", "blue")]));
    assert_eq!(lobby.rooms.len(), 1);
    assert_eq!(lobby.rooms[0].name, "blue");
    assert_eq!(lobby.rooms[0].users, vec![name("ann")]);
    assert_eq!(lobby.rooms[0].state, RoomState::Waiting);
    assert_eq!(state_of(&lobby, "ann"), Some(UserState::Playing(name("blue"))));
    assert_eq!(lobby.join_room(&name("red"), name("bob")), Ok(vec![joined("bob", "red")]));
    assert_eq!(lobby.rooms.len(), 2);
    assert_eq!(lobby.get_room_by_user(&name("bob")).map(|r| r.name.as_str()), Some("red"));
    assert_eq!(lobby.get_room_by_user(&name("ann")).map(|r| r.name.as_str()), Some("blue"));
    assert!(lobby.get_room_by_user(&name("cy")).is_none());
}

#[test]
fn joining_twice_or_a_full_room_is_refused_and_changes_nothing() {
    let (mut lobby, _) = started();
    assert_eq!(lobby.join_room(&name("blue"), name("bob")), Err(LobbyError::HasJoinedRoom));
    assert_eq!(lobby.join_room(&name("blue"), name("dee")), Err(LobbyError::RoomFull));
    assert_eq!(lobby.rooms.len(), 1);
    assert_eq!(lobby.rooms[0].users.len(), 3);
    assert_eq!(state_of(&lobby, "dee"), None);
    assert_eq!(lobby.user_states.len(), 3);
}

#[test]
fn the_third_user_starts_the_game() {
    let (lobby, packets) = started();
    let room = &lobby.rooms[0];
    assert_eq!(room.state, RoomState::Ready);
    assert_eq!(room.game.state, GameState::WaitingForLandlord);
    let candidate = room.game.landlord_player().user.clone();
    assert_eq!(packets.len(), 4);
    for (seat, user) in ["ann", "bob", "cy"].iter().enumerate() {
        assert_eq!(room.game.players[seat].cards.len(), 17);
        assert_eq!(
            packets[seat],
            (
                MessageTarget::User(name(user)),
                S2CMessage::GameStarted(room.game.players[seat].cards.clone(), candidate.clone())
            )
        );
        assert_eq!(state_of(&lobby, user), Some(UserState::Playing(name("blue"))));
    }
    assert_eq!(packets[3], joined("cy", "blue"));
}

#[test]
fn starting_by_name() {
    let mut lobby = ServerLobby::new();
    assert_eq!(lobby.start_game_by_name(&name("blue")), Err(RoomError::NotReady));
    lobby.join_room(&name("blue"), name("ann")).unwrap();
    assert_eq!(lobby.start_game_by_name(&name("blue")), Err(RoomError::NotReady));
    let (mut lobby, _) = started();
    assert_eq!(lobby.start_game_by_name(&name("blue")), Err(RoomError::NotReady));
    lobby.rooms[0].game.state = GameState::WaitingForPlayers;
    let packets = lobby.start_game_by_name(&name("blue")).unwrap();
    assert_eq!(packets.len(), 3);
    assert_eq!(lobby.rooms[0].game.state, GameState::WaitingForLandlord);
    assert_eq!(lobby.rooms[0].game.players[1].cards.len(), 17);
}

#[test]
fn a_whole_round_through_the_lobby() {
    let (mut lobby, _) = started();
    let outsider = name("dee");
    assert_eq!(lobby.choose_landlord(&outsider, true), Err(RoomError::NotReady));
    assert_eq!(lobby.submit_cards(&outsider, vec![Card::Card3]), Err(GameError::NotRunning));
    assert_eq!(lobby.pass(&outsider), Err(GameError::NotRunning));
    assert_eq!(lobby.rematch_vote(&outsider, true), Err(RoomError::NotReady));

    let seat = lobby.rooms[0].game.landlord_index;
    let users = [name("ann"), name("bob"), name("cy")];
    let first = users[seat].clone();
    let second = users[(seat + 1) % 3].clone();
    let third = users[(seat + 2) % 3].clone();
    assert_eq!(lobby.choose_landlord(&second, true), Err(RoomError::NotLandlordPlayer));
    assert_eq!(
        lobby.choose_landlord(&first, false),
        Ok((MessageTarget::Room(name("blue")), S2CMessage::LandlordMove(second.clone())))
    );
    let pool = lobby.rooms[0].game.landlord_cards.clone();
    assert_eq!(
        lobby.choose_landlord(&second, true),
        Ok((MessageTarget::Room(name("blue")), S2CMessage::LordCards(second.clone(), pool)))
    );
    assert_eq!(lobby.rooms[0].game.state, GameState::Running);
    assert_eq!(lobby.get_room_by_user(&second).unwrap().game.current_player().cards.len(), 20);

    let at = (seat + 1) % 3;
    lobby.rooms[0].game.players[at].cards = vec![Card::Card5, Card::Card9];
    assert_eq!(lobby.submit_cards(&first, vec![Card::Card3]), Err(GameError::NotYourTurn));
    assert_eq!(lobby.pass(&second), Err(GameError::YourTurn));
    assert_eq!(lobby.submit_cards(&second, vec![Card::Card6]), Err(GameError::NoSuchCards));
    assert_eq!(lobby.submit_cards(&second, vec![Card::Card5]), Ok(third.clone()));
    assert_eq!(lobby.pass(&third), Ok(first.clone()));
    assert_eq!(lobby.pass(&first), Ok(second.clone()));
    assert_eq!(lobby.rematch_vote(&second, true), Err(RoomError::NotReady));
    assert_eq!(
        lobby.submit_cards(&second, vec![Card::Card9]),
        Err(GameError::Win(second.clone(), PlayerType::Landlord, 100))
    );
    assert_eq!(lobby.rooms[0].state, RoomState::WaitingForRematch(0));
    assert_eq!(lobby.rematch_vote(&first, true), Ok((1, true)));
    assert_eq!(lobby.rematch_vote(&third, false), Ok((0, false)));
}

#[test]
fn plays_touch_no_other_room() {
    let (mut lobby, _) = started();
    for user in ["dee", "eve", "fay"] {
        lobby.join_room(&name("red"), name(user)).unwrap();
    }
    assert_eq!(lobby.rooms.len(), 2);
    let red_hands: Vec<Vec<Card>> = lobby.rooms[1].game.players.iter().map(|p| p.cards.clone()).collect();
    let candidate = lobby.rooms[0].game.landlord_player().user.clone();
    lobby.choose_landlord(&candidate, true).unwrap();
    let lowest = lobby.rooms[0].game.current_player().cards[0];
    lobby.submit_cards(&candidate, vec![lowest]).unwrap();
    assert_eq!(lobby.rooms[1].game.state, GameState::WaitingForLandlord);
    for seat in 0..3 {
        assert_eq!(lobby.rooms[1].game.players[seat].cards, red_hands[seat]);
    }
    assert_eq!(lobby.rooms[0].name, "blue");
    assert_eq!(lobby.rooms[1].name, "red");
}

#[test]
fn a_lost_connection_closes_the_room() {
    let (mut lobby, _) = started();
    lobby.join_room(&name("red"), name("dee")).unwrap();
    lobby.connect(name("dee"));
    lobby.disconnect(&name("bob"));
    assert_eq!(lobby.rooms.len(), 1);
    assert_eq!(lobby.rooms[0].name, "red");
    assert_eq!(lobby.users, vec![name("ann"), name("cy"), name("dee")]);
    assert_eq!(state_of(&lobby, "bob"), Some(UserState::Playing(name("blue"))));
    assert!(lobby.get_room_by_user(&name("ann")).is_none());
    assert_eq!(lobby.submit_cards(&name("ann"), vec![Card::Card3]), Err(GameError::NotRunning));
    lobby.disconnect(&name("nobody"));
    assert_eq!(lobby.rooms.len(), 1);
    assert_eq!(lobby.users.len(), 3);
}

#[test]
fn waiting_for_a_match() {
    let mut lobby = ServerLobby::new();
    lobby.connect(name("ann"));
    lobby.matchmake(name("ann"));
    lobby.matchmake(name("bob"));
    assert_eq!(lobby.waiting_list, vec![name("ann"), name("bob")]);
    assert_eq!(state_of(&lobby, "ann"), Some(UserState::Matchmaking));
    assert_eq!(state_of(&lobby, "bob"), Some(UserState::Matchmaking));
    assert_eq!(lobby.user_states.len(), 2);
    assert_eq!(lobby.users, vec![name("ann")]);
}

use cardgame::messages::C2SMessage;

fn reply(message: S2CMessage) -> MessagePacket {
    (MessageTarget::Reply, message)
}

fn to_room(room: &str, message: S2CMessage) -> MessagePacket {
    (MessageTarget::Room(name(room)), message)
}

#[test]
fn messages_are_answered() {
    let mut lobby = ServerLobby::new();
    let ann = name("ann");
    assert_eq!(lobby.handle(&ann, C2SMessage::Ping), vec![reply(S2CMessage::Pong)]);
    assert_eq!(lobby.handle(&ann, C2SMessage::Login(ann.clone())), vec![reply(S2CMessage::LoggedIn)]);
    assert_eq!(lobby.users, vec![ann.clone()]);
    assert_eq!(lobby.handle(&ann, C2SMessage::QueryRoomList), vec![reply(S2CMessage::RoomList(vec![]))]);
    assert_eq!(lobby.handle(&ann, C2SMessage::JoinRoom(name("blue"))), vec![joined("ann", "blue")]);
    assert_eq!(
        lobby.handle(&ann, C2SMessage::JoinRoom(name("blue"))),
        vec![reply(S2CMessage::LobbyErr(LobbyError::HasJoinedRoom))]
    );
    lobby.handle(&name("bob"), C2SMessage::JoinRoom(name("red")));
    assert_eq!(
        lobby.handle(&ann, C2SMessage::QueryRoomList),
        vec![reply(S2CMessage::RoomList(vec![name("blue"), name("red")]))]
    );
    assert_eq!(
        lobby.handle(&ann, C2SMessage::StartGame(name("blue"))),
        vec![reply(S2CMessage::RoomErr(RoomError::NotReady))]
    );
    assert_eq!(
        lobby.handle(&ann, C2SMessage::ChooseLandlord(true)),
        vec![reply(S2CMessage::RoomErr(RoomError::NotStarted))]
    );
    assert_eq!(
        lobby.handle(&name("zed"), C2SMessage::ChooseLandlord(true)),
        vec![reply(S2CMessage::RoomErr(RoomError::NotReady))]
    );
    assert_eq!(
        lobby.handle(&ann, C2SMessage::Pass),
        vec![reply(S2CMessage::GameErr(GameError::NotRunning))]
    );
    assert_eq!(
        lobby.handle(&ann, C2SMessage::SubmitCards(vec![Card::Card3])),
        vec![reply(S2CMessage::GameErr(GameError::NotRunning))]
    );
    assert_eq!(lobby.handle(&ann, C2SMessage::RematchVote(true)), vec![]);
    assert_eq!(lobby.handle(&ann, C2SMessage::QueryMatchmake), vec![]);
    assert_eq!(lobby.handle(&name("dee"), C2SMessage::Matchmake), vec![]);
    assert_eq!(lobby.waiting_list, vec![name("dee")]);
    assert_eq!(state_of(&lobby, "dee"), Some(UserState::Matchmaking));
}

#[test]
fn a_whole_round_by_messages() {
    let (mut lobby, _) = started();
    let seat = lobby.rooms[0].game.landlord_index;
    let users = [name("ann"), name("bob"), name("cy")];
    let first = users[seat].clone();
    let second = users[(seat + 1) % 3].clone();
    let third = users[(seat + 2) % 3].clone();
    let pool = lobby.rooms[0].game.landlord_cards.clone();
    assert_eq!(
        lobby.handle(&second, C2SMessage::ChooseLandlord(true)),
        vec![reply(S2CMessage::RoomErr(RoomError::NotLandlordPlayer))]
    );
    assert_eq!(
        lobby.handle(&first, C2SMessage::ChooseLandlord(true)),
        vec![to_room("blue", S2CMessage::LordCards(first.clone(), pool))]
    );
    lobby.rooms[0].game.players[seat].cards = vec![Card::Card5, Card::Card5, Card::Card9];
    assert_eq!(
        lobby.handle(&first, C2SMessage::SubmitCards(vec![Card::Card5, Card::Card9])),
        vec![reply(S2CMessage::GameErr(GameError::NoRule))]
    );
    assert_eq!(
        lobby.handle(&first, C2SMessage::SubmitCards(vec![Card::Card5, Card::Card5])),
        vec![
            to_room("blue", S2CMessage::CardsSubmitted(first.clone(), vec![Card::Card5, Card::Card5])),
            to_room("blue", S2CMessage::Move(second.clone())),
        ]
    );
    assert_eq!(
        lobby.handle(&second, C2SMessage::SubmitCards(vec![Card::Card3])),
        vec![reply(S2CMessage::GameErr(GameError::WrongRule))]
    );
    assert_eq!(
        lobby.handle(&third, C2SMessage::Pass),
        vec![reply(S2CMessage::GameErr(GameError::NotYourTurn))]
    );
    assert_eq!(
        lobby.handle(&second, C2SMessage::Pass),
        vec![to_room("blue", S2CMessage::Move(third.clone()))]
    );
    assert_eq!(
        lobby.handle(&third, C2SMessage::Pass),
        vec![to_room("blue", S2CMessage::Move(first.clone()))]
    );
    assert_eq!(
        lobby.handle(&first, C2SMessage::SubmitCards(vec![Card::Card9])),
        vec![reply(S2CMessage::GameErr(GameError::Win(first.clone(), PlayerType::Landlord, 100)))]
    );
    assert_eq!(lobby.rooms[0].state, RoomState::WaitingForRematch(0));
    assert_eq!(
        lobby.handle(&first, C2SMessage::RematchVote(false)),
        vec![reply(S2CMessage::RematchVote(first.clone(), false, 0))]
    );
    assert_eq!(
        lobby.handle(&first, C2SMessage::RematchVote(true)),
        vec![reply(S2CMessage::RematchVote(first.clone(), true, 1))]
    );
    assert_eq!(lobby.rooms[0].state, RoomState::WaitingForRematch(1));
    lobby.handle(&second, C2SMessage::RematchVote(true));
    assert_eq!(
        lobby.handle(&third, C2SMessage::RematchVote(true)),
        vec![reply(S2CMessage::RematchVote(third.clone(), true, 3))]
    );
    assert_eq!(lobby.rooms[0].state, RoomState::Ready);
    let packets = lobby.handle(&first, C2SMessage::StartGame(name("blue")));
    assert_eq!(packets.len(), 3);
    assert_eq!(lobby.rooms[0].game.state, GameState::WaitingForLandlord);
    for seat in 0..3 {
        assert_eq!(lobby.rooms[0].game.players[seat].cards.len(), 17);
        assert_eq!(lobby.rooms[0].game.players[seat].player_type, PlayerType::Farmer);
    }
    assert_eq!(lobby.rooms[0].game.score_multiplier, 1);
}
