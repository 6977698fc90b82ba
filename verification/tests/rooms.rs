use cardgame::chat::{ChatMessage, ChatMessages};
use cardgame::card::Card;
use cardgame::error::{GameError, LobbyError, RoomError};
use cardgame::player::PlayerType;
use cardgame::game::GameState;
use cardgame::lobby::{Room, RoomState};
use cardgame::messages::S2CMessage;
use cardgame::user::{User, UserManager};
use rand::rngs::StdRng;
use rand::SeedableRng;

fn full_room() -> Room {
    let mut room = Room::new("blue".to_string());
    assert_eq!(room.join("ann".to_string()), Ok(false));
    assert_eq!(room.join("bob".to_string()), Ok(false));
    assert_eq!(room.join("cy".to_string()), Ok(true));
    room
}

#[test]
fn a_new_room_waits() {
    let room = Room::new("blue".to_string());
    assert_eq!(room.name, "blue");
    assert!(room.users.is_empty());
    assert!(room.game.players.is_empty());
    assert_eq!(room.game_name, "");
    assert_eq!(room.state, RoomState::Waiting);
}

#[test]
fn the_third_user_makes_the_room_ready() {
    let room = full_room();
    assert_eq!(room.state, RoomState::Ready);
    assert_eq!(room.users, vec!["ann".to_string(), "bob".to_string(), "cy".to_string()]);
    assert_eq!(room.game.players.len(), 3);
    assert_eq!(room.game.players[1].user, "bob");
}

#[test]
fn joining_twice_and_joining_a_full_room_are_refused() {
    let mut room = Room::new("blue".to_string());
    room.join("ann".to_string()).unwrap();
    assert_eq!(room.join("ann".to_string()), Err(LobbyError::HasJoinedRoom));
    assert_eq!(room.users.len(), 1);
    room.join("bob".to_string()).unwrap();
    room.join("cy".to_string()).unwrap();
    assert_eq!(room.join("dee".to_string()), Err(LobbyError::RoomFull));
    assert_eq!(room.join("bob".to_string()), Err(LobbyError::HasJoinedRoom));
    assert_eq!(room.users.len(), 3);
    assert_eq!(room.game.players.len(), 3);
}

#[test]
fn push_takes_the_user_in() {
    let mut room = Room::new("blue".to_string());
    room.push("ann".to_string());
    assert_eq!(room.users, vec!["ann".to_string()]);
    assert_eq!(room.game.players.len(), 1);
    assert_eq!(room.game.players[0].user, "ann");
    assert_eq!(room.state, RoomState::Waiting);
}

#[test]
fn a_room_that_is_not_ready_does_not_start() {
    let mut room = Room::new("blue".to_string());
    room.join("ann".to_string()).unwrap();
    assert_eq!(room.start_game(), Err(RoomError::NotReady));
    assert_eq!(room.start_game_with(&mut StdRng::seed_from_u64(1)), Err(RoomError::NotReady));
    assert_eq!(room.game.state, GameState::WaitingForPlayers);
}

#[test]
fn a_ready_room_starts_once() {
    let mut room = full_room();
    let candidate = room.start_game().unwrap();
    assert_eq!(room.game.state, GameState::WaitingForLandlord);
    assert_eq!(candidate, room.game.landlord_player().user);
    assert_eq!(room.start_game(), Err(RoomError::NotReady));
    assert_eq!(room.game.players[0].cards.len(), 17);
}

#[test]
fn choosing_the_landlord_in_a_room() {
    let mut room = full_room();
    assert_eq!(room.choose_landlord(&"ann".to_string(), true), Err(RoomError::NotStarted));
    let first = room.start_game_with(&mut StdRng::seed_from_u64(3)).unwrap();
    let seat = room.game.landlord_index;
    let other = room.users[(seat + 1) % 3].clone();
    assert_eq!(room.choose_landlord(&other, true), Err(RoomError::NotLandlordPlayer));
    assert_eq!(room.choose_landlord(&first, false), Ok(S2CMessage::LandlordMove(other.clone())));
    assert_eq!(room.game.landlord_index, (seat + 1) % 3);
    let pool = room.game.landlord_cards.clone();
    assert_eq!(room.choose_landlord(&other, true), Ok(S2CMessage::LordCards(other.clone(), pool)));
    assert_eq!(room.game.state, GameState::Running);
    assert_eq!(room.game.current_player().user, other);
    assert_eq!(room.game.current_player().cards.len(), 20);
}

#[test]
fn votes_on_a_rematch() {
    let mut room = full_room();
    assert_eq!(room.rematch_vote(true), Err(RoomError::NotReady));
    room.state = RoomState::WaitingForRematch(1);
    assert_eq!(room.rematch_vote(true), Ok((2, true)));
    assert_eq!(room.rematch_vote(false), Ok((1, false)));
}

#[test]
fn refusals_have_texts() {
    assert_eq!(RoomError::NotReady.to_string(), "房间未准备好");
    assert_eq!(RoomError::NotStarted.to_string(), "游戏尚未开始");
    assert_eq!(RoomError::NotLandlordPlayer.to_string(), "不是你叫地主");
    assert_eq!(RoomError::RoomFull.to_string(), "房间已满");
    assert_eq!(LobbyError::RoomFull.to_string(), "Room is full");
    assert_eq!(LobbyError::HasJoinedRoom.to_string(), "Lobby error");
    assert_eq!(LobbyError::RoomErr(RoomError::NotReady).to_string(), "Lobby error");
    assert_eq!(LobbyError::OtherError.to_string(), "Lobby error");
}

fn known(users: &UserManager, id: &str, stored: Option<i64>) -> (String, i64) {
    let id = id.to_string();
    let stored = stored.map(|score| User { id: id.clone(), score });
    let user = users.get_user(&id, stored).unwrap();
    (user.id, user.score)
}

#[test]
fn users_in_memory() {
    let mut users = UserManager::new("./users".to_string());
    assert_eq!(users.path, "./users");
    let ann = "ann".to_string();
    assert_eq!(known(&users, "ann", None), (ann.clone(), 0));
    assert_eq!(known(&users, "ann", Some(7)), (ann.clone(), 7));
    users.insert_user(ann.clone(), User { id: ann.clone(), score: 3 });
    assert_eq!(known(&users, "ann", Some(7)), (ann.clone(), 3));
    users.insert_user(ann.clone(), User { id: ann.clone(), score: 4 });
    assert_eq!(users.cache.len(), 1);
    assert_eq!(known(&users, "ann", None), (ann.clone(), 4));
    users.insert_user("bob".to_string(), User::new("bob".to_string()));
    assert_eq!(users.cache.len(), 2);
    assert_eq!(users.cache[1].id, "bob");
    assert_eq!(known(&users, "ann", None), (ann.clone(), 4));
    assert_eq!(known(&users, "bob", Some(9)), ("bob".to_string(), 0));
}

#[test]
fn users_are_equal_by_name() {
    let a = User { id: "ann".to_string(), score: 1 };
    let b = User { id: "ann".to_string(), score: 2 };
    let c = User { id: "bob".to_string(), score: 1 };
    assert!(a == b);
    assert!(a != c);
    let new = User::new("ann".to_string());
    assert_eq!(new.id, "ann");
    assert_eq!(new.score, 0);
}

#[test]
fn users_are_changed_in_memory() {
    let mut users = UserManager::new("./users".to_string());
    let ann = "ann".to_string();
    {
        let user = users.get_user_mut(&ann, Some(User { id: ann.clone(), score: 100 }));
        assert_eq!((user.id.as_str(), user.score), ("ann", 100));
        user.score += 400;
    }
    assert_eq!(users.cache.len(), 1);
    assert_eq!(known(&users, "ann", None).1, 500);
    users.get_user_mut(&ann, Some(User { id: ann.clone(), score: 1 })).score -= 700;
    assert_eq!(known(&users, "ann", None).1, -200);
    users.get_user_mut(&"bob".to_string(), None).score = 5;
    assert_eq!(known(&users, "bob", None), ("bob".to_string(), 5));
    assert_eq!(users.cache.len(), 2);
    let made = UserManager::read_user_or_create(None, &ann);
    assert_eq!((made.id, made.score), (ann.clone(), 0));
    let read = UserManager::read_user_or_create(Some(User { id: ann.clone(), score: 8 }), &ann);
    assert_eq!((read.id, read.score), (ann.clone(), 8));
}

#[test]
fn plays_in_a_room() {
    let mut room = full_room();
    let ann = "ann".to_string();
    assert_eq!(room.submit_cards(&ann, Vec::new()), Err(GameError::NotRunning));
    assert_eq!(room.pass(&ann), Err(GameError::NotRunning));
    room.game.deal(&cardgame::deck::new_deck(), 0).unwrap();
    room.choose_landlord(&ann, true).unwrap();
    room.game.players[0].cards = vec![Card::Card3, Card::Card4];
    assert_eq!(room.submit_cards(&"bob".to_string(), vec![Card::Card7]), Err(GameError::NotYourTurn));
    assert_eq!(room.pass(&ann), Err(GameError::YourTurn));
    assert_eq!(room.submit_cards(&ann, vec![Card::Card3]), Ok("bob".to_string()));
    assert_eq!(room.state, RoomState::Ready);
    assert_eq!(room.pass(&"bob".to_string()), Ok("cy".to_string()));
    assert_eq!(room.pass(&"cy".to_string()), Ok(ann.clone()));
    assert_eq!(
        room.submit_cards(&ann, vec![Card::Card4]),
        Err(GameError::Win(ann.clone(), PlayerType::Landlord, 100))
    );
    assert_eq!(room.state, RoomState::WaitingForRematch(0));
    assert_eq!(room.game.state, GameState::WaitingForPlayers);
    assert_eq!(room.rematch_vote(true), Ok((1, true)));
    assert_eq!(room.state, RoomState::WaitingForRematch(0));
    assert_eq!(room.vote(false), Ok((0, false)));
    assert_eq!(room.vote(true), Ok((1, true)));
    assert_eq!(room.state, RoomState::WaitingForRematch(1));
    assert_eq!(room.vote(true), Ok((2, true)));
    assert_eq!(room.vote(true), Ok((3, true)));
    assert_eq!(room.state, RoomState::Ready);
    assert_eq!(room.vote(true), Err(RoomError::NotReady));
    assert_eq!(room.state, RoomState::Ready);
}

#[test]
fn chat_lines() {
    let mut chat = ChatMessages::new();
    assert!(chat.messages.is_empty());
    chat.add(ChatMessage::SystemMessage("hello".to_string()));
    chat.add(ChatMessage::UserMessage("hi".to_string()));
    chat.add(ChatMessage::GameMessage("go".to_string()));
    assert_eq!(chat.messages.len(), 3);
    let authors: Vec<String> = chat.messages.iter().map(|m| m.get_author()).collect();
    assert_eq!(authors, vec!["SYSTEM", "USER", "OTHER"]);
    let texts: Vec<String> = chat.messages.iter().map(|m| m.get_text()).collect();
    assert_eq!(texts, vec!["hello", "hi", "go"]);
}
