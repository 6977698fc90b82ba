use cardgame::card::Card;
use cardgame::client::{ClientState, ClientStatus, Reaction, Refusal};
use cardgame::error::{GameError, RoomError};
use cardgame::messages::{C2SMessage, S2CMessage};
use cardgame::player::PlayerType;
use cardgame::text::{find_space, same_text, two_words};
use std::time::Duration;

fn hand(glyphs: &str) -> Vec<Card> {
    glyphs.chars().map(|c| Card::from_char(&c)).collect()
}

fn client(status: ClientStatus) -> ClientState {
    let mut state = ClientState::new();
    state.user_name = "ann".to_string();
    state.status = status;
    state
}

fn send(message: C2SMessage) -> Reaction {
    Reaction::Send(message)
}

fn refuse(why: Refusal) -> Reaction {
    Reaction::Refuse(why)
}

#[test]
fn texts_are_compared_and_cut() {
    assert!(same_text("ping", "ping"));
    assert!(same_text("", ""));
    assert!(same_text("叫地主", "叫地主"));
    assert!(!same_text("ping", "pin"));
    assert!(!same_text("ping", "pong"));
    assert!(!same_text("叫地主", "叫地王"));
    assert_eq!(find_space("join blue"), 4);
    assert_eq!(find_space("出牌 345"), 2);
    assert_eq!(find_space("pass"), 4);
    assert_eq!(find_space(" x"), 0);
    assert_eq!(find_space(""), 0);
    assert_eq!(two_words("join blue"), ("join", Some("blue")));
    assert_eq!(two_words("join blue room"), ("join", Some("blue")));
    assert_eq!(two_words("join"), ("join", None));
    assert_eq!(two_words("join "), ("join", Some("")));
    assert_eq!(two_words("join  blue"), ("join", Some("")));
    assert_eq!(two_words("出牌 王鬼"), ("出牌", Some("王鬼")));
    assert_eq!(two_words(""), ("", None));
}

#[test]
fn a_new_client_is_not_logged_in() {
    let state = ClientState::new();
    assert_eq!(state.status, ClientStatus::NotLoggedIn);
    assert!(state.cards.is_empty());
    assert_eq!(state.user_name, "");
    assert_eq!(state.landlord_name, "");
}

#[test]
fn commands_that_are_always_sent() {
    let mut state = ClientState::new();
    assert_eq!(state.handle_input("list_rooms"), send(C2SMessage::QueryRoomList));
    assert_eq!(state.handle_input("游戏列表"), send(C2SMessage::QueryRoomList));
    assert_eq!(state.handle_input("ping"), send(C2SMessage::Ping));
    assert_eq!(state.status, ClientStatus::NotLoggedIn);
}

#[test]
fn login_notes_the_name() {
    let mut state = ClientState::new();
    assert_eq!(state.handle_input("login"), refuse(Refusal::NoUserName));
    assert_eq!(state.user_name, "");
    assert_eq!(state.handle_input("login ann"), send(C2SMessage::Login("ann".to_string())));
    assert_eq!(state.user_name, "ann");
    assert_eq!(state.status, ClientStatus::NotLoggedIn);
    assert_eq!(state.handle_input("login bob the builder"), send(C2SMessage::Login("bob".to_string())));
    assert_eq!(state.user_name, "bob");
    assert_eq!(state.handle_input("login "), send(C2SMessage::Login(String::new())));
    assert_eq!(state.user_name, "");
}

#[test]
fn the_landlord_is_chosen_by_the_candidate_only() {
    for (line, choose) in [("叫地主", true), ("不叫", false)] {
        let mut state = client(ClientStatus::Gaming);
        assert_eq!(state.handle_input(line), refuse(Refusal::CannotChoose));
        state.status = ClientStatus::WaitingForLandlord;
        state.landlord_name = "bob".to_string();
        assert_eq!(state.handle_input(line), refuse(Refusal::NotCandidate));
        state.landlord_name = "ann".to_string();
        assert_eq!(state.handle_input(line), send(C2SMessage::ChooseLandlord(choose)));
    }
}

#[test]
fn votes_need_a_rematch() {
    let mut state = client(ClientStatus::Idle);
    assert_eq!(state.handle_input("再来一局"), refuse(Refusal::CannotVote));
    assert_eq!(state.handle_input("摸了"), refuse(Refusal::CannotVote));
    state.status = ClientStatus::WaitingForRematch;
    assert_eq!(state.handle_input("再来一局"), send(C2SMessage::RematchVote(true)));
    assert_eq!(state.handle_input("摸了"), send(C2SMessage::RematchVote(false)));
}

#[test]
fn starting_needs_a_room() {
    let mut state = client(ClientStatus::Idle);
    assert_eq!(state.handle_input("开始游戏"), refuse(Refusal::NoRoom));
    state.status = ClientStatus::WaitingForPlayers("blue".to_string());
    assert_eq!(state.handle_input("开始游戏"), send(C2SMessage::StartGame("blue".to_string())));
    state.status = ClientStatus::Gaming;
    assert_eq!(state.handle_input("开始游戏"), refuse(Refusal::CannotStart));
    state.status = ClientStatus::NotLoggedIn;
    assert_eq!(state.handle_input("开始游戏"), refuse(Refusal::CannotStart));
}

#[test]
fn passing_and_matching_go_by_the_status() {
    let mut state = client(ClientStatus::Idle);
    assert_eq!(state.handle_input("pass"), refuse(Refusal::CannotPass));
    assert_eq!(state.handle_input("匹配"), send(C2SMessage::Matchmake));
    state.status = ClientStatus::Gaming;
    assert_eq!(state.handle_input("pass"), send(C2SMessage::Pass));
    assert_eq!(state.handle_input("匹配"), refuse(Refusal::CannotMatch));
}

#[test]
fn cards_are_laid_while_the_play_is_on() {
    let mut state = client(ClientStatus::Idle);
    assert_eq!(state.handle_input("出牌 345"), refuse(Refusal::CannotPlay));
    state.status = ClientStatus::Gaming;
    assert_eq!(state.handle_input("出牌 34567"), send(C2SMessage::SubmitCards(hand("34567"))));
    assert_eq!(state.handle_input("出牌 10jq"), send(C2SMessage::SubmitCards(hand("1JQ"))));
    assert_eq!(state.handle_input("出牌 王鬼 3"), send(C2SMessage::SubmitCards(hand("王鬼"))));
    assert_eq!(state.handle_input("出牌 xyz"), refuse(Refusal::NoCards));
    assert_eq!(state.handle_input("出牌"), refuse(Refusal::NoCards));
    assert_eq!(state.handle_input("出牌 "), refuse(Refusal::NoCards));
}

#[test]
fn rooms_are_joined_by_idle_clients() {
    let mut state = client(ClientStatus::NotLoggedIn);
    assert_eq!(state.handle_input("join blue"), refuse(Refusal::CannotJoin));
    state.status = ClientStatus::Idle;
    assert_eq!(state.handle_input("join blue"), send(C2SMessage::JoinRoom("blue".to_string())));
    assert_eq!(state.handle_input("join"), send(C2SMessage::JoinRoom(String::new())));
    assert_eq!(state.status, ClientStatus::Idle);
}

#[test]
fn other_lines_are_no_commands() {
    let mut state = client(ClientStatus::Gaming);
    for line in ["", "hello", "pass now", "ping ping", " pass", "Pass", "345", "joinblue"] {
        assert_eq!(state.handle_input(line), refuse(Refusal::Unknown), "{:?}", line);
    }
    assert_eq!(state.status, ClientStatus::Gaming);
    assert_eq!(state.user_name, "ann");
}

#[test]
fn refusals_have_texts_for_the_user() {
    assert_eq!(Refusal::CannotChoose.to_string(), "此时还不能叫地主！");
    assert_eq!(Refusal::NotCandidate.to_string(), "不是你叫地主！");
    assert_eq!(Refusal::CannotVote.to_string(), "此时还不能进行重新比赛投票！");
    assert_eq!(Refusal::NoRoom.to_string(), "你还没加入一个房间！");
    assert_eq!(Refusal::CannotStart.to_string(), "游戏已开始或无法开始！");
    assert_eq!(Refusal::CannotPass.to_string(), "你现在还不能过牌！");
    assert_eq!(Refusal::CannotMatch.to_string(), "此时还不能加入匹配队列！");
    assert_eq!(Refusal::NoCards.to_string(), "你没有出任何牌！");
    assert_eq!(Refusal::CannotPlay.to_string(), "你现在还不能出牌！");
    assert_eq!(Refusal::CannotJoin.to_string(), "此时无法加入房间。");
    assert_eq!(Refusal::NoUserName.to_string(), "Please input a username");
    assert_eq!(Refusal::Unknown.to_string(), "Unknown command");
}

#[test]
fn a_game_as_the_client_sees_it() {
    let mut state = ClientState::new();
    state.handle_input("login ann");
    state.handle_message(&S2CMessage::LoggedIn);
    assert_eq!(state.status, ClientStatus::Idle);
    state.handle_message(&S2CMessage::RoomJoined("blue".to_string()));
    assert_eq!(state.status, ClientStatus::WaitingForPlayers("blue".to_string()));
    state.handle_message(&S2CMessage::RoomJoined("red".to_string()));
    assert_eq!(state.status, ClientStatus::WaitingForPlayers("blue".to_string()));

    state.handle_message(&S2CMessage::GameStarted(hand("3345K"), "bob".to_string()));
    assert_eq!(state.status, ClientStatus::WaitingForLandlord);
    assert_eq!(state.cards, hand("3345K"));
    assert_eq!(state.landlord_name, "bob");
    state.handle_message(&S2CMessage::LandlordMove("ann".to_string()));
    assert_eq!(state.landlord_name, "ann");
    assert_eq!(state.cards, hand("3345K"));

    state.handle_message(&S2CMessage::LordCards("ann".to_string(), hand("A49")));
    assert_eq!(state.status, ClientStatus::Gaming);
    assert_eq!(state.cards, hand("334459KA"));

    state.handle_message(&S2CMessage::CardsSubmitted("bob".to_string(), hand("33")));
    assert_eq!(state.cards, hand("334459KA"));
    state.handle_message(&S2CMessage::CardsSubmitted("ann".to_string(), hand("K4")));
    assert_eq!(state.cards, hand("33459A"));
    state.handle_message(&S2CMessage::CardsSubmitted("ann".to_string(), hand("33Q3")));
    assert_eq!(state.cards, hand("459A"));
    state.handle_message(&S2CMessage::Move("bob".to_string()));
    state.handle_message(&S2CMessage::Pong);
    state.handle_message(&S2CMessage::RoomErr(RoomError::NotReady));
    state.handle_message(&S2CMessage::GameErr(GameError::WrongRule));
    assert_eq!(state.cards, hand("459A"));
    assert_eq!(state.status, ClientStatus::Gaming);

    state.handle_message(&S2CMessage::GameErr(GameError::Win("bob".to_string(), PlayerType::Farmer, 200)));
    assert_eq!(state.status, ClientStatus::Idle);
    assert!(state.cards.is_empty());
    assert_eq!(state.landlord_name, "");
    assert_eq!(state.user_name, "ann");
}

#[test]
fn the_landlords_cards_go_to_the_landlord_only() {
    let mut state = client(ClientStatus::WaitingForLandlord);
    state.cards = hand("345");
    state.handle_message(&S2CMessage::LordCards("bob".to_string(), hand("AAA")));
    assert_eq!(state.cards, hand("345"));
    assert_eq!(state.status, ClientStatus::Gaming);
}

#[test]
fn a_vote_against_a_rematch_ends_it() {
    let mut state = client(ClientStatus::WaitingForRematch);
    state.cards = hand("345");
    state.landlord_name = "bob".to_string();
    state.handle_message(&S2CMessage::RematchVote("bob".to_string(), true, 1));
    assert_eq!(state.status, ClientStatus::WaitingForRematch);
    assert_eq!(state.cards, hand("345"));
    state.handle_message(&S2CMessage::RematchVote("bob".to_string(), false, 1));
    assert_eq!(state.status, ClientStatus::Idle);
    assert!(state.cards.is_empty());
    assert_eq!(state.landlord_name, "");
}

#[test]
fn a_wait_for_a_match_that_runs_out_leaves_the_client_idle() {
    let mut state = client(ClientStatus::NotLoggedIn);
    let long = Duration::from_secs(120);
    state.handle_message(&S2CMessage::MatchmakeStatus(2, long, Duration::from_secs(7)));
    assert_eq!(state.status, ClientStatus::NotLoggedIn);
    state.handle_message(&S2CMessage::MatchmakeStatus(2, long, Duration::ZERO));
    assert_eq!(state.status, ClientStatus::Idle);
    let mut state = client(ClientStatus::Gaming);
    state.matchmaking(false);
    assert_eq!(state.status, ClientStatus::Gaming);
    state.matchmaking(true);
    assert_eq!(state.status, ClientStatus::Idle);
}

#[test]
fn laying_takes_the_first_of_each_card() {
    let mut state = client(ClientStatus::Gaming);
    state.cards = hand("3A3K3");
    state.lay(&hand("3K"));
    assert_eq!(state.cards, hand("A33"));
    state.lay(&hand("7"));
    assert_eq!(state.cards, hand("A33"));
    state.lay(&hand("33A3"));
    assert!(state.cards.is_empty());
}
