//! What a client knows of its game, what it makes of a line that its user
//! types, and what it learns from the server.
use crate::card::Card;
use crate::error::GameError;
use crate::game::join_cards;
use crate::group::{copy_range, sort_cards, sorted};
use crate::input::{parse_input, parsed};
use crate::messages::{C2SMessage, S2CMessage};
use crate::text::{first_word, has_second, same_text, second_word, two_words};
use std::time::Duration;
use vstd::prelude::*;

verus! {

/// Where a client stands.
#[derive(Clone, Debug, PartialEq, Eq)]
pub enum ClientStatus {
    NotLoggedIn,
    /// Logged in, and in no game.
    Idle,
    /// In the room of this name, whose game has not started.
    WaitingForPlayers(String),
    WaitingForRematch,
    /// The landlord is being chosen.
    WaitingForLandlord,
    /// The play is on.
    Gaming,
}

/// What a client knows.
#[derive(Debug)]
pub struct ClientState {
    /// The user's hand.
    pub cards: Vec<Card>,
    pub user_name: String,
    /// Who is asked, or was the one, to be landlord.
    pub landlord_name: String,
    pub status: ClientStatus,
}

/// Why a line that the user typed is not sent on.
#[derive(Clone, Copy, Debug, PartialEq, Eq, Structural)]
pub enum Refusal {
    /// No landlord is being chosen.
    CannotChoose,
    /// Another player is asked to be landlord.
    NotCandidate,
    /// No rematch is being voted on.
    CannotVote,
    /// The user is in no room.
    NoRoom,
    /// The game has started, or cannot start.
    CannotStart,
    /// The play is not on, so there is nothing to pass on.
    CannotPass,
    /// The user is not idle, and so cannot wait for a match.
    CannotMatch,
    /// The line names no cards.
    NoCards,
    /// The play is not on, so no cards can be laid.
    CannotPlay,
    /// The user is not idle, and so cannot join a room.
    CannotJoin,
    /// The line names no user.
    NoUserName,
    /// The line is no command.
    Unknown,
}

/// What a client does with a line that its user typed.
#[derive(Debug, PartialEq, Eq)]
pub enum Reaction {
    /// The message is sent to the server.
    Send(C2SMessage),
    /// Nothing is sent, and the user is told why.
    Refuse(Refusal),
}

impl Refusal {
    /// What the user is told.
    pub open spec fn text(self) -> Seq<char> {
        match self {
            Refusal::CannotChoose => "此时还不能叫地主！"@,
            Refusal::NotCandidate => "不是你叫地主！"@,
            Refusal::CannotVote => "此时还不能进行重新比赛投票！"@,
            Refusal::NoRoom => "你还没加入一个房间！"@,
            Refusal::CannotStart => "游戏已开始或无法开始！"@,
            Refusal::CannotPass => "你现在还不能过牌！"@,
            Refusal::CannotMatch => "此时还不能加入匹配队列！"@,
            Refusal::NoCards => "你没有出任何牌！"@,
            Refusal::CannotPlay => "你现在还不能出牌！"@,
            Refusal::CannotJoin => "此时无法加入房间。"@,
            Refusal::NoUserName => "Please input a username"@,
            Refusal::Unknown => "Unknown command"@,
        }
    }

    /// What the user is told.
    pub fn to_string(&self) -> (s: &'static str)
        ensures
            s@ == self.text(),
    {
        match self {
            Refusal::CannotChoose => "此时还不能叫地主！",
            Refusal::NotCandidate => "不是你叫地主！",
            Refusal::CannotVote => "此时还不能进行重新比赛投票！",
            Refusal::NoRoom => "你还没加入一个房间！",
            Refusal::CannotStart => "游戏已开始或无法开始！",
            Refusal::CannotPass => "你现在还不能过牌！",
            Refusal::CannotMatch => "此时还不能加入匹配队列！",
            Refusal::NoCards => "你没有出任何牌！",
            Refusal::CannotPlay => "你现在还不能出牌！",
            Refusal::CannotJoin => "此时无法加入房间。",
            Refusal::NoUserName => "Please input a username",
            Refusal::Unknown => "Unknown command",
        }
    }
}

/// The hand without the first card that is `card`; the hand itself where it
/// holds no such card.
pub open spec fn without_card(hand: Seq<Card>, card: Card) -> Seq<Card>
    decreases hand.len(),
{
    if hand.len() == 0 {
        hand
    } else if hand[0] == card {
        hand.skip(1)
    } else {
        seq![hand[0]] + without_card(hand.skip(1), card)
    }
}

/// The hand without `cards`, each taken out in turn as [`without_card`]
/// does.
pub open spec fn without_cards(hand: Seq<Card>, cards: Seq<Card>) -> Seq<Card>
    decreases cards.len(),
{
    if cards.len() == 0 {
        hand
    } else {
        without_cards(without_card(hand, cards[0]), cards.skip(1))
    }
}

/// Taking a card out strikes it where it first stands, and changes nothing
/// where it does not stand.
pub proof fn lemma_without_card(hand: Seq<Card>, card: Card, i: int)
    requires
        0 <= i <= hand.len(),
        forall|j: int| 0 <= j < i ==> hand[j] != card,
        i == hand.len() || hand[i] == card,
    ensures
        without_card(hand, card) == if i < hand.len() {
            hand.remove(i)
        } else {
            hand
        },
    decreases i,
{
    if i > 0 {
        let rest = hand.skip(1);
        assert forall|j: int| 0 <= j < i - 1 implies rest[j] != card by {
            assert(rest[j] == hand[j + 1]);
        }
        lemma_without_card(rest, card, i - 1);
        if i < hand.len() {
            assert(seq![hand[0]] + rest.remove(i - 1) =~= hand.remove(i));
        } else {
            assert(seq![hand[0]] + rest =~= hand);
        }
    } else if i < hand.len() {
        assert(hand.skip(1) =~= hand.remove(0));
    }
}

/// Takes the first card that is `card` out of the hand.
fn remove_card(hand: &mut Vec<Card>, card: Card)
    ensures
        final(hand)@ == without_card(old(hand)@, card),
{
    let mut i: usize = 0;
    while i < hand.len()
        invariant
            i <= hand@.len(),
            hand@ == old(hand)@,
            forall|j: int| 0 <= j < i ==> hand@[j] != card,
        decreases hand.len() - i,
    {
        if hand[i] == card {
            proof {
                lemma_without_card(hand@, card, i as int);
            }
            hand.remove(i);
            return ;
        }
        i += 1;
    }
    proof {
        lemma_without_card(hand@, card, hand@.len() as int);
    }
}

/// std's `Duration::is_zero`: whether the span of time is no time at all.
/// Nothing is claimed of the answer.
#[verifier::external_body]
fn is_no_time(span: &Duration) -> (b: bool) {
    span.is_zero()
}

impl ClientState {
    /// Whether all but the status is the same in both.
    pub open spec fn same_but_status(&self, other: &ClientState) -> bool {
        &&& self.cards@ == other.cards@
        &&& self.user_name@ == other.user_name@
        &&& self.landlord_name@ == other.landlord_name@
    }

    /// Whether both know the same.
    pub open spec fn same(&self, other: &ClientState) -> bool {
        self.same_but_status(other) && self.status == other.status
    }

    /// Whether the client is out of every game: idle, with no cards and
    /// nobody to be landlord, under the user name of `other`.
    pub open spec fn left_game(&self, other: &ClientState) -> bool {
        &&& self.status == ClientStatus::Idle
        &&& self.cards@.len() == 0
        &&& self.landlord_name@.len() == 0
        &&& self.user_name@ == other.user_name@
    }

    /// What the client makes of a command that takes or leaves the
    /// landlord's part.
    pub open spec fn choosing(&self, choose: bool) -> Reaction {
        if self.status != ClientStatus::WaitingForLandlord {
            Reaction::Refuse(Refusal::CannotChoose)
        } else if self.landlord_name@ != self.user_name@ {
            Reaction::Refuse(Refusal::NotCandidate)
        } else {
            Reaction::Send(C2SMessage::ChooseLandlord(choose))
        }
    }

    /// What the client makes of a vote on a rematch.
    pub open spec fn voting(&self, vote: bool) -> Reaction {
        if self.status == ClientStatus::WaitingForRematch {
            Reaction::Send(C2SMessage::RematchVote(vote))
        } else {
            Reaction::Refuse(Refusal::CannotVote)
        }
    }

    /// What the client makes of the command to start the game.
    pub open spec fn starting(&self) -> Reaction {
        match self.status {
            ClientStatus::Idle => Reaction::Refuse(Refusal::NoRoom),
            ClientStatus::WaitingForPlayers(room) => Reaction::Send(C2SMessage::StartGame(room)),
            _ => Reaction::Refuse(Refusal::CannotStart),
        }
    }

    /// Whether the line is a command as a whole.
    pub open spec fn whole(line: Seq<char>) -> bool {
        ||| line == "list_rooms"@
        ||| line == "游戏列表"@
        ||| line == "ping"@
        ||| line == "叫地主"@
        ||| line == "不叫"@
        ||| line == "再来一局"@
        ||| line == "摸了"@
        ||| line == "开始游戏"@
        ||| line == "pass"@
        ||| line == "匹配"@
    }

    /// What the client makes of a line that is a command as a whole: it asks
    /// for the rooms, pings, takes or leaves the landlord's part, votes on a
    /// rematch, starts the game, passes, or asks for a match, where the
    /// client's status allows.
    pub open spec fn whole_reaction(&self, line: Seq<char>) -> Reaction {
        if line == "list_rooms"@ || line == "游戏列表"@ {
            Reaction::Send(C2SMessage::QueryRoomList)
        } else if line == "ping"@ {
            Reaction::Send(C2SMessage::Ping)
        } else if line == "叫地主"@ {
            self.choosing(true)
        } else if line == "不叫"@ {
            self.choosing(false)
        } else if line == "再来一局"@ {
            self.voting(true)
        } else if line == "摸了"@ {
            self.voting(false)
        } else if line == "开始游戏"@ {
            self.starting()
        } else if line == "pass"@ {
            if self.status == ClientStatus::Gaming {
                Reaction::Send(C2SMessage::Pass)
            } else {
                Reaction::Refuse(Refusal::CannotPass)
            }
        } else if self.status == ClientStatus::Idle {
            Reaction::Send(C2SMessage::Matchmake)
        } else {
            Reaction::Refuse(Refusal::CannotMatch)
        }
    }

    /// What the client does with the line `line`: `after` is what it knows
    /// then, `r` what it does.
    ///
    /// A line that is a command as a whole is answered as
    /// [`ClientState::whole_reaction`] says. Any other line goes by its first
    /// word: cards are laid, a room is joined, or the user logs in, with the
    /// line's second word for the cards, the room, or the user. Only a login
    /// changes what the client knows: the user's name.
    pub open spec fn reacted(
        before: &ClientState,
        line: Seq<char>,
        after: &ClientState,
        r: Reaction,
    ) -> bool {
        if ClientState::whole(line) {
            after.same(before) && r == before.whole_reaction(line)
        } else if first_word(line) == "出牌"@ {
            &&& after.same(before)
            &&& if before.status != ClientStatus::Gaming {
                r == Reaction::Refuse(Refusal::CannotPlay)
            } else {
                match parsed(second_word(line)) {
                    Some(cards) => r matches Reaction::Send(C2SMessage::SubmitCards(laid)) && laid@
                        == cards,
                    None => r == Reaction::Refuse(Refusal::NoCards),
                }
            }
        } else if first_word(line) == "join"@ {
            &&& after.same(before)
            &&& if before.status != ClientStatus::Idle {
                r == Reaction::Refuse(Refusal::CannotJoin)
            } else {
                r matches Reaction::Send(C2SMessage::JoinRoom(room)) && room@ == second_word(line)
            }
        } else if first_word(line) == "login"@ {
            if has_second(line) {
                &&& after.user_name@ == second_word(line)
                &&& after.cards@ == before.cards@
                &&& after.landlord_name@ == before.landlord_name@
                &&& after.status == before.status
                &&& r matches Reaction::Send(C2SMessage::Login(name)) && name@ == second_word(line)
            } else {
                after.same(before) && r == Reaction::Refuse(Refusal::NoUserName)
            }
        } else {
            after.same(before) && r == Reaction::Refuse(Refusal::Unknown)
        }
    }

    /// A client that is not logged in.
    pub fn new() -> (state: ClientState)
        ensures
            state.status == ClientStatus::NotLoggedIn,
            state.cards@.len() == 0,
            state.user_name@.len() == 0,
            state.landlord_name@.len() == 0,
    {
        ClientState {
            cards: Vec::new(),
            user_name: String::new(),
            landlord_name: String::new(),
            status: ClientStatus::NotLoggedIn,
        }
    }

    /// Whether the status is `status`, where that is one without a room's
    /// name.
    fn is(&self, status: ClientStatus) -> (b: bool)
        requires
            !(status is WaitingForPlayers),
        ensures
            b == (self.status == status),
    {
        match (&self.status, status) {
            (ClientStatus::NotLoggedIn, ClientStatus::NotLoggedIn) => true,
            (ClientStatus::Idle, ClientStatus::Idle) => true,
            (ClientStatus::WaitingForRematch, ClientStatus::WaitingForRematch) => true,
            (ClientStatus::WaitingForLandlord, ClientStatus::WaitingForLandlord) => true,
            (ClientStatus::Gaming, ClientStatus::Gaming) => true,
            _ => false,
        }
    }

    /// What the client makes of a command that takes or leaves the
    /// landlord's part.
    fn choice(&self, choose: bool) -> (r: Reaction)
        ensures
            r == self.choosing(choose),
    {
        if !self.is(ClientStatus::WaitingForLandlord) {
            Reaction::Refuse(Refusal::CannotChoose)
        } else if self.landlord_name != self.user_name {
            Reaction::Refuse(Refusal::NotCandidate)
        } else {
            Reaction::Send(C2SMessage::ChooseLandlord(choose))
        }
    }

    /// What the client makes of a vote on a rematch.
    fn vote(&self, vote: bool) -> (r: Reaction)
        ensures
            r == self.voting(vote),
    {
        if self.is(ClientStatus::WaitingForRematch) {
            Reaction::Send(C2SMessage::RematchVote(vote))
        } else {
            Reaction::Refuse(Refusal::CannotVote)
        }
    }

    /// What the client makes of the command to start the game.
    fn start(&self) -> (r: Reaction)
        ensures
            r == self.starting(),
    {
        match &self.status {
            ClientStatus::Idle => Reaction::Refuse(Refusal::NoRoom),
            ClientStatus::WaitingForPlayers(room) => Reaction::Send(
                C2SMessage::StartGame(room.clone()),
            ),
            _ => Reaction::Refuse(Refusal::CannotStart),
        }
    }

    /// Reads a line that the user typed: see [`ClientState::reacted`].
    pub fn handle_input(&mut self, line: &str) -> (r: Reaction)
        ensures
            ClientState::reacted(old(self), line@, final(self), r),
    {
        if same_text(line, "list_rooms") || same_text(line, "游戏列表") {
            return Reaction::Send(C2SMessage::QueryRoomList);
        }
        if same_text(line, "ping") {
            return Reaction::Send(C2SMessage::Ping);
        }
        if same_text(line, "叫地主") {
            return self.choice(true);
        }
        if same_text(line, "不叫") {
            return self.choice(false);
        }
        if same_text(line, "再来一局") {
            return self.vote(true);
        }
        if same_text(line, "摸了") {
            return self.vote(false);
        }
        if same_text(line, "开始游戏") {
            return self.start();
        }
        if same_text(line, "pass") {
            return if self.is(ClientStatus::Gaming) {
                Reaction::Send(C2SMessage::Pass)
            } else {
                Reaction::Refuse(Refusal::CannotPass)
            };
        }
        if same_text(line, "匹配") {
            return if self.is(ClientStatus::Idle) {
                Reaction::Send(C2SMessage::Matchmake)
            } else {
                Reaction::Refuse(Refusal::CannotMatch)
            };
        }
        let (first, second) = two_words(line);
        let word = match second {
            Some(word) => word,
            None => "",
        };
        proof {
            reveal_strlit("");
            assert(word@ =~= second_word(line@));
        }
        if same_text(first, "出牌") {
            if !self.is(ClientStatus::Gaming) {
                return Reaction::Refuse(Refusal::CannotPlay);
            }
            return match parse_input(word) {
                Some(cards) => Reaction::Send(C2SMessage::SubmitCards(cards)),
                None => Reaction::Refuse(Refusal::NoCards),
            };
        }
        if same_text(first, "join") {
            if !self.is(ClientStatus::Idle) {
                return Reaction::Refuse(Refusal::CannotJoin);
            }
            return Reaction::Send(C2SMessage::JoinRoom(word.to_owned()));
        }
        if same_text(first, "login") {
            return match second {
                Some(name) => {
                    self.user_name = name.to_owned();
                    Reaction::Send(C2SMessage::Login(name.to_owned()))
                },
                None => Reaction::Refuse(Refusal::NoUserName),
            };
        }
        Reaction::Refuse(Refusal::Unknown)
    }

    /// What the client learns from a message of the server: `after` is what
    /// it knows then.
    ///
    /// A room joined is noted by an idle client. The candidate for landlord
    /// is noted. Cards that the user has laid leave the hand. The landlord's
    /// cards go into the landlord's hand, which is sorted, and the play is
    /// on for everybody. A win, and a vote against a rematch, take the
    /// client out of the game. The start of a game gives the hand and the
    /// first candidate. The news of the wait for a match may make the
    /// client idle, and a login does. Every other message leaves the client
    /// as it is.
    pub open spec fn received(before: &ClientState, message: S2CMessage, after: &ClientState) -> bool {
        match message {
            S2CMessage::RoomJoined(room) => after.same_but_status(before) && after.status
                == if before.status == ClientStatus::Idle {
                ClientStatus::WaitingForPlayers(room)
            } else {
                before.status
            },
            S2CMessage::LandlordMove(landlord) => {
                &&& after.landlord_name@ == landlord@
                &&& after.cards@ == before.cards@
                &&& after.user_name@ == before.user_name@
                &&& after.status == before.status
            },
            S2CMessage::CardsSubmitted(player, cards) => {
                &&& after.cards@ == if player@ == before.user_name@ {
                    without_cards(before.cards@, cards@)
                } else {
                    before.cards@
                }
                &&& after.user_name@ == before.user_name@
                &&& after.landlord_name@ == before.landlord_name@
                &&& after.status == before.status
            },
            S2CMessage::LordCards(landlord, cards) => {
                &&& after.cards@ == if landlord@ == before.user_name@ {
                    sorted(before.cards@ + cards@)
                } else {
                    before.cards@
                }
                &&& after.user_name@ == before.user_name@
                &&& after.landlord_name@ == before.landlord_name@
                &&& after.status == ClientStatus::Gaming
            },
            S2CMessage::GameErr(GameError::Win(_, _, _)) => after.left_game(before),
            S2CMessage::RematchVote(_, vote, _) => if vote {
                after.same(before)
            } else {
                after.left_game(before)
            },
            S2CMessage::GameStarted(cards, landlord) => {
                &&& after.cards@ == cards@
                &&& after.landlord_name@ == landlord@
                &&& after.user_name@ == before.user_name@
                &&& after.status == ClientStatus::WaitingForLandlord
            },
            S2CMessage::MatchmakeStatus(_, _, _) => after.same_but_status(before) && (after.status
                == before.status || after.status == ClientStatus::Idle),
            S2CMessage::LoggedIn => after.same_but_status(before) && after.status
                == ClientStatus::Idle,
            _ => after.same(before),
        }
    }

    /// Takes the client out of every game.
    fn leave_game(&mut self)
        ensures
            final(self).left_game(old(self)),
    {
        self.status = ClientStatus::Idle;
        self.landlord_name = String::new();
        self.cards = Vec::new();
    }

    /// Notes the news of the wait for a match: a wait that has run out
    /// leaves the client idle.
    pub fn matchmaking(&mut self, run_out: bool)
        ensures
            final(self).same_but_status(old(self)),
            final(self).status == if run_out {
                ClientStatus::Idle
            } else {
                old(self).status
            },
    {
        if run_out {
            self.status = ClientStatus::Idle;
        }
    }

    /// Takes `cards` out of the hand: see [`without_cards`].
    pub fn lay(&mut self, cards: &Vec<Card>)
        ensures
            final(self).cards@ == without_cards(old(self).cards@, cards@),
            final(self).user_name@ == old(self).user_name@,
            final(self).landlord_name@ == old(self).landlord_name@,
            final(self).status == old(self).status,
    {
        let ghost before = self.cards@;
        let mut k: usize = 0;
        assert(cards@.skip(0) =~= cards@);
        while k < cards.len()
            invariant
                k <= cards@.len(),
                without_cards(self.cards@, cards@.skip(k as int)) == without_cards(before, cards@),
                self.user_name@ == old(self).user_name@,
                self.landlord_name@ == old(self).landlord_name@,
                self.status == old(self).status,
            decreases cards.len() - k,
        {
            proof {
                assert(cards@.skip(k as int).skip(1) =~= cards@.skip(k + 1));
            }
            remove_card(&mut self.cards, cards[k]);
            k += 1;
        }
        assert(cards@.skip(cards@.len() as int) =~= Seq::<Card>::empty());
    }

    /// Learns from a message of the server: see [`ClientState::received`].
    pub fn handle_message(&mut self, message: &S2CMessage)
        requires
            message matches S2CMessage::LordCards(_, cards) ==> old(self).cards@.len() + cards@.len()
                <= u32::MAX,
        ensures
            ClientState::received(old(self), *message, final(self)),
    {
        match message {
            S2CMessage::RoomJoined(room) => {
                if self.is(ClientStatus::Idle) {
                    self.status = ClientStatus::WaitingForPlayers(room.clone());
                }
            },
            S2CMessage::LandlordMove(landlord) => {
                self.landlord_name = landlord.clone();
            },
            S2CMessage::CardsSubmitted(player, cards) => {
                if *player == self.user_name {
                    self.lay(cards);
                }
            },
            S2CMessage::LordCards(landlord, cards) => {
                if *landlord == self.user_name {
                    let all = join_cards(&self.cards, cards);
                    self.cards = sort_cards(&all);
                }
                self.status = ClientStatus::Gaming;
            },
            S2CMessage::GameErr(GameError::Win(_, _, _)) => {
                self.leave_game();
            },
            S2CMessage::RematchVote(_, vote, _) => {
                if !*vote {
                    self.leave_game();
                }
            },
            S2CMessage::GameStarted(cards, landlord) => {
                self.cards = copy_range(cards, 0, cards.len());
                assert(self.cards@ =~= cards@);
                self.landlord_name = landlord.clone();
                self.status = ClientStatus::WaitingForLandlord;
            },
            S2CMessage::MatchmakeStatus(_, _, left) => {
                let run_out = is_no_time(left);
                self.matchmaking(run_out);
            },
            S2CMessage::LoggedIn => {
                self.status = ClientStatus::Idle;
            },
            _ => {},
        }
    }
}

} // verus!
