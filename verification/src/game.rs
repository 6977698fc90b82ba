//! The game's state machine: seating, dealing, the choice of a landlord, and
//! the cycle of plays and passes up to the win.
use crate::card::Card;
use crate::deck::{
    deck_count, entropy_rng, gen_cards_with, is_full_deck, pick_seat_with, DECK_SIZE,
};
use crate::error::{GameError, RoomError};
use crate::group::{
    copy_range, count_of, flatten, group_seq, group_then_flatten, groups_count, groups_cover,
    groups_sub, lemma_count_concat, lemma_count_concat4, lemma_group_seq, sort_cards, sorted,
    to_card_groups,
};
use crate::player::{Player, PlayerType, UserId};
use crate::rule::{beats, classify, match_rule, Rule, RuleNone};
use crate::score::{
    doublings, lemma_doublings_of_deck, lemma_factor_step, lemma_two_pow_grows, two_pow,
    MAX_FACTOR,
};
use rand::rngs::StdRng;
use vstd::prelude::*;

verus! {

/// The points a win is worth before any doubling.
pub const BASE_POINTS: u32 = 100;

/// The number of seats.
pub const SEATS: usize = 3;

/// The number of cards dealt to each seat.
pub const HAND_SIZE: usize = 17;

/// Where a game stands.
#[derive(Clone, Copy, Debug, PartialEq, Eq, Structural)]
pub enum GameState {
    WaitingForPlayers,
    WaitingForLandlord,
    Running,
}

/// One game at one table.
pub struct Game {
    /// The seated players.
    pub players: Vec<Player>,
    /// Where the game stands.
    pub state: GameState,
    /// The seat whose turn it is.
    pub index: usize,
    /// The seat that is asked, or was the one, to be landlord.
    pub landlord_index: usize,
    /// The seat that laid the play on the table.
    pub last_index: usize,
    /// The play on the table.
    pub last_cards: Vec<Card>,
    /// The shape of the play on the table.
    pub last_rule: Rule,
    /// The three cards that go to the landlord.
    pub landlord_cards: Vec<Card>,
    /// The factor on the points, doubled by every bomb and by the rocket.
    pub score_multiplier: u32,
    /// All cards laid since the deal, in the order of the plays.
    pub discarded: Ghost<Seq<Card>>,
}

/// The seat after `seat`, round the table.
pub open spec fn next_seat(seat: usize) -> usize {
    if seat >= 2 {
        0
    } else {
        (seat + 1) as usize
    }
}

/// Twice `m`, or the largest number where that is too large.
pub open spec fn doubled(m: u32) -> u32 {
    if m <= u32::MAX / 2 {
        (2 * m) as u32
    } else {
        u32::MAX
    }
}

/// The points for a win at factor `m`, or the largest number where they are
/// too many.
pub open spec fn payout(m: u32) -> u32 {
    if m <= u32::MAX / BASE_POINTS {
        (BASE_POINTS * m) as u32
    } else {
        u32::MAX
    }
}

impl Game {
    /// The hand of seat `i`.
    pub open spec fn hand(&self, i: int) -> Seq<Card> {
        self.players@[i].cards@
    }

    /// Validity of a game: at most three players, all three once the game
    /// has started; seat numbers below three; sorted hands; a factor of at
    /// least one.
    pub open spec fn wf(&self) -> bool {
        &&& self.players@.len() <= SEATS
        &&& self.state != GameState::WaitingForPlayers ==> self.players@.len() == SEATS
        &&& self.index < SEATS
        &&& self.landlord_index < SEATS
        &&& self.last_index < SEATS
        &&& self.score_multiplier >= 1
        &&& forall|i: int| 0 <= i < self.players@.len() ==> (#[trigger] self.players@[i]).wf()
        &&& self.state == GameState::WaitingForLandlord ==> forall|i: int|
            0 <= i < self.players@.len() ==> (#[trigger] self.players@[i]).cards@.len()
                + self.landlord_cards@.len() <= u32::MAX
    }

    /// The cards that are not in a hand: the landlord's three while the
    /// landlord is chosen, the cards laid afterwards.
    pub open spec fn pile(&self) -> Seq<Card> {
        if self.state == GameState::WaitingForLandlord {
            self.landlord_cards@
        } else {
            self.discarded@
        }
    }

    /// All cards of a started game: the three hands and the pile.
    pub open spec fn in_play(&self) -> Seq<Card> {
        self.hand(0) + self.hand(1) + self.hand(2) + self.pile()
    }

    /// A started game keeps its cards and its count: the hands and the pile
    /// together are the deck, every card there as often as the deck has it,
    /// fifty-four in all; and the factor is one until the play begins, and
    /// then at most one doubling for each bomb and for the rocket that the
    /// cards laid so far have room for.
    pub open spec fn conserved(&self) -> bool {
        self.state != GameState::WaitingForPlayers ==> {
            &&& self.players@.len() == SEATS
            &&& is_full_deck(self.in_play())
            &&& self.state == GameState::WaitingForLandlord ==> self.score_multiplier == 1
            &&& self.state == GameState::Running ==> self.score_multiplier <= two_pow(
                doublings(self.discarded@),
            )
        }
    }

    /// Whether all but the players is the same in both games.
    pub open spec fn same_table(&self, other: &Game) -> bool {
        &&& self.state == other.state
        &&& self.index == other.index
        &&& self.landlord_index == other.landlord_index
        &&& self.last_index == other.last_index
        &&& self.last_cards@ == other.last_cards@
        &&& self.last_rule == other.last_rule
        &&& self.landlord_cards@ == other.landlord_cards@
        &&& self.score_multiplier == other.score_multiplier
        &&& self.discarded@ == other.discarded@
    }

    /// Whether the players are the same in both games, hands and sides too.
    pub open spec fn same_players(&self, other: &Game) -> bool {
        self.players@ == other.players@
    }

    /// Whether a deal may begin: three players, and the game waits for
    /// players.
    pub open spec fn ready(&self) -> bool {
        self.players@.len() == SEATS && self.state == GameState::WaitingForPlayers
    }

    /// Why a deal may not begin, where it may not.
    pub open spec fn roster_error(&self) -> GameError {
        if self.players@.len() != SEATS {
            GameError::NotEnoughPlayers
        } else {
            GameError::IsRunning
        }
    }

    /// Whether the landlord may be settled: three players, and the game
    /// waits for a landlord.
    pub open spec fn choosing(&self) -> bool {
        self.players@.len() == SEATS && self.state == GameState::WaitingForLandlord
    }

    /// Whether `actor` is the one to take or leave the landlord's part.
    pub open spec fn asks(&self, actor: Seq<char>) -> bool {
        self.state == GameState::WaitingForLandlord && self.players@[self.landlord_index as int].user@
            == actor
    }

    /// Why `actor` may not take or leave the landlord's part, where not.
    pub open spec fn landlord_error(&self) -> RoomError {
        if self.state != GameState::WaitingForLandlord {
            RoomError::NotStarted
        } else {
            RoomError::NotLandlordPlayer
        }
    }

    /// Whether it is `actor`'s turn in a running game.
    pub open spec fn turn_of(&self, actor: Seq<char>) -> bool {
        self.state == GameState::Running && self.players@[self.index as int].user@ == actor
    }

    /// Why `actor` may neither play nor pass, where not.
    pub open spec fn turn_error(&self) -> GameError {
        if self.state != GameState::Running {
            GameError::NotRunning
        } else {
            GameError::NotYourTurn
        }
    }

    /// Whether the player whose turn it is may pass: the game is running and
    /// the play on the table is another player's.
    pub open spec fn may_pass(&self) -> bool {
        self.state == GameState::Running && self.index != self.last_index
    }

    /// Why the player whose turn it is may not pass, where not.
    pub open spec fn pass_error(&self) -> GameError {
        if self.state != GameState::Running {
            GameError::NotRunning
        } else {
            GameError::YourTurn
        }
    }

    /// Whether `after` is `before` with `deck` dealt as it lies: seat 0 has
    /// the first seventeen cards, seat 1 the next, seat 2 the next, each
    /// hand sorted, and the last three cards are kept for the landlord. Seat
    /// `candidate` is the first to be asked. All players are farmers, the
    /// factor is one, and nothing lies on the table.
    pub open spec fn dealt(before: &Game, deck: Seq<Card>, candidate: usize, after: &Game) -> bool {
        &&& after.state == GameState::WaitingForLandlord
        &&& after.landlord_index == candidate
        &&& after.players@.len() == SEATS
        &&& forall|i: int|
            0 <= i < SEATS ==> {
                &&& (#[trigger] after.players@[i]).user == before.players@[i].user
                &&& after.players@[i].cards@ == sorted(dealt_block(deck, i))
                &&& after.players@[i].cards@.len() == HAND_SIZE
                &&& after.players@[i].player_type == PlayerType::Farmer
            }
        &&& after.landlord_cards@ == dealt_pool(deck)
        &&& after.landlord_cards@.len() == 3
        &&& after.index == before.index
        &&& after.last_index == before.last_index
        &&& after.last_cards@.len() == 0
        &&& after.last_rule == Rule::Empty(RuleNone)
        &&& after.score_multiplier == 1
        &&& after.discarded@.len() == 0
    }

    /// Whether `after` is `before` with the candidate made landlord: the
    /// candidate has taken the landlord's three cards into the hand, which
    /// is sorted again, and has the first turn with nothing laid yet.
    pub open spec fn settled(before: &Game, after: &Game) -> bool {
        let seat = before.landlord_index as int;
        &&& after.state == GameState::Running
        &&& after.index == seat
        &&& after.last_index == seat
        &&& after.landlord_index == seat
        &&& after.players@.len() == SEATS
        &&& after.players@[seat].user == before.players@[seat].user
        &&& after.players@[seat].cards@ == sorted(before.hand(seat) + before.landlord_cards@)
        &&& after.players@[seat].cards@.len() == before.hand(seat).len()
            + before.landlord_cards@.len()
        &&& after.players@[seat].player_type == PlayerType::Landlord
        &&& forall|i: int| 0 <= i < SEATS && i != seat ==> after.players@[i] == before.players@[i]
        &&& after.landlord_cards@ == before.landlord_cards@
        &&& after.last_cards@ == before.last_cards@
        &&& after.last_rule == before.last_rule
        &&& after.score_multiplier == before.score_multiplier
        &&& after.discarded@.len() == 0
    }

    /// Whether `after` is `before` with the question who is landlord moved to
    /// the next seat, and nothing else changed.
    pub open spec fn asked_on(before: &Game, after: &Game) -> bool {
        &&& after.landlord_index == next_seat(before.landlord_index)
        &&& after.same_players(before)
        &&& after.state == before.state
        &&& after.index == before.index
        &&& after.last_index == before.last_index
        &&& after.last_cards@ == before.last_cards@
        &&& after.last_rule == before.last_rule
        &&& after.landlord_cards@ == before.landlord_cards@
        &&& after.score_multiplier == before.score_multiplier
        &&& after.discarded@ == before.discarded@
    }

    /// Whether `after` is `before` with the turn moved to the next seat, and
    /// nothing else changed.
    pub open spec fn moved_on(before: &Game, after: &Game) -> bool {
        &&& after.index == next_seat(before.index)
        &&& after.same_players(before)
        &&& after.state == before.state
        &&& after.landlord_index == before.landlord_index
        &&& after.last_index == before.last_index
        &&& after.last_cards@ == before.last_cards@
        &&& after.last_rule == before.last_rule
        &&& after.landlord_cards@ == before.landlord_cards@
        &&& after.score_multiplier == before.score_multiplier
        &&& after.discarded@ == before.discarded@
    }

    /// A game without players.
    pub fn new() -> (g: Game)
        ensures
            g.wf(),
            g.conserved(),
            g.players@.len() == 0,
            g.state == GameState::WaitingForPlayers,
            g.index == 0,
            g.landlord_index == 0,
            g.last_index == 0,
            g.last_cards@.len() == 0,
            g.last_rule == Rule::Empty(RuleNone),
            g.landlord_cards@.len() == 0,
            g.score_multiplier == 1,
            g.discarded@.len() == 0,
    {
        Game {
            players: Vec::new(),
            state: GameState::WaitingForPlayers,
            index: 0,
            landlord_index: 0,
            last_index: 0,
            last_cards: Vec::new(),
            last_rule: Rule::Empty(RuleNone),
            landlord_cards: Vec::new(),
            score_multiplier: 1,
            discarded: Ghost(Seq::empty()),
        }
    }

    /// Seats a player, while the game waits for players and a seat is free.
    /// Says whether the player was seated; where not, nothing changes.
    pub fn add_player(&mut self, player: Player) -> (seated: bool)
        requires
            old(self).wf(),
            player.wf(),
        ensures
            final(self).wf(),
            seated == (old(self).state == GameState::WaitingForPlayers && old(self).players@.len()
                < SEATS),
            seated ==> final(self).players@ == old(self).players@.push(player),
            !seated ==> final(self).players@ == old(self).players@,
            final(self).same_table(old(self)),
            old(self).conserved() ==> final(self).conserved(),
    {
        if self.state == GameState::WaitingForPlayers && self.players.len() < SEATS {
            self.players.push(player);
            true
        } else {
            false
        }
    }

    /// The player whose turn it is.
    pub fn current_player(&self) -> (p: &Player)
        requires
            self.index < self.players@.len(),
        ensures
            *p == self.players@[self.index as int],
    {
        &self.players[self.index]
    }

    /// The player who is asked, or was the one, to be landlord.
    pub fn landlord_player(&self) -> (p: &Player)
        requires
            self.landlord_index < self.players@.len(),
        ensures
            *p == self.players@[self.landlord_index as int],
    {
        &self.players[self.landlord_index]
    }

    /// Moves the turn to the next seat, round the table.
    pub fn move_index(&mut self)
        ensures
            Game::moved_on(old(self), final(self)),
    {
        if self.index >= 2 {
            self.index = 0;
        } else {
            self.index += 1;
        }
    }

    /// Moves the question who is landlord to the next seat, round the table.
    pub fn move_landlord_index(&mut self)
        ensures
            Game::asked_on(old(self), final(self)),
    {
        if self.landlord_index >= 2 {
            self.landlord_index = 0;
        } else {
            self.landlord_index += 1;
        }
    }

    /// Gives seat `seat` a new hand and a side.
    fn set_hand(&mut self, seat: usize, cards: Vec<Card>, side: PlayerType)
        requires
            seat < old(self).players@.len(),
        ensures
            final(self).players@.len() == old(self).players@.len(),
            final(self).players@[seat as int].user == old(self).players@[seat as int].user,
            final(self).players@[seat as int].cards@ == cards@,
            final(self).players@[seat as int].player_type == side,
            forall|i: int|
                0 <= i < old(self).players@.len() && i != seat ==> final(self).players@[i] == old(
                    self,
                ).players@[i],
            final(self).same_table(old(self)),
    {
        let user = self.players[seat].user.clone();
        self.players.set(seat, Player { user, cards, player_type: side });
    }

    /// Why a deal may not begin, where it may not.
    fn roster_check(&self) -> (r: Result<(), GameError>)
        ensures
            r == if self.ready() {
                Ok::<(), GameError>(())
            } else {
                Err::<(), GameError>(self.roster_error())
            },
    {
        if self.players.len() != SEATS {
            Err(GameError::NotEnoughPlayers)
        } else if self.state != GameState::WaitingForPlayers {
            Err(GameError::IsRunning)
        } else {
            Ok(())
        }
    }

    /// Deals `deck` as it lies, see [`Game::dealt`], and names the player of
    /// seat `candidate`, who is the first to be asked to be landlord.
    ///
    /// Refused with `NotEnoughPlayers` unless three players are seated, and
    /// with `IsRunning` unless the game waits for players; nothing changes
    /// then.
    pub fn deal(&mut self, deck: &Vec<Card>, candidate: usize) -> (r: Result<UserId, GameError>)
        requires
            old(self).wf(),
            deck@.len() == DECK_SIZE,
            candidate < SEATS,
        ensures
            final(self).wf(),
            old(self).ready() ==> Game::dealt(old(self), deck@, candidate, final(self)) && r == Ok::<
                UserId,
                GameError,
            >(final(self).players@[candidate as int].user),
            !old(self).ready() ==> *final(self) == *old(self) && r == Err::<UserId, GameError>(
                old(self).roster_error(),
            ),
            old(self).ready() && is_full_deck(deck@) ==> final(self).conserved(),
    {
        if let Err(e) = self.roster_check() {
            return Err(e);
        }
        let ghost before = *self;
        let mut seat: usize = 0;
        while seat < SEATS
            invariant
                seat <= SEATS,
                deck@.len() == DECK_SIZE,
                before.players@.len() == SEATS,
                self.players@.len() == SEATS,
                self.same_table(&before),
                forall|i: int|
                    0 <= i < SEATS ==> (#[trigger] self.players@[i]).user == before.players@[i].user,
                forall|i: int|
                    0 <= i < seat ==> {
                        &&& (#[trigger] self.players@[i]).cards@ == sorted(dealt_block(deck@, i))
                        &&& self.players@[i].cards@.len() == HAND_SIZE
                        &&& self.players@[i].player_type == PlayerType::Farmer
                        &&& self.players@[i].wf()
                    },
            decreases SEATS - seat,
        {
            let block = copy_range(deck, seat * HAND_SIZE, seat * HAND_SIZE + HAND_SIZE);
            let hand = sort_cards(&block);
            self.set_hand(seat, hand, PlayerType::Farmer);
            seat += 1;
        }
        self.landlord_cards = copy_range(deck, SEATS * HAND_SIZE, DECK_SIZE);
        self.landlord_index = candidate;
        self.state = GameState::WaitingForLandlord;
        self.score_multiplier = 1;
        self.last_rule = Rule::Empty(RuleNone);
        self.last_cards = Vec::new();
        self.discarded = Ghost(Seq::empty());
        proof {
            if is_full_deck(deck@) {
                lemma_deal_keeps_cards(deck@);
                assert(self.in_play() == sorted(dealt_block(deck@, 0)) + sorted(
                    dealt_block(deck@, 1),
                ) + sorted(dealt_block(deck@, 2)) + dealt_pool(deck@));
            }
        }
        Ok(self.players[candidate].user.clone())
    }

    /// Starts the game: deals the deck, shuffled by `rng`, and names the
    /// first candidate for landlord, whose seat `rng` draws. Whatever `rng`
    /// gives, the game then is one that [`Game::deal`] makes of the deck in
    /// some order and of one of the three seats.
    ///
    /// Refused with `NotEnoughPlayers` unless three players are seated, and
    /// with `IsRunning` unless the game waits for players; nothing changes
    /// then, and nothing is drawn.
    pub fn start_with(&mut self, rng: &mut StdRng) -> (r: Result<UserId, GameError>)
        requires
            old(self).wf(),
        ensures
            final(self).wf(),
            old(self).ready() ==> final(self).conserved() && exists|
                deck: Seq<Card>,
                candidate: usize,
            |
                {
                    &&& is_full_deck(deck)
                    &&& candidate < SEATS
                    &&& #[trigger] Game::dealt(old(self), deck, candidate, final(self))
                    &&& r == Ok::<UserId, GameError>(final(self).players@[candidate as int].user)
                },
            !old(self).ready() ==> *final(self) == *old(self) && r == Err::<UserId, GameError>(
                old(self).roster_error(),
            ),
    {
        if let Err(e) = self.roster_check() {
            return Err(e);
        }
        let ghost before = *self;
        let candidate = pick_seat_with(rng);
        let deck = gen_cards_with(rng);
        let r = self.deal(&deck, candidate);
        assert(Game::dealt(&before, deck@, candidate, self));
        r
    }

    /// Starts the game with a generator that the operating system seeds: see
    /// [`Game::start_with`].
    pub fn start(&mut self) -> (r: Result<UserId, GameError>)
        requires
            old(self).wf(),
        ensures
            final(self).wf(),
            old(self).ready() ==> final(self).conserved() && exists|
                deck: Seq<Card>,
                candidate: usize,
            |
                {
                    &&& is_full_deck(deck)
                    &&& candidate < SEATS
                    &&& #[trigger] Game::dealt(old(self), deck, candidate, final(self))
                    &&& r == Ok::<UserId, GameError>(final(self).players@[candidate as int].user)
                },
            !old(self).ready() ==> *final(self) == *old(self) && r == Err::<UserId, GameError>(
                old(self).roster_error(),
            ),
    {
        let mut rng = entropy_rng();
        self.start_with(&mut rng)
    }

    /// Makes the candidate the landlord and begins the play: see
    /// [`Game::settled`].
    ///
    /// Refused with `NotEnoughPlayers` unless three players are seated, and
    /// with `IsRunning` unless the game waits for a landlord; nothing
    /// changes then.
    pub fn run(&mut self) -> (r: Result<(), GameError>)
        requires
            old(self).wf(),
        ensures
            final(self).wf(),
            old(self).choosing() ==> Game::settled(old(self), final(self)) && r == Ok::<
                (),
                GameError,
            >(()),
            !old(self).choosing() ==> *final(self) == *old(self) && r == Err::<(), GameError>(
                old(self).roster_error(),
            ),
            old(self).conserved() ==> final(self).conserved(),
    {
        if self.players.len() != SEATS {
            return Err(GameError::NotEnoughPlayers);
        }
        if self.state != GameState::WaitingForLandlord {
            return Err(GameError::IsRunning);
        }
        let ghost before = *self;
        let seat = self.landlord_index;
        assert(self.players@[seat as int].wf());
        let all = join_cards(&self.players[seat].cards, &self.landlord_cards);
        let hand = sort_cards(&all);
        self.set_hand(seat, hand, PlayerType::Landlord);
        self.index = seat;
        self.last_index = seat;
        self.state = GameState::Running;
        self.discarded = Ghost(Seq::empty());
        proof {
            assert forall|i: int| 0 <= i < self.players@.len() implies (
            #[trigger] self.players@[i]).wf() by {
                if i != seat {
                    assert(before.players@[i].wf());
                }
            }
            if before.conserved() {
                let pool = before.landlord_cards@;
                let none = Seq::<Card>::empty();
                assert forall|c: Card| #[trigger]
                    count_of(self.in_play(), c) == deck_count(c) by {
                    lemma_count_concat4(self.hand(0), self.hand(1), self.hand(2), none, c);
                    lemma_count_concat4(before.hand(0), before.hand(1), before.hand(2), pool, c);
                    lemma_count_concat(before.hand(seat as int), pool, c);
                    assert(count_of(before.in_play(), c) == deck_count(c));
                }
                lemma_count_concat4(self.hand(0), self.hand(1), self.hand(2), none, Card::Unknown);
                lemma_count_concat4(
                    before.hand(0),
                    before.hand(1),
                    before.hand(2),
                    pool,
                    Card::Unknown,
                );
                lemma_two_pow_grows(0, doublings(none));
            }
        }
        Ok(())
    }

    /// The candidate `actor` takes the landlord's part: see
    /// [`Game::settled`]. The answer names the landlord and shows the
    /// landlord's three cards.
    ///
    /// Refused with `NotStarted` unless the game waits for a landlord, and
    /// with `NotLandlordPlayer` unless `actor` is the candidate; nothing
    /// changes then.
    pub fn accept_landlord(&mut self, actor: &UserId) -> (r: Result<(UserId, Vec<Card>), RoomError>)
        requires
            old(self).wf(),
        ensures
            final(self).wf(),
            old(self).asks(actor@) ==> Game::settled(old(self), final(self)) && (r matches Ok(
                (id, pool),
            ) && id@ == actor@ && pool@ == old(self).landlord_cards@),
            !old(self).asks(actor@) ==> *final(self) == *old(self) && r == Err::<
                (UserId, Vec<Card>),
                RoomError,
            >(old(self).landlord_error()),
            old(self).conserved() ==> final(self).conserved(),
    {
        if self.state != GameState::WaitingForLandlord {
            return Err(RoomError::NotStarted);
        }
        if self.players[self.landlord_index].user != *actor {
            return Err(RoomError::NotLandlordPlayer);
        }
        match self.run() {
            Ok(()) => {
                let id = self.players[self.landlord_index].user.clone();
                let pool = copy_range(&self.landlord_cards, 0, self.landlord_cards.len());
                assert(pool@ =~= self.landlord_cards@);
                Ok((id, pool))
            },
            Err(_) => Err(RoomError::NotStarted),
        }
    }

    /// The candidate `actor` leaves the landlord's part to the next seat,
    /// whose player the answer names: see [`Game::asked_on`]. Nothing bounds
    /// how often the question goes round.
    ///
    /// Refused with `NotStarted` unless the game waits for a landlord, and
    /// with `NotLandlordPlayer` unless `actor` is the candidate; nothing
    /// changes then.
    pub fn decline_landlord(&mut self, actor: &UserId) -> (r: Result<UserId, RoomError>)
        requires
            old(self).wf(),
        ensures
            final(self).wf(),
            old(self).asks(actor@) ==> Game::asked_on(old(self), final(self)) && r == Ok::<
                UserId,
                RoomError,
            >(final(self).players@[final(self).landlord_index as int].user),
            !old(self).asks(actor@) ==> *final(self) == *old(self) && r == Err::<UserId, RoomError>(
                old(self).landlord_error(),
            ),
            old(self).conserved() ==> final(self).conserved(),
    {
        if self.state != GameState::WaitingForLandlord {
            return Err(RoomError::NotStarted);
        }
        if self.players[self.landlord_index].user != *actor {
            return Err(RoomError::NotLandlordPlayer);
        }
        self.move_landlord_index();
        Ok(self.players[self.landlord_index].user.clone())
    }

    /// Whether the player whose turn it is may lay a play of shape
    /// `candidate`: it beats the table, or the table is the player's own.
    pub open spec fn may_lay(&self, candidate: Rule) -> bool {
        beats(self.last_rule, candidate) || self.index == self.last_index
    }

    /// Whether the player whose turn it is holds `cards`.
    pub open spec fn holds(&self, cards: Seq<Card>) -> bool {
        groups_cover(group_seq(self.hand(self.index as int)), group_seq(cards))
    }

    /// The hand of the player whose turn it is without `cards`, sorted.
    pub open spec fn hand_without(&self, cards: Seq<Card>) -> Seq<Card> {
        flatten(groups_sub(group_seq(self.hand(self.index as int)), group_seq(cards)).unwrap())
    }

    /// Whether a play of `cards` by the player whose turn it is is accepted:
    /// the game is running, the cards have a shape, they may be laid, and
    /// the player holds them.
    pub open spec fn accepts(&self, cards: Seq<Card>) -> bool {
        &&& self.state == GameState::Running
        &&& !classify(cards).empty()
        &&& self.may_lay(classify(cards))
        &&& self.holds(cards)
    }

    /// Why a play of `cards` is refused, where it is: the first of the four
    /// conditions of [`Game::accepts`] that fails decides.
    pub open spec fn play_error(&self, cards: Seq<Card>) -> GameError {
        if self.state != GameState::Running {
            GameError::NotRunning
        } else if classify(cards).empty() {
            GameError::NoRule
        } else if !self.may_lay(classify(cards)) {
            GameError::WrongRule
        } else {
            GameError::NoSuchCards
        }
    }

    /// The factor after a play of shape `played`: doubled by a bomb and by
    /// the rocket.
    pub open spec fn factor_after(&self, played: Rule) -> u32 {
        if played.priority() > 0 {
            doubled(self.score_multiplier)
        } else {
            self.score_multiplier
        }
    }

    /// What an accepted play of `cards` does to `before`: `after` is the
    /// game then, `r` the answer.
    ///
    /// The player's hand is without the cards, which lie with the cards laid
    /// before, and the factor is doubled where the play is a bomb or the
    /// rocket. Where the hand is empty the game is won: it waits for players
    /// again, the table is as it was, and the answer is `Win`, with the
    /// winner, the winner's side and the points. Otherwise the play lies on
    /// the table, the turn has moved to the next seat, and the answer names
    /// that seat's player.
    pub open spec fn played(
        before: &Game,
        cards: Seq<Card>,
        after: &Game,
        r: Result<UserId, GameError>,
    ) -> bool {
        let seat = before.index as int;
        let rest = before.hand_without(cards);
        &&& after.players@.len() == SEATS
        &&& after.players@[seat].user == before.players@[seat].user
        &&& after.players@[seat].player_type == before.players@[seat].player_type
        &&& after.players@[seat].cards@ == rest
        &&& rest.len() == before.hand(seat).len() - cards.len()
        &&& forall|c: Card| #[trigger]
            count_of(rest, c) == count_of(before.hand(seat), c) - count_of(cards, c)
        &&& forall|i: int| 0 <= i < SEATS && i != seat ==> after.players@[i] == before.players@[i]
        &&& after.score_multiplier == before.factor_after(classify(cards))
        &&& after.discarded@ == before.discarded@ + cards
        &&& after.landlord_index == before.landlord_index
        &&& after.landlord_cards@ == before.landlord_cards@
        &&& if rest.len() == 0 {
            &&& r == Err::<UserId, GameError>(
                GameError::Win(
                    before.players@[seat].user,
                    before.players@[seat].player_type,
                    payout(after.score_multiplier),
                ),
            )
            &&& after.state == GameState::WaitingForPlayers
            &&& after.index == before.index
            &&& after.last_index == before.last_index
            &&& after.last_rule == before.last_rule
            &&& after.last_cards@ == before.last_cards@
        } else {
            &&& r == Ok::<UserId, GameError>(after.players@[after.index as int].user)
            &&& after.state == GameState::Running
            &&& after.index == next_seat(before.index)
            &&& after.last_index == before.index
            &&& after.last_rule == classify(cards)
            &&& after.last_cards@ == cards
        }
    }

    /// Ends the game in favour of the player whose turn it is: the game
    /// waits for players again, and the answer names the winner, the
    /// winner's side and the points, the base points times the factor.
    pub fn win(&mut self) -> (e: GameError)
        requires
            old(self).index < old(self).players@.len(),
        ensures
            e == GameError::Win(
                old(self).players@[old(self).index as int].user,
                old(self).players@[old(self).index as int].player_type,
                payout(old(self).score_multiplier),
            ),
            final(self).state == GameState::WaitingForPlayers,
            final(self).same_players(old(self)),
            final(self).index == old(self).index,
            final(self).landlord_index == old(self).landlord_index,
            final(self).last_index == old(self).last_index,
            final(self).last_cards@ == old(self).last_cards@,
            final(self).last_rule == old(self).last_rule,
            final(self).landlord_cards@ == old(self).landlord_cards@,
            final(self).score_multiplier == old(self).score_multiplier,
            final(self).discarded@ == old(self).discarded@,
    {
        self.state = GameState::WaitingForPlayers;
        let winner = &self.players[self.index];
        GameError::Win(winner.user.clone(), winner.player_type, points(self.score_multiplier))
    }

    /// The player whose turn it is lays nothing, and the turn moves on to
    /// the next seat, whose player the answer names: see
    /// [`Game::moved_on`].
    ///
    /// Refused with `NotRunning` unless the game is running, and with
    /// `YourTurn` where the play on the table is the player's own, who must
    /// lead; nothing changes then.
    pub fn pass(&mut self) -> (r: Result<UserId, GameError>)
        requires
            old(self).wf(),
        ensures
            final(self).wf(),
            old(self).may_pass() ==> Game::moved_on(old(self), final(self)) && r == Ok::<
                UserId,
                GameError,
            >(final(self).players@[final(self).index as int].user),
            !old(self).may_pass() ==> *final(self) == *old(self) && r == Err::<UserId, GameError>(
                old(self).pass_error(),
            ),
            old(self).conserved() ==> final(self).conserved(),
    {
        if self.state != GameState::Running {
            Err(GameError::NotRunning)
        } else if self.index == self.last_index {
            Err(GameError::YourTurn)
        } else {
            self.move_index();
            Ok(self.players[self.index].user.clone())
        }
    }

    /// The player whose turn it is lays `cards`: see [`Game::played`].
    ///
    /// The play is refused, and nothing changes, with `NotRunning` unless
    /// the game is running; else with `NoRule` where the cards have no
    /// shape; else with `WrongRule` where they do not beat the table and the
    /// table is not the player's own; else with `NoSuchCards` where the
    /// player does not hold them.
    pub fn submit_cards(&mut self, cards: Vec<Card>) -> (r: Result<UserId, GameError>)
        requires
            old(self).wf(),
            cards@.len() <= u32::MAX,
        ensures
            final(self).wf(),
            old(self).accepts(cards@) ==> Game::played(old(self), cards@, final(self), r),
            !old(self).accepts(cards@) ==> *final(self) == *old(self) && r == Err::<
                UserId,
                GameError,
            >(old(self).play_error(cards@)),
            old(self).conserved() ==> final(self).conserved(),
    {
        if self.state != GameState::Running {
            return Err(GameError::NotRunning);
        }
        let rule = match_rule(cards.as_slice());
        if rule.is_none() {
            return Err(GameError::NoRule);
        }
        if !(self.last_rule.beaten_by(&rule) || self.index == self.last_index) {
            return Err(GameError::WrongRule);
        }
        let ghost before = *self;
        let seat = self.index;
        assert(self.players@[seat as int].wf());
        let held = to_card_groups(self.players[seat].cards.as_slice());
        let laid = to_card_groups(cards.as_slice());
        let left = match held.sub(laid) {
            Some(left) => left,
            None => {
                return Err(GameError::NoSuchCards);
            },
        };
        proof {
            lemma_group_seq(before.hand(seat as int));
            lemma_group_seq(cards@);
        }
        if rule.bomb_priority() > 0 {
            self.score_multiplier = double(self.score_multiplier);
        }
        let side = self.players[seat].player_type;
        let rest = left.into_cards();
        let done = rest.len() == 0;
        self.set_hand(seat, rest, side);
        self.discarded = Ghost(self.discarded@ + cards@);
        proof {
            assert forall|i: int| 0 <= i < self.players@.len() implies (
            #[trigger] self.players@[i]).wf() by {
                if i != seat {
                    assert(before.players@[i].wf());
                }
            }
            if before.conserved() {
                assert forall|c: Card| #[trigger]
                    count_of(self.in_play(), c) == deck_count(c) by {
                    lemma_count_concat4(
                        self.hand(0),
                        self.hand(1),
                        self.hand(2),
                        self.discarded@,
                        c,
                    );
                    lemma_count_concat4(
                        before.hand(0),
                        before.hand(1),
                        before.hand(2),
                        before.discarded@,
                        c,
                    );
                    lemma_count_concat(before.discarded@, cards@, c);
                    assert(count_of(before.in_play(), c) == deck_count(c));
                }
                assert forall|c: Card| #[trigger]
                    count_of(self.discarded@, c) <= deck_count(c) by {
                    lemma_count_concat4(
                        self.hand(0),
                        self.hand(1),
                        self.hand(2),
                        self.discarded@,
                        c,
                    );
                    assert(count_of(self.in_play(), c) == deck_count(c));
                }
                lemma_factor_step(before.discarded@, cards@, before.score_multiplier);
                lemma_count_concat4(
                    self.hand(0),
                    self.hand(1),
                    self.hand(2),
                    self.discarded@,
                    Card::Unknown,
                );
                lemma_count_concat4(
                    before.hand(0),
                    before.hand(1),
                    before.hand(2),
                    before.discarded@,
                    Card::Unknown,
                );
            }
        }
        if done {
            return Err(self.win());
        }
        let ghost all = self.in_play();
        self.last_rule = rule;
        self.last_cards = cards;
        self.last_index = seat;
        self.move_index();
        assert(self.in_play() == all);
        Ok(self.players[self.index].user.clone())
    }

    /// The player `actor` lays `cards`: see [`Game::submit_cards`].
    ///
    /// Refused with `NotRunning` unless the game is running, and with
    /// `NotYourTurn` unless it is `actor`'s turn; nothing changes then.
    pub fn submit_cards_as(&mut self, actor: &UserId, cards: Vec<Card>) -> (r: Result<
        UserId,
        GameError,
    >)
        requires
            old(self).wf(),
            cards@.len() <= u32::MAX,
        ensures
            final(self).wf(),
            !old(self).turn_of(actor@) ==> *final(self) == *old(self) && r == Err::<
                UserId,
                GameError,
            >(old(self).turn_error()),
            old(self).turn_of(actor@) && old(self).accepts(cards@) ==> Game::played(
                old(self),
                cards@,
                final(self),
                r,
            ),
            old(self).turn_of(actor@) && !old(self).accepts(cards@) ==> *final(self) == *old(self)
                && r == Err::<UserId, GameError>(old(self).play_error(cards@)),
            old(self).conserved() ==> final(self).conserved(),
    {
        if self.state != GameState::Running {
            return Err(GameError::NotRunning);
        }
        if self.players[self.index].user != *actor {
            return Err(GameError::NotYourTurn);
        }
        self.submit_cards(cards)
    }

    /// The player `actor` passes: see [`Game::pass`].
    ///
    /// Refused with `NotRunning` unless the game is running, and with
    /// `NotYourTurn` unless it is `actor`'s turn; nothing changes then.
    pub fn pass_as(&mut self, actor: &UserId) -> (r: Result<UserId, GameError>)
        requires
            old(self).wf(),
        ensures
            final(self).wf(),
            !old(self).turn_of(actor@) ==> *final(self) == *old(self) && r == Err::<
                UserId,
                GameError,
            >(old(self).turn_error()),
            old(self).turn_of(actor@) && old(self).may_pass() ==> Game::moved_on(
                old(self),
                final(self),
            ) && r == Ok::<UserId, GameError>(final(self).players@[final(self).index as int].user),
            old(self).turn_of(actor@) && !old(self).may_pass() ==> *final(self) == *old(self) && r
                == Err::<UserId, GameError>(GameError::YourTurn),
            old(self).conserved() ==> final(self).conserved(),
    {
        if self.state != GameState::Running {
            return Err(GameError::NotRunning);
        }
        if self.players[self.index].user != *actor {
            return Err(GameError::NotYourTurn);
        }
        self.pass()
    }
}

/// The cards of the deck that are dealt to seat `seat`, as they lie in the
/// deck: the seat's block of seventeen.
pub open spec fn dealt_block(deck: Seq<Card>, seat: int) -> Seq<Card> {
    deck.subrange(seat * HAND_SIZE, seat * HAND_SIZE + HAND_SIZE)
}

/// The cards of the deck that are kept for the landlord: the last three.
pub open spec fn dealt_pool(deck: Seq<Card>) -> Seq<Card> {
    deck.subrange(SEATS * HAND_SIZE, DECK_SIZE as int)
}

/// Dealing loses no card: three sorted blocks and the pool hold every card
/// as often as the deck does.
pub proof fn lemma_deal_keeps_cards(deck: Seq<Card>)
    requires
        deck.len() == DECK_SIZE,
    ensures
        forall|c: Card| #[trigger]
            count_of(
                sorted(dealt_block(deck, 0)) + sorted(dealt_block(deck, 1)) + sorted(
                    dealt_block(deck, 2),
                ) + dealt_pool(deck),
                c,
            ) == count_of(deck, c),
        (sorted(dealt_block(deck, 0)) + sorted(dealt_block(deck, 1)) + sorted(
            dealt_block(deck, 2),
        ) + dealt_pool(deck)).len() == DECK_SIZE,
{
    let b0 = dealt_block(deck, 0);
    let b1 = dealt_block(deck, 1);
    let b2 = dealt_block(deck, 2);
    let pool = dealt_pool(deck);
    assert(deck =~= b0 + b1 + b2 + pool);
    group_then_flatten(b0);
    group_then_flatten(b1);
    group_then_flatten(b2);
    assert forall|c: Card| #[trigger]
        count_of(sorted(b0) + sorted(b1) + sorted(b2) + pool, c) == count_of(deck, c) by {
        lemma_count_concat4(sorted(b0), sorted(b1), sorted(b2), pool, c);
        lemma_count_concat4(b0, b1, b2, pool, c);
    }
    lemma_count_concat4(sorted(b0), sorted(b1), sorted(b2), pool, Card::Unknown);
}

/// Joins two card lists.
pub(crate) fn join_cards(a: &Vec<Card>, b: &Vec<Card>) -> (r: Vec<Card>)
    ensures
        r@ == a@ + b@,
{
    let mut r = copy_range(a, 0, a.len());
    let mut i: usize = 0;
    assert(r@ =~= a@);
    while i < b.len()
        invariant
            i <= b.len(),
            r@ == a@ + b@.take(i as int),
        decreases b.len() - i,
    {
        r.push(b[i]);
        i += 1;
        assert(r@ =~= a@ + b@.take(i as int));
    }
    assert(b@.take(b@.len() as int) =~= b@);
    r
}

/// Twice `m`, or the largest number where that is too large.
fn double(m: u32) -> (r: u32)
    ensures
        r == doubled(m),
        r >= m,
{
    if m <= u32::MAX / 2 {
        m * 2
    } else {
        u32::MAX
    }
}

/// The points for a win at factor `m`.
fn points(m: u32) -> (r: u32)
    ensures
        r == payout(m),
{
    if m <= u32::MAX / BASE_POINTS {
        BASE_POINTS * m
    } else {
        u32::MAX
    }
}

/// In a started game that keeps its cards, the three hands and the pile
/// hold fifty-four cards in all: while the landlord is chosen the pile is
/// the landlord's three cards, in a running game all cards laid so far.
pub proof fn conserved_total(g: Game)
    requires
        g.conserved(),
        g.state != GameState::WaitingForPlayers,
    ensures
        g.hand(0).len() + g.hand(1).len() + g.hand(2).len() + g.pile().len() == DECK_SIZE,
        g.state == GameState::Running ==> g.hand(0).len() + g.hand(1).len() + g.hand(2).len()
            + g.discarded@.len() == DECK_SIZE,
        forall|c: Card|
            count_of(g.hand(0), c) + count_of(g.hand(1), c) + count_of(g.hand(2), c) + count_of(
                g.pile(),
                c,
            ) == #[trigger] deck_count(c),
{
    assert forall|c: Card|
        count_of(g.hand(0), c) + count_of(g.hand(1), c) + count_of(g.hand(2), c) + count_of(
            g.pile(),
            c,
        ) == #[trigger] deck_count(c) by {
        lemma_count_concat4(g.hand(0), g.hand(1), g.hand(2), g.pile(), c);
        assert(count_of(g.in_play(), c) == deck_count(c));
    }
    lemma_count_concat4(g.hand(0), g.hand(1), g.hand(2), g.pile(), Card::Unknown);
}

/// Cards that have a shape and may be laid, but that the player whose turn
/// it is does not hold, are refused with `NoSuchCards`. (Cards without a
/// shape, and cards that may not be laid, are refused for that before it is
/// asked whether the player holds them.)
pub proof fn unheld_cards_are_refused(g: Game, cards: Seq<Card>)
    requires
        g.state == GameState::Running,
        !classify(cards).empty(),
        g.may_lay(classify(cards)),
        !g.holds(cards),
    ensures
        !g.accepts(cards),
        g.play_error(cards) == GameError::NoSuchCards,
{
}

/// A game holds a play exactly where the play holds no card more often than
/// the hand of the player whose turn it is does.
pub proof fn holds_iff_no_card_short(g: Game, cards: Seq<Card>)
    requires
        g.hand(g.index as int).len() <= u32::MAX,
        cards.len() <= u32::MAX,
    ensures
        g.holds(cards) <==> forall|c: Card|
            count_of(cards, c) <= #[trigger] count_of(g.hand(g.index as int), c),
{
    let hand = g.hand(g.index as int);
    lemma_group_seq(hand);
    lemma_group_seq(cards);
    if g.holds(cards) {
        assert forall|c: Card| count_of(cards, c) <= #[trigger] count_of(hand, c) by {
            assert(groups_count(group_seq(cards), c) <= groups_count(group_seq(hand), c));
        }
    }
    if forall|c: Card| count_of(cards, c) <= #[trigger] count_of(hand, c) {
        assert forall|c: Card|
            groups_count(group_seq(cards), c) <= #[trigger] groups_count(group_seq(hand), c) by {
            assert(count_of(cards, c) <= count_of(hand, c));
        }
    }
}

/// In a running game that keeps its cards and its count the factor is
/// never cut off: it is at most two to the power of fourteen, so that
/// doubling it doubles it and the points are the base points times the
/// factor.
pub proof fn conserved_factor(g: Game)
    requires
        g.conserved(),
        g.state == GameState::Running,
    ensures
        1 <= two_pow(doublings(g.discarded@)) <= MAX_FACTOR,
        g.score_multiplier <= MAX_FACTOR,
        doubled(g.score_multiplier) == 2 * g.score_multiplier,
        payout(g.score_multiplier) == BASE_POINTS * g.score_multiplier,
{
    conserved_total(g);
    assert forall|c: Card| #[trigger] count_of(g.discarded@, c) <= deck_count(c) by {
        assert(count_of(g.hand(0), c) + count_of(g.hand(1), c) + count_of(g.hand(2), c) + count_of(
            g.pile(),
            c,
        ) == deck_count(c));
    }
    lemma_doublings_of_deck(g.discarded@);
    lemma_two_pow_grows(0, doublings(g.discarded@));
}

} // verus!
