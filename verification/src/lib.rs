//! Rules engine and turn state machine for a three-player landlord card game.
//!
//! Cards carry one of fifteen ranks and no suit. A play is a list of cards
//! whose ranks form one of a fixed set of shapes; a later play beats an
//! earlier one when it has the same shape and a higher principal rank, or
//! when it is a bomb or the rocket of higher priority. The [`game::Game`]
//! type seats three players, deals, settles who is landlord and then runs
//! the submit / pass cycle until one hand is empty.
//!
//! Around the game stand the rooms and the lobby of a server, which answer
//! the messages of the clients with the messages that are to be sent, and
//! the state of a client, which turns the lines that a user types into
//! messages. None of them sends or receives anything: that is left to the
//! program that owns them.
pub mod card;
pub mod chat;
pub mod client;
pub mod deck;
pub mod error;
pub mod game;
pub mod group;
pub mod input;
pub mod keyed;
pub mod lobby;
pub mod messages;
pub mod player;
pub mod rule;
pub mod score;
pub mod server_lobby;
pub mod store;
pub mod text;
pub mod user;

pub use card::Card;
pub use client::{ClientState, ClientStatus};
pub use deck::{gen_cards, gen_cards_with};
pub use error::{GameError, LobbyError, RoomError};
pub use game::{Game, GameState};
pub use group::{to_card_groups, CardGroup, CardGroups};
pub use input::parse_input;
pub use lobby::{Lobby, Room, RoomState};
pub use messages::{C2SMessage, S2CMessage, Signal};
pub use player::{Player, PlayerType, UserId};
pub use rule::{match_rule, rule_matches, Rule};
pub use server_lobby::{MessagePacket, MessageTarget, ServerLobby};
pub use store::CardStore;
pub use user::{User, UserManager, UserState};
