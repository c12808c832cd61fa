//! The rows of the store and the values that travel with a command.

use vstd::prelude::*;
use vstd::string::StringExecFns;
use crate::password::argon2_error_text;

verus! {

/// The 256-bit key that identifies a principal, as two 128-bit halves.
#[derive(Clone, Copy, Debug, PartialEq, Eq, Structural)]
pub struct PlayerKey {
    pub hi: u128,
    pub lo: u128,
}

/// When a scheduled row fires. Times are microseconds since the Unix epoch,
/// intervals are a number of microseconds.
#[derive(Clone, Copy, Debug, PartialEq, Eq, Structural)]
pub enum ScheduleAt {
    Interval(i64),
    Time(i64),
}

/// Who issued a command, and when (microseconds since the Unix epoch).
#[derive(Clone, Copy, Debug, PartialEq, Eq, Structural)]
pub struct CallContext {
    pub sender: PlayerKey,
    pub timestamp: i64,
}

#[derive(Clone, Debug, PartialEq, Eq)]
pub struct Player {
    pub id: u32,
    pub identity: PlayerKey,
    pub name: String,
    pub password: String,
    pub online: bool,
}

#[derive(Clone, Debug, PartialEq, Eq)]
pub struct PlayerInvite {
    pub id: u32,
    pub token: String,
    pub used: bool,
}

#[derive(Clone, Copy, Debug, PartialEq, Eq, Structural)]
pub struct RemoveExpiredInvitesTimer {
    pub scheduled_id: u64,
    pub invite_id: u32,
    pub scheduled_at: ScheduleAt,
}

/// An item as a session remembers it. The body is kept so that deleting the
/// catalog entry does not disturb boards that already show it.
#[derive(Clone, Debug, PartialEq, Eq)]
pub struct BoardItem {
    pub id: u32,
    pub body: String,
    pub checked: bool,
}

#[derive(Clone, Debug, PartialEq, Eq)]
pub struct GameSession {
    pub id: u32,
    pub name: String,
    pub active: bool,
    /// The player that won this game.
    pub winner: Option<PlayerKey>,
    pub board_items: Vec<BoardItem>,
    pub started: i64,
}

#[derive(Clone, Copy, Debug, PartialEq, Eq, Structural)]
pub struct PlayerSession {
    pub player_id: PlayerKey,
    pub game_session_id: u32,
}

#[derive(Clone, Debug, PartialEq, Eq)]
pub struct BingoItem {
    pub id: u32,
    pub body: String,
}

/// Links a player to an item that the player is the subject of; such an item
/// never appears on that player's board.
#[derive(Clone, Copy, Debug, PartialEq, Eq, Structural)]
pub struct PlayerItemSubject {
    pub player_id: PlayerKey,
    pub bingo_item_id: u32,
}

/// One square of a board: the item it shows and where it sits.
#[derive(Clone, Copy, Debug, PartialEq, Eq, Structural)]
pub struct BoardItemTile {
    pub id: u32,
    pub x: u8,
    pub y: u8,
}

#[derive(Clone, Debug, PartialEq, Eq)]
pub struct BingoBoard {
    pub id: u32,
    pub player_id: PlayerKey,
    pub game_session_id: u32,
    pub bingo_item_tiles: Vec<BoardItemTile>,
}

#[derive(Clone, Copy, Debug, PartialEq, Eq, Structural)]
pub struct ItemCheckVote {
    pub id: u32,
    pub game_session_id: u32,
    pub bingo_item_id: u32,
    pub player_id: PlayerKey,
    pub created_at: i64,
}

#[derive(Clone, Copy, Debug, PartialEq, Eq, Structural)]
pub struct RemoveExpiredVotesTimer {
    pub scheduled_id: u64,
    pub bingo_item_id: u32,
    pub game_session_id: u32,
    pub scheduled_at: ScheduleAt,
}

/// A session as specifications see it.
#[verifier::ext_equal]
pub struct GameSessionView {
    pub id: u32,
    pub name: String,
    pub active: bool,
    pub winner: Option<PlayerKey>,
    pub board_items: Seq<BoardItem>,
    pub started: i64,
}

impl View for GameSession {
    type V = GameSessionView;

    open spec fn view(&self) -> GameSessionView {
        GameSessionView {
            id: self.id,
            name: self.name,
            active: self.active,
            winner: self.winner,
            board_items: self.board_items@,
            started: self.started,
        }
    }
}

/// A board as specifications see it.
#[verifier::ext_equal]
pub struct BingoBoardView {
    pub id: u32,
    pub player_id: PlayerKey,
    pub game_session_id: u32,
    pub bingo_item_tiles: Seq<BoardItemTile>,
}

impl View for BingoBoard {
    type V = BingoBoardView;

    open spec fn view(&self) -> BingoBoardView {
        BingoBoardView {
            id: self.id,
            player_id: self.player_id,
            game_session_id: self.game_session_id,
            bingo_item_tiles: self.bingo_item_tiles@,
        }
    }
}

/// Why a command was refused. A refused command leaves the store as it was.
#[derive(Debug, PartialEq)]
pub enum BingoError {
    /// A name was empty.
    EmptyName,
    /// The caller has no player row.
    UnknownPlayer,
    /// Fewer than twenty-five catalog items are open to the player.
    InsufficientCandidates,
    /// A board shows an item that its session does not hold.
    DataConsistency,
    /// The invite with this token was used before.
    InviteAlreadyUsed(String),
    /// No invite carries this token.
    InviteNotFound(String),
    /// A password could not be hashed, or a stored hash could not be read.
    Hashing(argon2::Error),
    /// Another player row holds the caller's key already.
    IdentityTaken,
    /// Another invite carries the token already.
    TokenTaken,
}

impl BingoError {
    /// The text that a caller is shown for this refusal.
    pub fn message(&self) -> (text: String)
        ensures
            match *self {
                BingoError::EmptyName => text@ == "Names must not be empty"@,
                BingoError::UnknownPlayer => text@ == "Cannot set name for unknown player"@,
                BingoError::InsufficientCandidates => text@
                    == "Not enough valid bingo items to make a board"@,
                BingoError::DataConsistency => text@ == "No board item found in session"@,
                BingoError::InviteAlreadyUsed(token) => text@ == "Invite for token "@ + token@
                    + " has already been used."@,
                BingoError::InviteNotFound(token) => text@ == "No invite found for token: "@
                    + token@,
                BingoError::Hashing(_) => true,
                BingoError::IdentityTaken => text@
                    == "Another player holds this identity already"@,
                BingoError::TokenTaken => text@ == "An invite with this token exists already"@,
            },
    {
        match self {
            BingoError::EmptyName => "Names must not be empty".to_string(),
            BingoError::UnknownPlayer => "Cannot set name for unknown player".to_string(),
            BingoError::InsufficientCandidates => "Not enough valid bingo items to make a board".to_string(),
            BingoError::DataConsistency => "No board item found in session".to_string(),
            BingoError::InviteAlreadyUsed(token) => {
                let mut text = "Invite for token ".to_string();
                text.append(token.as_str());
                text.append(" has already been used.");
                text
            },
            BingoError::InviteNotFound(token) => {
                let mut text = "No invite found for token: ".to_string();
                text.append(token.as_str());
                text
            },
            BingoError::Hashing(cause) => argon2_error_text(cause),
            BingoError::IdentityTaken => "Another player holds this identity already".to_string(),
            BingoError::TokenTaken => "An invite with this token exists already".to_string(),
        }
    }
}

} // verus!
