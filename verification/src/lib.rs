//! Multiplayer bingo sessions: a shared catalog of items is dealt into a
//! private five-by-five board per player, items are checked off by majority
//! vote, and a completed row, column or diagonal wins the session.
//!
//! The whole state lives in a [`Database`] value; every command is a verified
//! transition on it that either commits all of its changes or none, and that
//! keeps a well-formed store well formed.

pub mod board;
pub mod catalog;
pub mod invites;
pub mod laws;
pub mod password;
pub mod players;
pub mod random;
pub mod seqs;
pub mod store;
pub mod types;
pub mod votes;
pub mod wellformed;
pub mod winner;

pub use board::{
    create_bingo_board, deal_board, is_subject_of, item_ids, join_game, open_items,
    start_new_game, BOARD_TILES,
};
pub use catalog::{delete_bingo_item, submit_new_bingo_item};
pub use invites::{
    create_player_invite, remove_expired_player_invites, use_player_invite, INVITE_EXPIRY_MICROS,
};
pub use password::{
    generate_salt, hash_password, hash_password_with_salt, verify_password, MAX_PASSWORD_BYTES,
    SALT_BYTES,
};
pub use players::{
    add_player, client_connected, create_player, identity_disconnected, set_name, sign_in,
    sign_in_at, validate_name,
};
pub use store::{Database, Sequences};
pub use types::{
    BingoBoard, BingoError, BingoItem, BoardItem, BoardItemTile, CallContext, GameSession,
    ItemCheckVote, Player, PlayerInvite, PlayerItemSubject, PlayerKey, PlayerSession,
    RemoveExpiredInvitesTimer, RemoveExpiredVotesTimer, ScheduleAt,
};
pub use votes::{
    cast_check_off_vote, get_required_vote_threshold, remove_expired_votes, VoteOutcome,
    VOTE_EXPIRY_MICROS,
};
pub use winner::{check_for_winner, index_items, scan_board, Line};
