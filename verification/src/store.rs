//! The store: every table of the game, with the counters that hand out row
//! ids, and the view that contracts speak of.

use vstd::prelude::*;
use crate::seqs::{first_index, lemma_first_index_is, lemma_first_index_none};
use crate::types::{
    BingoBoard, BingoBoardView, BingoItem, BoardItem, GameSession, GameSessionView,
    ItemCheckVote, Player, PlayerInvite, PlayerItemSubject, PlayerKey, PlayerSession,
    BingoError, RemoveExpiredInvitesTimer, RemoveExpiredVotesTimer,
};

verus! {

/// The next id that each table with generated ids hands out.
#[derive(Clone, Copy, Debug, PartialEq, Eq, Structural)]
pub struct Sequences {
    pub player: u32,
    pub player_invite: u32,
    pub invite_timer: u64,
    pub game_session: u32,
    pub bingo_item: u32,
    pub bingo_board: u32,
    pub item_check_vote: u32,
    pub vote_timer: u64,
}

/// All tables. Rows stand in the order in which they were inserted.
#[derive(Clone, Debug, PartialEq, Eq)]
pub struct Database {
    pub players: Vec<Player>,
    pub player_invites: Vec<PlayerInvite>,
    pub invite_timers: Vec<RemoveExpiredInvitesTimer>,
    pub game_sessions: Vec<GameSession>,
    pub player_sessions: Vec<PlayerSession>,
    pub bingo_items: Vec<BingoItem>,
    pub player_item_subjects: Vec<PlayerItemSubject>,
    pub bingo_boards: Vec<BingoBoard>,
    pub item_check_votes: Vec<ItemCheckVote>,
    pub vote_timers: Vec<RemoveExpiredVotesTimer>,
    pub sequences: Sequences,
}

/// The store as specifications see it.
#[verifier::ext_equal]
pub struct DatabaseView {
    pub players: Seq<Player>,
    pub player_invites: Seq<PlayerInvite>,
    pub invite_timers: Seq<RemoveExpiredInvitesTimer>,
    pub game_sessions: Seq<GameSessionView>,
    pub player_sessions: Seq<PlayerSession>,
    pub bingo_items: Seq<BingoItem>,
    pub player_item_subjects: Seq<PlayerItemSubject>,
    pub bingo_boards: Seq<BingoBoardView>,
    pub item_check_votes: Seq<ItemCheckVote>,
    pub vote_timers: Seq<RemoveExpiredVotesTimer>,
    pub sequences: Sequences,
}

/// The views of a table of sessions, row by row.
pub open spec fn session_views(rows: Seq<GameSession>) -> Seq<GameSessionView> {
    rows.map_values(|s: GameSession| s@)
}

/// The views of a table of boards, row by row.
pub open spec fn board_views(rows: Seq<BingoBoard>) -> Seq<BingoBoardView> {
    rows.map_values(|b: BingoBoard| b@)
}

impl View for Database {
    type V = DatabaseView;

    open spec fn view(&self) -> DatabaseView {
        DatabaseView {
            players: self.players@,
            player_invites: self.player_invites@,
            invite_timers: self.invite_timers@,
            game_sessions: session_views(self.game_sessions@),
            player_sessions: self.player_sessions@,
            bingo_items: self.bingo_items@,
            player_item_subjects: self.player_item_subjects@,
            bingo_boards: board_views(self.bingo_boards@),
            item_check_votes: self.item_check_votes@,
            vote_timers: self.vote_timers@,
            sequences: self.sequences,
        }
    }
}

/// The store before anything was written: no rows, every id counter at one.
pub open spec fn empty_database() -> DatabaseView {
    DatabaseView {
        players: Seq::empty(),
        player_invites: Seq::empty(),
        invite_timers: Seq::empty(),
        game_sessions: Seq::empty(),
        player_sessions: Seq::empty(),
        bingo_items: Seq::empty(),
        player_item_subjects: Seq::empty(),
        bingo_boards: Seq::empty(),
        item_check_votes: Seq::empty(),
        vote_timers: Seq::empty(),
        sequences: Sequences {
            player: 1,
            player_invite: 1,
            invite_timer: 1,
            game_session: 1,
            bingo_item: 1,
            bingo_board: 1,
            item_check_vote: 1,
            vote_timer: 1,
        },
    }
}

impl Database {
    /// An empty store.
    pub fn new() -> (db: Database)
        ensures
            db@ =~= empty_database(),
    {
        Database {
            players: Vec::new(),
            player_invites: Vec::new(),
            invite_timers: Vec::new(),
            game_sessions: Vec::new(),
            player_sessions: Vec::new(),
            bingo_items: Vec::new(),
            player_item_subjects: Vec::new(),
            bingo_boards: Vec::new(),
            item_check_votes: Vec::new(),
            vote_timers: Vec::new(),
            sequences: Sequences {
                player: 1,
                player_invite: 1,
                invite_timer: 1,
                game_session: 1,
                bingo_item: 1,
                bingo_board: 1,
                item_check_vote: 1,
                vote_timer: 1,
            },
        }
    }
}

/// A table without a key after `row` was inserted: a table holds a row once,
/// so a row that is there already is not added again.
pub open spec fn with_row<T>(rows: Seq<T>, row: T) -> Seq<T> {
    if rows.contains(row) {
        rows
    } else {
        rows.push(row)
    }
}

/// Enters a player into a session.
pub fn insert_player_session(rows: &mut Vec<PlayerSession>, row: PlayerSession)
    ensures
        final(rows)@ == with_row(old(rows)@, row),
{
    let mut i: usize = 0;
    while i < rows.len()
        invariant
            i <= rows.len(),
            *rows == *old(rows),
            forall|j: int| 0 <= j < i ==> rows@[j] != row,
        decreases rows.len() - i,
    {
        if rows[i] == row {
            return ;
        }
        i += 1;
    }
    rows.push(row);
}

/// Makes a player a subject of an item.
pub fn insert_subject(rows: &mut Vec<PlayerItemSubject>, row: PlayerItemSubject)
    ensures
        final(rows)@ == with_row(old(rows)@, row),
{
    let mut i: usize = 0;
    while i < rows.len()
        invariant
            i <= rows.len(),
            *rows == *old(rows),
            forall|j: int| 0 <= j < i ==> rows@[j] != row,
        decreases rows.len() - i,
    {
        if rows[i] == row {
            return ;
        }
        i += 1;
    }
    rows.push(row);
}

/// A command that aimed at `outcome` returned `r` and left the store as
/// `after`: with every change where it succeeded, with none where it was
/// refused.
pub open spec fn commits(
    outcome: Result<DatabaseView, BingoError>,
    before: DatabaseView,
    after: DatabaseView,
    r: Result<(), BingoError>,
) -> bool {
    match outcome {
        Ok(aim) => r is Ok && after =~= aim,
        Err(e) => r == Err::<(), BingoError>(e) && after =~= before,
    }
}

/// Holds of the session with this id.
pub open spec fn session_with_id(id: u32) -> spec_fn(GameSessionView) -> bool {
    |s: GameSessionView| s.id == id
}

/// Holds of the board with this id.
pub open spec fn board_with_id(id: u32) -> spec_fn(BingoBoardView) -> bool {
    |b: BingoBoardView| b.id == id
}

/// Holds of the session item with this id.
pub open spec fn board_item_with_id(id: u32) -> spec_fn(BoardItem) -> bool {
    |b: BoardItem| b.id == id
}

/// Holds of the player whose key is `key`.
pub open spec fn player_with_identity(key: PlayerKey) -> spec_fn(Player) -> bool {
    |p: Player| p.identity == key
}

/// Holds of the invite that carries `token`.
pub open spec fn invite_with_token(token: Seq<char>) -> spec_fn(PlayerInvite) -> bool {
    |i: PlayerInvite| i.token@ == token
}

/// Holds of the invite with this id.
pub open spec fn invite_with_id(id: u32) -> spec_fn(PlayerInvite) -> bool {
    |i: PlayerInvite| i.id == id
}

/// Holds of the catalog item with this id.
pub open spec fn item_with_id(id: u32) -> spec_fn(BingoItem) -> bool {
    |i: BingoItem| i.id == id
}

/// The first session with this id, by its place in the table.
pub fn find_session(sessions: &Vec<GameSession>, id: u32) -> (found: Option<usize>)
    ensures
        match found {
            Some(i) => i < sessions.len() && sessions@[i as int].id == id && first_index(
                session_views(sessions@),
                session_with_id(id),
            ) == Some(i as int),
            None => first_index(session_views(sessions@), session_with_id(id)) is None,
        },
{
    let mut i: usize = 0;
    while i < sessions.len()
        invariant
            i <= sessions.len(),
            forall|j: int| 0 <= j < i ==> sessions@[j].id != id,
        decreases sessions.len() - i,
    {
        if sessions[i].id == id {
            proof {
                lemma_first_index_is(session_views(sessions@), session_with_id(id), i as int);
            }
            return Some(i);
        }
        i += 1;
    }
    proof {
        lemma_first_index_none(session_views(sessions@), session_with_id(id));
    }
    None
}

/// The first board with this id, by its place in the table.
pub fn find_board(boards: &Vec<BingoBoard>, id: u32) -> (found: Option<usize>)
    ensures
        match found {
            Some(i) => i < boards.len() && boards@[i as int].id == id && first_index(
                board_views(boards@),
                board_with_id(id),
            ) == Some(i as int),
            None => first_index(board_views(boards@), board_with_id(id)) is None,
        },
{
    let mut i: usize = 0;
    while i < boards.len()
        invariant
            i <= boards.len(),
            forall|j: int| 0 <= j < i ==> boards@[j].id != id,
        decreases boards.len() - i,
    {
        if boards[i].id == id {
            proof {
                lemma_first_index_is(board_views(boards@), board_with_id(id), i as int);
            }
            return Some(i);
        }
        i += 1;
    }
    proof {
        lemma_first_index_none(board_views(boards@), board_with_id(id));
    }
    None
}

/// The first item of a session's cache with this id.
pub fn find_board_item(items: &Vec<BoardItem>, id: u32) -> (found: Option<usize>)
    ensures
        match found {
            Some(i) => i < items.len() && items@[i as int].id == id && first_index(
                items@,
                board_item_with_id(id),
            ) == Some(i as int),
            None => first_index(items@, board_item_with_id(id)) is None,
        },
{
    let mut i: usize = 0;
    while i < items.len()
        invariant
            i <= items.len(),
            forall|j: int| 0 <= j < i ==> items@[j].id != id,
        decreases items.len() - i,
    {
        if items[i].id == id {
            proof {
                lemma_first_index_is(items@, board_item_with_id(id), i as int);
            }
            return Some(i);
        }
        i += 1;
    }
    proof {
        lemma_first_index_none(items@, board_item_with_id(id));
    }
    None
}

/// The first player whose key is `key`.
pub fn find_player(players: &Vec<Player>, key: PlayerKey) -> (found: Option<usize>)
    ensures
        match found {
            Some(i) => i < players.len() && players@[i as int].identity == key && first_index(
                players@,
                player_with_identity(key),
            ) == Some(i as int),
            None => first_index(players@, player_with_identity(key)) is None,
        },
{
    let mut i: usize = 0;
    while i < players.len()
        invariant
            i <= players.len(),
            forall|j: int| 0 <= j < i ==> players@[j].identity != key,
        decreases players.len() - i,
    {
        if players[i].identity == key {
            proof {
                lemma_first_index_is(players@, player_with_identity(key), i as int);
            }
            return Some(i);
        }
        i += 1;
    }
    proof {
        lemma_first_index_none(players@, player_with_identity(key));
    }
    None
}

/// The first invite that carries `token`.
pub fn find_invite_by_token(invites: &Vec<PlayerInvite>, token: &String) -> (found: Option<usize>)
    ensures
        match found {
            Some(i) => i < invites.len() && invites@[i as int].token@ == token@ && first_index(
                invites@,
                invite_with_token(token@),
            ) == Some(i as int),
            None => first_index(invites@, invite_with_token(token@)) is None,
        },
{
    let mut i: usize = 0;
    while i < invites.len()
        invariant
            i <= invites.len(),
            forall|j: int| 0 <= j < i ==> invites@[j].token@ != token@,
        decreases invites.len() - i,
    {
        if invites[i].token == *token {
            proof {
                lemma_first_index_is(invites@, invite_with_token(token@), i as int);
            }
            return Some(i);
        }
        i += 1;
    }
    proof {
        lemma_first_index_none(invites@, invite_with_token(token@));
    }
    None
}

/// The first invite with this id.
pub fn find_invite(invites: &Vec<PlayerInvite>, id: u32) -> (found: Option<usize>)
    ensures
        match found {
            Some(i) => i < invites.len() && invites@[i as int].id == id && first_index(
                invites@,
                invite_with_id(id),
            ) == Some(i as int),
            None => first_index(invites@, invite_with_id(id)) is None,
        },
{
    let mut i: usize = 0;
    while i < invites.len()
        invariant
            i <= invites.len(),
            forall|j: int| 0 <= j < i ==> invites@[j].id != id,
        decreases invites.len() - i,
    {
        if invites[i].id == id {
            proof {
                lemma_first_index_is(invites@, invite_with_id(id), i as int);
            }
            return Some(i);
        }
        i += 1;
    }
    proof {
        lemma_first_index_none(invites@, invite_with_id(id));
    }
    None
}

/// The first catalog item with this id.
pub fn find_item(items: &Vec<BingoItem>, id: u32) -> (found: Option<usize>)
    ensures
        match found {
            Some(i) => i < items.len() && items@[i as int].id == id && first_index(
                items@,
                item_with_id(id),
            ) == Some(i as int),
            None => first_index(items@, item_with_id(id)) is None,
        },
{
    let mut i: usize = 0;
    while i < items.len()
        invariant
            i <= items.len(),
            forall|j: int| 0 <= j < i ==> items@[j].id != id,
        decreases items.len() - i,
    {
        if items[i].id == id {
            proof {
                lemma_first_index_is(items@, item_with_id(id), i as int);
            }
            return Some(i);
        }
        i += 1;
    }
    proof {
        lemma_first_index_none(items@, item_with_id(id));
    }
    None
}

} // verus!
