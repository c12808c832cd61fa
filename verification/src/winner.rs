//! Win detection: a board wins when one of its twelve lines (five columns,
//! five rows, two diagonals) holds five tiles whose items are checked in the
//! board's session.

use std::collections::HashMap;
use vstd::prelude::*;
use crate::seqs::{
    count_where, first_index, lemma_count_bound, lemma_count_take_next, lemma_first_index,
};
use crate::store::{
    board_item_with_id, board_with_id, find_board, find_session, session_with_id, Database,
    DatabaseView,
};
use crate::types::{BingoError, BoardItem, BoardItemTile, GameSessionView, PlayerKey};

verus! {

/// A line of the grid. Columns gather the tiles of one `x`, rows those of one
/// `y`; the diagonal runs through the tiles with `x == y`, the anti-diagonal
/// through those with `x + y == 4`.
#[derive(Clone, Copy, Debug, PartialEq, Eq, Structural)]
pub enum Line {
    Column(u8),
    Row(u8),
    Diagonal,
    AntiDiagonal,
}

/// The twelve lines of the five-by-five grid.
pub open spec fn line_in_grid(line: Line) -> bool {
    match line {
        Line::Column(c) => c < 5,
        Line::Row(r) => r < 5,
        Line::Diagonal => true,
        Line::AntiDiagonal => true,
    }
}

/// Whether a tile lies on a line.
pub open spec fn on_line(line: Line, tile: BoardItemTile) -> bool {
    match line {
        Line::Column(c) => tile.x == c,
        Line::Row(r) => tile.y == r,
        Line::Diagonal => tile.x == tile.y,
        Line::AntiDiagonal => tile.x + tile.y == 4,
    }
}

/// What a session says of an item: `None` where it does not hold the item,
/// else whether the item is checked.
pub open spec fn checked_state(cache: Seq<BoardItem>, item_id: u32) -> Option<bool> {
    match first_index(cache, board_item_with_id(item_id)) {
        Some(i) => Some(cache[i].checked),
        None => None,
    }
}

/// Holds of the tiles on `line` whose items are checked in `cache`.
pub open spec fn checked_on_line(line: Line, cache: Seq<BoardItem>) -> spec_fn(
    BoardItemTile,
) -> bool {
    |t: BoardItemTile| on_line(line, t) && checked_state(cache, t.id) == Some(true)
}

/// The number of checked tiles on a line.
pub open spec fn line_count(tiles: Seq<BoardItemTile>, cache: Seq<BoardItem>, line: Line) -> nat {
    count_where(tiles, checked_on_line(line, cache))
}

/// Some line of the grid holds at least five checked tiles.
pub open spec fn has_bingo(tiles: Seq<BoardItemTile>, cache: Seq<BoardItem>) -> bool {
    exists|line: Line| line_in_grid(line) && #[trigger] line_count(tiles, cache, line) >= 5
}

/// Some tile shows an item that the session does not hold.
pub open spec fn has_stray_tile(tiles: Seq<BoardItemTile>, cache: Seq<BoardItem>) -> bool {
    exists|k: int| 0 <= k < tiles.len() && #[trigger] checked_state(cache, tiles[k].id) is None
}

/// Whether `index` says of every item id what the session says of it.
pub open spec fn indexes(index: Map<u32, bool>, cache: Seq<BoardItem>) -> bool {
    forall|id: u32|
        match #[trigger] checked_state(cache, id) {
            Some(checked) => index.contains_key(id) && index[id] == checked,
            None => !index.contains_key(id),
        }
}

/// Builds the index of a session's items: for each item id that the session
/// holds, whether the item is checked. Where an id occurs twice, the first
/// entry counts.
pub fn index_items(cache: &Vec<BoardItem>) -> (index: HashMap<u32, bool>)
    ensures
        indexes(index@, cache@),
{
    broadcast use vstd::std_specs::hash::group_hash_axioms;

    let mut index: HashMap<u32, bool> = HashMap::new();
    let mut i: usize = 0;
    assert(cache@.take(0) =~= Seq::<BoardItem>::empty());
    while i < cache.len()
        invariant
            i <= cache.len(),
            indexes(index@, cache@.take(i as int)),
        decreases cache.len() - i,
    {
        let ghost before = cache@.take(i as int);
        let ghost after = cache@.take(i + 1);
        let ghost seen = index@;
        let id = cache[i].id;
        if !index.contains_key(&id) {
            index.insert(id, cache[i].checked);
        }
        proof {
            assert(after.drop_last() =~= before);
            assert(after.last() == cache@[i as int]);
            assert forall|other: u32|
                match #[trigger] checked_state(after, other) {
                    Some(checked) => index@.contains_key(other) && index@[other] == checked,
                    None => !index@.contains_key(other),
                } by {
                let found = first_index(before, board_item_with_id(other));
                lemma_first_index(before, board_item_with_id(other));
                match checked_state(before, other) {
                    Some(checked) => {
                        assert(seen.contains_key(other) && seen[other] == checked);
                        assert(after[found->Some_0] == before[found->Some_0]);
                    },
                    None => {
                        assert(!seen.contains_key(other));
                    },
                }
            }
        }
        i += 1;
    }
    assert(cache@.take(i as int) =~= cache@);
    index
}

/// Scans a board against its session's items: `Ok(true)` where a line is
/// complete, `Ok(false)` where none is, and `DataConsistency` where a tile
/// shows an item that the session does not hold.
pub fn scan_board(tiles: &Vec<BoardItemTile>, cache: &Vec<BoardItem>) -> (r: Result<bool, BingoError>)
    ensures
        has_stray_tile(tiles@, cache@) ==> r == Err::<bool, BingoError>(BingoError::DataConsistency),
        !has_stray_tile(tiles@, cache@) ==> r == Ok::<bool, BingoError>(has_bingo(tiles@, cache@)),
{
    broadcast use vstd::std_specs::hash::group_hash_axioms;

    let index = index_items(cache);
    let mut columns = [0usize; 5];
    let mut rows = [0usize; 5];
    let mut diagonal: usize = 0;
    let mut anti_diagonal: usize = 0;
    let mut k: usize = 0;
    while k < tiles.len()
        invariant
            k <= tiles.len(),
            indexes(index@, cache@),
            forall|j: int| 0 <= j < k ==> checked_state(cache@, tiles@[j].id) is Some,
            forall|c: u8|
                c < 5 ==> columns@[c as int] == #[trigger] line_count(
                    tiles@.take(k as int),
                    cache@,
                    Line::Column(c),
                ),
            forall|r: u8|
                r < 5 ==> rows@[r as int] == #[trigger] line_count(
                    tiles@.take(k as int),
                    cache@,
                    Line::Row(r),
                ),
            diagonal == line_count(tiles@.take(k as int), cache@, Line::Diagonal),
            anti_diagonal == line_count(tiles@.take(k as int), cache@, Line::AntiDiagonal),
        decreases tiles.len() - k,
    {
        let tile = tiles[k];
        let ghost before = tiles@.take(k as int);
        let ghost after = tiles@.take(k + 1);
        proof {
            assert forall|line: Line|
                #[trigger] line_count(after, cache@, line) == line_count(before, cache@, line)
                    + if checked_on_line(line, cache@)(tile) {
                    1nat
                } else {
                    0nat
                } && line_count(before, cache@, line) <= k by {
                lemma_count_take_next(tiles@, k as int, checked_on_line(line, cache@));
                lemma_count_bound(before, checked_on_line(line, cache@));
            }
        }
        match index.get(&tile.id) {
            None => {
                assert(checked_state(cache@, tiles@[k as int].id) is None);
                return Err(BingoError::DataConsistency);
            },
            Some(checked) => {
                assert(checked_state(cache@, tile.id) == Some(*checked));
                if *checked {
                    if tile.x < 5 {
                        let x = tile.x as usize;
                        assert(columns@[x as int] == line_count(before, cache@, Line::Column(tile.x)));
                        assert(line_count(after, cache@, Line::Column(tile.x)) <= k + 1);
                        columns[x] = columns[x] + 1;
                    }
                    if tile.y < 5 {
                        let y = tile.y as usize;
                        assert(rows@[y as int] == line_count(before, cache@, Line::Row(tile.y)));
                        assert(line_count(after, cache@, Line::Row(tile.y)) <= k + 1);
                        rows[y] = rows[y] + 1;
                    }
                    assert(line_count(after, cache@, Line::Diagonal) <= k + 1);
                    assert(line_count(after, cache@, Line::AntiDiagonal) <= k + 1);
                    if tile.x == tile.y {
                        diagonal = diagonal + 1;
                    }
                    if tile.x <= 4 && tile.y == 4 - tile.x {
                        anti_diagonal = anti_diagonal + 1;
                    }
                }
            },
        }
        k += 1;
    }
    assert(tiles@.take(k as int) =~= tiles@);
    let won = diagonal >= 5 || anti_diagonal >= 5 || columns[0] >= 5 || columns[1] >= 5
        || columns[2] >= 5 || columns[3] >= 5 || columns[4] >= 5 || rows[0] >= 5 || rows[1] >= 5
        || rows[2] >= 5 || rows[3] >= 5 || rows[4] >= 5;
    proof {
        let count = |line: Line| line_count(tiles@, cache@, line);
        assert(columns@[0] == count(Line::Column(0)) && columns@[1] == count(Line::Column(1))
            && columns@[2] == count(Line::Column(2)) && columns@[3] == count(Line::Column(3))
            && columns@[4] == count(Line::Column(4)));
        assert(rows@[0] == count(Line::Row(0)) && rows@[1] == count(Line::Row(1)) && rows@[2]
            == count(Line::Row(2)) && rows@[3] == count(Line::Row(3)) && rows@[4] == count(
            Line::Row(4),
        ));
        if has_bingo(tiles@, cache@) {
            let line = choose|line: Line|
                line_in_grid(line) && #[trigger] line_count(tiles@, cache@, line) >= 5;
            match line {
                Line::Column(d) => {
                    assert(d == 0 || d == 1 || d == 2 || d == 3 || d == 4);
                },
                Line::Row(d) => {
                    assert(d == 0 || d == 1 || d == 2 || d == 3 || d == 4);
                },
                Line::Diagonal => {},
                Line::AntiDiagonal => {},
            }
            assert(won);
        }
        if won {
            assert(line_in_grid(Line::Diagonal) && line_in_grid(Line::AntiDiagonal));
            assert(line_in_grid(Line::Column(0)) && line_in_grid(Line::Column(1)) && line_in_grid(
                Line::Column(2),
            ) && line_in_grid(Line::Column(3)) && line_in_grid(Line::Column(4)));
            assert(line_in_grid(Line::Row(0)) && line_in_grid(Line::Row(1)) && line_in_grid(
                Line::Row(2),
            ) && line_in_grid(Line::Row(3)) && line_in_grid(Line::Row(4)));
            assert(has_bingo(tiles@, cache@));
        }
    }
    Ok(won)
}

/// A session after a board of `winner` completed a line in it.
pub open spec fn won_by(session: GameSessionView, winner: PlayerKey) -> GameSessionView {
    GameSessionView { winner: Some(winner), active: false, ..session }
}

/// What a win check of the board with this id does to the store.
///
/// Nothing, where the board or its session is missing or no line is complete.
/// Where a line is complete, the board's session gets the board's owner as its
/// winner and stops being active. Where a tile shows an item that the session
/// does not hold, the check fails.
pub open spec fn winner_check(db: DatabaseView, board_id: u32) -> Result<DatabaseView, BingoError> {
    match first_index(db.bingo_boards, board_with_id(board_id)) {
        None => Ok(db),
        Some(b) => {
            let board = db.bingo_boards[b];
            match first_index(db.game_sessions, session_with_id(board.game_session_id)) {
                None => Ok(db),
                Some(s) => {
                    let session = db.game_sessions[s];
                    if has_stray_tile(board.bingo_item_tiles, session.board_items) {
                        Err(BingoError::DataConsistency)
                    } else if has_bingo(board.bingo_item_tiles, session.board_items) {
                        Ok(
                            DatabaseView {
                                game_sessions: db.game_sessions.update(
                                    s,
                                    won_by(session, board.player_id),
                                ),
                                ..db
                            },
                        )
                    } else {
                        Ok(db)
                    }
                },
            }
        },
    }
}

/// Checks whether the board with this id has won, and records the win in its
/// session. The store is unchanged where the check fails.
pub fn check_for_winner(db: &mut Database, board_id: u32) -> (r: Result<(), BingoError>)
    ensures
        match winner_check(old(db)@, board_id) {
            Ok(after) => r is Ok && final(db)@ =~= after,
            Err(e) => r == Err::<(), BingoError>(e) && final(db)@ =~= old(db)@,
        },
{
    let b = match find_board(&db.bingo_boards, board_id) {
        Some(b) => b,
        None => {
            return Ok(());
        },
    };
    let s = match find_session(&db.game_sessions, db.bingo_boards[b].game_session_id) {
        Some(s) => s,
        None => {
            return Ok(());
        },
    };
    let won = scan_board(&db.bingo_boards[b].bingo_item_tiles, &db.game_sessions[s].board_items)?;
    if won {
        let winner = db.bingo_boards[b].player_id;
        db.game_sessions[s].winner = Some(winner);
        db.game_sessions[s].active = false;
    }
    Ok(())
}

} // verus!
