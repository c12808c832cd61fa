//! Board generation: twenty-five catalog items, drawn at random from those
//! that the player is not the subject of, laid out on a five-by-five grid.

use std::collections::HashSet;
use vstd::prelude::*;
use crate::seqs::{first_index, lemma_first_index};
use crate::players::validate_name;
use crate::random::shuffle_items;
use crate::store::{
    board_item_with_id, commits, find_session, insert_player_session, session_views,
    session_with_id, with_row, Database, DatabaseView, Sequences,
};
use crate::types::{
    BingoBoard, BingoBoardView, BingoItem, BoardItem, BoardItemTile, CallContext, BingoError,
    GameSession, GameSessionView, PlayerItemSubject, PlayerKey, PlayerSession,
};

verus! {

/// The number of tiles on a board.
pub const BOARD_TILES: usize = 25;

/// The player is the subject of the item: some row links the two.
pub open spec fn is_subject(subjects: Seq<PlayerItemSubject>, player: PlayerKey, item_id: u32) -> bool {
    exists|k: int|
        0 <= k < subjects.len() && (#[trigger] subjects[k]).player_id == player
            && subjects[k].bingo_item_id == item_id
}

/// Holds of the catalog items that may appear on the player's board.
pub open spec fn open_to(subjects: Seq<PlayerItemSubject>, player: PlayerKey) -> spec_fn(
    BingoItem,
) -> bool {
    |item: BingoItem| !is_subject(subjects, player, item.id)
}

/// The catalog without the items that the player is the subject of, in
/// catalog order.
pub open spec fn candidates(db: DatabaseView, player: PlayerKey) -> Seq<BingoItem> {
    db.bingo_items.filter(open_to(db.player_item_subjects, player))
}

/// Whether the player is the subject of the item.
pub fn is_subject_of(subjects: &Vec<PlayerItemSubject>, player: PlayerKey, item_id: u32) -> (r: bool)
    ensures
        r == is_subject(subjects@, player, item_id),
{
    let mut k: usize = 0;
    while k < subjects.len()
        invariant
            k <= subjects.len(),
            forall|j: int|
                0 <= j < k ==> !((#[trigger] subjects@[j]).player_id == player
                    && subjects@[j].bingo_item_id == item_id),
        decreases subjects.len() - k,
    {
        if subjects[k].player_id == player && subjects[k].bingo_item_id == item_id {
            return true;
        }
        k += 1;
    }
    false
}

/// The catalog items that may appear on the player's board, in catalog order.
pub fn open_items(db: &Database, player: PlayerKey) -> (items: Vec<BingoItem>)
    ensures
        items@ == candidates(db@, player),
{
    let mut items: Vec<BingoItem> = Vec::new();
    let mut i: usize = 0;
    let ghost keep = open_to(db.player_item_subjects@, player);
    proof {
        reveal(Seq::filter);
        assert(db.bingo_items@.take(0) =~= Seq::<BingoItem>::empty());
    }
    while i < db.bingo_items.len()
        invariant
            i <= db.bingo_items.len(),
            keep == open_to(db.player_item_subjects@, player),
            items@ == db.bingo_items@.take(i as int).filter(keep),
        decreases db.bingo_items.len() - i,
    {
        proof {
            db.bingo_items@.lemma_take_succ_push(i as int);
            db.bingo_items@.take(i as int).lemma_filter_push(db.bingo_items@[i as int], keep);
        }
        if !is_subject_of(&db.player_item_subjects, player, db.bingo_items[i].id) {
            let item = BingoItem { id: db.bingo_items[i].id, body: db.bingo_items[i].body.clone() };
            assert(item == db.bingo_items@[i as int]);
            items.push(item);
        }
        i += 1;
    }
    assert(db.bingo_items@.take(i as int) =~= db.bingo_items@);
    items
}

/// The item that lands on tile `k`: the draw is dealt from its end.
pub open spec fn drawn_item(drawn: Seq<BingoItem>, k: int) -> BingoItem {
    drawn[drawn.len() - 1 - k]
}

/// The twenty-five items of a board, in the order in which they are dealt.
pub open spec fn dealt_items(drawn: Seq<BingoItem>) -> Seq<BingoItem> {
    Seq::new(BOARD_TILES as nat, |k: int| drawn_item(drawn, k))
}

/// The tile that shows `item` as the `k`-th of a board: tiles fill the grid
/// column by column, `x` from the quotient and `y` from the remainder by five.
pub open spec fn tile_for(item: BingoItem, k: int) -> BoardItemTile {
    BoardItemTile { id: item.id, x: (k / 5) as u8, y: (k % 5) as u8 }
}

/// The tiles of the board that a draw gives.
pub open spec fn dealt_tiles(drawn: Seq<BingoItem>) -> Seq<BoardItemTile> {
    Seq::new(BOARD_TILES as nat, |k: int| tile_for(drawn_item(drawn, k), k))
}

/// A catalog item as a session first records it: not checked.
pub open spec fn fresh_entry(item: BingoItem) -> BoardItem {
    BoardItem { id: item.id, body: item.body, checked: false }
}

/// A session's items after `items` were placed on a board, one after the
/// other: each item that the session does not hold yet is added at the end.
pub open spec fn with_items(cache: Seq<BoardItem>, items: Seq<BingoItem>) -> Seq<BoardItem>
    decreases items.len(),
{
    if items.len() == 0 {
        cache
    } else {
        let before = with_items(cache, items.drop_last());
        if first_index(before, board_item_with_id(items.last().id)) is Some {
            before
        } else {
            before.push(fresh_entry(items.last()))
        }
    }
}

/// The store after the player was dealt a board from `drawn` in the session
/// with this id.
///
/// Nothing happens where the session is missing. Where the draw holds fewer
/// than twenty-five items the deal is refused. Else the board is added with
/// the next board id, and the session learns the items that are new to it.
pub open spec fn dealt(
    db: DatabaseView,
    player: PlayerKey,
    session_id: u32,
    drawn: Seq<BingoItem>,
) -> Result<DatabaseView, BingoError> {
    match first_index(db.game_sessions, session_with_id(session_id)) {
        None => Ok(db),
        Some(s) => if drawn.len() < BOARD_TILES {
            Err(BingoError::InsufficientCandidates)
        } else {
            let session = db.game_sessions[s];
            Ok(
                DatabaseView {
                    game_sessions: db.game_sessions.update(
                        s,
                        GameSessionView {
                            board_items: with_items(session.board_items, dealt_items(drawn)),
                            ..session
                        },
                    ),
                    bingo_boards: db.bingo_boards.push(
                        BingoBoardView {
                            id: db.sequences.bingo_board,
                            player_id: player,
                            game_session_id: session_id,
                            bingo_item_tiles: dealt_tiles(drawn),
                        },
                    ),
                    sequences: Sequences {
                        bingo_board: (db.sequences.bingo_board + 1) as u32,
                        ..db.sequences
                    },
                    ..db
                },
            )
        },
    }
}

/// `ids` holds the ids of the items that the session holds, and no other.
pub open spec fn holds_ids_of(ids: Set<u32>, cache: Seq<BoardItem>) -> bool {
    forall|id: u32|
        ids.contains(id) <==> #[trigger] first_index(cache, board_item_with_id(id)) is Some
}

/// The ids of the items that a session holds.
pub fn item_ids(cache: &Vec<BoardItem>) -> (ids: HashSet<u32>)
    ensures
        holds_ids_of(ids@, cache@),
{
    broadcast use vstd::std_specs::hash::group_hash_axioms;

    let mut ids: HashSet<u32> = HashSet::new();
    let mut i: usize = 0;
    assert(cache@.take(0) =~= Seq::<BoardItem>::empty());
    while i < cache.len()
        invariant
            i <= cache.len(),
            holds_ids_of(ids@, cache@.take(i as int)),
        decreases cache.len() - i,
    {
        let ghost seen = ids@;
        ids.insert(cache[i].id);
        proof {
            assert(cache@.take(i + 1).drop_last() =~= cache@.take(i as int));
            assert forall|id: u32|
                ids@.contains(id) <==> #[trigger] first_index(
                    cache@.take(i + 1),
                    board_item_with_id(id),
                ) is Some by {
                assert(seen.contains(id) <==> first_index(
                    cache@.take(i as int),
                    board_item_with_id(id),
                ) is Some);
            }
        }
        i += 1;
    }
    assert(cache@.take(i as int) =~= cache@);
    ids
}

/// Deals the player a board from `drawn` in the session with this id. The
/// store is unchanged where the deal is refused.
pub fn deal_board(
    db: &mut Database,
    player_id: PlayerKey,
    game_session_id: u32,
    drawn: &Vec<BingoItem>,
) -> (r: Result<(), BingoError>)
    requires
        old(db).sequences.bingo_board < u32::MAX,
    ensures
        match dealt(old(db)@, player_id, game_session_id, drawn@) {
            Ok(after) => r is Ok && final(db)@ =~= after,
            Err(e) => r == Err::<(), BingoError>(e) && final(db)@ =~= old(db)@,
        },
{
    let s = match find_session(&db.game_sessions, game_session_id) {
        Some(s) => s,
        None => {
            return Ok(());
        },
    };
    if drawn.len() < BOARD_TILES {
        return Err(BingoError::InsufficientCandidates);
    }
    broadcast use vstd::std_specs::hash::group_hash_axioms;

    let mut held = item_ids(&db.game_sessions[s].board_items);
    let mut tiles: Vec<BoardItemTile> = Vec::new();
    let mut fresh: Vec<BoardItem> = Vec::new();
    let ghost cache = db.game_sessions@[s as int].board_items@;
    let ghost items = dealt_items(drawn@);
    let mut k: usize = 0;
    proof {
        assert(items.take(0) =~= Seq::<BingoItem>::empty());
        assert(cache + fresh@ =~= cache);
    }
    while k < BOARD_TILES
        invariant
            k <= BOARD_TILES,
            s < db.game_sessions.len(),
            drawn.len() >= BOARD_TILES,
            cache == db.game_sessions@[s as int].board_items@,
            items == dealt_items(drawn@),
            tiles@ =~= Seq::new(k as nat, |j: int| tile_for(drawn_item(drawn@, j), j)),
            cache + fresh@ == with_items(cache, items.take(k as int)),
            holds_ids_of(held@, cache + fresh@),
        decreases BOARD_TILES - k,
    {
        let item = &drawn[drawn.len() - 1 - k];
        assert(*item == drawn_item(drawn@, k as int));
        let ghost before = cache + fresh@;
        let ghost seen = held@;
        proof {
            assert(items.take(k + 1).drop_last() =~= items.take(k as int));
            assert(items.take(k + 1).last() == drawn_item(drawn@, k as int));
            assert(seen.contains(item.id) <==> first_index(
                before,
                board_item_with_id(item.id),
            ) is Some);
        }
        tiles.push(BoardItemTile { id: item.id, x: (k / 5) as u8, y: (k % 5) as u8 });
        if held.insert(item.id) {
            let entry = BoardItem { id: item.id, body: item.body.clone(), checked: false };
            assert(entry == fresh_entry(*item));
            assert(cache + fresh@.push(entry) =~= before.push(entry));
            fresh.push(entry);
            proof {
                assert(before.push(entry).drop_last() =~= before);
                assert forall|id: u32|
                    held@.contains(id) <==> #[trigger] first_index(
                        before.push(entry),
                        board_item_with_id(id),
                    ) is Some by {
                    assert(seen.contains(id) <==> first_index(before, board_item_with_id(id))
                        is Some);
                }
            }
        } else {
            assert(held@ =~= seen);
        }
        k += 1;
    }
    assert(items.take(k as int) =~= items);
    assert(tiles@ =~= dealt_tiles(drawn@));
    db.game_sessions[s].board_items.append(&mut fresh);
    db.bingo_boards.push(
        BingoBoard {
            id: db.sequences.bingo_board,
            player_id,
            game_session_id,
            bingo_item_tiles: tiles,
        },
    );
    db.sequences.bingo_board = db.sequences.bingo_board + 1;
    Ok(())
}

/// `drawn` holds the items of `pool`, each as often, in some order.
pub open spec fn is_draw_of(drawn: Seq<BingoItem>, pool: Seq<BingoItem>) -> bool {
    drawn.to_multiset() == pool.to_multiset()
}

/// A draw has as many items as the pool it was shuffled from, and every item
/// of it is an item of the pool.
pub proof fn lemma_draw_of_pool(drawn: Seq<BingoItem>, pool: Seq<BingoItem>)
    requires
        is_draw_of(drawn, pool),
    ensures
        drawn.len() == pool.len(),
        forall|j: int| 0 <= j < drawn.len() ==> pool.contains(#[trigger] drawn[j]),
{
    vstd::seq_lib::to_multiset_len(drawn);
    vstd::seq_lib::to_multiset_len(pool);
    assert forall|j: int| 0 <= j < drawn.len() implies pool.contains(#[trigger] drawn[j]) by {
        assert(drawn.contains(drawn[j]));
        vstd::seq_lib::to_multiset_contains(drawn, drawn[j]);
        vstd::seq_lib::to_multiset_contains(pool, drawn[j]);
    }
}

/// Creates the player's board in the session with this id: shuffles the
/// catalog items that are open to the player and deals the board from them.
///
/// Which items land on the board depends on the generator. Whatever it
/// gives, the store is dealt from some ordering of the candidates; so the
/// call is refused exactly when the session exists and fewer than
/// twenty-five candidates are there, and then nothing changes.
pub fn create_bingo_board(
    db: &mut Database,
    player_id: PlayerKey,
    game_session_id: u32,
    rng: &mut spacetimedb::rand::rngs::StdRng,
) -> (r: Result<(), BingoError>)
    requires
        old(db).sequences.bingo_board < u32::MAX,
    ensures
        exists|drawn: Seq<BingoItem>|
            is_draw_of(drawn, candidates(old(db)@, player_id)) && #[trigger] commits(
                dealt(old(db)@, player_id, game_session_id, drawn),
                old(db)@,
                final(db)@,
                r,
            ),
        r is Err <==> first_index(old(db)@.game_sessions, session_with_id(game_session_id)) is Some
            && candidates(old(db)@, player_id).len() < BOARD_TILES,
        r matches Err(e) ==> e == BingoError::InsufficientCandidates,
{
    let mut items = open_items(db, player_id);
    shuffle_items(&mut items, rng);
    proof {
        lemma_draw_of_pool(items@, candidates(old(db)@, player_id));
    }
    let r = deal_board(db, player_id, game_session_id, &items);
    assert(commits(dealt(old(db)@, player_id, game_session_id, items@), old(db)@, db@, r));
    r
}

/// The store after the caller joined the session with this id, dealt from
/// `drawn`: the board is dealt, then the caller is entered as a player of the
/// session, unless the caller is one already. Nothing happens where the
/// session is missing.
pub open spec fn joined(
    db: DatabaseView,
    ctx: CallContext,
    session_id: u32,
    drawn: Seq<BingoItem>,
) -> Result<DatabaseView, BingoError> {
    if first_index(db.game_sessions, session_with_id(session_id)) is None {
        Ok(db)
    } else {
        match dealt(db, ctx.sender, session_id, drawn) {
            Ok(with_board) => Ok(
                DatabaseView {
                    player_sessions: with_row(
                        with_board.player_sessions,
                        PlayerSession { player_id: ctx.sender, game_session_id: session_id },
                    ),
                    ..with_board
                },
            ),
            Err(e) => Err(e),
        }
    }
}

/// The caller joins the session with this id: a board is made for the caller,
/// and the caller is entered as a player of the session. Joining a session
/// that does not exist does nothing.
pub fn join_game(
    db: &mut Database,
    ctx: &CallContext,
    game_session_id: u32,
    rng: &mut spacetimedb::rand::rngs::StdRng,
) -> (r: Result<(), BingoError>)
    requires
        old(db).sequences.bingo_board < u32::MAX,
    ensures
        exists|drawn: Seq<BingoItem>|
            is_draw_of(drawn, candidates(old(db)@, ctx.sender)) && #[trigger] commits(
                joined(old(db)@, *ctx, game_session_id, drawn),
                old(db)@,
                final(db)@,
                r,
            ),
        r is Err <==> first_index(old(db)@.game_sessions, session_with_id(game_session_id)) is Some
            && candidates(old(db)@, ctx.sender).len() < BOARD_TILES,
        r matches Err(e) ==> e == BingoError::InsufficientCandidates,
{
    if find_session(&db.game_sessions, game_session_id).is_none() {
        let ghost pool = candidates(old(db)@, ctx.sender);
        assert(commits(joined(old(db)@, *ctx, game_session_id, pool), old(db)@, db@, Ok(())));
        return Ok(());
    }
    let made = create_bingo_board(db, ctx.sender, game_session_id, rng);
    let ghost drawn = choose|drawn: Seq<BingoItem>|
        is_draw_of(drawn, candidates(old(db)@, ctx.sender)) && #[trigger] commits(
            dealt(old(db)@, ctx.sender, game_session_id, drawn),
            old(db)@,
            db@,
            made,
        );
    match made {
        Ok(()) => {
            insert_player_session(
                &mut db.player_sessions,
                PlayerSession { player_id: ctx.sender, game_session_id },
            );
            assert(commits(joined(old(db)@, *ctx, game_session_id, drawn), old(db)@, db@, Ok(())));
            Ok(())
        },
        Err(e) => {
            assert(commits(joined(old(db)@, *ctx, game_session_id, drawn), old(db)@, db@, Err(e)));
            Err(e)
        },
    }
}

/// The store after a session with this name was opened by the caller.
pub open spec fn opened(db: DatabaseView, ctx: CallContext, name: String) -> DatabaseView {
    DatabaseView {
        game_sessions: db.game_sessions.push(
            GameSessionView {
                id: db.sequences.game_session,
                name,
                active: true,
                winner: None,
                board_items: Seq::empty(),
                started: ctx.timestamp,
            },
        ),
        sequences: Sequences {
            game_session: (db.sequences.game_session + 1) as u32,
            ..db.sequences
        },
        ..db
    }
}

/// The store after the caller started a game with this name, dealt from
/// `drawn`: the session is opened, and the caller joins it.
pub open spec fn game_started(
    db: DatabaseView,
    ctx: CallContext,
    name: String,
    drawn: Seq<BingoItem>,
) -> Result<DatabaseView, BingoError> {
    if name@.len() == 0 {
        Err(BingoError::EmptyName)
    } else {
        joined(opened(db, ctx, name), ctx, db.sequences.game_session, drawn)
    }
}

/// Starts a new game with this name and lets the caller join it. Nothing is
/// kept of the new session where the caller cannot be dealt a board.
pub fn start_new_game(
    db: &mut Database,
    ctx: &CallContext,
    name: String,
    rng: &mut spacetimedb::rand::rngs::StdRng,
) -> (r: Result<(), BingoError>)
    requires
        old(db).sequences.game_session < u32::MAX,
        old(db).sequences.bingo_board < u32::MAX,
    ensures
        exists|drawn: Seq<BingoItem>|
            is_draw_of(drawn, candidates(old(db)@, ctx.sender)) && #[trigger] commits(
                game_started(old(db)@, *ctx, name, drawn),
                old(db)@,
                final(db)@,
                r,
            ),
        r is Err <==> name@.len() == 0 || candidates(old(db)@, ctx.sender).len() < BOARD_TILES,
        r matches Err(e) ==> e == (if name@.len() == 0 {
            BingoError::EmptyName
        } else {
            BingoError::InsufficientCandidates
        }),
{
    let ghost pool = candidates(old(db)@, ctx.sender);
    let name = match validate_name(name) {
        Ok(name) => name,
        Err(e) => {
            assert(commits(game_started(old(db)@, *ctx, name, pool), old(db)@, db@, Err(e)));
            return Err(e);
        },
    };
    let id = db.sequences.game_session;
    db.game_sessions.push(
        GameSession {
            id,
            name,
            active: true,
            winner: None,
            board_items: Vec::new(),
            started: ctx.timestamp,
        },
    );
    db.sequences.game_session = id + 1;
    let ghost open = db@;
    assert(open =~= opened(old(db)@, *ctx, name));
    assert(candidates(open, ctx.sender) == pool);
    proof {
        lemma_first_index(open.game_sessions, session_with_id(id));
        assert(session_with_id(id)(open.game_sessions.last()));
    }
    let r = join_game(db, ctx, id, rng);
    let ghost drawn = choose|drawn: Seq<BingoItem>|
        is_draw_of(drawn, pool) && #[trigger] commits(
            joined(open, *ctx, id, drawn),
            open,
            db@,
            r,
        );
    if r.is_err() {
        let ghost refused = db@;
        db.game_sessions.pop();
        db.sequences.game_session = id;
        assert(session_views(db.game_sessions@) =~= refused.game_sessions.drop_last());
        assert(open.game_sessions.drop_last() =~= old(db)@.game_sessions);
        assert(db@ =~= old(db)@);
    }
    assert(commits(game_started(old(db)@, *ctx, name, drawn), old(db)@, db@, r));
    r
}

} // verus!
