//! The well-formed store: what every command keeps, so that it holds of
//! every store that commands have built from the empty one.

use vstd::prelude::*;
use crate::board::{dealt, dealt_items, game_started, joined, opened, with_items};
use crate::catalog::{about_other_item, item_deleted, item_submitted, with_subjects};
use crate::invites::{invite_expired, invite_used, invited, other_invite_timer};
use crate::laws::{
    distinct_entry_ids, laid_out, law_dealt_tiles_are_held, law_expiry_keeps_one_timer_per_item,
    law_placing_items_extends_the_session, law_vote_keeps_one_timer_per_item,
};
use crate::players::{is_login_for, player_added, presence_set, renamed, signed_in};
use crate::seqs::{first_index, lemma_first_index, lemma_first_index_is, lemma_first_index_none};
use crate::store::{
    board_item_with_id, board_with_id, empty_database, invite_with_id, invite_with_token,
    item_with_id, player_with_identity, session_with_id, DatabaseView,
};
use crate::types::{
    BingoBoardView, BingoItem, BoardItem, CallContext, GameSessionView, ItemCheckVote, Player,
    PlayerInvite, PlayerItemSubject, PlayerKey, RemoveExpiredInvitesTimer,
    RemoveExpiredVotesTimer,
};
use crate::votes::{
    checks_run, one_timer_per_item, other_timer, timer_count, vote_elsewhere, vote_result,
    votes_expired, with_item_checked,
};
use crate::winner::{checked_state, has_stray_tile, winner_check};

verus! {

/// The rows have distinct keys, all of them below `next`.
pub open spec fn keyed<T>(rows: Seq<T>, key: spec_fn(T) -> int, next: int) -> bool {
    &&& forall|i: int| 0 <= i < rows.len() ==> key(#[trigger] rows[i]) < next
    &&& forall|i: int, j: int|
        0 <= i < rows.len() && 0 <= j < rows.len() && i != j ==> key(#[trigger] rows[i]) != key(
            #[trigger] rows[j],
        )
}

/// The id of a player row.
pub open spec fn player_key() -> spec_fn(Player) -> int {
    |row: Player| row.id as int
}

/// The id of an invite.
pub open spec fn invite_key() -> spec_fn(PlayerInvite) -> int {
    |row: PlayerInvite| row.id as int
}

/// The id of an invite's timer.
pub open spec fn invite_timer_key() -> spec_fn(RemoveExpiredInvitesTimer) -> int {
    |row: RemoveExpiredInvitesTimer| row.scheduled_id as int
}

/// The id of a session.
pub open spec fn session_key() -> spec_fn(GameSessionView) -> int {
    |row: GameSessionView| row.id as int
}

/// The id of a catalog item.
pub open spec fn item_key() -> spec_fn(BingoItem) -> int {
    |row: BingoItem| row.id as int
}

/// The id of a board.
pub open spec fn board_key() -> spec_fn(BingoBoardView) -> int {
    |row: BingoBoardView| row.id as int
}

/// The id of a vote.
pub open spec fn vote_key() -> spec_fn(ItemCheckVote) -> int {
    |row: ItemCheckVote| row.id as int
}

/// The id of an expiry timer.
pub open spec fn vote_timer_key() -> spec_fn(RemoveExpiredVotesTimer) -> int {
    |row: RemoveExpiredVotesTimer| row.scheduled_id as int
}

/// No two players hold the same key.
pub open spec fn distinct_identities(players: Seq<Player>) -> bool {
    forall|i: int, j: int|
        0 <= i < players.len() && 0 <= j < players.len() && i != j ==> (
        #[trigger] players[i]).identity != (#[trigger] players[j]).identity
}

/// No two invites carry the same token.
pub open spec fn distinct_tokens(invites: Seq<PlayerInvite>) -> bool {
    forall|i: int, j: int|
        0 <= i < invites.len() && 0 <= j < invites.len() && i != j ==> (
        #[trigger] invites[i]).token@ != (#[trigger] invites[j]).token@
}

/// The board is laid out, its session exists, and the session holds every
/// item that the board shows.
pub open spec fn board_sound(sessions: Seq<GameSessionView>, board: BingoBoardView) -> bool {
    &&& laid_out(board.bingo_item_tiles)
    &&& match first_index(sessions, session_with_id(board.game_session_id)) {
        Some(s) => !has_stray_tile(board.bingo_item_tiles, sessions[s].board_items),
        None => false,
    }
}

/// The store is well formed:
/// row ids are distinct and below the counter of their table; no two players
/// hold one key and no two invites one token; a keyless table holds a row
/// once; a session holds an item once; every board is laid out in a session
/// that exists and holds its items; and at most one expiry timer is armed for
/// an item in a session.
pub open spec fn well_formed(db: DatabaseView) -> bool {
    &&& keyed(db.players, player_key(), db.sequences.player as int)
    &&& keyed(db.player_invites, invite_key(), db.sequences.player_invite as int)
    &&& keyed(db.invite_timers, invite_timer_key(), db.sequences.invite_timer as int)
    &&& keyed(db.game_sessions, session_key(), db.sequences.game_session as int)
    &&& keyed(db.bingo_items, item_key(), db.sequences.bingo_item as int)
    &&& keyed(db.bingo_boards, board_key(), db.sequences.bingo_board as int)
    &&& keyed(db.item_check_votes, vote_key(), db.sequences.item_check_vote as int)
    &&& keyed(db.vote_timers, vote_timer_key(), db.sequences.vote_timer as int)
    &&& distinct_identities(db.players)
    &&& distinct_tokens(db.player_invites)
    &&& db.player_sessions.no_duplicates()
    &&& db.player_item_subjects.no_duplicates()
    &&& forall|s: int|
        0 <= s < db.game_sessions.len() ==> distinct_entry_ids(
            (#[trigger] db.game_sessions[s]).board_items,
        )
    &&& forall|b: int|
        0 <= b < db.bingo_boards.len() ==> board_sound(db.game_sessions, #[trigger] db.bingo_boards[b])
    &&& one_timer_per_item(db.vote_timers)
}

/// Keyed rows stay keyed when one of them is removed.
pub proof fn lemma_keyed_remove<T>(rows: Seq<T>, key: spec_fn(T) -> int, next: int, at: int)
    requires
        keyed(rows, key, next),
        0 <= at < rows.len(),
    ensures
        keyed(rows.remove(at), key, next),
        forall|j: int| 0 <= j < rows.remove(at).len() ==> key(#[trigger] rows.remove(at)[j]) != key(rows[at]),
{
    let rest = rows.remove(at);
    assert forall|j: int| 0 <= j < rest.len() implies key(#[trigger] rest[j]) < next && key(rest[j])
        != key(rows[at]) by {
        if j < at {
            assert(rest[j] == rows[j]);
        } else {
            assert(rest[j] == rows[j + 1]);
        }
    }
    assert forall|i: int, j: int| 0 <= i < rest.len() && 0 <= j < rest.len() && i != j implies key(
        #[trigger] rest[i],
    ) != key(#[trigger] rest[j]) by {
        let a = if i < at { i } else { i + 1 };
        let b = if j < at { j } else { j + 1 };
        assert(rest[i] == rows[a] && rest[j] == rows[b]);
    }
}

/// Keyed rows stay keyed when some of them are filtered out; rows without
/// duplicates stay without.
pub proof fn lemma_keyed_filter<T>(rows: Seq<T>, keep: spec_fn(T) -> bool, key: spec_fn(T) -> int, next: int)
    requires
        keyed(rows, key, next),
    ensures
        keyed(rows.filter(keep), key, next),
        forall|j: int| 0 <= j < rows.filter(keep).len() ==> rows.contains(#[trigger] rows.filter(keep)[j]),
    decreases rows.len(),
{
    reveal(Seq::filter);
    if rows.len() > 0 {
        let rest = rows.drop_last();
        assert(forall|i: int| 0 <= i < rest.len() ==> rest[i] == rows[i]);
        assert(keyed(rest, key, next)) by {
            assert forall|i: int, j: int|
                0 <= i < rest.len() && 0 <= j < rest.len() && i != j implies key(#[trigger] rest[i])
                != key(#[trigger] rest[j]) by {
                assert(rest[i] == rows[i] && rest[j] == rows[j]);
            }
            assert forall|i: int| 0 <= i < rest.len() implies key(#[trigger] rest[i]) < next by {
                assert(rest[i] == rows[i]);
            }
        }
        lemma_keyed_filter(rest, keep, key, next);
        let kept = rest.filter(keep);
        assert forall|j: int| 0 <= j < kept.len() implies rows.contains(#[trigger] kept[j]) && key(
            kept[j],
        ) != key(rows.last()) by {
            assert(rest.contains(kept[j]));
            let i = choose|i: int| 0 <= i < rest.len() && rest[i] == kept[j];
            assert(rows[i] == kept[j]);
            assert(rows[rows.len() - 1] == rows.last());
        }
        if keep(rows.last()) {
            assert(rows.filter(keep) == kept.push(rows.last()));
            assert(rows[rows.len() - 1] == rows.last());
        }
    }
}

/// Rows without duplicates stay without when some are filtered out.
pub proof fn lemma_filter_no_duplicates<T>(rows: Seq<T>, keep: spec_fn(T) -> bool)
    requires
        rows.no_duplicates(),
    ensures
        rows.filter(keep).no_duplicates(),
        forall|j: int| 0 <= j < rows.filter(keep).len() ==> rows.contains(#[trigger] rows.filter(keep)[j]),
    decreases rows.len(),
{
    reveal(Seq::filter);
    if rows.len() > 0 {
        let rest = rows.drop_last();
        assert(forall|i: int| 0 <= i < rest.len() ==> rest[i] == rows[i]);
        lemma_filter_no_duplicates(rest, keep);
        let kept = rest.filter(keep);
        assert forall|j: int| 0 <= j < kept.len() implies rows.contains(#[trigger] kept[j])
            && kept[j] != rows.last() by {
            assert(rest.contains(kept[j]));
            let i = choose|i: int| 0 <= i < rest.len() && rest[i] == kept[j];
            assert(rows[i] == kept[j]);
        }
        if keep(rows.last()) {
            assert(rows.filter(keep) == kept.push(rows.last()));
            assert(rows[rows.len() - 1] == rows.last());
        }
    }
}

/// The empty store is well formed.
pub proof fn law_empty_store_is_well_formed()
    ensures
        well_formed(empty_database()),
{
    assert forall|s: u32, i: u32|
        #[trigger] timer_count(empty_database().vote_timers, s, i) <= 1 by {}
}

/// Setting a name keeps the store well formed.
pub proof fn law_set_name_keeps_well_formed(db: DatabaseView, ctx: CallContext, name: String)
    requires
        well_formed(db),
        renamed(db, ctx, name) is Ok,
    ensures
        well_formed(renamed(db, ctx, name)->Ok_0),
{
    lemma_first_index(db.players, player_with_identity(ctx.sender));
}

/// Marking a player as online or not keeps the store well formed.
pub proof fn law_presence_keeps_well_formed(db: DatabaseView, ctx: CallContext, online: bool)
    requires
        well_formed(db),
    ensures
        well_formed(presence_set(db, ctx, online)),
{
    lemma_first_index(db.players, player_with_identity(ctx.sender));
}

/// Adding a player keeps the store well formed.
pub proof fn law_add_player_keeps_well_formed(
    db: DatabaseView,
    ctx: CallContext,
    name: String,
    password_hash: String,
)
    requires
        well_formed(db),
        db.sequences.player < u32::MAX,
        player_added(db, ctx, name, password_hash) is Ok,
    ensures
        well_formed(player_added(db, ctx, name, password_hash)->Ok_0),
{
    lemma_first_index(db.players, player_with_identity(ctx.sender));
}

/// Signing in keeps the store well formed.
pub proof fn law_sign_in_keeps_well_formed(
    db: DatabaseView,
    ctx: CallContext,
    name: Seq<char>,
    password: Seq<char>,
)
    requires
        well_formed(db),
        signed_in(db, ctx, name, password) is Ok,
    ensures
        well_formed(signed_in(db, ctx, name, password)->Ok_0),
{
    lemma_first_index(db.players, is_login_for(name, password));
    let after = signed_in(db, ctx, name, password)->Ok_0;
    match first_index(db.players, is_login_for(name, password)) {
        Some(at) => {
            assert forall|i: int, j: int|
                0 <= i < after.players.len() && 0 <= j < after.players.len() && i != j implies (
            #[trigger] after.players[i]).identity != (#[trigger] after.players[j]).identity by {
                if i == at {
                    assert(db.players[j].identity != ctx.sender);
                } else if j == at {
                    assert(db.players[i].identity != ctx.sender);
                }
            }
        },
        None => {},
    }
}

/// Creating an invite keeps the store well formed.
pub proof fn law_invite_keeps_well_formed(db: DatabaseView, ctx: CallContext, token: String)
    requires
        well_formed(db),
        db.sequences.player_invite < u32::MAX,
        db.sequences.invite_timer < u64::MAX,
        invited(db, ctx, token) is Ok,
    ensures
        well_formed(invited(db, ctx, token)->Ok_0),
{
    lemma_first_index(db.player_invites, invite_with_token(token@));
}

/// Using an invite keeps the store well formed.
pub proof fn law_use_invite_keeps_well_formed(db: DatabaseView, token: String)
    requires
        well_formed(db),
        invite_used(db, token) is Ok,
    ensures
        well_formed(invite_used(db, token)->Ok_0),
{
    lemma_first_index(db.player_invites, invite_with_token(token@));
}

/// The expiry of an invite keeps the store well formed, and afterwards no
/// invite has the id that the timer names.
pub proof fn law_invite_expiry_keeps_well_formed(db: DatabaseView, timer: RemoveExpiredInvitesTimer)
    requires
        well_formed(db),
    ensures
        well_formed(invite_expired(db, timer)),
        first_index(
            invite_expired(db, timer).player_invites,
            invite_with_id(timer.invite_id),
        ) is None,
{
    let want = invite_with_id(timer.invite_id);
    lemma_first_index(db.player_invites, want);
    lemma_keyed_filter(
        db.invite_timers,
        other_invite_timer(timer),
        invite_timer_key(),
        db.sequences.invite_timer as int,
    );
    let after = invite_expired(db, timer);
    match first_index(db.player_invites, want) {
        Some(at) => {
            lemma_keyed_remove(
                db.player_invites,
                invite_key(),
                db.sequences.player_invite as int,
                at,
            );
            assert forall|i: int, j: int|
                0 <= i < after.player_invites.len() && 0 <= j < after.player_invites.len() && i
                    != j implies (#[trigger] after.player_invites[i]).token@ != (
            #[trigger] after.player_invites[j]).token@ by {
                let a = if i < at { i } else { i + 1 };
                let b = if j < at { j } else { j + 1 };
                assert(after.player_invites[i] == db.player_invites[a]);
                assert(after.player_invites[j] == db.player_invites[b]);
            }
        },
        None => {},
    }
    lemma_first_index_none(after.player_invites, want);
}

/// Submitting an item keeps the store well formed.
pub proof fn law_submit_keeps_well_formed(db: DatabaseView, body: String, subjects: Seq<PlayerKey>)
    requires
        well_formed(db),
        db.sequences.bingo_item < u32::MAX,
    ensures
        well_formed(item_submitted(db, body, subjects)),
{
    lemma_subjects_no_duplicates(db.player_item_subjects, subjects, db.sequences.bingo_item);
}

/// Making players subjects of an item keeps the rows without duplicates.
proof fn lemma_subjects_no_duplicates(
    rows: Seq<PlayerItemSubject>,
    players: Seq<PlayerKey>,
    item_id: u32,
)
    requires
        rows.no_duplicates(),
    ensures
        with_subjects(rows, players, item_id).no_duplicates(),
    decreases players.len(),
{
    if players.len() > 0 {
        lemma_subjects_no_duplicates(rows, players.drop_last(), item_id);
    }
}

/// Deleting an item keeps the store well formed, and afterwards the catalog
/// holds no item with that id and no row names a subject of it.
pub proof fn law_delete_keeps_well_formed(db: DatabaseView, item_id: u32)
    requires
        well_formed(db),
    ensures
        well_formed(item_deleted(db, item_id)),
        first_index(item_deleted(db, item_id).bingo_items, item_with_id(item_id)) is None,
        forall|k: int|
            0 <= k < item_deleted(db, item_id).player_item_subjects.len() ==> (
            #[trigger] item_deleted(db, item_id).player_item_subjects[k]).bingo_item_id != item_id,
{
    let after = item_deleted(db, item_id);
    lemma_first_index(db.bingo_items, item_with_id(item_id));
    lemma_filter_no_duplicates(db.player_item_subjects, about_other_item(item_id));
    match first_index(db.bingo_items, item_with_id(item_id)) {
        Some(at) => {
            lemma_keyed_remove(db.bingo_items, item_key(), db.sequences.bingo_item as int, at);
        },
        None => {},
    }
    lemma_first_index_none(after.bingo_items, item_with_id(item_id));
    assert forall|k: int| 0 <= k < after.player_item_subjects.len() implies (
    #[trigger] after.player_item_subjects[k]).bingo_item_id != item_id by {
        db.player_item_subjects.lemma_filter_pred(about_other_item(item_id), k);
    }
}

/// The sessions `after` keep what the sessions `before` held: the same ids
/// in the same places, and every item that a session held.
pub open spec fn keeps_sessions(before: Seq<GameSessionView>, after: Seq<GameSessionView>) -> bool {
    &&& before.len() <= after.len()
    &&& forall|s: int| 0 <= s < before.len() ==> (#[trigger] after[s]).id == before[s].id
    &&& forall|s: int, id: u32|
        0 <= s < before.len() && first_index(before[s].board_items, board_item_with_id(id))
            is Some ==> #[trigger] first_index(after[s].board_items, board_item_with_id(id))
            is Some
}

/// A board that is sound stays sound where the sessions keep what they held.
pub proof fn lemma_sound_board_stays(
    before: Seq<GameSessionView>,
    after: Seq<GameSessionView>,
    board: BingoBoardView,
)
    requires
        keeps_sessions(before, after),
        board_sound(before, board),
    ensures
        board_sound(after, board),
        first_index(after, session_with_id(board.game_session_id)) == first_index(
            before,
            session_with_id(board.game_session_id),
        ),
{
    let want = session_with_id(board.game_session_id);
    lemma_first_index(before, want);
    let s = first_index(before, want)->Some_0;
    assert(want(after[s]));
    assert forall|j: int| 0 <= j < s implies !want(after[j]) by {
        assert(after[j].id == before[j].id);
    }
    lemma_first_index_is(after, want, s);
    let tiles = board.bingo_item_tiles;
    if has_stray_tile(tiles, after[s].board_items) {
        let k = choose|k: int|
            0 <= k < tiles.len() && #[trigger] checked_state(after[s].board_items, tiles[k].id)
                is None;
        assert(first_index(after[s].board_items, board_item_with_id(tiles[k].id)) is None);
        assert(checked_state(before[s].board_items, tiles[k].id) is None);
        assert(false);
    }
}

/// A session's items with entries added at the end hold what they held.
proof fn lemma_found_in_extension(cache: Seq<BoardItem>, longer: Seq<BoardItem>, id: u32)
    requires
        cache.is_prefix_of(longer),
        first_index(cache, board_item_with_id(id)) is Some,
    ensures
        first_index(longer, board_item_with_id(id)) is Some,
{
    lemma_first_index(cache, board_item_with_id(id));
    lemma_first_index(longer, board_item_with_id(id));
    let at = first_index(cache, board_item_with_id(id))->Some_0;
    assert(longer[at] == cache[at]);
}

/// Checking an item keeps the ids of a session's items in their places.
proof fn lemma_checked_keeps_ids(cache: Seq<BoardItem>, item_id: u32)
    ensures
        with_item_checked(cache, item_id).len() == cache.len(),
        forall|i: int| 0 <= i < cache.len() ==> (#[trigger] with_item_checked(cache, item_id)[i]).id == cache[i].id,
        distinct_entry_ids(cache) ==> distinct_entry_ids(with_item_checked(cache, item_id)),
        forall|id: u32|
            first_index(cache, board_item_with_id(id)) is Some ==> #[trigger] first_index(
                with_item_checked(cache, item_id),
                board_item_with_id(id),
            ) is Some,
{
    lemma_first_index(cache, board_item_with_id(item_id));
    let after = with_item_checked(cache, item_id);
    assert forall|i: int| 0 <= i < cache.len() implies (#[trigger] after[i]).id == cache[i].id by {}
    assert forall|id: u32| first_index(cache, board_item_with_id(id)) is Some implies #[trigger] first_index(
        after,
        board_item_with_id(id),
    ) is Some by {
        lemma_first_index(cache, board_item_with_id(id));
        lemma_first_index(after, board_item_with_id(id));
        let at = first_index(cache, board_item_with_id(id))->Some_0;
        assert(after[at].id == cache[at].id);
    }
    if distinct_entry_ids(cache) {
        assert forall|i: int, j: int|
            0 <= i < after.len() && 0 <= j < after.len() && i != j implies (#[trigger] after[i]).id
            != (#[trigger] after[j]).id by {
            assert(after[i].id == cache[i].id && after[j].id == cache[j].id);
        }
    }
}

/// Win checks change nothing of a session but its winner and whether it is
/// active.
pub proof fn lemma_checks_keep_items(session: GameSessionView, boards: Seq<BingoBoardView>)
    requires
        checks_run(session, boards) is Ok,
    ensures
        checks_run(session, boards)->Ok_0.id == session.id,
        checks_run(session, boards)->Ok_0.name == session.name,
        checks_run(session, boards)->Ok_0.started == session.started,
        checks_run(session, boards)->Ok_0.board_items == session.board_items,
    decreases boards.len(),
{
    if boards.len() > 0 {
        lemma_checks_keep_items(session, boards.drop_last());
    }
}

/// Dealing a board keeps the store well formed.
pub proof fn law_deal_keeps_well_formed(
    db: DatabaseView,
    player: PlayerKey,
    session_id: u32,
    drawn: Seq<BingoItem>,
)
    requires
        well_formed(db),
        db.sequences.bingo_board < u32::MAX,
        dealt(db, player, session_id, drawn) is Ok,
    ensures
        well_formed(dealt(db, player, session_id, drawn)->Ok_0),
        keeps_sessions(db.game_sessions, dealt(db, player, session_id, drawn)->Ok_0.game_sessions),
{
    let after = dealt(db, player, session_id, drawn)->Ok_0;
    let want = session_with_id(session_id);
    lemma_first_index(db.game_sessions, want);
    match first_index(db.game_sessions, want) {
        None => {},
        Some(s) => {
            let cache = db.game_sessions[s].board_items;
            law_placing_items_extends_the_session(cache, dealt_items(drawn));
            law_dealt_tiles_are_held(cache, drawn);
            assert forall|t: int, id: u32|
                0 <= t < db.game_sessions.len() && first_index(
                    db.game_sessions[t].board_items,
                    board_item_with_id(id),
                ) is Some implies #[trigger] first_index(
                after.game_sessions[t].board_items,
                board_item_with_id(id),
            ) is Some by {
                if t == s {
                    lemma_found_in_extension(cache, with_items(cache, dealt_items(drawn)), id);
                }
            }
            assert(keeps_sessions(db.game_sessions, after.game_sessions));
            let board = after.bingo_boards.last();
            assert(want(after.game_sessions[s]));
            assert forall|j: int| 0 <= j < s implies !want(after.game_sessions[j]) by {
                assert(after.game_sessions[j] == db.game_sessions[j]);
            }
            lemma_first_index_is(after.game_sessions, want, s);
            assert(board_sound(after.game_sessions, board));
            assert forall|b: int| 0 <= b < after.bingo_boards.len() implies board_sound(
                after.game_sessions,
                #[trigger] after.bingo_boards[b],
            ) by {
                if b < db.bingo_boards.len() {
                    assert(after.bingo_boards[b] == db.bingo_boards[b]);
                    lemma_sound_board_stays(db.game_sessions, after.game_sessions, db.bingo_boards[b]);
                }
            }
            assert forall|t: int| 0 <= t < after.game_sessions.len() implies distinct_entry_ids(
                (#[trigger] after.game_sessions[t]).board_items,
            ) by {
                if t != s {
                    assert(after.game_sessions[t] == db.game_sessions[t]);
                }
            }
        },
    }
}

/// Joining a session keeps the store well formed.
pub proof fn law_join_keeps_well_formed(
    db: DatabaseView,
    ctx: CallContext,
    session_id: u32,
    drawn: Seq<BingoItem>,
)
    requires
        well_formed(db),
        db.sequences.bingo_board < u32::MAX,
        joined(db, ctx, session_id, drawn) is Ok,
    ensures
        well_formed(joined(db, ctx, session_id, drawn)->Ok_0),
{
    if first_index(db.game_sessions, session_with_id(session_id)) is Some {
        law_deal_keeps_well_formed(db, ctx.sender, session_id, drawn);
    }
}

/// Starting a game keeps the store well formed, and the caller is dealt into
/// the session that the call opened: it stands last in the table and is the
/// only one with its id.
pub proof fn law_start_keeps_well_formed(
    db: DatabaseView,
    ctx: CallContext,
    name: String,
    drawn: Seq<BingoItem>,
)
    requires
        well_formed(db),
        db.sequences.game_session < u32::MAX,
        db.sequences.bingo_board < u32::MAX,
        game_started(db, ctx, name, drawn) is Ok,
    ensures
        well_formed(game_started(db, ctx, name, drawn)->Ok_0),
        first_index(
            opened(db, ctx, name).game_sessions,
            session_with_id(db.sequences.game_session),
        ) == Some(db.game_sessions.len() as int),
        game_started(db, ctx, name, drawn)->Ok_0.bingo_boards.last().game_session_id
            == db.sequences.game_session,
        game_started(db, ctx, name, drawn)->Ok_0.game_sessions.len() == db.game_sessions.len() + 1,
{
    let open = opened(db, ctx, name);
    let want = session_with_id(db.sequences.game_session);
    assert forall|j: int| 0 <= j < db.game_sessions.len() implies !want(open.game_sessions[j]) by {
        assert(open.game_sessions[j] == db.game_sessions[j]);
        assert(session_key()(db.game_sessions[j]) < db.sequences.game_session);
    }
    lemma_first_index_is(open.game_sessions, want, db.game_sessions.len() as int);
    assert(keeps_sessions(db.game_sessions, open.game_sessions));
    assert forall|b: int| 0 <= b < open.bingo_boards.len() implies board_sound(
        open.game_sessions,
        #[trigger] open.bingo_boards[b],
    ) by {
        lemma_sound_board_stays(db.game_sessions, open.game_sessions, db.bingo_boards[b]);
    }
    assert forall|t: int| 0 <= t < open.game_sessions.len() implies distinct_entry_ids(
        (#[trigger] open.game_sessions[t]).board_items,
    ) by {
        if t < db.game_sessions.len() {
            assert(open.game_sessions[t] == db.game_sessions[t]);
        }
    }
    assert(keyed(open.game_sessions, session_key(), open.sequences.game_session as int)) by {
        assert forall|i: int| 0 <= i < open.game_sessions.len() implies session_key()(
            #[trigger] open.game_sessions[i],
        ) < open.sequences.game_session by {
            if i < db.game_sessions.len() {
                assert(open.game_sessions[i] == db.game_sessions[i]);
            }
        }
        assert forall|i: int, j: int|
            0 <= i < open.game_sessions.len() && 0 <= j < open.game_sessions.len() && i
                != j implies session_key()(#[trigger] open.game_sessions[i]) != session_key()(
            #[trigger] open.game_sessions[j],
        ) by {
            if i < db.game_sessions.len() {
                assert(open.game_sessions[i] == db.game_sessions[i]);
            }
            if j < db.game_sessions.len() {
                assert(open.game_sessions[j] == db.game_sessions[j]);
            }
        }
    }
    assert(well_formed(open));
    law_join_keeps_well_formed(open, ctx, db.sequences.game_session, drawn);
}

/// In a well-formed store a win check cannot fail, and it keeps the store
/// well formed.
pub proof fn law_win_check_keeps_well_formed(db: DatabaseView, board_id: u32)
    requires
        well_formed(db),
    ensures
        winner_check(db, board_id) is Ok,
        well_formed(winner_check(db, board_id)->Ok_0),
{
    let want = board_with_id(board_id);
    lemma_first_index(db.bingo_boards, want);
    match first_index(db.bingo_boards, want) {
        None => {},
        Some(b) => {
            let board = db.bingo_boards[b];
            assert(board_sound(db.game_sessions, board));
            lemma_first_index(db.game_sessions, session_with_id(board.game_session_id));
            let after = winner_check(db, board_id)->Ok_0;
            let s = first_index(db.game_sessions, session_with_id(board.game_session_id))->Some_0;
            assert forall|t: int, id: u32|
                0 <= t < db.game_sessions.len() && first_index(
                    db.game_sessions[t].board_items,
                    board_item_with_id(id),
                ) is Some implies #[trigger] first_index(
                after.game_sessions[t].board_items,
                board_item_with_id(id),
            ) is Some by {}
            assert(keeps_sessions(db.game_sessions, after.game_sessions));
            assert forall|c: int| 0 <= c < after.bingo_boards.len() implies board_sound(
                after.game_sessions,
                #[trigger] after.bingo_boards[c],
            ) by {
                lemma_sound_board_stays(db.game_sessions, after.game_sessions, db.bingo_boards[c]);
            }
            assert forall|t: int| 0 <= t < after.game_sessions.len() implies distinct_entry_ids(
                (#[trigger] after.game_sessions[t]).board_items,
            ) by {
                assert(after.game_sessions[t].board_items == db.game_sessions[t].board_items);
            }
        },
    }
}

/// Where every board among `boards` is sound in `sessions`, and `session` is
/// the session at place `s` with some of its items checked, the win checks of
/// the session cannot fail.
proof fn lemma_checks_cannot_fail(
    sessions: Seq<GameSessionView>,
    s: int,
    session: GameSessionView,
    boards: Seq<BingoBoardView>,
)
    requires
        0 <= s < sessions.len(),
        first_index(sessions, session_with_id(session.id)) == Some(s),
        forall|id: u32|
            first_index(sessions[s].board_items, board_item_with_id(id)) is Some
                ==> #[trigger] first_index(session.board_items, board_item_with_id(id)) is Some,
        forall|b: int| 0 <= b < boards.len() ==> board_sound(sessions, #[trigger] boards[b]),
    ensures
        checks_run(session, boards) is Ok,
    decreases boards.len(),
{
    if boards.len() > 0 {
        let rest = boards.drop_last();
        assert forall|b: int| 0 <= b < rest.len() implies board_sound(sessions, #[trigger] rest[b]) by {
            assert(rest[b] == boards[b]);
        }
        lemma_checks_cannot_fail(sessions, s, session, rest);
        lemma_checks_keep_items(session, rest);
        let so_far = checks_run(session, rest)->Ok_0;
        let board = boards.last();
        assert(board == boards[boards.len() - 1]);
        assert(board_sound(sessions, board));
        if board.game_session_id == session.id {
            let tiles = board.bingo_item_tiles;
            if has_stray_tile(tiles, so_far.board_items) {
                let k = choose|k: int|
                    0 <= k < tiles.len() && #[trigger] checked_state(so_far.board_items, tiles[k].id)
                        is None;
                assert(first_index(session.board_items, board_item_with_id(tiles[k].id)) is None);
                assert(checked_state(sessions[s].board_items, tiles[k].id) is None);
                assert(false);
            }
        }
    }
}

/// In a well-formed store a vote cannot fail, and it keeps the store well
/// formed.
pub proof fn law_vote_keeps_well_formed(
    db: DatabaseView,
    ctx: CallContext,
    session_id: u32,
    item_id: u32,
)
    requires
        well_formed(db),
        db.sequences.item_check_vote < u32::MAX,
        db.sequences.vote_timer < u64::MAX,
    ensures
        vote_result(db, ctx, session_id, item_id) is Ok,
        well_formed(vote_result(db, ctx, session_id, item_id)->Ok_0.0),
{
    let want = session_with_id(session_id);
    lemma_first_index(db.game_sessions, want);
    law_vote_keeps_one_timer_per_item(db, ctx, session_id, item_id);
    match first_index(db.game_sessions, want) {
        None => {},
        Some(s) => {
            let session = db.game_sessions[s];
            let checked = GameSessionView {
                board_items: with_item_checked(session.board_items, item_id),
                ..session
            };
            lemma_checked_keeps_ids(session.board_items, item_id);
            lemma_checks_cannot_fail(db.game_sessions, s, checked, db.bingo_boards);
            lemma_checks_keep_items(checked, db.bingo_boards);
            let after = vote_result(db, ctx, session_id, item_id)->Ok_0.0;
            assert forall|t: int, id: u32|
                0 <= t < db.game_sessions.len() && first_index(
                    db.game_sessions[t].board_items,
                    board_item_with_id(id),
                ) is Some implies #[trigger] first_index(
                after.game_sessions[t].board_items,
                board_item_with_id(id),
            ) is Some by {
                if after.game_sessions != db.game_sessions && t != s {
                    assert(after.game_sessions[t] == db.game_sessions[t]);
                }
            }
            assert(keeps_sessions(db.game_sessions, after.game_sessions));
            assert forall|c: int| 0 <= c < after.bingo_boards.len() implies board_sound(
                after.game_sessions,
                #[trigger] after.bingo_boards[c],
            ) by {
                lemma_sound_board_stays(db.game_sessions, after.game_sessions, db.bingo_boards[c]);
            }
            assert forall|t: int| 0 <= t < after.game_sessions.len() implies distinct_entry_ids(
                (#[trigger] after.game_sessions[t]).board_items,
            ) by {
                if after.game_sessions != db.game_sessions && t != s {
                    assert(after.game_sessions[t] == db.game_sessions[t]);
                }
            }
            assert(keyed(after.game_sessions, session_key(), after.sequences.game_session as int)) by {
                assert forall|i: int| 0 <= i < after.game_sessions.len() implies session_key()(
                    #[trigger] after.game_sessions[i],
                ) == session_key()(db.game_sessions[i]) by {}
            }
        },
    }
}

/// An expiry keeps the store well formed.
pub proof fn law_expiry_keeps_well_formed(db: DatabaseView, timer: RemoveExpiredVotesTimer)
    requires
        well_formed(db),
    ensures
        well_formed(votes_expired(db, timer)),
{
    lemma_keyed_filter(
        db.item_check_votes,
        vote_elsewhere(timer.game_session_id, timer.bingo_item_id),
        vote_key(),
        db.sequences.item_check_vote as int,
    );
    lemma_keyed_filter(
        db.vote_timers,
        other_timer(timer),
        vote_timer_key(),
        db.sequences.vote_timer as int,
    );
    law_expiry_keeps_one_timer_per_item(db, timer);
}

} // verus!
