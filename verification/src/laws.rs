//! What holds of every board that is dealt, of every vote, and of every
//! expiry, whatever the store holds and whatever the shuffle gives.

use vstd::prelude::*;
use crate::board::{
    candidates, dealt, dealt_items, dealt_tiles, fresh_entry, is_draw_of, is_subject,
    lemma_draw_of_pool, open_to, with_items, BOARD_TILES,
};
use crate::seqs::{count_where, first_index, lemma_count_push, lemma_first_index};
use crate::store::{board_item_with_id, session_with_id, DatabaseView};
use crate::types::{
    BingoError, BingoItem, BoardItem, CallContext, PlayerKey, RemoveExpiredVotesTimer,
};
use crate::votes::{
    lemma_vote_keeps_one_timer, one_timer_per_item, other_timer, timer_count, timer_for, vote_count, vote_elsewhere, vote_for, vote_recorded,
    vote_result, vote_threshold, votes_expired, VoteOutcome,
};
use crate::types::BoardItemTile;
use crate::seqs::lemma_count_take_next;
use crate::winner::{
    checked_on_line, checked_state, has_bingo, has_stray_tile, line_count, line_in_grid, on_line,
    Line,
};

verus! {

/// No two catalog items share an id.
pub open spec fn distinct_item_ids(items: Seq<BingoItem>) -> bool {
    forall|i: int, j: int|
        0 <= i < items.len() && 0 <= j < items.len() && i != j ==> (#[trigger] items[i]).id != (
        #[trigger] items[j]).id
}

/// No two entries of a session's items share an id.
pub open spec fn distinct_entry_ids(cache: Seq<BoardItem>) -> bool {
    forall|i: int, j: int|
        0 <= i < cache.len() && 0 <= j < cache.len() && i != j ==> (#[trigger] cache[i]).id != (
        #[trigger] cache[j]).id
}

/// The catalog holds an item with this id.
pub open spec fn catalog_holds(items: Seq<BingoItem>, id: u32) -> bool {
    exists|i: int| 0 <= i < items.len() && (#[trigger] items[i]).id == id
}

/// With twenty-five candidates or more, a board is dealt in every session
/// that exists: it stands last in the table of boards, belongs to the player,
/// and has twenty-five tiles, the `k`-th of them at column `k / 5` and row
/// `k % 5`, so that no two tiles share a place.
pub proof fn law_enough_candidates_make_a_board(
    db: DatabaseView,
    player: PlayerKey,
    session_id: u32,
    drawn: Seq<BingoItem>,
)
    requires
        first_index(db.game_sessions, session_with_id(session_id)) is Some,
        is_draw_of(drawn, candidates(db, player)),
        candidates(db, player).len() >= BOARD_TILES,
    ensures
        dealt(db, player, session_id, drawn) is Ok,
        ({
            let after = dealt(db, player, session_id, drawn)->Ok_0;
            let board = after.bingo_boards.last();
            &&& after.bingo_boards.len() == db.bingo_boards.len() + 1
            &&& after.bingo_boards.drop_last() == db.bingo_boards
            &&& board.player_id == player
            &&& board.game_session_id == session_id
            &&& board.bingo_item_tiles.len() == BOARD_TILES
            &&& forall|k: int|
                0 <= k < BOARD_TILES ==> (#[trigger] board.bingo_item_tiles[k]).x == k / 5
                    && board.bingo_item_tiles[k].y == k % 5
            &&& forall|j: int, k: int|
                0 <= j < BOARD_TILES && 0 <= k < BOARD_TILES && j != k ==> !((
                #[trigger] board.bingo_item_tiles[j]).x == (#[trigger] board.bingo_item_tiles[k]).x
                    && board.bingo_item_tiles[j].y == board.bingo_item_tiles[k].y)
        }),
{
    lemma_draw_of_pool(drawn, candidates(db, player));
    let after = dealt(db, player, session_id, drawn)->Ok_0;
    assert(after.bingo_boards.drop_last() =~= db.bingo_boards);
}

/// With fewer than twenty-five candidates, no board is dealt in a session
/// that exists: the deal is refused, and a refused command changes nothing.
pub proof fn law_too_few_candidates_are_refused(
    db: DatabaseView,
    player: PlayerKey,
    session_id: u32,
    drawn: Seq<BingoItem>,
)
    requires
        first_index(db.game_sessions, session_with_id(session_id)) is Some,
        is_draw_of(drawn, candidates(db, player)),
        candidates(db, player).len() < BOARD_TILES,
    ensures
        dealt(db, player, session_id, drawn) == Err::<DatabaseView, BingoError>(
            BingoError::InsufficientCandidates,
        ),
{
    lemma_draw_of_pool(drawn, candidates(db, player));
}

/// No tile of a dealt board shows an item that the player is the subject of,
/// and every tile shows an item of the catalog.
pub proof fn law_board_excludes_subject_items(
    db: DatabaseView,
    player: PlayerKey,
    drawn: Seq<BingoItem>,
)
    requires
        is_draw_of(drawn, candidates(db, player)),
        drawn.len() >= BOARD_TILES,
    ensures
        forall|k: int|
            0 <= k < BOARD_TILES ==> !is_subject(
                db.player_item_subjects,
                player,
                (#[trigger] dealt_tiles(drawn)[k]).id,
            ),
        forall|k: int|
            0 <= k < BOARD_TILES ==> catalog_holds(
                db.bingo_items,
                (#[trigger] dealt_tiles(drawn)[k]).id,
            ),
{
    let pool = candidates(db, player);
    let keep = open_to(db.player_item_subjects, player);
    lemma_draw_of_pool(drawn, pool);
    assert forall|k: int| 0 <= k < BOARD_TILES implies !is_subject(
        db.player_item_subjects,
        player,
        (#[trigger] dealt_tiles(drawn)[k]).id,
    ) && catalog_holds(db.bingo_items, dealt_tiles(drawn)[k].id) by {
        let item = drawn[drawn.len() - 1 - k];
        assert(dealt_tiles(drawn)[k].id == item.id);
        assert(pool.contains(item));
        let j = choose|j: int| 0 <= j < pool.len() && pool[j] == item;
        db.bingo_items.lemma_filter_pred(keep, j);
        assert(keep(item));
        db.bingo_items.lemma_filter_contains_rev(keep, item);
        let i = choose|i: int| 0 <= i < db.bingo_items.len() && db.bingo_items[i] == item;
        assert(db.bingo_items[i].id == item.id);
    }
}

/// Filtering a catalog with distinct ids leaves distinct ids.
proof fn lemma_filter_keeps_distinct_ids(items: Seq<BingoItem>, keep: spec_fn(BingoItem) -> bool)
    requires
        distinct_item_ids(items),
    ensures
        distinct_item_ids(items.filter(keep)),
        forall|j: int|
            0 <= j < items.filter(keep).len() ==> items.contains(#[trigger] items.filter(keep)[j]),
    decreases items.len(),
{
    reveal(Seq::filter);
    if items.len() > 0 {
        let rest = items.drop_last();
        assert forall|i: int, j: int|
            0 <= i < rest.len() && 0 <= j < rest.len() && i != j implies (#[trigger] rest[i]).id
            != (#[trigger] rest[j]).id by {
            assert(rest[i] == items[i] && rest[j] == items[j]);
        }
        lemma_filter_keeps_distinct_ids(rest, keep);
        let kept = rest.filter(keep);
        assert forall|j: int| 0 <= j < kept.len() implies items.contains(#[trigger] kept[j])
            && kept[j].id != items.last().id by {
            assert(rest.contains(kept[j]));
            let i = choose|i: int| 0 <= i < rest.len() && rest[i] == kept[j];
            assert(items[i] == kept[j]);
        }
        if keep(items.last()) {
            assert(items.filter(keep) == kept.push(items.last()));
            assert(items[items.len() - 1] == items.last());
        }
    }
}

/// Where no two catalog items share an id, no two tiles of a dealt board show
/// the same item.
pub proof fn law_tiles_show_distinct_items(
    db: DatabaseView,
    player: PlayerKey,
    drawn: Seq<BingoItem>,
)
    requires
        distinct_item_ids(db.bingo_items),
        is_draw_of(drawn, candidates(db, player)),
        drawn.len() >= BOARD_TILES,
    ensures
        forall|j: int, k: int|
            0 <= j < BOARD_TILES && 0 <= k < BOARD_TILES && j != k ==> (#[trigger] dealt_tiles(
                drawn,
            )[j]).id != (#[trigger] dealt_tiles(drawn)[k]).id,
{
    let pool = candidates(db, player);
    lemma_filter_keeps_distinct_ids(db.bingo_items, open_to(db.player_item_subjects, player));
    lemma_draw_of_pool(drawn, pool);
    assert(pool.no_duplicates());
    pool.lemma_multiset_has_no_duplicates();
    drawn.lemma_multiset_has_no_duplicates_conv();
    assert forall|j: int, k: int|
        0 <= j < BOARD_TILES && 0 <= k < BOARD_TILES && j != k implies (#[trigger] dealt_tiles(
            drawn,
        )[j]).id != (#[trigger] dealt_tiles(drawn)[k]).id by {
        let a = drawn[drawn.len() - 1 - j];
        let b = drawn[drawn.len() - 1 - k];
        assert(a != b);
        assert(pool.contains(a) && pool.contains(b));
        let p = choose|p: int| 0 <= p < pool.len() && pool[p] == a;
        let q = choose|q: int| 0 <= q < pool.len() && pool[q] == b;
        assert(pool[p].id != pool[q].id);
    }
}

/// What placing items on a board does to a session's items: the entries that
/// were there stay where they were, every item placed is held afterwards,
/// and distinct ids stay distinct, so that an item is never held twice.
pub proof fn law_placing_items_extends_the_session(cache: Seq<BoardItem>, items: Seq<BingoItem>)
    ensures
        cache.is_prefix_of(with_items(cache, items)),
        forall|j: int|
            0 <= j < items.len() ==> first_index(
                with_items(cache, items),
                board_item_with_id((#[trigger] items[j]).id),
            ) is Some,
        forall|i: int|
            cache.len() <= i < with_items(cache, items).len() ==> !(#[trigger] with_items(
                cache,
                items,
            )[i]).checked,
        distinct_entry_ids(cache) ==> distinct_entry_ids(with_items(cache, items)),
    decreases items.len(),
{
    if items.len() > 0 {
        let rest = items.drop_last();
        let before = with_items(cache, rest);
        let last = items.last();
        law_placing_items_extends_the_session(cache, rest);
        let after = with_items(cache, items);
        lemma_first_index(before, board_item_with_id(last.id));
        assert forall|j: int| 0 <= j < items.len() implies first_index(
            after,
            board_item_with_id((#[trigger] items[j]).id),
        ) is Some by {
            let want = board_item_with_id(items[j].id);
            lemma_first_index(after, want);
            if j < rest.len() {
                assert(rest[j] == items[j]);
                lemma_first_index(before, want);
                let at = first_index(before, want)->Some_0;
                assert(after[at] == before[at]);
            } else {
                if first_index(before, board_item_with_id(last.id)) is Some {
                } else {
                    assert(after[after.len() - 1] == fresh_entry(last));
                }
            }
        }
        if distinct_entry_ids(cache) {
            assert forall|i: int, j: int|
                0 <= i < after.len() && 0 <= j < after.len() && i != j implies (
            #[trigger] after[i]).id != (#[trigger] after[j]).id by {
                if i < before.len() {
                    assert(after[i] == before[i]);
                }
                if j < before.len() {
                    assert(after[j] == before[j]);
                }
            }
        }
    }
}

/// A board that was just dealt shows no item that its session does not hold:
/// a win check of it cannot fail.
pub proof fn law_dealt_tiles_are_held(cache: Seq<BoardItem>, drawn: Seq<BingoItem>)
    requires
        drawn.len() >= BOARD_TILES,
    ensures
        !has_stray_tile(dealt_tiles(drawn), with_items(cache, dealt_items(drawn))),
{
    law_placing_items_extends_the_session(cache, dealt_items(drawn));
    let held = with_items(cache, dealt_items(drawn));
    assert forall|k: int| 0 <= k < dealt_tiles(drawn).len() implies !(#[trigger] checked_state(
        held,
        dealt_tiles(drawn)[k].id,
    ) is None) by {
        assert(dealt_tiles(drawn)[k].id == dealt_items(drawn)[k].id);
    }
}

/// Counting in a filtered sequence gives no more than counting in the whole.
proof fn lemma_count_in_filter<T>(s: Seq<T>, keep: spec_fn(T) -> bool, p: spec_fn(T) -> bool)
    ensures
        count_where(s.filter(keep), p) <= count_where(s, p),
        (forall|x: T| #[trigger] p(x) ==> !keep(x)) ==> count_where(s.filter(keep), p) == 0,
        (forall|x: T| #[trigger] p(x) ==> keep(x)) ==> count_where(s.filter(keep), p) == count_where(s, p),
    decreases s.len(),
{
    reveal(Seq::filter);
    if s.len() > 0 {
        lemma_count_in_filter(s.drop_last(), keep, p);
        if keep(s.last()) {
            lemma_count_push(s.drop_last().filter(keep), s.last(), p);
        }
    }
}

/// Filtering twice by one condition gives what filtering once gives.
proof fn lemma_filter_twice<T>(s: Seq<T>, keep: spec_fn(T) -> bool)
    ensures
        s.filter(keep).filter(keep) == s.filter(keep),
    decreases s.len(),
{
    reveal(Seq::filter);
    if s.len() > 0 {
        lemma_filter_twice(s.drop_last(), keep);
        if keep(s.last()) {
            s.drop_last().filter(keep).lemma_filter_push(s.last(), keep);
        }
    }
}

/// Whatever a vote comes to, the timers stay at one for each item in each
/// session at most. The timers change only where the vote falls short with no
/// timer armed for its item: then exactly one is armed for it, and it is the
/// only one.
pub proof fn law_vote_keeps_one_timer_per_item(
    db: DatabaseView,
    ctx: CallContext,
    session_id: u32,
    item_id: u32,
)
    requires
        one_timer_per_item(db.vote_timers),
    ensures
        ({
            let after = match vote_result(db, ctx, session_id, item_id) {
                Ok((after, _)) => after,
                Err(_) => db,
            };
            let arms = vote_result(db, ctx, session_id, item_id) matches Ok((_, outcome))
                && outcome == VoteOutcome::Pending && first_index(
                db.game_sessions,
                session_with_id(session_id),
            ) is Some && timer_count(db.vote_timers, session_id, item_id) == 0;
            &&& one_timer_per_item(after.vote_timers)
            &&& !arms ==> after.vote_timers == db.vote_timers
            &&& arms ==> after.vote_timers.len() == db.vote_timers.len() + 1
                && after.vote_timers.drop_last() == db.vote_timers && timer_for(
                session_id,
                item_id,
            )(after.vote_timers.last()) && timer_count(after.vote_timers, session_id, item_id) == 1
        }),
{
    if vote_result(db, ctx, session_id, item_id) is Ok {
        lemma_vote_keeps_one_timer(db, ctx, session_id, item_id);
        let after = vote_result(db, ctx, session_id, item_id)->Ok_0.0;
        if after.vote_timers != db.vote_timers {
            let timer = after.vote_timers.last();
            assert(after.vote_timers.drop_last() =~= db.vote_timers);
            lemma_count_push(db.vote_timers, timer, timer_for(session_id, item_id));
        }
    }
}

/// An expiry keeps the timers at one for each item in each session at most.
pub proof fn law_expiry_keeps_one_timer_per_item(db: DatabaseView, timer: RemoveExpiredVotesTimer)
    requires
        one_timer_per_item(db.vote_timers),
    ensures
        one_timer_per_item(votes_expired(db, timer).vote_timers),
{
    assert forall|s: u32, i: u32| #[trigger]
        timer_count(votes_expired(db, timer).vote_timers, s, i) <= 1 by {
        lemma_count_in_filter(db.vote_timers, other_timer(timer), timer_for(s, i));
        assert(timer_count(db.vote_timers, s, i) <= 1);
    }
}

/// Two votes in a row in a session that both fall short arm one timer
/// between them: the second leaves the timers as the first left them.
pub proof fn law_second_short_vote_arms_no_timer(
    db: DatabaseView,
    first: CallContext,
    second: CallContext,
    session_id: u32,
    item_id: u32,
)
    requires
        first_index(db.game_sessions, session_with_id(session_id)) is Some,
        vote_result(db, first, session_id, item_id) is Ok,
        vote_result(db, first, session_id, item_id)->Ok_0.1 == VoteOutcome::Pending,
        vote_result(
            vote_result(db, first, session_id, item_id)->Ok_0.0,
            second,
            session_id,
            item_id,
        ) is Ok,
        vote_result(
            vote_result(db, first, session_id, item_id)->Ok_0.0,
            second,
            session_id,
            item_id,
        )->Ok_0.1 == VoteOutcome::Pending,
    ensures
        timer_count(
            vote_result(db, first, session_id, item_id)->Ok_0.0.vote_timers,
            session_id,
            item_id,
        ) >= 1,
        vote_result(
            vote_result(db, first, session_id, item_id)->Ok_0.0,
            second,
            session_id,
            item_id,
        )->Ok_0.0.vote_timers == vote_result(db, first, session_id, item_id)->Ok_0.0.vote_timers,
{
    let middle = vote_result(db, first, session_id, item_id)->Ok_0.0;
    if middle.vote_timers != db.vote_timers {
        let timer = middle.vote_timers.last();
        assert(middle.vote_timers == db.vote_timers.push(timer));
        lemma_count_push(db.vote_timers, timer, timer_for(session_id, item_id));
    }
}

/// After an expiry no vote for the timer's item in the timer's session is on
/// record, votes for other items stand as they stood, and the threshold is
/// what it was.
pub proof fn law_expiry_empties_the_ledger(db: DatabaseView, timer: RemoveExpiredVotesTimer)
    ensures
        vote_count(
            votes_expired(db, timer).item_check_votes,
            timer.game_session_id,
            timer.bingo_item_id,
        ) == 0,
        forall|s: u32, i: u32|
            !(s == timer.game_session_id && i == timer.bingo_item_id) ==> #[trigger] vote_count(
                votes_expired(db, timer).item_check_votes,
                s,
                i,
            ) == vote_count(db.item_check_votes, s, i),
        forall|s: u32, i: u32| #[trigger]
            vote_threshold(votes_expired(db, timer), s, i) == vote_threshold(db, s, i),
{
    let keep = vote_elsewhere(timer.game_session_id, timer.bingo_item_id);
    lemma_count_in_filter(
        db.item_check_votes,
        keep,
        vote_for(timer.game_session_id, timer.bingo_item_id),
    );
    assert forall|s: u32, i: u32|
        !(s == timer.game_session_id && i == timer.bingo_item_id) implies #[trigger] vote_count(
        votes_expired(db, timer).item_check_votes,
        s,
        i,
    ) == vote_count(db.item_check_votes, s, i) by {
        lemma_count_in_filter(db.item_check_votes, keep, vote_for(s, i));
    }
}

/// After an expiry in a session the votes start from zero: the next vote
/// for the item is the only one on record, so it checks the item exactly
/// when the threshold is one at most, as it would in a session that never
/// saw a vote.
pub proof fn law_votes_start_over_after_expiry(
    db: DatabaseView,
    timer: RemoveExpiredVotesTimer,
    ctx: CallContext,
)
    requires
        first_index(db.game_sessions, session_with_id(timer.game_session_id)) is Some,
    ensures
        vote_count(
            vote_recorded(
                votes_expired(db, timer),
                ctx,
                timer.game_session_id,
                timer.bingo_item_id,
            ).item_check_votes,
            timer.game_session_id,
            timer.bingo_item_id,
        ) == 1,
        vote_result(
            votes_expired(db, timer),
            ctx,
            timer.game_session_id,
            timer.bingo_item_id,
        ) matches Ok((_, outcome)) ==> (outcome == VoteOutcome::Checked <==> vote_threshold(
            db,
            timer.game_session_id,
            timer.bingo_item_id,
        ) <= 1),
{
    law_expiry_empties_the_ledger(db, timer);
    let expired = votes_expired(db, timer);
    let vote = vote_recorded(
        expired,
        ctx,
        timer.game_session_id,
        timer.bingo_item_id,
    ).item_check_votes.last();
    lemma_count_push(
        expired.item_check_votes,
        vote,
        vote_for(timer.game_session_id, timer.bingo_item_id),
    );
}

/// An expiry that fires twice leaves what it left the first time.
pub proof fn law_expiry_is_idempotent(db: DatabaseView, timer: RemoveExpiredVotesTimer)
    ensures
        votes_expired(votes_expired(db, timer), timer) == votes_expired(db, timer),
{
    lemma_filter_twice(
        db.item_check_votes,
        vote_elsewhere(timer.game_session_id, timer.bingo_item_id),
    );
    lemma_filter_twice(db.vote_timers, other_timer(timer));
}

/// The tiles are laid out as a deal lays them out: twenty-five of them, the
/// `k`-th at column `k / 5` and row `k % 5`.
pub open spec fn laid_out(tiles: Seq<BoardItemTile>) -> bool {
    tiles.len() == BOARD_TILES && forall|k: int|
        0 <= k < BOARD_TILES ==> (#[trigger] tiles[k]).x == k / 5 && tiles[k].y == k % 5
}

/// Every tile on the line shows an item that is checked.
pub open spec fn complete(tiles: Seq<BoardItemTile>, cache: Seq<BoardItem>, line: Line) -> bool {
    forall|k: int|
        0 <= k < tiles.len() && on_line(line, #[trigger] tiles[k]) ==> checked_state(
            cache,
            tiles[k].id,
        ) == Some(true)
}

/// Holds of the tiles on `line`.
pub open spec fn lies_on(line: Line) -> spec_fn(BoardItemTile) -> bool {
    |t: BoardItemTile| on_line(line, t)
}

/// Whether the place of the `k`-th tile lies on the line.
pub open spec fn place_on_line(line: Line, k: int) -> bool {
    match line {
        Line::Column(c) => k / 5 == c,
        Line::Row(r) => k % 5 == r,
        Line::Diagonal => k / 5 == k % 5,
        Line::AntiDiagonal => k / 5 + k % 5 == 4,
    }
}

/// How many of the first `n` places lie on the line.
pub open spec fn places_on_line(line: Line, n: nat) -> nat
    decreases n,
{
    if n == 0 {
        0
    } else {
        places_on_line(line, (n - 1) as nat) + if place_on_line(line, n - 1) {
            1nat
        } else {
            0nat
        }
    }
}

/// Every line of the grid runs through five places.
proof fn lemma_five_places(line: Line)
    requires
        line_in_grid(line),
    ensures
        places_on_line(line, 25) == 5,
{
    reveal_with_fuel(places_on_line, 26);
    match line {
        Line::Column(c) => {
            if c == 0 {
                assert(places_on_line(Line::Column(0), 25) == 5);
            } else if c == 1 {
                assert(places_on_line(Line::Column(1), 25) == 5);
            } else if c == 2 {
                assert(places_on_line(Line::Column(2), 25) == 5);
            } else if c == 3 {
                assert(places_on_line(Line::Column(3), 25) == 5);
            } else {
                assert(places_on_line(Line::Column(4), 25) == 5);
            }
        },
        Line::Row(r) => {
            if r == 0 {
                assert(places_on_line(Line::Row(0), 25) == 5);
            } else if r == 1 {
                assert(places_on_line(Line::Row(1), 25) == 5);
            } else if r == 2 {
                assert(places_on_line(Line::Row(2), 25) == 5);
            } else if r == 3 {
                assert(places_on_line(Line::Row(3), 25) == 5);
            } else {
                assert(places_on_line(Line::Row(4), 25) == 5);
            }
        },
        Line::Diagonal => {
            assert(places_on_line(Line::Diagonal, 25) == 5);
        },
        Line::AntiDiagonal => {
            assert(places_on_line(Line::AntiDiagonal, 25) == 5);
        },
    }
}

/// On a board that is laid out, the tiles on a line among the first `n` are
/// as many as the places on the line among the first `n`.
proof fn lemma_tiles_on_line(tiles: Seq<BoardItemTile>, line: Line, n: nat)
    requires
        laid_out(tiles),
        n <= BOARD_TILES,
    ensures
        count_where(tiles.take(n as int), lies_on(line)) == places_on_line(line, n),
    decreases n,
{
    if n == 0 {
        assert(tiles.take(0) =~= Seq::<BoardItemTile>::empty());
    } else {
        lemma_tiles_on_line(tiles, line, (n - 1) as nat);
        lemma_count_take_next(tiles, n - 1, lies_on(line));
        let tile = tiles[n - 1];
        assert(tile.x == (n - 1) / 5 && tile.y == (n - 1) % 5);
        assert(on_line(line, tile) == place_on_line(line, n - 1));
    }
}

/// Counting the elements that satisfy two conditions gives no more than
/// counting those that satisfy the first, and as many exactly when every
/// element that satisfies the first satisfies the second.
proof fn lemma_count_both<T>(
    s: Seq<T>,
    first: spec_fn(T) -> bool,
    second: spec_fn(T) -> bool,
    both: spec_fn(T) -> bool,
)
    requires
        forall|x: T| #[trigger] both(x) == (first(x) && second(x)),
    ensures
        count_where(s, both) <= count_where(s, first),
        count_where(s, both) == count_where(s, first) <==> forall|i: int|
            0 <= i < s.len() && first(#[trigger] s[i]) ==> second(s[i]),
    decreases s.len(),
{
    if s.len() > 0 {
        let rest = s.drop_last();
        lemma_count_both(rest, first, second, both);
        assert(forall|i: int| 0 <= i < rest.len() ==> rest[i] == s[i]);
        if count_where(s, both) == count_where(s, first) {
            assert forall|i: int| 0 <= i < s.len() && first(#[trigger] s[i]) implies second(
                s[i],
            ) by {
                if i < rest.len() {
                    assert(rest[i] == s[i]);
                }
            }
        }
        if forall|i: int| 0 <= i < s.len() && first(#[trigger] s[i]) ==> second(s[i]) {
            assert forall|i: int| 0 <= i < rest.len() && first(#[trigger] rest[i]) implies second(
                rest[i],
            ) by {
                assert(rest[i] == s[i]);
            }
            assert(first(s[s.len() - 1]) ==> second(s[s.len() - 1]));
        }
    }
}

/// A deal lays its tiles out.
pub proof fn law_dealt_tiles_are_laid_out(drawn: Seq<BingoItem>)
    ensures
        laid_out(dealt_tiles(drawn)),
{
}

/// On a board that is laid out, a line of the grid has five checked tiles
/// exactly when every tile on it is checked, and never more than five.
pub proof fn law_five_checked_tiles_complete_a_line(
    tiles: Seq<BoardItemTile>,
    cache: Seq<BoardItem>,
    line: Line,
)
    requires
        laid_out(tiles),
        line_in_grid(line),
    ensures
        line_count(tiles, cache, line) <= 5,
        line_count(tiles, cache, line) >= 5 <==> complete(tiles, cache, line),
{
    lemma_five_places(line);
    lemma_tiles_on_line(tiles, line, 25);
    assert(tiles.take(25) =~= tiles);
    let is_checked = |t: BoardItemTile| checked_state(cache, t.id) == Some(true);
    lemma_count_both(tiles, lies_on(line), is_checked, checked_on_line(line, cache));
}

/// On a board that is laid out, there is a bingo exactly when some row,
/// column or diagonal is complete.
pub proof fn law_bingo_is_a_complete_line(tiles: Seq<BoardItemTile>, cache: Seq<BoardItem>)
    requires
        laid_out(tiles),
    ensures
        has_bingo(tiles, cache) <==> exists|line: Line|
            line_in_grid(line) && #[trigger] complete(tiles, cache, line),
{
    if has_bingo(tiles, cache) {
        let line = choose|line: Line|
            line_in_grid(line) && #[trigger] line_count(tiles, cache, line) >= 5;
        law_five_checked_tiles_complete_a_line(tiles, cache, line);
        assert(complete(tiles, cache, line));
    }
    if exists|line: Line| line_in_grid(line) && #[trigger] complete(tiles, cache, line) {
        let line = choose|line: Line| line_in_grid(line) && #[trigger] complete(tiles, cache, line);
        law_five_checked_tiles_complete_a_line(tiles, cache, line);
        assert(line_count(tiles, cache, line) >= 5);
    }
}

} // verus!
