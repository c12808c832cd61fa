//! The vote ledger: votes to check an item off, the threshold that decides
//! when the item is checked, and the expiry that clears votes that did not
//! get there.

use vstd::prelude::*;
use crate::seqs::{count_where, first_index, lemma_count_push, lemma_count_take_next};
use crate::store::{
    board_item_with_id, board_views, find_board_item, find_session, session_views,
    session_with_id, Database, DatabaseView, Sequences,
};
use crate::types::{
    BingoBoard, BingoBoardView, BingoError, BoardItem, CallContext, GameSessionView,
    ItemCheckVote, PlayerItemSubject, PlayerKey, PlayerSession, RemoveExpiredVotesTimer,
    ScheduleAt,
};
use crate::winner::{has_bingo, has_stray_tile, scan_board, won_by};

verus! {

/// How long votes for an item may wait for the threshold: ten seconds, in
/// microseconds.
pub const VOTE_EXPIRY_MICROS: i64 = 10_000_000;

/// Holds of the rows that enter a player into this session.
pub open spec fn in_session(session_id: u32) -> spec_fn(PlayerSession) -> bool {
    |row: PlayerSession| row.game_session_id == session_id
}

/// Holds of the rows that name a subject of this item.
pub open spec fn about_item(item_id: u32) -> spec_fn(PlayerItemSubject) -> bool {
    |row: PlayerItemSubject| row.bingo_item_id == item_id
}

/// The players entered into a session, one for each row that enters one.
pub open spec fn players_of(rows: Seq<PlayerSession>, session_id: u32) -> Seq<PlayerKey> {
    rows.filter(in_session(session_id)).map_values(|row: PlayerSession| row.player_id)
}

/// The subjects of an item, one for each row that names one.
pub open spec fn subjects_of(rows: Seq<PlayerItemSubject>, item_id: u32) -> Seq<PlayerKey> {
    rows.filter(about_item(item_id)).map_values(|row: PlayerItemSubject| row.player_id)
}

/// The players who count for a vote: the distinct players without the exempt.
pub open spec fn eligible_voters(players: Seq<PlayerKey>, exempt: Seq<PlayerKey>) -> Set<PlayerKey> {
    players.to_set().difference(exempt.to_set())
}

/// The votes that check an item off: half of the eligible voters, rounded
/// down.
pub open spec fn required_votes(players: Seq<PlayerKey>, exempt: Seq<PlayerKey>) -> nat {
    eligible_voters(players, exempt).len() / 2
}

/// Whether `key` occurs among `keys`.
pub fn contains_key(keys: &Vec<PlayerKey>, key: PlayerKey) -> (r: bool)
    ensures
        r == keys@.contains(key),
{
    let mut i: usize = 0;
    while i < keys.len()
        invariant
            i <= keys.len(),
            forall|j: int| 0 <= j < i ==> keys@[j] != key,
        decreases keys.len() - i,
    {
        if keys[i] == key {
            return true;
        }
        i += 1;
    }
    false
}

/// The number of votes that check an item off, from the players of the
/// session and the players who are exempt as subjects of the item. Players
/// are counted once however often they are listed.
pub fn get_required_vote_threshold(
    session_players: &Vec<PlayerKey>,
    non_voting_players: &Vec<PlayerKey>,
) -> (threshold: usize)
    ensures
        threshold == required_votes(session_players@, non_voting_players@),
{
    let mut voters: Vec<PlayerKey> = Vec::new();
    let mut i: usize = 0;
    proof {
        assert(session_players@.take(0) =~= Seq::<PlayerKey>::empty());
        assert(voters@.to_set() =~= eligible_voters(
            session_players@.take(0),
            non_voting_players@,
        ));
    }
    while i < session_players.len()
        invariant
            i <= session_players.len(),
            voters.len() <= i,
            voters@.no_duplicates(),
            voters@.to_set() =~= eligible_voters(
                session_players@.take(i as int),
                non_voting_players@,
            ),
        decreases session_players.len() - i,
    {
        let player = session_players[i];
        proof {
            session_players@.lemma_take_succ_push(i as int);
            session_players@.take(i as int).lemma_push_to_set_commute(player);
            voters@.lemma_push_to_set_commute(player);
        }
        if !contains_key(non_voting_players, player) && !contains_key(&voters, player) {
            voters.push(player);
        }
        i += 1;
    }
    proof {
        assert(session_players@.take(i as int) =~= session_players@);
        voters@.unique_seq_to_set();
    }
    voters.len() / 2
}

/// The players entered into the session, row by row.
pub fn session_player_keys(rows: &Vec<PlayerSession>, session_id: u32) -> (keys: Vec<PlayerKey>)
    ensures
        keys@ == players_of(rows@, session_id),
{
    let mut keys: Vec<PlayerKey> = Vec::new();
    let mut i: usize = 0;
    let ghost pick = |row: PlayerSession| row.player_id;
    proof {
        reveal(Seq::filter);
        assert(rows@.take(0) =~= Seq::<PlayerSession>::empty());
        assert(keys@ =~= rows@.take(0).filter(in_session(session_id)).map_values(pick));
    }
    while i < rows.len()
        invariant
            i <= rows.len(),
            pick == |row: PlayerSession| row.player_id,
            keys@ == rows@.take(i as int).filter(in_session(session_id)).map_values(pick),
        decreases rows.len() - i,
    {
        proof {
            rows@.lemma_take_succ_push(i as int);
            rows@.take(i as int).lemma_filter_push(rows@[i as int], in_session(session_id));
            rows@.take(i as int).filter(in_session(session_id)).lemma_push_map_commute(
                pick,
                rows@[i as int],
            );
        }
        if rows[i].game_session_id == session_id {
            keys.push(rows[i].player_id);
        }
        i += 1;
    }
    assert(rows@.take(i as int) =~= rows@);
    keys
}

/// The subjects of the item, row by row.
pub fn item_subject_keys(rows: &Vec<PlayerItemSubject>, item_id: u32) -> (keys: Vec<PlayerKey>)
    ensures
        keys@ == subjects_of(rows@, item_id),
{
    let mut keys: Vec<PlayerKey> = Vec::new();
    let mut i: usize = 0;
    let ghost pick = |row: PlayerItemSubject| row.player_id;
    proof {
        reveal(Seq::filter);
        assert(rows@.take(0) =~= Seq::<PlayerItemSubject>::empty());
        assert(keys@ =~= rows@.take(0).filter(about_item(item_id)).map_values(pick));
    }
    while i < rows.len()
        invariant
            i <= rows.len(),
            pick == |row: PlayerItemSubject| row.player_id,
            keys@ == rows@.take(i as int).filter(about_item(item_id)).map_values(pick),
        decreases rows.len() - i,
    {
        proof {
            rows@.lemma_take_succ_push(i as int);
            rows@.take(i as int).lemma_filter_push(rows@[i as int], about_item(item_id));
            rows@.take(i as int).filter(about_item(item_id)).lemma_push_map_commute(
                pick,
                rows@[i as int],
            );
        }
        if rows[i].bingo_item_id == item_id {
            keys.push(rows[i].player_id);
        }
        i += 1;
    }
    assert(rows@.take(i as int) =~= rows@);
    keys
}

/// Holds of the votes for this item in this session.
pub open spec fn vote_for(session_id: u32, item_id: u32) -> spec_fn(ItemCheckVote) -> bool {
    |vote: ItemCheckVote| vote.game_session_id == session_id && vote.bingo_item_id == item_id
}

/// Holds of the expiry timers for this item in this session.
pub open spec fn timer_for(session_id: u32, item_id: u32) -> spec_fn(
    RemoveExpiredVotesTimer,
) -> bool {
    |timer: RemoveExpiredVotesTimer|
        timer.game_session_id == session_id && timer.bingo_item_id == item_id
}

/// The number of votes on record for this item in this session. Each record
/// counts, also where one player cast several.
pub open spec fn vote_count(votes: Seq<ItemCheckVote>, session_id: u32, item_id: u32) -> nat {
    count_where(votes, vote_for(session_id, item_id))
}

/// The number of expiry timers that are armed for this item in this session.
pub open spec fn timer_count(
    timers: Seq<RemoveExpiredVotesTimer>,
    session_id: u32,
    item_id: u32,
) -> nat {
    count_where(timers, timer_for(session_id, item_id))
}

/// The votes that check this item off in this session, as the store stands.
pub open spec fn vote_threshold(db: DatabaseView, session_id: u32, item_id: u32) -> nat {
    required_votes(
        players_of(db.player_sessions, session_id),
        subjects_of(db.player_item_subjects, item_id),
    )
}

/// Counts the votes on record for this item in this session.
pub fn count_votes(votes: &Vec<ItemCheckVote>, session_id: u32, item_id: u32) -> (n: usize)
    ensures
        n == vote_count(votes@, session_id, item_id),
{
    let mut n: usize = 0;
    let mut i: usize = 0;
    assert(votes@.take(0) =~= Seq::<ItemCheckVote>::empty());
    while i < votes.len()
        invariant
            i <= votes.len(),
            n <= i,
            n == vote_count(votes@.take(i as int), session_id, item_id),
        decreases votes.len() - i,
    {
        proof {
            lemma_count_take_next(votes@, i as int, vote_for(session_id, item_id));
        }
        if votes[i].game_session_id == session_id && votes[i].bingo_item_id == item_id {
            n += 1;
        }
        i += 1;
    }
    assert(votes@.take(i as int) =~= votes@);
    n
}

/// Whether an expiry timer is armed for this item in this session.
pub fn timer_armed(timers: &Vec<RemoveExpiredVotesTimer>, session_id: u32, item_id: u32) -> (r:
    bool)
    ensures
        r == (timer_count(timers@, session_id, item_id) > 0),
{
    let mut i: usize = 0;
    assert(timers@.take(0) =~= Seq::<RemoveExpiredVotesTimer>::empty());
    while i < timers.len()
        invariant
            i <= timers.len(),
            timer_count(timers@.take(i as int), session_id, item_id) == 0,
        decreases timers.len() - i,
    {
        proof {
            lemma_count_take_next(timers@, i as int, timer_for(session_id, item_id));
        }
        if timers[i].game_session_id == session_id && timers[i].bingo_item_id == item_id {
            proof {
                lemma_count_from_take(timers@, i as int + 1, timer_for(session_id, item_id));
            }
            return true;
        }
        i += 1;
    }
    assert(timers@.take(i as int) =~= timers@);
    false
}

/// A count over a whole sequence is at least the count over a part from its
/// start.
proof fn lemma_count_from_take<T>(s: Seq<T>, i: int, p: spec_fn(T) -> bool)
    requires
        0 <= i <= s.len(),
    ensures
        count_where(s.take(i), p) <= count_where(s, p),
    decreases s.len() - i,
{
    if i < s.len() {
        lemma_count_take_next(s, i, p);
        lemma_count_from_take(s, i + 1, p);
    } else {
        assert(s.take(i) =~= s);
    }
}

/// What a vote came to.
#[derive(Clone, Copy, Debug, PartialEq, Eq, Structural)]
pub enum VoteOutcome {
    /// The votes on record reached the threshold.
    Checked,
    /// The vote checked nothing: the votes on record are short of the
    /// threshold, or the session does not exist.
    Pending,
}

/// The store after the caller's vote was put on record.
pub open spec fn vote_recorded(
    db: DatabaseView,
    ctx: CallContext,
    session_id: u32,
    item_id: u32,
) -> DatabaseView {
    DatabaseView {
        item_check_votes: db.item_check_votes.push(
            ItemCheckVote {
                id: db.sequences.item_check_vote,
                game_session_id: session_id,
                bingo_item_id: item_id,
                player_id: ctx.sender,
                created_at: ctx.timestamp,
            },
        ),
        sequences: Sequences {
            item_check_vote: (db.sequences.item_check_vote + 1) as u32,
            ..db.sequences
        },
        ..db
    }
}

/// The store after an expiry timer was armed for this item in this session,
/// to fire `VOTE_EXPIRY_MICROS` after the call.
pub open spec fn timer_set(
    db: DatabaseView,
    ctx: CallContext,
    session_id: u32,
    item_id: u32,
) -> DatabaseView {
    DatabaseView {
        vote_timers: db.vote_timers.push(
            RemoveExpiredVotesTimer {
                scheduled_id: db.sequences.vote_timer,
                bingo_item_id: item_id,
                game_session_id: session_id,
                scheduled_at: ScheduleAt::Time((ctx.timestamp + VOTE_EXPIRY_MICROS) as i64),
            },
        ),
        sequences: Sequences { vote_timer: (db.sequences.vote_timer + 1) as u64, ..db.sequences },
        ..db
    }
}

/// A session's items with this item checked. Nothing changes where the session
/// does not hold the item.
pub open spec fn with_item_checked(cache: Seq<BoardItem>, item_id: u32) -> Seq<BoardItem> {
    match first_index(cache, board_item_with_id(item_id)) {
        Some(i) => cache.update(i, BoardItem { checked: true, ..cache[i] }),
        None => cache,
    }
}

/// A session after the win check of each of its boards among `boards`, in
/// table order. A later winner replaces an earlier one; a board with a tile
/// that the session does not hold an item for makes the checks fail.
pub open spec fn checks_run(session: GameSessionView, boards: Seq<BingoBoardView>) -> Result<
    GameSessionView,
    BingoError,
>
    decreases boards.len(),
{
    if boards.len() == 0 {
        Ok(session)
    } else {
        match checks_run(session, boards.drop_last()) {
            Err(e) => Err(e),
            Ok(so_far) => {
                let board = boards.last();
                if board.game_session_id != session.id {
                    Ok(so_far)
                } else if has_stray_tile(board.bingo_item_tiles, so_far.board_items) {
                    Err(BingoError::DataConsistency)
                } else if has_bingo(board.bingo_item_tiles, so_far.board_items) {
                    Ok(won_by(so_far, board.player_id))
                } else {
                    Ok(so_far)
                }
            },
        }
    }
}

/// At most one expiry timer is armed for any item in any session.
pub open spec fn one_timer_per_item(timers: Seq<RemoveExpiredVotesTimer>) -> bool {
    forall|session_id: u32, item_id: u32| #[trigger] timer_count(timers, session_id, item_id) <= 1
}

/// What a vote of the caller for this item in this session does: the store
/// afterwards and the outcome, or the reason why the vote is refused.
///
/// A vote in a session that does not exist does nothing and is pending.
/// Else the vote is put on record. Where the votes on record, this one
/// included, reach the threshold, the item is checked in the session and
/// every board of the session gets a win check. Where they fall short, an
/// expiry timer is armed unless one is armed already.
pub open spec fn vote_result(
    db: DatabaseView,
    ctx: CallContext,
    session_id: u32,
    item_id: u32,
) -> Result<(DatabaseView, VoteOutcome), BingoError> {
    let voted = vote_recorded(db, ctx, session_id, item_id);
    match first_index(db.game_sessions, session_with_id(session_id)) {
        None => Ok((db, VoteOutcome::Pending)),
        Some(s) => if vote_count(voted.item_check_votes, session_id, item_id) >= vote_threshold(
            db,
            session_id,
            item_id,
        ) {
            let session = db.game_sessions[s];
            let checked = GameSessionView {
                board_items: with_item_checked(session.board_items, item_id),
                ..session
            };
            match checks_run(checked, db.bingo_boards) {
                Err(e) => Err(e),
                Ok(settled) => Ok(
                    (
                        DatabaseView { game_sessions: db.game_sessions.update(s, settled), ..voted },
                        VoteOutcome::Checked,
                    ),
                ),
            }
        } else if timer_count(db.vote_timers, session_id, item_id) > 0 {
            Ok((voted, VoteOutcome::Pending))
        } else {
            Ok((timer_set(voted, ctx, session_id, item_id), VoteOutcome::Pending))
        },
    }
}

/// A vote adds no timer where one is armed, and one where none is: timers
/// that were one for each item at most stay so.
pub proof fn lemma_vote_keeps_one_timer(
    db: DatabaseView,
    ctx: CallContext,
    session_id: u32,
    item_id: u32,
)
    requires
        one_timer_per_item(db.vote_timers),
        vote_result(db, ctx, session_id, item_id) is Ok,
    ensures
        one_timer_per_item(vote_result(db, ctx, session_id, item_id)->Ok_0.0.vote_timers),
{
    let after = vote_result(db, ctx, session_id, item_id)->Ok_0.0;
    if after.vote_timers != db.vote_timers {
        let timer = after.vote_timers.last();
        assert(after.vote_timers == db.vote_timers.push(timer));
        assert forall|s: u32, i: u32| #[trigger] timer_count(after.vote_timers, s, i) <= 1 by {
            lemma_count_push(db.vote_timers, timer, timer_for(s, i));
            assert(timer_count(db.vote_timers, s, i) <= 1);
            if timer_for(s, i)(timer) {
                assert(s == session_id && i == item_id);
            }
        }
    }
}

/// The caller votes to check this item off in this session.
///
/// The store changes as `vote_result` says, or not at all where the vote is
/// refused: that is where a board of the session shows an item that the
/// session does not hold.
#[verifier::loop_isolation(false)]
pub fn cast_check_off_vote(
    db: &mut Database,
    ctx: &CallContext,
    game_session_id: u32,
    bingo_item_id: u32,
) -> (r: Result<VoteOutcome, BingoError>)
    requires
        old(db).sequences.item_check_vote < u32::MAX,
        old(db).sequences.vote_timer < u64::MAX,
        ctx.timestamp + VOTE_EXPIRY_MICROS <= i64::MAX,
    ensures
        match vote_result(old(db)@, *ctx, game_session_id, bingo_item_id) {
            Ok((after, outcome)) => r == Ok::<VoteOutcome, BingoError>(outcome) && final(db)@
                =~= after,
            Err(e) => r == Err::<VoteOutcome, BingoError>(e) && final(db)@ =~= old(db)@,
        },
        r matches Err(e) ==> e == BingoError::DataConsistency,
        one_timer_per_item(old(db).vote_timers@) ==> one_timer_per_item(final(db).vote_timers@),
{
    let s = match find_session(&db.game_sessions, game_session_id) {
        Some(s) => s,
        None => {
            return Ok(VoteOutcome::Pending);
        },
    };
    proof {
        if vote_result(old(db)@, *ctx, game_session_id, bingo_item_id) is Ok
            && one_timer_per_item(old(db).vote_timers@) {
            lemma_vote_keeps_one_timer(old(db)@, *ctx, game_session_id, bingo_item_id);
        }
    }
    let players = session_player_keys(&db.player_sessions, game_session_id);
    let exempt = item_subject_keys(&db.player_item_subjects, bingo_item_id);
    let threshold = get_required_vote_threshold(&players, &exempt);
    let on_record = count_votes(&db.item_check_votes, game_session_id, bingo_item_id);
    let vote = ItemCheckVote {
        id: db.sequences.item_check_vote,
        game_session_id,
        bingo_item_id,
        player_id: ctx.sender,
        created_at: ctx.timestamp,
    };
    proof {
        lemma_count_push(db.item_check_votes@, vote, vote_for(game_session_id, bingo_item_id));
    }
    if threshold == 0 || on_record >= threshold - 1 {
        let ghost session = old(db)@.game_sessions[s as int];
        let ghost checked = GameSessionView {
            board_items: with_item_checked(session.board_items, bingo_item_id),
            ..session
        };
        let flipped = match find_board_item(&db.game_sessions[s].board_items, bingo_item_id) {
            Some(at) => {
                let was = db.game_sessions[s].board_items[at].checked;
                db.game_sessions[s].board_items[at].checked = true;
                Some((at, was))
            },
            None => None,
        };
        assert(db.game_sessions@[s as int]@ =~= checked);
        let mut winner: Option<PlayerKey> = None;
        let mut i: usize = 0;
        assert(db.bingo_boards@.take(0) =~= Seq::<BingoBoard>::empty());
        let ghost marked = *db;
        while i < db.bingo_boards.len()
            invariant
                i <= db.bingo_boards.len(),
                *db == marked,
                checks_run(checked, board_views(db.bingo_boards@.take(i as int))) == Ok::<
                    GameSessionView,
                    BingoError,
                >(
                    match winner {
                        Some(w) => won_by(checked, w),
                        None => checked,
                    },
                ),
            decreases db.bingo_boards.len() - i,
        {
            let ghost part = board_views(db.bingo_boards@.take(i + 1));
            proof {
                assert(part.drop_last() =~= board_views(db.bingo_boards@.take(i as int)));
                assert(part.last() == db.bingo_boards@[i as int]@);
            }
            if db.bingo_boards[i].game_session_id == game_session_id {
                match scan_board(
                    &db.bingo_boards[i].bingo_item_tiles,
                    &db.game_sessions[s].board_items,
                ) {
                    Err(e) => {
                        proof {
                            assert(checks_run(checked, part) is Err);
                            assert(board_views(db.bingo_boards@).take(i + 1) =~= part);
                            lemma_checks_fail_on(
                                checked,
                                board_views(db.bingo_boards@),
                                i as int + 1,
                            );
                        }
                        match flipped {
                            Some((at, was)) => {
                                db.game_sessions[s].board_items[at].checked = was;
                            },
                            None => {},
                        }
                        assert(db.game_sessions@[s as int]@ =~= session);
                        assert(session_views(db.game_sessions@) =~= old(db)@.game_sessions);
                        return Err(e);
                    },
                    Ok(won) => {
                        if won {
                            winner = Some(db.bingo_boards[i].player_id);
                        }
                    },
                }
            }
            i += 1;
        }
        assert(db.bingo_boards@.take(i as int) =~= db.bingo_boards@);
        match winner {
            Some(w) => {
                db.game_sessions[s].winner = Some(w);
                db.game_sessions[s].active = false;
            },
            None => {},
        }
        db.item_check_votes.push(vote);
        db.sequences.item_check_vote = db.sequences.item_check_vote + 1;
        Ok(VoteOutcome::Checked)
    } else if timer_armed(&db.vote_timers, game_session_id, bingo_item_id) {
        db.item_check_votes.push(vote);
        db.sequences.item_check_vote = db.sequences.item_check_vote + 1;
        Ok(VoteOutcome::Pending)
    } else {
        db.vote_timers.push(
            RemoveExpiredVotesTimer {
                scheduled_id: db.sequences.vote_timer,
                bingo_item_id,
                game_session_id,
                scheduled_at: ScheduleAt::Time(ctx.timestamp + VOTE_EXPIRY_MICROS),
            },
        );
        db.sequences.vote_timer = db.sequences.vote_timer + 1;
        db.item_check_votes.push(vote);
        db.sequences.item_check_vote = db.sequences.item_check_vote + 1;
        Ok(VoteOutcome::Pending)
    }
}

/// Checks that failed on a part of the boards from the start fail on all.
proof fn lemma_checks_fail_on(session: GameSessionView, boards: Seq<BingoBoardView>, i: int)
    requires
        0 <= i <= boards.len(),
        checks_run(session, boards.take(i)) is Err,
    ensures
        checks_run(session, boards) == checks_run(session, boards.take(i)),
    decreases boards.len() - i,
{
    if i < boards.len() {
        assert(boards.take(i + 1).drop_last() =~= boards.take(i));
        lemma_checks_fail_on(session, boards, i + 1);
    } else {
        assert(boards.take(i) =~= boards);
    }
}

/// Holds of the votes that are not for this item in this session.
pub open spec fn vote_elsewhere(session_id: u32, item_id: u32) -> spec_fn(ItemCheckVote) -> bool {
    |vote: ItemCheckVote| !(vote.game_session_id == session_id && vote.bingo_item_id == item_id)
}

/// Holds of the timer rows that differ from `timer`.
pub open spec fn other_timer(timer: RemoveExpiredVotesTimer) -> spec_fn(
    RemoveExpiredVotesTimer,
) -> bool {
    |row: RemoveExpiredVotesTimer| row != timer
}

/// The store after `timer` fired: no vote for its item in its session is on
/// record any more, and the timer row is gone.
pub open spec fn votes_expired(db: DatabaseView, timer: RemoveExpiredVotesTimer) -> DatabaseView {
    DatabaseView {
        item_check_votes: db.item_check_votes.filter(
            vote_elsewhere(timer.game_session_id, timer.bingo_item_id),
        ),
        vote_timers: db.vote_timers.filter(other_timer(timer)),
        ..db
    }
}

/// An expiry timer fired: clears the votes for its item in its session and
/// removes the timer row. Firing once more changes nothing.
pub fn remove_expired_votes(db: &mut Database, timer: RemoveExpiredVotesTimer) -> (r: Result<
    (),
    BingoError,
>)
    ensures
        r is Ok,
        final(db)@ =~= votes_expired(old(db)@, timer),
        one_timer_per_item(old(db).vote_timers@) ==> one_timer_per_item(final(db).vote_timers@),
{
    proof {
        if one_timer_per_item(old(db).vote_timers@) {
            crate::laws::law_expiry_keeps_one_timer_per_item(old(db)@, timer);
        }
    }
    let mut votes: Vec<ItemCheckVote> = Vec::new();
    let mut i: usize = 0;
    let ghost keep_vote = vote_elsewhere(timer.game_session_id, timer.bingo_item_id);
    proof {
        reveal(Seq::filter);
        assert(db.item_check_votes@.take(0) =~= Seq::<ItemCheckVote>::empty());
    }
    while i < db.item_check_votes.len()
        invariant
            i <= db.item_check_votes.len(),
            keep_vote == vote_elsewhere(timer.game_session_id, timer.bingo_item_id),
            votes@ == db.item_check_votes@.take(i as int).filter(keep_vote),
        decreases db.item_check_votes.len() - i,
    {
        let vote = db.item_check_votes[i];
        proof {
            db.item_check_votes@.lemma_take_succ_push(i as int);
            db.item_check_votes@.take(i as int).lemma_filter_push(vote, keep_vote);
        }
        if !(vote.game_session_id == timer.game_session_id && vote.bingo_item_id
            == timer.bingo_item_id) {
            votes.push(vote);
        }
        i += 1;
    }
    assert(db.item_check_votes@.take(i as int) =~= db.item_check_votes@);
    let mut timers: Vec<RemoveExpiredVotesTimer> = Vec::new();
    let mut j: usize = 0;
    proof {
        reveal(Seq::filter);
        assert(db.vote_timers@.take(0) =~= Seq::<RemoveExpiredVotesTimer>::empty());
    }
    while j < db.vote_timers.len()
        invariant
            j <= db.vote_timers.len(),
            timers@ == db.vote_timers@.take(j as int).filter(other_timer(timer)),
        decreases db.vote_timers.len() - j,
    {
        let row = db.vote_timers[j];
        proof {
            db.vote_timers@.lemma_take_succ_push(j as int);
            db.vote_timers@.take(j as int).lemma_filter_push(row, other_timer(timer));
        }
        if row != timer {
            timers.push(row);
        }
        j += 1;
    }
    assert(db.vote_timers@.take(j as int) =~= db.vote_timers@);
    db.item_check_votes = votes;
    db.vote_timers = timers;
    Ok(())
}

} // verus!
