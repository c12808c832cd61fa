use deployment_bingo::{
    cast_check_off_vote, deal_board, get_required_vote_threshold, remove_expired_votes,
    BingoItem, CallContext, Database, GameSession, ItemCheckVote, PlayerItemSubject,
    PlayerKey, PlayerSession, RemoveExpiredVotesTimer, ScheduleAt, VoteOutcome,
    VOTE_EXPIRY_MICROS,
};

fn key(n: u128) -> PlayerKey {
    PlayerKey { hi: 0, lo: n }
}

fn ctx(n: u128, timestamp: i64) -> CallContext {
    CallContext { sender: key(n), timestamp }
}

fn items(ids: std::ops::RangeInclusive<u32>) -> Vec<BingoItem> {
    ids.map(|id| BingoItem { id, body: format!("item {}", id) }).collect()
}

/// A session with id 1, the given players in it, and one board for the first of them dealt
/// from the items 1 to 25.
fn session_with(players: &[u128]) -> Database {
    let mut db = Database::new();
    db.game_sessions.push(GameSession {
        id: 1,
        name: "game".to_string(),
        active: true,
        winner: None,
        board_items: vec![],
        started: 0,
    });
    deal_board(&mut db, key(players[0]), 1, &items(1..=25)).unwrap();
    for p in players {
        db.player_sessions.push(PlayerSession { player_id: key(*p), game_session_id: 1 });
    }
    db
}

fn is_checked(db: &Database, item: u32) -> bool {
    db.game_sessions[0].board_items.iter().find(|b| b.id == item).unwrap().checked
}

#[test]
fn four_players_need_two_votes() {
    let players = vec![key(1), key(2), key(3), key(4)];
    assert_eq!(get_required_vote_threshold(&players, &vec![]), 2);
    let mut db = session_with(&[1, 2, 3, 4]);
    assert_eq!(cast_check_off_vote(&mut db, &ctx(1, 100), 1, 7), Ok(VoteOutcome::Pending));
    assert!(!is_checked(&db, 7));
    assert_eq!(cast_check_off_vote(&mut db, &ctx(2, 200), 1, 7), Ok(VoteOutcome::Checked));
    assert!(is_checked(&db, 7));
    assert!(!is_checked(&db, 8));
    assert_eq!(
        db.item_check_votes,
        vec![
            ItemCheckVote { id: 1, game_session_id: 1, bingo_item_id: 7, player_id: key(1), created_at: 100 },
            ItemCheckVote { id: 2, game_session_id: 1, bingo_item_id: 7, player_id: key(2), created_at: 200 },
        ]
    );
}

#[test]
fn an_exempt_player_lowers_the_threshold() {
    let players = vec![key(1), key(2), key(3), key(4)];
    assert_eq!(get_required_vote_threshold(&players, &vec![key(2)]), 1);
    let mut db = session_with(&[1, 2, 3, 4]);
    db.player_item_subjects.push(PlayerItemSubject { player_id: key(2), bingo_item_id: 7 });
    assert_eq!(cast_check_off_vote(&mut db, &ctx(3, 100), 1, 7), Ok(VoteOutcome::Checked));
    assert!(is_checked(&db, 7));
    assert!(db.vote_timers.is_empty());
}

#[test]
fn threshold_formula_on_small_sessions() {
    let none: Vec<PlayerKey> = vec![];
    assert_eq!(get_required_vote_threshold(&none, &none), 0);
    assert_eq!(get_required_vote_threshold(&vec![key(1)], &none), 0);
    assert_eq!(get_required_vote_threshold(&vec![key(1), key(2)], &none), 1);
    assert_eq!(get_required_vote_threshold(&vec![key(1), key(2), key(3)], &none), 1);
    let five = vec![key(1), key(2), key(3), key(4), key(5)];
    assert_eq!(get_required_vote_threshold(&five, &none), 2);
    assert_eq!(get_required_vote_threshold(&five, &vec![key(9)]), 2);
    assert_eq!(get_required_vote_threshold(&five, &vec![key(1), key(5), key(9)]), 1);
    assert_eq!(get_required_vote_threshold(&five, &five), 0);
}

#[test]
fn players_listed_twice_count_once() {
    let players = vec![key(1), key(2), key(1), key(2), key(3), key(4), key(4)];
    assert_eq!(get_required_vote_threshold(&players, &vec![]), 2);
    assert_eq!(get_required_vote_threshold(&players, &vec![key(3), key(3)]), 1);
}

#[test]
fn with_no_eligible_voter_the_first_vote_checks() {
    let mut db = session_with(&[1]);
    db.player_sessions.clear();
    assert_eq!(cast_check_off_vote(&mut db, &ctx(1, 5), 1, 3), Ok(VoteOutcome::Checked));
    assert!(is_checked(&db, 3));
    let mut db = session_with(&[1, 2]);
    db.player_item_subjects.push(PlayerItemSubject { player_id: key(1), bingo_item_id: 3 });
    db.player_item_subjects.push(PlayerItemSubject { player_id: key(2), bingo_item_id: 3 });
    assert_eq!(cast_check_off_vote(&mut db, &ctx(1, 5), 1, 3), Ok(VoteOutcome::Checked));
    assert!(is_checked(&db, 3));
}

#[test]
fn one_player_may_vote_twice() {
    let mut db = session_with(&[1, 2, 3, 4]);
    assert_eq!(cast_check_off_vote(&mut db, &ctx(1, 100), 1, 7), Ok(VoteOutcome::Pending));
    assert_eq!(cast_check_off_vote(&mut db, &ctx(1, 101), 1, 7), Ok(VoteOutcome::Checked));
    assert!(is_checked(&db, 7));
}

#[test]
fn votes_pile_up_on_a_checked_item() {
    let mut db = session_with(&[1, 2]);
    assert_eq!(cast_check_off_vote(&mut db, &ctx(1, 1), 1, 7), Ok(VoteOutcome::Checked));
    assert_eq!(cast_check_off_vote(&mut db, &ctx(2, 2), 1, 7), Ok(VoteOutcome::Checked));
    assert_eq!(db.item_check_votes.len(), 2);
    assert!(is_checked(&db, 7));
    assert!(db.vote_timers.is_empty());
}

#[test]
fn two_short_votes_arm_one_timer() {
    let mut db = session_with(&[1, 2, 3, 4, 5, 6]);
    assert_eq!(cast_check_off_vote(&mut db, &ctx(1, 1_000), 1, 7), Ok(VoteOutcome::Pending));
    assert_eq!(cast_check_off_vote(&mut db, &ctx(2, 2_000), 1, 7), Ok(VoteOutcome::Pending));
    assert_eq!(
        db.vote_timers,
        vec![RemoveExpiredVotesTimer {
            scheduled_id: 1,
            bingo_item_id: 7,
            game_session_id: 1,
            scheduled_at: ScheduleAt::Time(1_000 + 10_000_000),
        }]
    );
    assert_eq!(VOTE_EXPIRY_MICROS, 10_000_000);
    assert_eq!(cast_check_off_vote(&mut db, &ctx(2, 3_000), 1, 8), Ok(VoteOutcome::Pending));
    assert_eq!(db.vote_timers.len(), 2);
    assert_eq!(db.vote_timers[1].scheduled_id, 2);
    assert_eq!(db.vote_timers[1].bingo_item_id, 8);
    assert_eq!(db.sequences.vote_timer, 3);
}

#[test]
fn an_expiry_clears_the_votes_and_a_new_round_can_succeed() {
    let mut db = session_with(&[1, 2, 3, 4]);
    assert_eq!(cast_check_off_vote(&mut db, &ctx(1, 1_000), 1, 7), Ok(VoteOutcome::Pending));
    assert_eq!(cast_check_off_vote(&mut db, &ctx(1, 1_500), 1, 9), Ok(VoteOutcome::Pending));
    let timer = db.vote_timers[0];
    assert_eq!(remove_expired_votes(&mut db, timer), Ok(()));
    assert!(db.item_check_votes.iter().all(|v| v.bingo_item_id != 7));
    assert_eq!(db.item_check_votes.len(), 1);
    assert_eq!(db.item_check_votes[0].bingo_item_id, 9);
    assert_eq!(db.vote_timers.len(), 1);
    assert_eq!(db.vote_timers[0].bingo_item_id, 9);
    assert!(!is_checked(&db, 7));
    let after_fire = db.clone();
    assert_eq!(remove_expired_votes(&mut db, timer), Ok(()));
    assert_eq!(db, after_fire);
    assert_eq!(
        cast_check_off_vote(&mut db, &ctx(3, 20_000_000), 1, 7),
        Ok(VoteOutcome::Pending)
    );
    assert_eq!(db.vote_timers.len(), 2);
    assert_eq!(db.vote_timers[1].scheduled_at, ScheduleAt::Time(30_000_000));
    assert_eq!(
        cast_check_off_vote(&mut db, &ctx(4, 21_000_000), 1, 7),
        Ok(VoteOutcome::Checked)
    );
    assert!(is_checked(&db, 7));
}

#[test]
fn an_expiry_after_the_check_keeps_the_item_checked() {
    let mut db = session_with(&[1, 2, 3, 4]);
    cast_check_off_vote(&mut db, &ctx(1, 1_000), 1, 7).unwrap();
    cast_check_off_vote(&mut db, &ctx(2, 2_000), 1, 7).unwrap();
    assert!(is_checked(&db, 7));
    let timer = db.vote_timers[0];
    remove_expired_votes(&mut db, timer).unwrap();
    assert!(db.item_check_votes.is_empty());
    assert!(db.vote_timers.is_empty());
    assert!(is_checked(&db, 7));
}

#[test]
fn an_expiry_leaves_other_sessions_alone() {
    let mut db = session_with(&[1, 2, 3, 4]);
    db.game_sessions.push(GameSession {
        id: 2,
        name: "other".to_string(),
        active: true,
        winner: None,
        board_items: vec![],
        started: 0,
    });
    for p in [5, 6, 7, 8] {
        db.player_sessions.push(PlayerSession { player_id: key(p), game_session_id: 2 });
    }
    cast_check_off_vote(&mut db, &ctx(1, 1_000), 1, 7).unwrap();
    assert_eq!(cast_check_off_vote(&mut db, &ctx(5, 1_000), 2, 7), Ok(VoteOutcome::Pending));
    assert_eq!(db.item_check_votes.len(), 2);
    assert_eq!(db.vote_timers.len(), 2);
    let timer = db.vote_timers[0];
    remove_expired_votes(&mut db, timer).unwrap();
    assert_eq!(db.item_check_votes.len(), 1);
    assert_eq!(db.item_check_votes[0].game_session_id, 2);
}

#[test]
fn a_vote_in_a_missing_session_does_nothing() {
    let mut db = Database::new();
    let before = db.clone();
    assert_eq!(cast_check_off_vote(&mut db, &ctx(1, 10), 4, 2), Ok(VoteOutcome::Pending));
    assert_eq!(db, before);
    let mut db = session_with(&[1, 2, 3, 4]);
    db.player_sessions.push(PlayerSession { player_id: key(1), game_session_id: 4 });
    db.player_sessions.push(PlayerSession { player_id: key(2), game_session_id: 4 });
    db.player_sessions.push(PlayerSession { player_id: key(3), game_session_id: 4 });
    let before = db.clone();
    assert_eq!(cast_check_off_vote(&mut db, &ctx(1, 10), 4, 7), Ok(VoteOutcome::Pending));
    assert_eq!(db, before);
}

#[test]
fn a_vote_for_an_item_off_the_boards_checks_nothing() {
    let mut db = session_with(&[1]);
    let before = db.game_sessions.clone();
    assert_eq!(cast_check_off_vote(&mut db, &ctx(1, 10), 1, 99), Ok(VoteOutcome::Checked));
    assert_eq!(db.game_sessions, before);
    assert_eq!(db.item_check_votes.len(), 1);
}
