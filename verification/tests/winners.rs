use deployment_bingo::{
    cast_check_off_vote, check_for_winner, deal_board, scan_board, BingoBoard, BingoError,
    BingoItem, BoardItem, BoardItemTile, CallContext, Database, GameSession, PlayerKey,
    PlayerSession, VoteOutcome,
};

fn key(n: u128) -> PlayerKey {
    PlayerKey { hi: 0, lo: n }
}

fn ctx(n: u128, timestamp: i64) -> CallContext {
    CallContext { sender: key(n), timestamp }
}

fn items(ids: std::ops::RangeInclusive<u32>) -> Vec<BingoItem> {
    ids.map(|id| BingoItem { id, body: format!("item {}", id) }).collect()
}

/// Session 1 with two boards: player 1 holds the items 1 to 25, player 2 the items 26 to 50.
fn two_boards() -> Database {
    let mut db = Database::new();
    db.game_sessions.push(GameSession {
        id: 1,
        name: "game".to_string(),
        active: true,
        winner: None,
        board_items: vec![],
        started: 0,
    });
    deal_board(&mut db, key(1), 1, &items(1..=25)).unwrap();
    deal_board(&mut db, key(2), 1, &items(26..=50)).unwrap();
    db
}

fn item_at(db: &Database, board: usize, x: u8, y: u8) -> u32 {
    db.bingo_boards[board].bingo_item_tiles.iter().find(|t| t.x == x && t.y == y).unwrap().id
}

fn check(db: &mut Database, item: u32) {
    db.game_sessions[0].board_items.iter_mut().find(|b| b.id == item).unwrap().checked = true;
}

#[test]
fn a_full_row_wins_for_its_board_only() {
    let mut db = two_boards();
    for x in 0..5u8 {
        let item = item_at(&db, 0, x, 2);
        check(&mut db, item);
    }
    assert_eq!(check_for_winner(&mut db, 2), Ok(()));
    assert_eq!(db.game_sessions[0].winner, None);
    assert!(db.game_sessions[0].active);
    assert_eq!(check_for_winner(&mut db, 1), Ok(()));
    assert_eq!(db.game_sessions[0].winner, Some(key(1)));
    assert!(!db.game_sessions[0].active);
}

#[test]
fn four_of_a_row_do_not_win() {
    let mut db = two_boards();
    for x in 0..4u8 {
        let item = item_at(&db, 0, x, 2);
        check(&mut db, item);
    }
    let item = item_at(&db, 0, 4, 3);
    check(&mut db, item);
    let before = db.clone();
    assert_eq!(check_for_winner(&mut db, 1), Ok(()));
    assert_eq!(db, before);
}

#[test]
fn a_full_column_wins() {
    let mut db = two_boards();
    for y in 0..5u8 {
        let item = item_at(&db, 1, 3, y);
        check(&mut db, item);
    }
    assert_eq!(check_for_winner(&mut db, 1), Ok(()));
    assert_eq!(db.game_sessions[0].winner, None);
    assert_eq!(check_for_winner(&mut db, 2), Ok(()));
    assert_eq!(db.game_sessions[0].winner, Some(key(2)));
    assert!(!db.game_sessions[0].active);
}

#[test]
fn the_main_diagonal_wins() {
    let mut db = two_boards();
    for d in 0..5u8 {
        let item = item_at(&db, 0, d, d);
        check(&mut db, item);
    }
    assert_eq!(check_for_winner(&mut db, 1), Ok(()));
    assert_eq!(db.game_sessions[0].winner, Some(key(1)));
}

#[test]
fn the_other_diagonal_wins() {
    let mut db = two_boards();
    for x in 0..5u8 {
        let item = item_at(&db, 0, x, 4 - x);
        check(&mut db, item);
    }
    assert_eq!(check_for_winner(&mut db, 1), Ok(()));
    assert_eq!(db.game_sessions[0].winner, Some(key(1)));
    assert!(!db.game_sessions[0].active);
}

#[test]
fn five_scattered_tiles_do_not_win() {
    let mut db = two_boards();
    for (x, y) in [(0u8, 0u8), (1, 1), (2, 2), (3, 3), (4, 3), (3, 1), (0, 4)] {
        let item = item_at(&db, 0, x, y);
        check(&mut db, item);
    }
    assert_eq!(check_for_winner(&mut db, 1), Ok(()));
    assert_eq!(db.game_sessions[0].winner, None);
}

#[test]
fn scan_reports_lines_and_strays() {
    let tiles: Vec<BoardItemTile> =
        (0..25u32).map(|k| BoardItemTile { id: k + 1, x: (k / 5) as u8, y: (k % 5) as u8 }).collect();
    let mut cache: Vec<BoardItem> = (1..=25u32)
        .map(|id| BoardItem { id, body: String::new(), checked: false })
        .collect();
    assert_eq!(scan_board(&tiles, &cache), Ok(false));
    for id in [1usize, 2, 3, 4] {
        cache[id - 1].checked = true;
    }
    assert_eq!(scan_board(&tiles, &cache), Ok(false));
    cache[4].checked = true;
    assert_eq!(scan_board(&tiles, &cache), Ok(true));
    cache.remove(20);
    assert_eq!(scan_board(&tiles, &cache), Err(BingoError::DataConsistency));
    assert_eq!(scan_board(&vec![], &vec![]), Ok(false));
}

#[test]
fn a_tile_without_its_item_is_a_fault() {
    let mut db = two_boards();
    for x in 0..5u8 {
        let item = item_at(&db, 0, x, 2);
        check(&mut db, item);
    }
    let lost = item_at(&db, 0, 4, 4);
    db.game_sessions[0].board_items.retain(|b| b.id != lost);
    let before = db.clone();
    assert_eq!(check_for_winner(&mut db, 1), Err(BingoError::DataConsistency));
    assert_eq!(db, before);
    assert_eq!(check_for_winner(&mut db, 2), Ok(()));
}

#[test]
fn a_fault_takes_the_whole_vote_back() {
    let mut db = two_boards();
    db.player_sessions.push(PlayerSession { player_id: key(1), game_session_id: 1 });
    let lost = item_at(&db, 1, 0, 0);
    db.game_sessions[0].board_items.retain(|b| b.id != lost);
    let before = db.clone();
    let item = item_at(&db, 0, 0, 0);
    assert_eq!(cast_check_off_vote(&mut db, &ctx(1, 10), 1, item), Err(BingoError::DataConsistency));
    assert_eq!(db, before);
}

#[test]
fn missing_boards_and_sessions_are_passed_over() {
    let mut db = two_boards();
    let before = db.clone();
    assert_eq!(check_for_winner(&mut db, 77), Ok(()));
    assert_eq!(db, before);
    db.bingo_boards.push(BingoBoard {
        id: 3,
        player_id: key(3),
        game_session_id: 8,
        bingo_item_tiles: vec![BoardItemTile { id: 1000, x: 0, y: 0 }],
    });
    let before = db.clone();
    assert_eq!(check_for_winner(&mut db, 3), Ok(()));
    assert_eq!(db, before);
}

#[test]
fn a_vote_can_complete_another_players_line() {
    let mut db = two_boards();
    db.player_sessions.push(PlayerSession { player_id: key(1), game_session_id: 1 });
    db.player_sessions.push(PlayerSession { player_id: key(2), game_session_id: 1 });
    for x in 0..5u8 {
        let item = item_at(&db, 1, x, 0);
        assert_eq!(db.game_sessions[0].winner, None);
        assert_eq!(cast_check_off_vote(&mut db, &ctx(1, 10), 1, item), Ok(VoteOutcome::Checked));
    }
    assert_eq!(db.game_sessions[0].winner, Some(key(2)));
    assert!(!db.game_sessions[0].active);
    assert_eq!(db.item_check_votes.len(), 5);
}

#[test]
fn the_last_complete_board_is_the_winner() {
    let mut db = two_boards();
    deal_board(&mut db, key(3), 1, &items(1..=25)).unwrap();
    db.player_sessions.push(PlayerSession { player_id: key(1), game_session_id: 1 });
    for y in 0..5u8 {
        let item = item_at(&db, 0, 1, y);
        cast_check_off_vote(&mut db, &ctx(1, 10), 1, item).unwrap();
    }
    assert_eq!(db.game_sessions[0].winner, Some(key(3)));
}

#[test]
fn the_index_keeps_the_first_entry_of_an_id() {
    let cache = vec![
        BoardItem { id: 4, body: "a".to_string(), checked: true },
        BoardItem { id: 9, body: "b".to_string(), checked: false },
        BoardItem { id: 4, body: "c".to_string(), checked: false },
    ];
    let index = deployment_bingo::index_items(&cache);
    assert_eq!(index.len(), 2);
    assert_eq!(index.get(&4), Some(&true));
    assert_eq!(index.get(&9), Some(&false));
    assert_eq!(index.get(&5), None);
}

#[test]
fn tiles_off_the_grid_count_for_no_row_or_column() {
    let tiles: Vec<BoardItemTile> =
        (0..6u32).map(|k| BoardItemTile { id: k + 1, x: 7, y: 9 }).collect();
    let cache: Vec<BoardItem> =
        (1..=6u32).map(|id| BoardItem { id, body: String::new(), checked: true }).collect();
    assert_eq!(scan_board(&tiles, &cache), Ok(false));
    let tiles: Vec<BoardItemTile> =
        (0..5u32).map(|k| BoardItemTile { id: k + 1, x: 200, y: 200 }).collect();
    assert_eq!(scan_board(&tiles, &cache), Ok(true));
}
