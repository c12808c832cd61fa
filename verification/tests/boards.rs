use deployment_bingo::{
    create_bingo_board, deal_board, join_game, start_new_game, submit_new_bingo_item, BingoError,
    BingoItem, BoardItem, BoardItemTile, CallContext, Database, GameSession, PlayerItemSubject,
    PlayerKey, PlayerSession,
};
use spacetimedb::rand::rngs::StdRng;
use spacetimedb::rand::SeedableRng;

fn key(n: u128) -> PlayerKey {
    PlayerKey { hi: 0, lo: n }
}

fn ctx(n: u128, timestamp: i64) -> CallContext {
    CallContext { sender: key(n), timestamp }
}

fn catalog(db: &mut Database, count: u32) {
    for i in 0..count {
        submit_new_bingo_item(db, format!("item {}", i + 1), None).unwrap();
    }
}

fn open_session(db: &mut Database, id: u32) {
    db.game_sessions.push(GameSession {
        id,
        name: format!("game {}", id),
        active: true,
        winner: None,
        board_items: vec![],
        started: 0,
    });
}

fn items(ids: std::ops::RangeInclusive<u32>) -> Vec<BingoItem> {
    ids.map(|id| BingoItem { id, body: format!("item {}", id) }).collect()
}

#[test]
fn exactly_twenty_five_candidates_make_a_board() {
    let mut db = Database::new();
    catalog(&mut db, 25);
    let mut rng = StdRng::seed_from_u64(7);
    assert_eq!(start_new_game(&mut db, &ctx(1, 1000), "friday".to_string(), &mut rng), Ok(()));
    assert_eq!(db.bingo_boards.len(), 1);
    let board = &db.bingo_boards[0];
    assert_eq!(board.id, 1);
    assert_eq!(board.player_id, key(1));
    assert_eq!(board.game_session_id, 1);
    assert_eq!(board.bingo_item_tiles.len(), 25);
    for (k, tile) in board.bingo_item_tiles.iter().enumerate() {
        assert_eq!(tile.x as usize, k / 5);
        assert_eq!(tile.y as usize, k % 5);
        assert!(tile.id >= 1 && tile.id <= 25);
    }
    let mut ids: Vec<u32> = board.bingo_item_tiles.iter().map(|t| t.id).collect();
    ids.sort();
    ids.dedup();
    assert_eq!(ids.len(), 25);
    let session = &db.game_sessions[0];
    assert_eq!(session.id, 1);
    assert_eq!(session.name, "friday");
    assert!(session.active);
    assert_eq!(session.winner, None);
    assert_eq!(session.started, 1000);
    assert_eq!(session.board_items.len(), 25);
    assert!(session.board_items.iter().all(|item| !item.checked));
    assert_eq!(
        db.player_sessions,
        vec![PlayerSession { player_id: key(1), game_session_id: 1 }]
    );
    assert_eq!(db.sequences.bingo_board, 2);
    assert_eq!(db.sequences.game_session, 2);
}

#[test]
fn twenty_four_candidates_are_refused_and_nothing_changes() {
    let mut db = Database::new();
    catalog(&mut db, 24);
    open_session(&mut db, 1);
    let before = db.clone();
    let mut rng = StdRng::seed_from_u64(7);
    assert_eq!(
        create_bingo_board(&mut db, key(1), 1, &mut rng),
        Err(BingoError::InsufficientCandidates)
    );
    assert_eq!(db, before);
    assert_eq!(join_game(&mut db, &ctx(1, 0), 1, &mut rng), Err(BingoError::InsufficientCandidates));
    assert_eq!(db, before);
    assert_eq!(
        start_new_game(&mut db, &ctx(1, 0), "friday".to_string(), &mut rng),
        Err(BingoError::InsufficientCandidates)
    );
    assert_eq!(db, before);
}

#[test]
fn start_new_game_refuses_an_empty_name() {
    let mut db = Database::new();
    catalog(&mut db, 25);
    let before = db.clone();
    let mut rng = StdRng::seed_from_u64(1);
    assert_eq!(
        start_new_game(&mut db, &ctx(1, 0), String::new(), &mut rng),
        Err(BingoError::EmptyName)
    );
    assert_eq!(db, before);
}

#[test]
fn a_board_never_shows_an_item_about_its_player() {
    for seed in 0..40u64 {
        let mut db = Database::new();
        catalog(&mut db, 25);
        submit_new_bingo_item(&mut db, "about one".to_string(), Some(vec![key(1)])).unwrap();
        submit_new_bingo_item(&mut db, "about two".to_string(), Some(vec![key(2), key(3)]))
            .unwrap();
        open_session(&mut db, 1);
        let mut rng = StdRng::seed_from_u64(seed);
        assert_eq!(create_bingo_board(&mut db, key(1), 1, &mut rng), Ok(()));
        assert_eq!(create_bingo_board(&mut db, key(2), 1, &mut rng), Ok(()));
        assert!(db.bingo_boards[0].bingo_item_tiles.iter().all(|t| t.id != 26));
        assert!(db.bingo_boards[1].bingo_item_tiles.iter().all(|t| t.id != 27));
    }
}

#[test]
fn exclusions_can_leave_too_few_candidates() {
    let mut db = Database::new();
    catalog(&mut db, 24);
    submit_new_bingo_item(&mut db, "about one".to_string(), Some(vec![key(1)])).unwrap();
    open_session(&mut db, 1);
    let before = db.clone();
    let mut rng = StdRng::seed_from_u64(3);
    assert_eq!(
        create_bingo_board(&mut db, key(1), 1, &mut rng),
        Err(BingoError::InsufficientCandidates)
    );
    assert_eq!(db, before);
    assert_eq!(create_bingo_board(&mut db, key(2), 1, &mut rng), Ok(()));
    assert_eq!(db.bingo_boards.len(), 1);
}

#[test]
fn a_missing_session_makes_no_board_and_no_player() {
    let mut db = Database::new();
    catalog(&mut db, 30);
    let before = db.clone();
    let mut rng = StdRng::seed_from_u64(3);
    assert_eq!(create_bingo_board(&mut db, key(1), 9, &mut rng), Ok(()));
    assert_eq!(db, before);
    assert_eq!(join_game(&mut db, &ctx(1, 0), 9, &mut rng), Ok(()));
    assert_eq!(db, before);
    assert!(db.bingo_boards.is_empty());
    assert!(db.player_sessions.is_empty());
}

#[test]
fn joining_a_missing_session_with_few_items_is_no_refusal() {
    let mut db = Database::new();
    catalog(&mut db, 3);
    let before = db.clone();
    let mut rng = StdRng::seed_from_u64(3);
    assert_eq!(join_game(&mut db, &ctx(1, 0), 1, &mut rng), Ok(()));
    assert_eq!(db, before);
}

#[test]
fn a_deal_takes_the_draw_from_its_end() {
    let mut db = Database::new();
    open_session(&mut db, 1);
    let drawn = items(1..=27);
    assert_eq!(deal_board(&mut db, key(5), 1, &drawn), Ok(()));
    let tiles = &db.bingo_boards[0].bingo_item_tiles;
    assert_eq!(tiles.len(), 25);
    assert_eq!(tiles[0], BoardItemTile { id: 27, x: 0, y: 0 });
    assert_eq!(tiles[1], BoardItemTile { id: 26, x: 0, y: 1 });
    assert_eq!(tiles[4], BoardItemTile { id: 23, x: 0, y: 4 });
    assert_eq!(tiles[5], BoardItemTile { id: 22, x: 1, y: 0 });
    assert_eq!(tiles[12], BoardItemTile { id: 15, x: 2, y: 2 });
    assert_eq!(tiles[24], BoardItemTile { id: 3, x: 4, y: 4 });
    let cache = &db.game_sessions[0].board_items;
    assert_eq!(cache.len(), 25);
    assert_eq!(cache[0], BoardItem { id: 27, body: "item 27".to_string(), checked: false });
    assert_eq!(cache[24], BoardItem { id: 3, body: "item 3".to_string(), checked: false });
}

#[test]
fn players_of_one_session_share_its_items() {
    let mut db = Database::new();
    open_session(&mut db, 1);
    assert_eq!(deal_board(&mut db, key(1), 1, &items(1..=25)), Ok(()));
    db.game_sessions[0].board_items[0].checked = true;
    assert_eq!(deal_board(&mut db, key(2), 1, &items(11..=35)), Ok(()));
    assert_eq!(deal_board(&mut db, key(3), 1, &items(1..=25)), Ok(()));
    let cache = &db.game_sessions[0].board_items;
    assert_eq!(cache.len(), 35);
    let mut ids: Vec<u32> = cache.iter().map(|item| item.id).collect();
    ids.sort();
    assert_eq!(ids, (1..=35).collect::<Vec<u32>>());
    assert_eq!(cache[0].id, 25);
    assert!(cache[0].checked);
    assert_eq!(cache[25].id, 35);
    assert_eq!(cache[34].id, 26);
    assert_eq!(db.bingo_boards.len(), 3);
    assert_eq!(db.bingo_boards[1].id, 2);
    assert_eq!(db.bingo_boards[2].id, 3);
}

#[test]
fn a_short_draw_is_refused() {
    let mut db = Database::new();
    open_session(&mut db, 1);
    let before = db.clone();
    assert_eq!(
        deal_board(&mut db, key(1), 1, &items(1..=24)),
        Err(BingoError::InsufficientCandidates)
    );
    assert_eq!(db, before);
}

#[test]
fn the_shuffle_reorders_the_candidates() {
    let mut db = Database::new();
    catalog(&mut db, 25);
    open_session(&mut db, 1);
    let mut rng = StdRng::seed_from_u64(11);
    assert_eq!(create_bingo_board(&mut db, key(1), 1, &mut rng), Ok(()));
    let dealt: Vec<u32> = db.bingo_boards[0].bingo_item_tiles.iter().map(|t| t.id).collect();
    let unshuffled: Vec<u32> = (1..=25).rev().collect();
    assert_ne!(dealt, unshuffled);
    let mut sorted = dealt.clone();
    sorted.sort();
    assert_eq!(sorted, (1..=25).collect::<Vec<u32>>());
}

#[test]
fn the_same_seed_gives_the_same_board() {
    let mut first = Database::new();
    catalog(&mut first, 40);
    open_session(&mut first, 1);
    let mut second = first.clone();
    let mut rng = StdRng::seed_from_u64(99);
    create_bingo_board(&mut first, key(1), 1, &mut rng).unwrap();
    let mut rng = StdRng::seed_from_u64(99);
    create_bingo_board(&mut second, key(1), 1, &mut rng).unwrap();
    assert_eq!(first, second);
}

#[test]
fn subject_rows_follow_the_submission() {
    let mut db = Database::new();
    submit_new_bingo_item(&mut db, "first".to_string(), Some(vec![key(4), key(2)])).unwrap();
    submit_new_bingo_item(&mut db, "second".to_string(), None).unwrap();
    assert_eq!(
        db.bingo_items,
        vec![
            BingoItem { id: 1, body: "first".to_string() },
            BingoItem { id: 2, body: "second".to_string() }
        ]
    );
    assert_eq!(
        db.player_item_subjects,
        vec![
            PlayerItemSubject { player_id: key(4), bingo_item_id: 1 },
            PlayerItemSubject { player_id: key(2), bingo_item_id: 1 }
        ]
    );
    assert_eq!(db.sequences.bingo_item, 3);
}

#[test]
fn joining_twice_enters_the_player_once() {
    let mut db = Database::new();
    catalog(&mut db, 25);
    open_session(&mut db, 1);
    let mut rng = StdRng::seed_from_u64(5);
    assert_eq!(join_game(&mut db, &ctx(1, 0), 1, &mut rng), Ok(()));
    assert_eq!(join_game(&mut db, &ctx(1, 0), 1, &mut rng), Ok(()));
    assert_eq!(join_game(&mut db, &ctx(2, 0), 1, &mut rng), Ok(()));
    assert_eq!(
        db.player_sessions,
        vec![
            PlayerSession { player_id: key(1), game_session_id: 1 },
            PlayerSession { player_id: key(2), game_session_id: 1 }
        ]
    );
    assert_eq!(db.bingo_boards.len(), 3);
    assert_eq!(db.game_sessions[0].board_items.len(), 25);
}

#[test]
fn a_subject_named_twice_is_linked_once() {
    let mut db = Database::new();
    submit_new_bingo_item(&mut db, "x".to_string(), Some(vec![key(1), key(2), key(1)])).unwrap();
    assert_eq!(
        db.player_item_subjects,
        vec![
            PlayerItemSubject { player_id: key(1), bingo_item_id: 1 },
            PlayerItemSubject { player_id: key(2), bingo_item_id: 1 }
        ]
    );
}
