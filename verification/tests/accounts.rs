use deployment_bingo::{
    add_player, client_connected, create_player, create_player_invite, delete_bingo_item,
    generate_salt, hash_password, hash_password_with_salt, identity_disconnected,
    remove_expired_player_invites, set_name, sign_in, sign_in_at, submit_new_bingo_item,
    use_player_invite, validate_name, verify_password, BingoError, CallContext, Database, Player,
    PlayerInvite, PlayerKey, RemoveExpiredInvitesTimer, ScheduleAt, INVITE_EXPIRY_MICROS,
};

fn key(n: u128) -> PlayerKey {
    PlayerKey { hi: 0, lo: n }
}

fn ctx(n: u128, timestamp: i64) -> CallContext {
    CallContext { sender: key(n), timestamp }
}

fn player(id: u32, n: u128, name: &str, password: &str) -> Player {
    Player {
        id,
        identity: key(n),
        name: name.to_string(),
        password: password.to_string(),
        online: false,
    }
}

#[test]
fn names_must_not_be_empty() {
    assert_eq!(validate_name(String::new()), Err(BingoError::EmptyName));
    assert_eq!(validate_name("ada".to_string()), Ok("ada".to_string()));
    assert_eq!(validate_name(" ".to_string()), Ok(" ".to_string()));
}

#[test]
fn set_name_changes_the_callers_row() {
    let mut db = Database::new();
    db.players.push(player(1, 10, "old", "x"));
    db.players.push(player(2, 20, "other", "y"));
    assert_eq!(set_name(&mut db, &ctx(20, 0), "new".to_string()), Ok(()));
    assert_eq!(db.players[0], player(1, 10, "old", "x"));
    assert_eq!(db.players[1], player(2, 20, "new", "y"));
    let before = db.clone();
    assert_eq!(set_name(&mut db, &ctx(20, 0), String::new()), Err(BingoError::EmptyName));
    assert_eq!(set_name(&mut db, &ctx(30, 0), "x".to_string()), Err(BingoError::UnknownPlayer));
    assert_eq!(db, before);
}

#[test]
fn refusals_have_their_texts() {
    assert_eq!(BingoError::EmptyName.message(), "Names must not be empty");
    assert_eq!(BingoError::UnknownPlayer.message(), "Cannot set name for unknown player");
    assert_eq!(
        BingoError::InsufficientCandidates.message(),
        "Not enough valid bingo items to make a board"
    );
    assert_eq!(BingoError::DataConsistency.message(), "No board item found in session");
    assert_eq!(
        BingoError::InviteAlreadyUsed("abc".to_string()).message(),
        "Invite for token abc has already been used."
    );
    assert_eq!(
        BingoError::InviteNotFound("abc".to_string()).message(),
        "No invite found for token: abc"
    );
    assert_eq!(BingoError::Hashing(argon2::Error::DecodingFail).message(), "Decoding failed");
}

#[test]
fn presence_follows_connections() {
    let mut db = Database::new();
    db.players.push(player(1, 10, "a", "x"));
    client_connected(&mut db, &ctx(10, 0));
    assert!(db.players[0].online);
    identity_disconnected(&mut db, &ctx(10, 0));
    assert!(!db.players[0].online);
    let before = db.clone();
    client_connected(&mut db, &ctx(11, 0));
    identity_disconnected(&mut db, &ctx(11, 0));
    assert_eq!(db, before);
}

#[test]
fn invites_are_used_once() {
    let mut db = Database::new();
    assert_eq!(create_player_invite(&mut db, &ctx(1, 5_000), "tok".to_string()), Ok(()));
    assert_eq!(db.player_invites, vec![PlayerInvite { id: 1, token: "tok".to_string(), used: false }]);
    assert_eq!(
        db.invite_timers,
        vec![RemoveExpiredInvitesTimer {
            scheduled_id: 1,
            invite_id: 1,
            scheduled_at: ScheduleAt::Time(5_000 + 3_600_000_000),
        }]
    );
    assert_eq!(INVITE_EXPIRY_MICROS, 3_600_000_000);
    assert_eq!(use_player_invite(&mut db, "tok".to_string()), Ok(()));
    assert!(db.player_invites[0].used);
    let before = db.clone();
    assert_eq!(
        use_player_invite(&mut db, "tok".to_string()),
        Err(BingoError::InviteAlreadyUsed("tok".to_string()))
    );
    assert_eq!(
        use_player_invite(&mut db, "nope".to_string()),
        Err(BingoError::InviteNotFound("nope".to_string()))
    );
    assert_eq!(
        create_player_invite(&mut db, &ctx(1, 6_000), "tok".to_string()),
        Err(BingoError::TokenTaken)
    );
    assert_eq!(db, before);
}

#[test]
fn an_invite_goes_when_its_timer_fires() {
    let mut db = Database::new();
    create_player_invite(&mut db, &ctx(1, 1), "one".to_string()).unwrap();
    create_player_invite(&mut db, &ctx(1, 2), "two".to_string()).unwrap();
    let timer = db.invite_timers[0];
    remove_expired_player_invites(&mut db, timer);
    assert_eq!(db.player_invites, vec![PlayerInvite { id: 2, token: "two".to_string(), used: false }]);
    assert_eq!(db.invite_timers.len(), 1);
    assert_eq!(db.invite_timers[0].invite_id, 2);
    let before = db.clone();
    remove_expired_player_invites(&mut db, timer);
    assert_eq!(db, before);
    create_player_invite(&mut db, &ctx(1, 3), "three".to_string()).unwrap();
    assert_eq!(db.player_invites[1].id, 3);
}

#[test]
fn deleting_an_item_takes_its_subject_rows() {
    let mut db = Database::new();
    submit_new_bingo_item(&mut db, "one".to_string(), Some(vec![key(1)])).unwrap();
    submit_new_bingo_item(&mut db, "two".to_string(), Some(vec![key(1), key(2)])).unwrap();
    submit_new_bingo_item(&mut db, "three".to_string(), None).unwrap();
    assert_eq!(delete_bingo_item(&mut db, 2), Ok(()));
    assert_eq!(db.bingo_items.iter().map(|i| i.id).collect::<Vec<u32>>(), vec![1, 3]);
    assert_eq!(db.player_item_subjects.len(), 1);
    assert_eq!(db.player_item_subjects[0].bingo_item_id, 1);
    let before = db.clone();
    assert_eq!(delete_bingo_item(&mut db, 2), Ok(()));
    assert_eq!(db, before);
}

#[test]
fn salts_stay_below_the_upper_bound() {
    for _ in 0..50 {
        let salt = generate_salt();
        assert_eq!(salt.len(), 16);
        assert!(salt.iter().all(|b| *b < u8::MAX));
    }
    assert_ne!(generate_salt(), generate_salt());
}

#[test]
fn a_hash_verifies_its_password_only() {
    let salt = [7u8; 16];
    let hash = hash_password_with_salt("hunter2", &salt).unwrap();
    assert!(hash.starts_with("$argon2id$v=19$m=19456,t=2,p=1$"));
    assert_ne!(hash, "hunter2");
    assert_eq!(hash_password_with_salt("hunter2", &salt).unwrap(), hash);
    assert_ne!(hash_password_with_salt("hunter2", &[8u8; 16]).unwrap(), hash);
    assert_ne!(hash_password_with_salt("hunter3", &salt).unwrap(), hash);
    assert_eq!(verify_password(&hash, "hunter2"), Ok(true));
    assert_eq!(verify_password(&hash, "hunter3"), Ok(false));
    assert_eq!(
        verify_password("not a hash", "hunter2"),
        Err(BingoError::Hashing(argon2::Error::DecodingFail))
    );
}

#[test]
fn a_fresh_salt_gives_a_hash_that_verifies() {
    let hash = hash_password("correct horse").unwrap();
    assert_eq!(verify_password(&hash, "correct horse"), Ok(true));
    assert_eq!(verify_password(&hash, "battery staple"), Ok(false));
    assert_eq!(verify_password(&hash_password("").unwrap(), ""), Ok(true));
}

#[test]
fn a_created_player_can_sign_in_from_elsewhere() {
    let mut db = Database::new();
    assert_eq!(create_player(&mut db, &ctx(1, 0), "ada".to_string(), "pw".to_string()), Ok(()));
    assert_eq!(db.players.len(), 1);
    assert_eq!(db.players[0].id, 1);
    assert_eq!(db.players[0].identity, key(1));
    assert_eq!(db.players[0].name, "ada");
    assert!(db.players[0].online);
    assert_eq!(verify_password(&db.players[0].password, "pw"), Ok(true));
    assert_eq!(db.sequences.player, 2);
    let before = db.clone();
    assert_eq!(
        create_player(&mut db, &ctx(1, 0), "again".to_string(), "pw".to_string()),
        Err(BingoError::IdentityTaken)
    );
    assert_eq!(db, before);
    identity_disconnected(&mut db, &ctx(1, 0));
    let offline = db.clone();
    assert_eq!(sign_in(&mut db, &ctx(2, 0), "ada".to_string(), "wrong".to_string()), Ok(()));
    assert_eq!(sign_in(&mut db, &ctx(2, 0), "bob".to_string(), "pw".to_string()), Ok(()));
    assert_eq!(db, offline);
    assert_eq!(sign_in(&mut db, &ctx(2, 0), "ada".to_string(), "pw".to_string()), Ok(()));
    assert_eq!(db.players[0].identity, key(2));
    assert!(db.players[0].online);
}

#[test]
fn sign_in_takes_the_first_row_that_verifies() {
    let mut db = Database::new();
    let right = hash_password_with_salt("pw", &[1u8; 16]).unwrap();
    let other = hash_password_with_salt("else", &[2u8; 16]).unwrap();
    db.players.push(player(1, 10, "ada", &other));
    db.players.push(player(2, 20, "ada", "garbage"));
    db.players.push(player(3, 30, "ada", &right));
    db.players.push(player(4, 40, "ada", &right));
    assert_eq!(sign_in(&mut db, &ctx(50, 0), "ada".to_string(), "pw".to_string()), Ok(()));
    assert_eq!(db.players[2].identity, key(50));
    assert!(db.players[2].online);
    assert_eq!(db.players[0], player(1, 10, "ada", &other));
    assert_eq!(db.players[3], player(4, 40, "ada", &right));
    let before = db.clone();
    assert_eq!(
        sign_in(&mut db, &ctx(40, 0), "ada".to_string(), "pw".to_string()),
        Err(BingoError::IdentityTaken)
    );
    assert_eq!(db, before);
    assert_eq!(sign_in(&mut db, &ctx(50, 0), "ada".to_string(), "pw".to_string()), Ok(()));
    assert_eq!(db, before);
}

#[test]
fn sign_in_at_marks_one_row() {
    let mut db = Database::new();
    db.players.push(player(1, 10, "a", "x"));
    db.players.push(player(2, 20, "b", "y"));
    assert_eq!(sign_in_at(&mut db, &ctx(30, 0), 1), Ok(()));
    assert_eq!(db.players[1].identity, key(30));
    assert!(db.players[1].online);
    assert_eq!(db.players[0], player(1, 10, "a", "x"));
    assert_eq!(sign_in_at(&mut db, &ctx(10, 0), 1), Err(BingoError::IdentityTaken));
    assert_eq!(sign_in_at(&mut db, &ctx(10, 0), 0), Ok(()));
    assert!(db.players[0].online);
}

#[test]
fn add_player_keeps_the_hash_it_is_given() {
    let mut db = Database::new();
    assert_eq!(add_player(&mut db, &ctx(3, 0), "c".to_string(), "hash".to_string()), Ok(()));
    assert_eq!(
        db.players,
        vec![Player {
            id: 1,
            identity: key(3),
            name: "c".to_string(),
            password: "hash".to_string(),
            online: true
        }]
    );
}
