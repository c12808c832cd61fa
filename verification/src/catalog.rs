//! The catalog of bingo items and the players that items are about.

use vstd::prelude::*;
use crate::seqs::first_index;
use crate::store::{
    find_item, insert_subject, item_with_id, with_row, Database, DatabaseView, Sequences,
};
use crate::types::{BingoError, BingoItem, PlayerItemSubject, PlayerKey};

verus! {

/// The rows that name subjects after each of `players` was made a subject of
/// the item with this id, one after the other.
pub open spec fn with_subjects(
    rows: Seq<PlayerItemSubject>,
    players: Seq<PlayerKey>,
    item_id: u32,
) -> Seq<PlayerItemSubject>
    decreases players.len(),
{
    if players.len() == 0 {
        rows
    } else {
        with_row(
            with_subjects(rows, players.drop_last(), item_id),
            PlayerItemSubject { player_id: players.last(), bingo_item_id: item_id },
        )
    }
}

/// The players that a submission names as subjects.
pub open spec fn named_subjects(subject_players: Option<Vec<PlayerKey>>) -> Seq<PlayerKey> {
    match subject_players {
        Some(players) => players@,
        None => Seq::empty(),
    }
}

/// The store after an item with this body was submitted with these subjects:
/// the item stands at the end of the catalog under the next item id, and each
/// player named is a subject of it.
pub open spec fn item_submitted(db: DatabaseView, body: String, subjects: Seq<PlayerKey>) -> DatabaseView {
    DatabaseView {
        bingo_items: db.bingo_items.push(BingoItem { id: db.sequences.bingo_item, body }),
        player_item_subjects: with_subjects(
            db.player_item_subjects,
            subjects,
            db.sequences.bingo_item,
        ),
        sequences: Sequences {
            bingo_item: (db.sequences.bingo_item + 1) as u32,
            ..db.sequences
        },
        ..db
    }
}

/// Creates a new bingo item, possibly with players that are the subject of
/// the item. Such players cannot have the item on their boards.
pub fn submit_new_bingo_item(
    db: &mut Database,
    body: String,
    subject_players: Option<Vec<PlayerKey>>,
) -> (r: Result<(), BingoError>)
    requires
        old(db).sequences.bingo_item < u32::MAX,
    ensures
        r is Ok,
        final(db)@ =~= item_submitted(old(db)@, body, named_subjects(subject_players)),
{
    let id = db.sequences.bingo_item;
    db.bingo_items.push(BingoItem { id, body });
    db.sequences.bingo_item = id + 1;
    match subject_players {
        Some(players) => {
            let mut i: usize = 0;
            let ghost before = db.player_item_subjects@;
            assert(players@.take(0) =~= Seq::<PlayerKey>::empty());
            while i < players.len()
                invariant
                    i <= players.len(),
                    db.players == old(db).players,
                    db.player_invites == old(db).player_invites,
                    db.invite_timers == old(db).invite_timers,
                    db.game_sessions == old(db).game_sessions,
                    db.player_sessions == old(db).player_sessions,
                    db.bingo_items@ == old(db).bingo_items@.push(BingoItem { id, body }),
                    db.bingo_boards == old(db).bingo_boards,
                    db.item_check_votes == old(db).item_check_votes,
                    db.vote_timers == old(db).vote_timers,
                    db.sequences == (Sequences { bingo_item: (id + 1) as u32, ..old(db).sequences }),
                    before == old(db).player_item_subjects@,
                    db.player_item_subjects@ == with_subjects(before, players@.take(i as int), id),
                decreases players.len() - i,
            {
                proof {
                    assert(players@.take(i + 1).drop_last() =~= players@.take(i as int));
                }
                insert_subject(
                    &mut db.player_item_subjects,
                    PlayerItemSubject { player_id: players[i], bingo_item_id: id },
                );
                i += 1;
            }
            assert(players@.take(i as int) =~= players@);
        },
        None => {},
    }
    Ok(())
}

/// Holds of the subject rows that are about another item than this.
pub open spec fn about_other_item(item_id: u32) -> spec_fn(PlayerItemSubject) -> bool {
    |row: PlayerItemSubject| row.bingo_item_id != item_id
}

/// The store after the item with this id was deleted from the catalog, with
/// every subject row about it. Sessions and boards keep what they hold.
pub open spec fn item_deleted(db: DatabaseView, item_id: u32) -> DatabaseView {
    DatabaseView {
        player_item_subjects: db.player_item_subjects.filter(about_other_item(item_id)),
        bingo_items: match first_index(db.bingo_items, item_with_id(item_id)) {
            Some(i) => db.bingo_items.remove(i),
            None => db.bingo_items,
        },
        ..db
    }
}

/// Deletes a bingo item: first the rows that name its subjects, then the
/// item itself.
pub fn delete_bingo_item(db: &mut Database, bingo_item_id: u32) -> (r: Result<(), BingoError>)
    ensures
        r is Ok,
        final(db)@ =~= item_deleted(old(db)@, bingo_item_id),
{
    let mut subjects: Vec<PlayerItemSubject> = Vec::new();
    let mut j: usize = 0;
    proof {
        reveal(Seq::filter);
        assert(db.player_item_subjects@.take(0) =~= Seq::<PlayerItemSubject>::empty());
    }
    while j < db.player_item_subjects.len()
        invariant
            j <= db.player_item_subjects.len(),
            subjects@ == db.player_item_subjects@.take(j as int).filter(
                about_other_item(bingo_item_id),
            ),
        decreases db.player_item_subjects.len() - j,
    {
        let row = db.player_item_subjects[j];
        proof {
            db.player_item_subjects@.lemma_take_succ_push(j as int);
            db.player_item_subjects@.take(j as int).lemma_filter_push(
                row,
                about_other_item(bingo_item_id),
            );
        }
        if row.bingo_item_id != bingo_item_id {
            subjects.push(row);
        }
        j += 1;
    }
    assert(db.player_item_subjects@.take(j as int) =~= db.player_item_subjects@);
    db.player_item_subjects = subjects;
    match find_item(&db.bingo_items, bingo_item_id) {
        Some(i) => {
            db.bingo_items.remove(i);
        },
        None => {},
    }
    Ok(())
}

} // verus!
