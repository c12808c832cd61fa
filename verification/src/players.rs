//! Player rows: names, sign-in and presence.

use vstd::prelude::*;
use crate::password::{
    argon2_verified, hash_password, is_hash_of, password_bytes, verify_password,
    MAX_PASSWORD_BYTES,
};
use crate::seqs::{first_index, lemma_first_index_is, lemma_first_index_none};
use crate::store::{commits, find_player, player_with_identity, Database, DatabaseView, Sequences};
use crate::types::{BingoError, CallContext, Player, PlayerKey};

verus! {

/// Takes a name and checks that it is acceptable as a name: it must not be
/// empty. An acceptable name is handed back as it came.
pub fn validate_name(name: String) -> (r: Result<String, BingoError>)
    ensures
        name@.len() == 0 ==> r == Err::<String, BingoError>(BingoError::EmptyName),
        name@.len() > 0 ==> r == Ok::<String, BingoError>(name),
{
    if name.as_str().is_empty() {
        Err(BingoError::EmptyName)
    } else {
        Ok(name)
    }
}

/// The store after the caller took this name, or why the name is refused:
/// it is empty, or the caller has no player row.
pub open spec fn renamed(db: DatabaseView, ctx: CallContext, name: String) -> Result<
    DatabaseView,
    BingoError,
> {
    if name@.len() == 0 {
        Err(BingoError::EmptyName)
    } else {
        match first_index(db.players, player_with_identity(ctx.sender)) {
            Some(i) => Ok(
                DatabaseView { players: db.players.update(i, Player { name, ..db.players[i] }), ..db },
            ),
            None => Err(BingoError::UnknownPlayer),
        }
    }
}

/// Sets the caller's name.
pub fn set_name(db: &mut Database, ctx: &CallContext, name: String) -> (r: Result<(), BingoError>)
    ensures
        commits(renamed(old(db)@, *ctx, name), old(db)@, final(db)@, r),
{
    let name = validate_name(name)?;
    match find_player(&db.players, ctx.sender) {
        Some(i) => {
            db.players[i].name = name;
            Ok(())
        },
        None => Err(BingoError::UnknownPlayer),
    }
}

/// The store after the caller's player row, if there is one, was marked as
/// online or not.
pub open spec fn presence_set(db: DatabaseView, ctx: CallContext, online: bool) -> DatabaseView {
    match first_index(db.players, player_with_identity(ctx.sender)) {
        Some(i) => DatabaseView {
            players: db.players.update(i, Player { online, ..db.players[i] }),
            ..db
        },
        None => db,
    }
}

/// A client connected: the caller's player row, if there is one, is marked
/// as online.
pub fn client_connected(db: &mut Database, ctx: &CallContext)
    ensures
        final(db)@ =~= presence_set(old(db)@, *ctx, true),
{
    match find_player(&db.players, ctx.sender) {
        Some(i) => {
            db.players[i].online = true;
        },
        None => {},
    }
}

/// A client disconnected: the caller's player row, if there is one, is
/// marked as not online.
pub fn identity_disconnected(db: &mut Database, ctx: &CallContext)
    ensures
        final(db)@ =~= presence_set(old(db)@, *ctx, false),
{
    match find_player(&db.players, ctx.sender) {
        Some(i) => {
            db.players[i].online = false;
        },
        None => {},
    }
}

/// The store after a player row was added for the caller, or `IdentityTaken`
/// where a row holds the caller's key already.
pub open spec fn player_added(
    db: DatabaseView,
    ctx: CallContext,
    name: String,
    password_hash: String,
) -> Result<DatabaseView, BingoError> {
    if first_index(db.players, player_with_identity(ctx.sender)) is Some {
        Err(BingoError::IdentityTaken)
    } else {
        Ok(
            DatabaseView {
                players: db.players.push(
                    Player {
                        id: db.sequences.player,
                        identity: ctx.sender,
                        name,
                        password: password_hash,
                        online: true,
                    },
                ),
                sequences: Sequences { player: (db.sequences.player + 1) as u32, ..db.sequences },
                ..db
            },
        )
    }
}

/// Adds a player row for the caller, online, with this name and this
/// password hash.
pub fn add_player(db: &mut Database, ctx: &CallContext, name: String, password_hash: String) -> (r:
    Result<(), BingoError>)
    requires
        old(db).sequences.player < u32::MAX,
    ensures
        commits(player_added(old(db)@, *ctx, name, password_hash), old(db)@, final(db)@, r),
{
    if find_player(&db.players, ctx.sender).is_some() {
        return Err(BingoError::IdentityTaken);
    }
    db.players.push(
        Player {
            id: db.sequences.player,
            identity: ctx.sender,
            name,
            password: password_hash,
            online: true,
        },
    );
    db.sequences.player = db.sequences.player + 1;
    Ok(())
}

/// Creates a player for the caller: hashes the password with a fresh salt
/// and adds the player row.
///
/// A password of more than `MAX_PASSWORD_BYTES` bytes is refused. Else the
/// row is added with the hash of the password under some salt, unless a row
/// holds the caller's key already.
pub fn create_player(db: &mut Database, ctx: &CallContext, name: String, password: String) -> (r:
    Result<(), BingoError>)
    requires
        old(db).sequences.player < u32::MAX,
    ensures
        password_bytes(password@).len() > MAX_PASSWORD_BYTES ==> r is Err && r->Err_0 is Hashing
            && final(db)@ =~= old(db)@,
        password_bytes(password@).len() <= MAX_PASSWORD_BYTES ==> exists|password_hash: String|
            is_hash_of(password_hash@, password@) && #[trigger] commits(
                player_added(old(db)@, *ctx, name, password_hash),
                old(db)@,
                final(db)@,
                r,
            ),
{
    let password_hash = hash_password(password.as_str())?;
    let ghost kept = password_hash;
    let r = add_player(db, ctx, name, password_hash);
    assert(commits(player_added(old(db)@, *ctx, name, kept), old(db)@, db@, r));
    r
}

/// Holds of the players with this name whose stored hash verifies this
/// password.
pub open spec fn is_login_for(name: Seq<char>, password: Seq<char>) -> spec_fn(Player) -> bool {
    |p: Player| p.name@ == name && argon2_verified(p.password@, password) == Some(true)
}

/// Whether a player row other than the one at `index` holds `key`.
pub open spec fn key_held_elsewhere(players: Seq<Player>, index: int, key: PlayerKey) -> bool {
    exists|k: int| 0 <= k < players.len() && k != index && (#[trigger] players[k]).identity == key
}

/// The store after the player at `index` signed in as the caller: the row is
/// online and holds the caller's key. Refused with `IdentityTaken` where
/// another row holds that key.
pub open spec fn signed_in_at(db: DatabaseView, ctx: CallContext, index: int) -> Result<
    DatabaseView,
    BingoError,
> {
    if key_held_elsewhere(db.players, index, ctx.sender) {
        Err(BingoError::IdentityTaken)
    } else {
        Ok(
            DatabaseView {
                players: db.players.update(
                    index,
                    Player { online: true, identity: ctx.sender, ..db.players[index] },
                ),
                ..db
            },
        )
    }
}

/// What signing in with this name and password does: the first player with
/// the name whose stored hash verifies the password signs in as the caller;
/// nothing happens where there is none.
pub open spec fn signed_in(
    db: DatabaseView,
    ctx: CallContext,
    name: Seq<char>,
    password: Seq<char>,
) -> Result<DatabaseView, BingoError> {
    match first_index(db.players, is_login_for(name, password)) {
        Some(i) => signed_in_at(db, ctx, i),
        None => Ok(db),
    }
}

/// Signs the player at `index` in as the caller.
pub fn sign_in_at(db: &mut Database, ctx: &CallContext, index: usize) -> (r: Result<(), BingoError>)
    requires
        index < old(db).players.len(),
    ensures
        commits(signed_in_at(old(db)@, *ctx, index as int), old(db)@, final(db)@, r),
{
    let mut k: usize = 0;
    while k < db.players.len()
        invariant
            k <= db.players.len(),
            *db == *old(db),
            forall|j: int|
                0 <= j < k && j != index ==> (#[trigger] db.players@[j]).identity != ctx.sender,
        decreases db.players.len() - k,
    {
        if k != index && db.players[k].identity == ctx.sender {
            return Err(BingoError::IdentityTaken);
        }
        k += 1;
    }
    db.players[index].online = true;
    db.players[index].identity = ctx.sender;
    Ok(())
}

/// Signs the caller in with a name and a password.
pub fn sign_in(db: &mut Database, ctx: &CallContext, name: String, password: String) -> (r: Result<
    (),
    BingoError,
>)
    ensures
        commits(signed_in(old(db)@, *ctx, name@, password@), old(db)@, final(db)@, r),
{
    let mut i: usize = 0;
    while i < db.players.len()
        invariant
            i <= db.players.len(),
            *db == *old(db),
            forall|j: int| 0 <= j < i ==> !is_login_for(name@, password@)(db.players@[j]),
        decreases db.players.len() - i,
    {
        if db.players[i].name == name {
            let verdict = verify_password(db.players[i].password.as_str(), password.as_str());
            let verified = match verdict {
                Ok(matches) => matches,
                Err(_) => false,
            };
            if verified {
                proof {
                    lemma_first_index_is(
                        db.players@,
                        is_login_for(name@, password@),
                        i as int,
                    );
                }
                return sign_in_at(db, ctx, i);
            }
        }
        i += 1;
    }
    proof {
        lemma_first_index_none(db.players@, is_login_for(name@, password@));
    }
    Ok(())
}

} // verus!
