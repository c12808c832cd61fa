//! Invites: tokens that expire an hour after they were made.

use vstd::prelude::*;
use crate::seqs::first_index;
use crate::store::{
    commits, find_invite, find_invite_by_token, invite_with_id, invite_with_token, Database,
    DatabaseView, Sequences,
};
use crate::types::{
    BingoError, CallContext, PlayerInvite, RemoveExpiredInvitesTimer, ScheduleAt,
};

verus! {

/// How long an invite lasts: one hour, in microseconds.
pub const INVITE_EXPIRY_MICROS: i64 = 3_600_000_000;

/// The store after an invite with this token was made, with the timer that
/// removes it `INVITE_EXPIRY_MICROS` after the call; `TokenTaken` where an
/// invite carries the token already.
pub open spec fn invited(db: DatabaseView, ctx: CallContext, token: String) -> Result<
    DatabaseView,
    BingoError,
> {
    if first_index(db.player_invites, invite_with_token(token@)) is Some {
        Err(BingoError::TokenTaken)
    } else {
        Ok(
            DatabaseView {
                player_invites: db.player_invites.push(
                    PlayerInvite { id: db.sequences.player_invite, token, used: false },
                ),
                invite_timers: db.invite_timers.push(
                    RemoveExpiredInvitesTimer {
                        scheduled_id: db.sequences.invite_timer,
                        invite_id: db.sequences.player_invite,
                        scheduled_at: ScheduleAt::Time(
                            (ctx.timestamp + INVITE_EXPIRY_MICROS) as i64,
                        ),
                    },
                ),
                sequences: Sequences {
                    player_invite: (db.sequences.player_invite + 1) as u32,
                    invite_timer: (db.sequences.invite_timer + 1) as u64,
                    ..db.sequences
                },
                ..db
            },
        )
    }
}

/// Creates an invite with this token and schedules its removal.
pub fn create_player_invite(db: &mut Database, ctx: &CallContext, token: String) -> (r: Result<
    (),
    BingoError,
>)
    requires
        old(db).sequences.player_invite < u32::MAX,
        old(db).sequences.invite_timer < u64::MAX,
        ctx.timestamp + INVITE_EXPIRY_MICROS <= i64::MAX,
    ensures
        commits(invited(old(db)@, *ctx, token), old(db)@, final(db)@, r),
{
    if find_invite_by_token(&db.player_invites, &token).is_some() {
        return Err(BingoError::TokenTaken);
    }
    let invite_id = db.sequences.player_invite;
    db.player_invites.push(PlayerInvite { id: invite_id, token, used: false });
    db.sequences.player_invite = invite_id + 1;
    db.invite_timers.push(
        RemoveExpiredInvitesTimer {
            scheduled_id: db.sequences.invite_timer,
            invite_id,
            scheduled_at: ScheduleAt::Time(ctx.timestamp + INVITE_EXPIRY_MICROS),
        },
    );
    db.sequences.invite_timer = db.sequences.invite_timer + 1;
    Ok(())
}

/// The store after the invite with this token was used, or why it cannot be:
/// it was used before, or no invite carries the token.
pub open spec fn invite_used(db: DatabaseView, token: String) -> Result<DatabaseView, BingoError> {
    match first_index(db.player_invites, invite_with_token(token@)) {
        Some(i) => if db.player_invites[i].used {
            Err(BingoError::InviteAlreadyUsed(token))
        } else {
            Ok(
                DatabaseView {
                    player_invites: db.player_invites.update(
                        i,
                        PlayerInvite { used: true, ..db.player_invites[i] },
                    ),
                    ..db
                },
            )
        },
        None => Err(BingoError::InviteNotFound(token)),
    }
}

/// Uses the invite with this token. An invite can be used once.
pub fn use_player_invite(db: &mut Database, token: String) -> (r: Result<(), BingoError>)
    ensures
        commits(invite_used(old(db)@, token), old(db)@, final(db)@, r),
{
    match find_invite_by_token(&db.player_invites, &token) {
        Some(i) => {
            if !db.player_invites[i].used {
                db.player_invites[i].used = true;
                Ok(())
            } else {
                Err(BingoError::InviteAlreadyUsed(token))
            }
        },
        None => Err(BingoError::InviteNotFound(token)),
    }
}

/// Holds of the timer rows that differ from `timer`.
pub open spec fn other_invite_timer(timer: RemoveExpiredInvitesTimer) -> spec_fn(
    RemoveExpiredInvitesTimer,
) -> bool {
    |row: RemoveExpiredInvitesTimer| row != timer
}

/// The store after `timer` fired: the invite that it names, if it is still
/// there, is gone, and so is the timer row.
pub open spec fn invite_expired(db: DatabaseView, timer: RemoveExpiredInvitesTimer) -> DatabaseView {
    DatabaseView {
        player_invites: match first_index(db.player_invites, invite_with_id(timer.invite_id)) {
            Some(i) => db.player_invites.remove(i),
            None => db.player_invites,
        },
        invite_timers: db.invite_timers.filter(other_invite_timer(timer)),
        ..db
    }
}

/// An invite's timer fired: removes the invite and the timer row.
pub fn remove_expired_player_invites(db: &mut Database, timer: RemoveExpiredInvitesTimer)
    ensures
        final(db)@ =~= invite_expired(old(db)@, timer),
{
    match find_invite(&db.player_invites, timer.invite_id) {
        Some(i) => {
            db.player_invites.remove(i);
        },
        None => {},
    }
    let mut timers: Vec<RemoveExpiredInvitesTimer> = Vec::new();
    let mut j: usize = 0;
    proof {
        reveal(Seq::filter);
        assert(db.invite_timers@.take(0) =~= Seq::<RemoveExpiredInvitesTimer>::empty());
    }
    while j < db.invite_timers.len()
        invariant
            j <= db.invite_timers.len(),
            timers@ == db.invite_timers@.take(j as int).filter(other_invite_timer(timer)),
        decreases db.invite_timers.len() - j,
    {
        let row = db.invite_timers[j];
        proof {
            db.invite_timers@.lemma_take_succ_push(j as int);
            db.invite_timers@.take(j as int).lemma_filter_push(row, other_invite_timer(timer));
        }
        if row != timer {
            timers.push(row);
        }
        j += 1;
    }
    assert(db.invite_timers@.take(j as int) =~= db.invite_timers@);
    db.invite_timers = timers;
}

} // verus!
