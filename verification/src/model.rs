//! The records that the bot keeps in its database. Points in time are nanoseconds
//! since the Unix epoch (UTC).

use vstd::prelude::*;

use crate::clock::now_utc_nanos;

verus! {

/// A running or logged scrim ban, with the roles that the ban took away.
#[derive(Debug)]
pub struct ScrimUnban {
    pub user_id: u64,
    /// When the ban ends; `None` once it has ended and been logged while the member
    /// was away.
    pub expires_at: Option<i128>,
    pub roles: Vec<u64>,
}

/// The whole seconds since the Unix epoch of a point in time, rounded down
/// (`OffsetDateTime::unix_timestamp`).
pub open spec fn seconds_of(nanos: i128) -> int {
    nanos as int / 1_000_000_000
}

/// The whole seconds since the Unix epoch of a point in time.
pub fn unix_seconds(nanos: i128) -> (r: i128)
    ensures
        r == seconds_of(nanos),
{
    if nanos >= 0 {
        nanos / 1_000_000_000
    } else {
        let m: i128 = -(nanos + 1);
        let q: i128 = m / 1_000_000_000;
        assert(nanos as int / 1_000_000_000 == -(q as int) - 1) by (nonlinear_arith)
            requires
                m == -(nanos + 1),
                q == m / 1_000_000_000,
                m >= 0,
        {
        }
        -q - 1
    }
}

/// A ban has expired at `now` when it has no end time or its end time has come.
pub open spec fn expired_at(expires_at: Option<i128>, now: i128) -> bool {
    match expires_at {
        None => true,
        Some(d) => d <= now,
    }
}

impl ScrimUnban {
    /// Whether the ban has expired at the given time.
    pub fn is_expired_at(&self, now: i128) -> (r: bool)
        ensures
            r == expired_at(self.expires_at, now),
    {
        match self.expires_at {
            None => true,
            Some(d) => d <= now,
        }
    }

    /// Whether the ban has expired now.
    pub fn is_expired(&self) -> (r: bool)
        ensures
            self.expires_at is None ==> r,
            exists|now: i128| r == expired_at(self.expires_at, now),
    {
        let now = now_utc_nanos();
        self.is_expired_at(now)
    }

    /// Whether the end of the ban has already been logged.
    pub fn was_logged(&self) -> (r: bool)
        ensures
            r == (self.expires_at is None),
    {
        self.expires_at.is_none()
    }
}

/// An open screenshare ticket.
pub struct Screenshare {
    /// Channel ID of the ticket
    pub channel_id: u64,
    /// User ID of the person who made the ticket
    pub creator_id: u64,
    /// User ID of the person being screenshared
    pub in_question: u64,
}

/// A frozen member and the roles the freeze took away.
pub struct Freeze {
    /// User ID of the person being frozen
    pub user_id: u64,
    /// Their roles
    pub roles: Vec<u64>,
}

/// A staff note on a user.
pub struct Note {
    /// the id of the person that the note belongs to
    pub user_id: u64,
    /// the note id
    pub id: u64,
    /// the date that the note was created at
    pub created_at: i128,
    /// the text that the note contains
    pub note: String,
    /// the id of the person who added the note
    pub creator: u64,
}

impl Note {
    /// The id of a user's next note: one more than the number of notes they have.
    pub fn next_id(existing: usize) -> (r: i32)
        requires
            existing < i32::MAX,
        ensures
            r == existing + 1,
    {
        (existing as i32) + 1
    }
}

/// A booster's custom reaction: messages equal to the trigger get the emoji.
#[derive(Debug)]
pub struct CustomReaction {
    pub user_id: u64,
    pub trigger: String,
    pub emoji: String,
}

/// How often a screensharer has unfrozen someone.
#[derive(Clone, Copy, Debug, PartialEq, Eq, Structural)]
pub struct Screensharer {
    pub user_id: u64,
    pub freezes: i32,
}

impl Screensharer {
    /// The record after one more unfreeze by `user`: a new record with one freeze, or
    /// the stored one counted up.
    pub fn after_unfreeze(stored: Option<Screensharer>, user: u64) -> (r: Screensharer)
        requires
            stored matches Some(s) ==> s.freezes < i32::MAX,
        ensures
            r == match stored {
                None => Screensharer { user_id: user, freezes: 1 },
                Some(s) => Screensharer { user_id: s.user_id, freezes: (s.freezes + 1) as i32 },
            },
    {
        match stored {
            None => Screensharer { user_id: user, freezes: 1 },
            Some(s) => Screensharer { user_id: s.user_id, freezes: s.freezes + 1 },
        }
    }
}

} // verus!
