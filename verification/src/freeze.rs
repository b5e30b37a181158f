//! Freezing a player for a screenshare and unfreezing them: who may freeze whom, the
//! roles a frozen player keeps and gets back, and the messages sent.

use vstd::prelude::*;

use crate::embed::ErrorResponse;
use crate::model::{expired_at, ScrimUnban as BanRecord};
use crate::roles::{
    can_freeze, kept_in, managed_ids, removed_roles, restrict_roles, restricted_roles,
    top_position, unfreeze_roles, unfrozen_roles, RoleInfo,
};
use crate::text::{channel_mention, push_channel_mention, push_str, push_user_mention, user_mention};

verus! {

/// The command that freezes a player.
pub struct Freeze;

/// The command that unfreezes a player.
pub struct Unfreeze;

impl Freeze {
    /// The command's name.
    pub fn name(&self) -> (s: String)
        ensures
            s@ == "freeze"@,
    {
        String::from_str("freeze")
    }
}

impl Unfreeze {
    /// The command's name.
    pub fn name(&self) -> (s: String)
        ensures
            s@ == "unfreeze"@,
    {
        String::from_str("unfreeze")
    }
}

/// A ban of `user` is running at `now`.
pub open spec fn banned_at(bans: Seq<BanRecord>, user: u64, now: i128) -> bool {
    exists|i: int|
        0 <= i < bans.len() && (#[trigger] bans[i]).user_id == user && !expired_at(
            bans[i].expires_at,
            now,
        )
}

/// Whether a ban of `user` is running at `now`.
pub fn is_banned_at(bans: &Vec<BanRecord>, user: u64, now: i128) -> (r: bool)
    ensures
        r == banned_at(bans@, user, now),
{
    let mut i: usize = 0;
    while i < bans.len()
        invariant
            i <= bans@.len(),
            forall|k: int|
                0 <= k < i ==> !((#[trigger] bans@[k]).user_id == user && !expired_at(
                    bans@[k].expires_at,
                    now,
                )),
        decreases bans@.len() - i,
    {
        if bans[i].user_id == user && !bans[i].is_expired_at(now) {
            assert(bans@[i as int].user_id == user);
            return true;
        }
        i = i + 1;
    }
    false
}

/// What freezing a player does: the player keeps these roles, and these are taken and
/// stored with the freeze.
#[derive(Debug)]
pub struct FreezePlan {
    pub roles: Vec<u64>,
    pub removed: Vec<u64>,
}

/// The error is a titled one with this title and text.
pub open spec fn titled_error(e: ErrorResponse, title: Seq<char>, text: Seq<char>) -> bool {
    match e.title {
        Some(t) => t@ == title && e.description@ == text && e.footer is None,
        None => false,
    }
}

/// The error is a plain message with this text.
pub open spec fn plain_error(e: ErrorResponse, text: Seq<char>) -> bool {
    e.title is None && e.description@ == text && e.footer is None
}

/// Decides a freeze of `target` by a member with `executor_roles`: the executor's
/// highest role must be above the target's, and the target may be neither frozen nor
/// banned already. The target then keeps the managed roles and gets the frozen role.
pub fn plan_freeze(
    executor_roles: &Vec<RoleInfo>,
    target: u64,
    target_roles: &Vec<RoleInfo>,
    already_frozen: bool,
    bans: &Vec<BanRecord>,
    now: i128,
    frozen_role: u64,
) -> (r: Result<FreezePlan, ErrorResponse>)
    ensures
        if top_position(executor_roles@) <= top_position(target_roles@) {
            r matches Err(e) && titled_error(
                e,
                "Insufficient Permissions"@,
                "You are missing the required permissions to freeze "@ + user_mention(target) + "!"@,
            )
        } else if already_frozen {
            r matches Err(e) && plain_error(e, user_mention(target) + " is already frozen."@)
        } else if banned_at(bans@, target, now) {
            r matches Err(e) && plain_error(e, user_mention(target) + " is already banned."@)
        } else {
            r matches Ok(p) && p.roles@ == restricted_roles(target_roles@, frozen_role)
                && p.removed@ == removed_roles(target_roles@, frozen_role)
        },
{
    if !can_freeze(executor_roles, target_roles) {
        let mut d = String::from_str("You are missing the required permissions to freeze ");
        push_user_mention(&mut d, target);
        push_str(&mut d, "!");
        return Err(
            ErrorResponse {
                title: Some(String::from_str("Insufficient Permissions")),
                description: d,
                footer: None,
            },
        );
    }
    if already_frozen {
        let mut d = String::new();
        push_user_mention(&mut d, target);
        push_str(&mut d, " is already frozen.");
        return Err(ErrorResponse { title: None, description: d, footer: None });
    }
    if is_banned_at(bans, target, now) {
        let mut d = String::new();
        push_user_mention(&mut d, target);
        push_str(&mut d, " is already banned.");
        return Err(ErrorResponse { title: None, description: d, footer: None });
    }
    let (roles, removed) = restrict_roles(target_roles, frozen_role);
    Ok(FreezePlan { roles, removed })
}

/// The text before the frozen player's mention in the message to them.
pub const FREEZE_GREETING: &'static str = "Hello ";

/// The text between the player's mention and the channel to join.
pub const FREEZE_ASK: &'static str = ", would you like to admit to cheating for a shortened ban or would you like us to search through your computer for cheats? You have 5 minutes to either admit in this channel or join ";

/// The instructions after the channel to join.
pub const FREEZE_INSTRUCTIONS: &'static str = " and follow the instructions below.\n \n**Download AnyDesk from here:** \nWindows: https://download.anydesk.com/AnyDesk.exe \nMac: https://download.anydesk.com/anydesk.dmg \nOnce it's downloaded, run it and **we will need you to send your 9 digit address code** in this channel.\n \nWhile screensharing we will download three screenshare tools and require admin control. Whilst the screenshare is happening **we will need you to __not__ touch your mouse or keyboard unless instructed** to do anything. Failure to comply with what we say will result in a ban. \n \nOur screensharers **will __not__ be going through personal files or attempting to harm your computer**. We will only be checking for cheats by inspecting your mouse & keyboard software, recycle bin, deleted files and applications ran on this instance of your pc, as well as by running pre-bundled, trusted screenshare tools.";

/// The message to a frozen player: admit to cheating, or join `channel` for a
/// screenshare, and what the screenshare involves.
pub open spec fn freeze_text(target: u64, channel: u64) -> Seq<char> {
    FREEZE_GREETING@ + user_mention(target) + FREEZE_ASK@ + channel_mention(channel)
        + FREEZE_INSTRUCTIONS@
}

/// Writes the message to a frozen player.
pub fn freeze_message(target: u64, channel: u64) -> (s: String)
    ensures
        s@ == freeze_text(target, channel),
{
    let mut s = String::from_str(FREEZE_GREETING);
    push_user_mention(&mut s, target);
    push_str(&mut s, FREEZE_ASK);
    push_channel_mention(&mut s, channel);
    push_str(&mut s, FREEZE_INSTRUCTIONS);
    s
}

/// The answer after a freeze.
pub fn frozen_message(target: u64) -> (s: String)
    ensures
        s@ == "Successfully froze "@ + user_mention(target) + "."@,
{
    let mut s = String::from_str("Successfully froze ");
    push_user_mention(&mut s, target);
    push_str(&mut s, ".");
    s
}

/// Decides an unfreeze of `target`: it must be frozen (`stored` holds the roles the
/// freeze took) and still in the guild (`current` holds its roles). The target gets
/// back the roles as [`unfrozen_roles`] gives them.
pub fn plan_unfreeze(
    target: u64,
    stored: &Option<Vec<u64>>,
    current: &Option<Vec<RoleInfo>>,
    member_role: u64,
    guild_roles: &Vec<u64>,
) -> (r: Result<Vec<u64>, ErrorResponse>)
    ensures
        match stored {
            None => r matches Err(e) && plain_error(e, user_mention(target) + " is not frozen."@),
            Some(s) => match current {
                None => r matches Err(e) && plain_error(
                    e,
                    user_mention(target) + " can't be unfrozen since they left the server."@,
                ),
                Some(c) => r matches Ok(roles) && roles@ == unfrozen_roles(
                    c@,
                    s@,
                    member_role,
                    guild_roles@,
                ),
            },
        },
{
    let s = match stored {
        None => {
            let mut d = String::new();
            push_user_mention(&mut d, target);
            push_str(&mut d, " is not frozen.");
            return Err(ErrorResponse { title: None, description: d, footer: None });
        },
        Some(s) => s,
    };
    match current {
        None => {
            let mut d = String::new();
            push_user_mention(&mut d, target);
            push_str(&mut d, " can't be unfrozen since they left the server.");
            Err(ErrorResponse { title: None, description: d, footer: None })
        },
        Some(c) => Ok(unfreeze_roles(c, s, member_role, guild_roles)),
    }
}

/// The answer after an unfreeze: the unfreeze emoji and the player's mention.
pub fn unfrozen_message(emoji: &str, target: u64) -> (s: String)
    ensures
        s@ == emoji@ + " "@ + user_mention(target) + ", you are now unfrozen"@,
{
    let mut s = String::from_str(emoji);
    push_str(&mut s, " ");
    push_user_mention(&mut s, target);
    push_str(&mut s, ", you are now unfrozen");
    s
}

/// The managed roles among `rs`, in order.
pub open spec fn managed_roles(rs: Seq<RoleInfo>) -> Seq<RoleInfo>
    decreases rs.len(),
{
    if rs.len() == 0 {
        seq![]
    } else if rs.last().managed {
        managed_roles(rs.drop_last()).push(rs.last())
    } else {
        managed_roles(rs.drop_last())
    }
}

proof fn lemma_managed_of_managed(rs: Seq<RoleInfo>)
    ensures
        managed_ids(managed_roles(rs)) == managed_ids(rs),
    decreases rs.len(),
{
    if rs.len() > 0 {
        lemma_managed_of_managed(rs.drop_last());
        if rs.last().managed {
            let m = managed_roles(rs.drop_last()).push(rs.last());
            assert(m.drop_last() =~= managed_roles(rs.drop_last()));
        }
    }
}

proof fn lemma_kept_in_contains(s: Seq<u64>, pool: Seq<u64>)
    ensures
        forall|x: u64| kept_in(s, pool).contains(x) <==> (s.contains(x) && pool.contains(x)),
    decreases s.len(),
{
    if s.len() > 0 {
        let p = s.drop_last();
        lemma_kept_in_contains(p, pool);
        assert forall|x: u64| kept_in(s, pool).contains(x) <==> (s.contains(x) && pool.contains(x)) by {
            crate::roles::lemma_push_contains(p, s.last(), x);
            crate::roles::lemma_push_contains(kept_in(p, pool), s.last(), x);
            assert(p.push(s.last()) =~= s);
        }
    }
}

/// A member who held the roles `rs` before a freeze with the role `frozen` holds role
/// `x` after the unfreeze: a managed role of theirs, or another role of theirs (not the
/// frozen role) or the member role, when it still exists.
pub open spec fn restored(rs: Seq<RoleInfo>, frozen: u64, member_role: u64, guild_roles: Seq<u64>, x: u64) -> bool {
    managed_ids(rs).contains(x) || (((exists|i: int| 0 <= i < rs.len() && (#[trigger] rs[i]).id == x)
        && x != frozen) || x == member_role) && guild_roles.contains(x)
}

/// Unfreezing gives back what freezing took: a member with roles `rs` who was frozen
/// (and so holds their managed roles and the frozen role, which is not managed) gets
/// on the unfreeze their managed roles, and every other role they held before (apart
/// from the frozen role) together with the member role, as far as these still exist.
pub proof fn lemma_unfreeze_restores(rs: Seq<RoleInfo>, frozen: RoleInfo, member_role: u64, guild_roles: Seq<u64>)
    requires
        !frozen.managed,
    ensures
        forall|x: u64|
            unfrozen_roles(
                managed_roles(rs).push(frozen),
                removed_roles(rs, frozen.id),
                member_role,
                guild_roles,
            ).contains(x) <==> restored(rs, frozen.id, member_role, guild_roles, x),
{
    let current = managed_roles(rs).push(frozen);
    assert(current.drop_last() =~= managed_roles(rs));
    lemma_managed_of_managed(rs);
    assert(managed_ids(current) == managed_ids(rs));
    let removed = removed_roles(rs, frozen.id);
    let back = crate::roles::freeze_return_roles(removed, member_role);
    lemma_kept_in_contains(back, guild_roles);
    crate::roles::lemma_restriction_partitions(rs, frozen.id);
    crate::roles::lemma_restriction_covers(rs, frozen.id);
    let keep = restricted_roles(rs, frozen.id);
    assert forall|x: u64|
        unfrozen_roles(
            managed_roles(rs).push(frozen),
            removed_roles(rs, frozen.id),
            member_role,
            guild_roles,
        ).contains(x) <==> restored(rs, frozen.id, member_role, guild_roles, x) by {
        let a = managed_ids(current);
        let b = kept_in(back, guild_roles);
        let u = a + b;
        assert(u == unfrozen_roles(current, removed, member_role, guild_roles));
        if u.contains(x) {
            let k = choose|k: int| 0 <= k < u.len() && u[k] == x;
            if k < a.len() {
                assert(a[k] == x);
                assert(a.contains(x));
            } else {
                assert(b[k - a.len()] == x);
                assert(b.contains(x));
            }
        }
        if a.contains(x) {
            let k = choose|k: int| 0 <= k < a.len() && a[k] == x;
            assert(u[k] == x);
        }
        if b.contains(x) {
            let k = choose|k: int| 0 <= k < b.len() && b[k] == x;
            assert(u[a.len() + k] == x);
        }
        crate::roles::lemma_push_contains(removed, member_role, x);
        crate::roles::lemma_push_contains(managed_ids(rs), frozen.id, x);
        assert(keep == managed_ids(rs).push(frozen.id));
        assert(back.contains(x) <==> (removed.contains(x) || x == member_role));
        assert(b.contains(x) <==> (back.contains(x) && guild_roles.contains(x)));
        assert(keep.contains(frozen.id));
        if removed.contains(x) {
            assert(!keep.contains(x));
            assert(x != frozen.id);
            assert(keep.contains(x) || removed.contains(x));
            assert(exists|i: int| 0 <= i < rs.len() && (#[trigger] rs[i]).id == x);
        }
        if (exists|i: int| 0 <= i < rs.len() && (#[trigger] rs[i]).id == x) && x != frozen.id
            && !managed_ids(rs).contains(x) {
            let i = choose|i: int| 0 <= i < rs.len() && (#[trigger] rs[i]).id == x;
            assert(keep.contains(rs[i].id) || removed.contains(rs[i].id));
            assert(removed.contains(x));
        }
    }
}

} // verus!
