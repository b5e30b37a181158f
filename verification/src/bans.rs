//! Scrim bans: how long a ban lasts, the record kept of it, the messages that announce
//! a ban and its end, and what becomes of a member's roles.

use vstd::prelude::*;

use crate::embed::{
    empty_embed, field, fields_view, Embed, EmbedAuthor, EmbedField, EmbedFooter, ErrorResponse,
};
use crate::model::{expired_at, seconds_of, unix_seconds, ScrimUnban as BanRecord};
use crate::parse_durations::{parsed_duration, Duration};
use crate::roles::{
    all_in, ban_must_be_enforced, ban_needs_enforcing, merge_roles, no_duplicates, removed_roles,
    restrict_roles, restricted_roles, unban_roles, RoleInfo,
};
use crate::text::{
    decimal, parse_u64, parse_u64_chars, chars_of, push_channel_mention, push_decimal,
    push_signed_decimal_wide, push_str, push_user_mention, signed_decimal, user_mention,
    channel_mention,
};

verus! {

/// The command that scrim bans a user.
pub struct ScrimBan;

/// The command that lifts a scrim ban.
pub struct ScrimUnban;

impl ScrimBan {
    /// The command's name.
    pub fn name(&self) -> (s: String)
        ensures
            s@ == "scrimban"@,
    {
        String::from_str("scrimban")
    }
}

impl ScrimUnban {
    /// The command's name.
    pub fn name(&self) -> (s: String)
        ensures
            s@ == "scrimunban"@,
    {
        String::from_str("scrimunban")
    }
}

/// A ban lasts thirty days unless a duration is given.
pub const DEFAULT_BAN_SECONDS: u64 = 2592000;

/// The error title for a duration that does not parse.
pub const INVALID_DURATION_TITLE: &'static str = "Invalid Duration";

/// The error text for a duration that does not parse.
pub const INVALID_DURATION_TEXT: &'static str = "Please provide a valid ban duration (e.g. 5m 30d).";

/// The seconds a ban lasts: the given duration, or thirty days.
pub fn ban_seconds(duration: &Option<String>) -> (r: Result<u64, ErrorResponse>)
    ensures
        match duration {
            None => r == Ok::<u64, ErrorResponse>(DEFAULT_BAN_SECONDS),
            Some(d) => match parsed_duration(d@) {
                Ok(p) => r == Ok::<u64, ErrorResponse>(p.0),
                Err(_) => r matches Err(e) && e.title matches Some(t) && t@
                    == INVALID_DURATION_TITLE@ && e.description@ == INVALID_DURATION_TEXT@
                    && e.footer is None,
            },
        },
{
    match duration {
        None => Ok(DEFAULT_BAN_SECONDS),
        Some(d) => match Duration::parse(d.as_str()) {
            Ok(p) => Ok(p.0),
            Err(_) => Err(ErrorResponse::with_title(INVALID_DURATION_TITLE, INVALID_DURATION_TEXT)),
        },
    }
}

/// The last nanosecond the `time` crate can represent: the end of the year 9999.
pub const LATEST_TIME: i128 = 253402300799999999999;

/// When a ban that starts at `now` and lasts `seconds` ends.
pub fn unban_time(now: i128, seconds: u64) -> (r: i128)
    requires
        now + seconds * 1_000_000_000 <= LATEST_TIME,
    ensures
        r == now + seconds * 1_000_000_000,
{
    assert(seconds * 1_000_000_000 <= u64::MAX * 1_000_000_000) by (nonlinear_arith);
    now + (seconds as i128) * 1_000_000_000
}

/// The first record that belongs to `user`.
pub open spec fn ban_of(bans: Seq<BanRecord>, user: u64) -> Option<int>
    decreases bans.len(),
{
    if bans.len() == 0 {
        None
    } else {
        match ban_of(bans.drop_last(), user) {
            Some(i) => Some(i),
            None => if bans.last().user_id == user {
                Some(bans.len() - 1)
            } else {
                None
            },
        }
    }
}

/// Finds the record of a user's ban.
pub fn find_ban(bans: &Vec<BanRecord>, user: u64) -> (r: Option<usize>)
    ensures
        match r {
            Some(k) => ban_of(bans@, user) == Some(k as int) && k < bans@.len(),
            None => ban_of(bans@, user) is None,
        },
{
    let mut i: usize = 0;
    while i < bans.len()
        invariant
            i <= bans@.len(),
            ban_of(bans@.take(i as int), user) is None,
        decreases bans@.len() - i,
    {
        assert(bans@.take(i + 1).drop_last() =~= bans@.take(i as int));
        if bans[i].user_id == user {
            proof {
                lemma_ban_of_prefix(bans@, user, i + 1);
            }
            return Some(i);
        }
        i = i + 1;
    }
    assert(bans@.take(bans@.len() as int) =~= bans@);
    None
}

proof fn lemma_ban_of_bound(bans: Seq<BanRecord>, user: u64)
    ensures
        ban_of(bans, user) matches Some(i) ==> 0 <= i < bans.len() && bans[i].user_id == user,
    decreases bans.len(),
{
    if bans.len() > 0 {
        lemma_ban_of_bound(bans.drop_last(), user);
    }
}

proof fn lemma_ban_of_prefix(bans: Seq<BanRecord>, user: u64, k: int)
    requires
        0 < k <= bans.len(),
        ban_of(bans.take(k - 1), user) is None,
        bans[k - 1].user_id == user,
    ensures
        ban_of(bans, user) == Some(k - 1),
    decreases bans.len(),
{
    if k < bans.len() {
        assert(bans.drop_last().take(k - 1) =~= bans.take(k - 1));
        lemma_ban_of_prefix(bans.drop_last(), user, k);
    } else {
        assert(bans.drop_last() =~= bans.take(k - 1));
    }
}

/// How Discord shows a point in time relative to now: `<t:seconds:R>`.
pub open spec fn relative_time(nanos: i128) -> Seq<char> {
    "<t:"@ + signed_decimal(seconds_of(nanos)) + ":R>"@
}

fn push_relative_time(s: &mut String, nanos: i128)
    ensures
        final(s)@ == old(s)@ + relative_time(nanos),
{
    let ghost start = s@;
    push_str(s, "<t:");
    push_signed_decimal_wide(s, unix_seconds(nanos));
    push_str(s, ":R>");
    assert(s@ =~= start + relative_time(nanos));
}

/// The text of the expiry field of a ban: for a ban that replaces another, the old end
/// (or `*Expired*` when it had none) and an arrow, then the new end.
pub open spec fn expires_text(previous: Option<Option<i128>>, until: i128) -> Seq<char> {
    (match previous {
        None => seq![],
        Some(p) => (match p {
            None => "*Expired*"@,
            Some(d) => relative_time(d),
        }) + " **\u{2794}** "@,
    }) + relative_time(until)
}

/// The text of a reason field: the reason in a code block.
pub open spec fn reason_text(reason: Seq<char>) -> Seq<char> {
    "```"@ + reason + "```"@
}

fn reason_value(reason: &str) -> (s: String)
    ensures
        s@ == reason_text(reason@),
{
    let mut s = String::from_str("```");
    push_str(&mut s, reason);
    push_str(&mut s, "```");
    s
}

/// The fields that describe a ban.
pub open spec fn ban_fields_view(previous: Option<Option<i128>>, until: i128, executor: u64, reason: Seq<char>) -> Seq<
    (Seq<char>, Seq<char>, bool),
> {
    seq![
        ("Expires"@, expires_text(previous, until), true),
        ("Staff"@, user_mention(executor), true),
        ("Reason"@, reason_text(reason), false),
    ]
}

/// Appends the fields that describe a ban: when it ends, who banned, and why.
pub fn push_ban_fields(
    fs: &mut Vec<EmbedField>,
    previous: Option<Option<i128>>,
    until: i128,
    executor: u64,
    reason: &str,
)
    ensures
        fields_view(final(fs)@) == fields_view(old(fs)@) + ban_fields_view(
            previous,
            until,
            executor,
            reason@,
        ),
{
    let ghost start = fs@;
    let mut expires = String::new();
    match previous {
        None => {},
        Some(p) => {
            match p {
                None => push_str(&mut expires, "*Expired*"),
                Some(d) => push_relative_time(&mut expires, d),
            }
            push_str(&mut expires, " **\u{2794}** ");
        },
    }
    push_relative_time(&mut expires, until);
    assert(expires@ =~= expires_text(previous, until));
    let mut staff = String::new();
    push_user_mention(&mut staff, executor);
    assert(staff@ =~= user_mention(executor));
    fs.push(field("Expires", expires, true));
    fs.push(field("Staff", staff, true));
    fs.push(field("Reason", reason_value(reason), false));
    assert(fields_view(fs@) =~= fields_view(start) + ban_fields_view(
        previous,
        until,
        executor,
        reason@,
    ));
}

/// The colour of a new ban.
pub const BAN_COLOR: u64 = 0xFD4659;

/// The colour of an updated ban.
pub const BAN_UPDATE_COLOR: u64 = 0x0E87CC;

/// The colour of an unban.
pub const UNBAN_COLOR: u64 = 0x20BF72;

fn user_field(user: u64) -> (f: EmbedField)
    ensures
        crate::embed::field_view(f) == ("User"@, user_mention(user), true),
{
    let mut v = String::new();
    push_user_mention(&mut v, user);
    assert(v@ =~= user_mention(user));
    field("User", v, true)
}


/// The author line of an embed about a user: the name and the user's avatar.
pub open spec fn author_is(a: Option<EmbedAuthor>, name: Seq<char>, icon: Seq<char>) -> bool {
    match a {
        Some(a) => a.name@ == name && a.url is None && match a.icon_url {
            Some(i) => i@ == icon,
            None => false,
        },
        None => false,
    }
}

/// Nothing else than the author, fields and colour is set.
pub open spec fn only_author_fields_color(e: Embed) -> bool {
    e.title is None && e.url is None && e.description is None && e.image is None
        && e.thumbnail is None && e.footer is None && e.timestamp is None
}

/// The announcement of a ban in the bans channel: `<tag> Scrim Banned` (or `Scrim Ban
/// Updated` when it replaces a running ban) with the user's avatar, the user, and the
/// fields of the ban.
pub fn ban_embed(
    tag: &str,
    avatar: &str,
    user: u64,
    executor: u64,
    previous: Option<Option<i128>>,
    until: i128,
    reason: &str,
) -> (e: Embed)
    ensures
        author_is(
            e.author,
            tag@ + if previous is Some {
                " Scrim Ban Updated"@
            } else {
                " Scrim Banned"@
            },
            avatar@,
        ),
        fields_view(e.fields@) == seq![("User"@, user_mention(user), true)] + ban_fields_view(
            previous,
            until,
            executor,
            reason@,
        ),
        e.color == Some(if previous is Some { BAN_UPDATE_COLOR } else { BAN_COLOR }),
        only_author_fields_color(e),
{
    let mut name = String::from_str(tag);
    if previous.is_some() {
        push_str(&mut name, " Scrim Ban Updated");
    } else {
        push_str(&mut name, " Scrim Banned");
    }
    let mut fields = vec![user_field(user)];
    push_ban_fields(&mut fields, previous, until, executor, reason);
    let mut e = empty_embed();
    e.author = Some(EmbedAuthor { name, url: None, icon_url: Some(String::from_str(avatar)) });
    e.fields = fields;
    e.color = Some(if previous.is_some() { BAN_UPDATE_COLOR } else { BAN_COLOR });
    e
}

/// The footer with the guild's name and icon.
pub open spec fn guild_footer(f: Option<EmbedFooter>, guild_name: Seq<char>, guild_icon: Option<String>) -> bool {
    match f {
        Some(f) => f.text@ == guild_name && f.icon_url == guild_icon,
        None => false,
    }
}

/// The message sent to a banned user: the title, the appeal channel, the fields of the
/// ban, and the guild's name and icon in the footer.
pub fn ban_dm_embed(
    appeal_channel: u64,
    executor: u64,
    previous: Option<Option<i128>>,
    until: i128,
    reason: &str,
    guild_name: &str,
    guild_icon: Option<String>,
) -> (e: Embed)
    ensures
        e.title matches Some(t) && t@ == if previous is Some {
            "Your Scrim Ban was Updated"@
        } else {
            "You were banned from queuing Scrims"@
        },
        fields_view(e.fields@) == seq![("Appeal Channel"@, channel_mention(appeal_channel), true)]
            + ban_fields_view(previous, until, executor, reason@),
        e.color == Some(if previous is Some { BAN_UPDATE_COLOR } else { BAN_COLOR }),
        guild_footer(e.footer, guild_name@, guild_icon),
        e.author is None && e.url is None && e.description is None && e.image is None
            && e.thumbnail is None && e.timestamp is None,
{
    let mut appeal = String::new();
    push_channel_mention(&mut appeal, appeal_channel);
    assert(appeal@ =~= channel_mention(appeal_channel));
    let mut fields = vec![field("Appeal Channel", appeal, true)];
    push_ban_fields(&mut fields, previous, until, executor, reason);
    let mut e = empty_embed();
    e.title = Some(
        if previous.is_some() {
            String::from_str("Your Scrim Ban was Updated")
        } else {
            String::from_str("You were banned from queuing Scrims")
        },
    );
    e.fields = fields;
    e.color = Some(if previous.is_some() { BAN_UPDATE_COLOR } else { BAN_COLOR });
    e.footer = Some(EmbedFooter { text: String::from_str(guild_name), icon_url: guild_icon });
    e
}

/// The record stored for a ban until `until` of `user`, who lost the roles `removed`:
/// a running ban keeps the roles it took before, together with the new ones.
pub fn ban_record(existing: Option<&BanRecord>, user: u64, until: i128, removed: &Vec<u64>) -> (r: BanRecord)
    ensures
        r.user_id == user,
        r.expires_at == Some(until),
        match existing {
            None => r.roles@ == removed@,
            Some(e) => no_duplicates(r.roles@) && forall|x: u64|
                r.roles@.contains(x) <==> (e.roles@.contains(x) || removed@.contains(x)),
        },
{
    let roles = match existing {
        None => {
            let r = removed.clone();
            assert(r@ == removed@);
            r
        },
        Some(e) => merge_roles(&e.roles, removed),
    };
    BanRecord { user_id: user, expires_at: Some(until), roles }
}

/// The error when the executor may not ban the user.
pub fn ban_refused(user: u64) -> (e: ErrorResponse)
    ensures
        e.title matches Some(t) && t@ == "Insufficient Permissions"@,
        e.description@ == "You do not have permission to ban "@ + user_mention(user) + "!"@,
        e.footer is None,
{
    let mut d = String::from_str("You do not have permission to ban ");
    push_user_mention(&mut d, user);
    push_str(&mut d, "!");
    ErrorResponse { title: Some(String::from_str("Insufficient Permissions")), description: d, footer: None }
}

/// The error when a frozen user could not be unfrozen before the ban.
pub fn unfreeze_failed(user: u64) -> (e: ErrorResponse)
    ensures
        e.title matches Some(t) && t@ == "User is Frozen"@,
        e.description@ == "Unable to unfreeze "@ + user_mention(user) + "!"@,
        e.footer is None,
{
    let mut d = String::from_str("Unable to unfreeze ");
    push_user_mention(&mut d, user);
    push_str(&mut d, "!");
    ErrorResponse { title: Some(String::from_str("User is Frozen")), description: d, footer: None }
}

/// The notice that a frozen user is unfrozen before the ban.
pub fn unfreezing_notice(user: u64) -> (s: String)
    ensures
        s@ == "Unfreezing "@ + user_mention(user) + " before banning them..."@,
{
    let mut s = String::from_str("Unfreezing ");
    push_user_mention(&mut s, user);
    push_str(&mut s, " before banning them...");
    s
}

/// The reason of a ban given without one.
pub const DEFAULT_BAN_REASON: &'static str = "No reason specified";

/// The reason of an unban given without one.
pub const DEFAULT_UNBAN_REASON: &'static str = "No reason provided";

/// The reason of an unban because the ban ran out.
pub const EXPIRED_REASON: &'static str = "Ban Expired";

/// The error when the user to unban is not banned.
pub fn not_banned(user: &str) -> (e: ErrorResponse)
    ensures
        e.title is None,
        e.description@ == user@ + " is not banned."@,
        e.footer is None,
{
    let mut d = String::from_str(user);
    push_str(&mut d, " is not banned.");
    ErrorResponse { title: None, description: d, footer: None }
}

/// The user named in an unban command: the number, or 0 when it is not one.
pub fn unban_target(user: &str) -> (r: u64)
    ensures
        r == match parse_u64(user@) {
            Some(v) => v,
            None => 0,
        },
{
    let c = chars_of(user);
    match parse_u64_chars(c.as_slice()) {
        Some(v) => v,
        None => 0,
    }
}

/// The fields that describe an unban: who lifted it, if staff did, and why.
pub open spec fn unban_fields_view(staff: Option<u64>, reason: Seq<char>) -> Seq<(Seq<char>, Seq<char>, bool)> {
    (match staff {
        Some(s) => seq![("Staff"@, user_mention(s), true)],
        None => seq![],
    }) + seq![("Reason"@, reason_text(reason), false)]
}

fn push_unban_fields(fs: &mut Vec<EmbedField>, staff: Option<u64>, reason: &str)
    ensures
        fields_view(final(fs)@) == fields_view(old(fs)@) + unban_fields_view(staff, reason@),
{
    let ghost start = fs@;
    match staff {
        Some(s) => {
            let mut v = String::new();
            push_user_mention(&mut v, s);
            assert(v@ =~= user_mention(s));
            fs.push(field("Staff", v, true));
        },
        None => {},
    }
    fs.push(field("Reason", reason_value(reason), false));
    assert(fields_view(fs@) =~= fields_view(start) + unban_fields_view(staff, reason@));
}

/// The announcement of an unban: `<tag> Unbanned` with the user's avatar, the user,
/// and the fields of the unban.
pub fn unban_embed(tag: &str, avatar: &str, user: u64, staff: Option<u64>, reason: &str) -> (e: Embed)
    ensures
        author_is(e.author, tag@ + " Unbanned"@, avatar@),
        fields_view(e.fields@) == seq![("User"@, user_mention(user), true)] + unban_fields_view(
            staff,
            reason@,
        ),
        e.color == Some(UNBAN_COLOR),
        only_author_fields_color(e),
{
    let mut name = String::from_str(tag);
    push_str(&mut name, " Unbanned");
    let mut fields = vec![user_field(user)];
    push_unban_fields(&mut fields, staff, reason);
    let mut e = empty_embed();
    e.author = Some(EmbedAuthor { name, url: None, icon_url: Some(String::from_str(avatar)) });
    e.fields = fields;
    e.color = Some(UNBAN_COLOR);
    e
}

/// The message sent to an unbanned user.
pub fn unban_dm_embed(staff: Option<u64>, reason: &str, guild_name: &str, guild_icon: Option<String>) -> (e: Embed)
    ensures
        e.title matches Some(t) && t@ == "You were Unbanned"@,
        fields_view(e.fields@) == unban_fields_view(staff, reason@),
        e.color == Some(UNBAN_COLOR),
        guild_footer(e.footer, guild_name@, guild_icon),
        e.author is None && e.url is None && e.description is None && e.image is None
            && e.thumbnail is None && e.timestamp is None,
{
    let mut fields: Vec<EmbedField> = Vec::new();
    push_unban_fields(&mut fields, staff, reason);
    assert(fields_view(Seq::<EmbedField>::empty()) =~= Seq::empty());
    let mut e = empty_embed();
    e.title = Some(String::from_str("You were Unbanned"));
    e.fields = fields;
    e.color = Some(UNBAN_COLOR);
    e.footer = Some(EmbedFooter { text: String::from_str(guild_name), icon_url: guild_icon });
    e
}

/// The answer when a user who left the guild was unbanned already.
pub fn already_unbanned_embed(tag: &str) -> (e: Embed)
    ensures
        e.description matches Some(d) && d@ == "**"@ + tag@ + "** was already unbanned."@,
        e.color == Some(UNBAN_COLOR),
        e.author is None && e.title is None && e.url is None && e.fields@.len() == 0
            && e.image is None && e.thumbnail is None && e.footer is None && e.timestamp is None,
{
    let mut d = String::from_str("**");
    push_str(&mut d, tag);
    push_str(&mut d, "** was already unbanned.");
    let mut e = empty_embed();
    e.description = Some(d);
    e.color = Some(UNBAN_COLOR);
    e
}

/// What lifting a ban does.
#[derive(Debug)]
pub enum UnbanPlan {
    /// The member is in the guild: the record is deleted and the member gets these
    /// roles; the unban is announced unless it was announced already.
    Restore { roles: Vec<u64>, announce: bool },
    /// The member left and the unban was announced already: only say so.
    AlreadyUnbanned,
    /// The member left: announce the unban and mark the record as announced.
    AnnounceAndMark,
}

/// Decides what lifting the ban `ban` does, given the member's roles when the member is
/// in the guild: the roles come back as [`unban_roles`] gives them.
pub fn unban_plan(
    ban: &BanRecord,
    current: &Option<Vec<u64>>,
    member_role: u64,
    banned: u64,
    guild_roles: &Vec<u64>,
) -> (r: UnbanPlan)
    ensures
        match current {
            Some(c) => r matches UnbanPlan::Restore { roles, announce } && announce == (
            ban.expires_at is Some) && no_duplicates(roles@) && forall|x: u64|
                roles@.contains(x) <==> (ban.roles@.contains(x) || x == member_role
                    || c@.contains(x)) && x != banned && guild_roles@.contains(x),
            None => if ban.expires_at is None {
                r is AlreadyUnbanned
            } else {
                r is AnnounceAndMark
            },
        },
{
    match current {
        Some(c) => UnbanPlan::Restore {
            roles: unban_roles(&ban.roles, member_role, c, banned, guild_roles),
            announce: !ban.was_logged(),
        },
        None => if ban.was_logged() {
            UnbanPlan::AlreadyUnbanned
        } else {
            UnbanPlan::AnnounceAndMark
        },
    }
}

/// The bans that have run out at `now`, in order.
pub open spec fn expired_bans(bans: Seq<BanRecord>, now: i128) -> Seq<usize>
    decreases bans.len(),
{
    if bans.len() == 0 {
        seq![]
    } else if expired_at(bans.last().expires_at, now) {
        expired_bans(bans.drop_last(), now).push((bans.len() - 1) as usize)
    } else {
        expired_bans(bans.drop_last(), now)
    }
}

/// Finds the bans that have run out at `now`; each is lifted with the reason
/// [`EXPIRED_REASON`].
pub fn bans_to_lift(bans: &Vec<BanRecord>, now: i128) -> (r: Vec<usize>)
    ensures
        r@ == expired_bans(bans@, now),
{
    let mut r: Vec<usize> = Vec::new();
    let mut i: usize = 0;
    while i < bans.len()
        invariant
            i <= bans@.len(),
            r@ == expired_bans(bans@.take(i as int), now),
        decreases bans@.len() - i,
    {
        assert(bans@.take(i + 1).drop_last() =~= bans@.take(i as int));
        if bans[i].is_expired_at(now) {
            r.push(i);
        }
        i = i + 1;
    }
    assert(bans@.take(bans@.len() as int) =~= bans@);
    r
}

/// What a change to a member means for a scrim ban.
#[derive(Debug)]
pub enum BanCheck {
    /// The member is not banned, or the ban is in force.
    Nothing,
    /// The ban at this index has run out: lift it.
    Lift(usize),
    /// The member has roles the ban does not allow, or lacks the ban role: give the
    /// member these roles, and store these taken roles with the ban when some are new.
    Enforce { roles: Vec<u64>, store: Option<Vec<u64>> },
}

/// Decides what a change to a member means for their scrim ban.
pub fn check_banned(bans: &Vec<BanRecord>, user: u64, roles: &Vec<RoleInfo>, banned: u64, now: i128) -> (r: BanCheck)
    ensures
        match ban_of(bans@, user) {
            None => r is Nothing,
            Some(i) => {
                let b = bans@[i];
                if expired_at(b.expires_at, now) {
                    r == BanCheck::Lift(i as usize)
                } else if !ban_needs_enforcing(roles@, banned) {
                    r is Nothing
                } else {
                    r matches BanCheck::Enforce { roles: new_roles, store } && new_roles@
                        == restricted_roles(roles@, banned) && if (forall|k: int|
                        0 <= k < removed_roles(roles@, banned).len() ==> b.roles@.contains(
                            #[trigger] removed_roles(roles@, banned)[k],
                        )) {
                        store is None
                    } else {
                        store matches Some(all) && no_duplicates(all@) && forall|x: u64|
                            all@.contains(x) <==> (b.roles@.contains(x) || removed_roles(
                                roles@,
                                banned,
                            ).contains(x))
                    }
                }
            },
        },
{
    proof {
        lemma_ban_of_bound(bans@, user);
    }
    let i = match find_ban(bans, user) {
        None => return BanCheck::Nothing,
        Some(i) => i,
    };
    let b = &bans[i];
    if b.is_expired_at(now) {
        return BanCheck::Lift(i);
    }
    if !ban_must_be_enforced(roles, banned) {
        return BanCheck::Nothing;
    }
    let (kept, removed) = restrict_roles(roles, banned);
    let store = if all_in(&removed, &b.roles) {
        None
    } else {
        Some(merge_roles(&b.roles, &removed))
    };
    BanCheck::Enforce { roles: kept, store }
}

/// The command that lists the bans.
pub struct ListBans;

impl ListBans {
    /// The command's name.
    pub fn name(&self) -> (s: String)
        ensures
            s@ == "list_bans"@,
    {
        String::from_str("list_bans")
    }
}

/// Which bans are listed.
#[derive(Clone, Copy, Debug, PartialEq, Eq, Structural)]
pub enum BanListKind {
    /// `sv`: bans from the server.
    Server,
    /// `sc`: scrim bans.
    Scrim,
}

/// The kind of list the option `sv` or `sc` asks for.
pub fn ban_list_kind(option: &str) -> (r: Option<BanListKind>)
    ensures
        r == if option@ == "sv"@ {
            Some(BanListKind::Server)
        } else if option@ == "sc"@ {
            Some(BanListKind::Scrim)
        } else {
            None::<BanListKind>
        },
{
    if crate::text::str_eq(option, "sv") {
        Some(BanListKind::Server)
    } else if crate::text::str_eq(option, "sc") {
        Some(BanListKind::Scrim)
    } else {
        None
    }
}

/// The title of a ban list.
pub fn ban_list_title(kind: BanListKind) -> (s: String)
    ensures
        s@ == match kind {
            BanListKind::Server => "Server Bans"@,
            BanListKind::Scrim => "Scrim Bans"@,
        },
{
    match kind {
        BanListKind::Server => String::from_str("Server Bans"),
        BanListKind::Scrim => String::from_str("Scrim Bans"),
    }
}

/// The line of one ban: the user and when the ban ends.
pub open spec fn ban_line(user: u64, until: i64) -> Seq<char> {
    "- <@!"@ + decimal(user as nat) + ">: banned until <t:"@ + signed_decimal(until as int)
        + ":R>\n"@
}

/// A new chunk is begun once the current one is longer than this.
pub const CHUNK_LIMIT: usize = 1950;

/// The chunks of a ban list: the lines in order, a new chunk begun before a line
/// whenever the current chunk is longer than [`CHUNK_LIMIT`].
pub open spec fn ban_chunks(bans: Seq<(u64, i64)>) -> Seq<Seq<char>>
    decreases bans.len(),
{
    if bans.len() == 0 {
        seq![seq![]]
    } else {
        let c = ban_chunks(bans.drop_last());
        let l = ban_line(bans.last().0, bans.last().1);
        if c.last().len() > CHUNK_LIMIT {
            c.push(l)
        } else {
            c.update(c.len() - 1, c.last() + l)
        }
    }
}

proof fn lemma_ban_chunks_nonempty(bans: Seq<(u64, i64)>)
    ensures
        ban_chunks(bans).len() >= 1,
    decreases bans.len(),
{
    if bans.len() > 0 {
        lemma_ban_chunks_nonempty(bans.drop_last());
    }
}

/// Splits a ban list into chunks small enough for a message.
pub fn ban_list_chunks(bans: &Vec<(u64, i64)>) -> (r: Vec<String>)
    ensures
        r@.map_values(|c: String| c@) == ban_chunks(bans@),
{
    let mut r: Vec<String> = vec![String::new()];
    assert(r@.map_values(|c: String| c@) =~= ban_chunks(bans@.take(0)));
    let mut i: usize = 0;
    while i < bans.len()
        invariant
            i <= bans@.len(),
            r@.len() >= 1,
            r@.map_values(|c: String| c@) == ban_chunks(bans@.take(i as int)),
        decreases bans@.len() - i,
    {
        assert(bans@.take(i + 1).drop_last() =~= bans@.take(i as int));
        assert(bans@.take(i + 1).last() == bans@[i as int]);
        let (user, until) = bans[i];
        let ghost before = r@.map_values(|c: String| c@);
        let mut line = String::from_str("- <@!");
        push_decimal(&mut line, user);
        push_str(&mut line, ">: banned until <t:");
        crate::text::push_signed_decimal(&mut line, until);
        push_str(&mut line, ":R>\n");
        assert(line@ =~= ban_line(user, until));
        let last = r.len() - 1;
        let long = r[last].unicode_len() > CHUNK_LIMIT;
        if long {
            r.push(line);
            assert(r@.map_values(|c: String| c@) =~= before.push(line@));
        } else {
            let mut cur = r.pop().unwrap();
            push_str(&mut cur, line.as_str());
            r.push(cur);
            assert(r@.map_values(|c: String| c@) =~= before.update(
                before.len() - 1,
                before.last() + line@,
            ));
        }
        i = i + 1;
    }
    assert(bans@.take(bans@.len() as int) =~= bans@);
    r
}

/// The texts of a ban list: the last chunk goes in the first answer, the others follow
/// in order.
pub fn ban_list_messages(bans: &Vec<(u64, i64)>) -> (r: (String, Vec<String>))
    ensures
        r.0@ == ban_chunks(bans@).last(),
        r.1@.map_values(|c: String| c@) == ban_chunks(bans@).drop_last(),
{
    let mut chunks = ban_list_chunks(bans);
    proof {
        lemma_ban_chunks_nonempty(bans@);
    }
    let ghost all = chunks@.map_values(|c: String| c@);
    let last = chunks.pop().unwrap();
    assert(chunks@.map_values(|c: String| c@) =~= all.drop_last());
    (last, chunks)
}

/// The command that shows how often each screensharer has unfrozen someone.
pub struct Screensharers;

impl Screensharers {
    /// The command's name.
    pub fn name(&self) -> (s: String)
        ensures
            s@ == "screensharers"@,
    {
        String::from_str("screensharers")
    }
}

/// The title of the leaderboard.
pub const LEADERBOARD_TITLE: &'static str = "Unfreeze Leaderboard";

/// The description of the leaderboard.
pub const LEADERBOARD_TEXT: &'static str = "List of every screenshare member that has unfrozen someone before and how many times they did it.";

/// The leaderboard fields: for each screensharer whose user could be read (`Some` tag),
/// the tag and the number of freezes.
pub open spec fn leaderboard_view(entries: Seq<(Option<String>, i32)>) -> Seq<(Seq<char>, Seq<char>, bool)>
    decreases entries.len(),
{
    if entries.len() == 0 {
        seq![]
    } else {
        leaderboard_view(entries.drop_last()) + match entries.last().0 {
            Some(tag) => seq![(tag@, signed_decimal(entries.last().1 as int) + " freezes"@, false)],
            None => seq![],
        }
    }
}

/// The fields of the leaderboard.
pub fn leaderboard_fields(entries: &Vec<(Option<String>, i32)>) -> (r: Vec<EmbedField>)
    ensures
        fields_view(r@) == leaderboard_view(entries@),
{
    let mut r: Vec<EmbedField> = Vec::new();
    let mut i: usize = 0;
    while i < entries.len()
        invariant
            i <= entries@.len(),
            fields_view(r@) == leaderboard_view(entries@.take(i as int)),
        decreases entries@.len() - i,
    {
        assert(entries@.take(i + 1).drop_last() =~= entries@.take(i as int));
        assert(entries@.take(i + 1).last() == entries@[i as int]);
        let ghost before = fields_view(r@);
        match &entries[i].0 {
            Some(tag) => {
                let mut v = String::new();
                crate::text::push_signed_decimal(&mut v, entries[i].1 as i64);
                push_str(&mut v, " freezes");
                r.push(EmbedField { name: String::from_str(tag.as_str()), value: v, inline: false });
                assert(fields_view(r@) =~= before + seq![
                    (tag@, signed_decimal(entries@[i as int].1 as int) + " freezes"@, false),
                ]);
            },
            None => {
                assert(before + Seq::<(Seq<char>, Seq<char>, bool)>::empty() =~= before);
            },
        }
        i = i + 1;
    }
    assert(entries@.take(entries@.len() as int) =~= entries@);
    r
}

/// Lifting a ban gives back what the ban took: a member banned with roles `rs`, who
/// then holds the roles the ban left, gets on the lift every role they held before and
/// the member role, except the ban role and roles that no longer exist.
pub proof fn lemma_lift_restores(rs: Seq<RoleInfo>, banned: u64, member_role: u64, guild_roles: Seq<u64>)
    ensures
        forall|x: u64|
            ((removed_roles(rs, banned).contains(x) || x == member_role || restricted_roles(
                rs,
                banned,
            ).contains(x)) && x != banned && guild_roles.contains(x)) <==> (((exists|i: int|
                0 <= i < rs.len() && (#[trigger] rs[i]).id == x) || x == member_role) && x != banned
                && guild_roles.contains(x)),
{
    crate::roles::lemma_restriction_covers(rs, banned);
}

/// The lines of a ban list, one after the other.
pub open spec fn ban_lines(bans: Seq<(u64, i64)>) -> Seq<char>
    decreases bans.len(),
{
    if bans.len() == 0 {
        seq![]
    } else {
        ban_lines(bans.drop_last()) + ban_line(bans.last().0, bans.last().1)
    }
}

/// Chunking loses and reorders no line: the chunks, one after the other, are the
/// lines; and every chunk but the last is longer than the limit.
pub proof fn lemma_chunks_keep_lines(bans: Seq<(u64, i64)>)
    ensures
        ban_chunks(bans).flatten_alt() == ban_lines(bans),
        forall|i: int| 0 <= i < ban_chunks(bans).len() - 1 ==> (#[trigger] ban_chunks(bans)[i]).len() > CHUNK_LIMIT,
    decreases bans.len(),
{
    lemma_ban_chunks_nonempty(bans);
    if bans.len() == 0 {
        let c = ban_chunks(bans);
        assert(c == seq![Seq::<char>::empty()]);
        assert(c.drop_last() =~= Seq::<Seq<char>>::empty());
        assert(c.drop_last().flatten_alt() == Seq::<char>::empty());
        assert(c.flatten_alt() == c.drop_last().flatten_alt() + c.last());
        assert(c.flatten_alt() =~= Seq::<char>::empty());
    } else {
        let p = bans.drop_last();
        lemma_chunks_keep_lines(p);
        lemma_ban_chunks_nonempty(p);
        let c = ban_chunks(p);
        let l = ban_line(bans.last().0, bans.last().1);
        if c.last().len() > CHUNK_LIMIT {
            assert(c.push(l).drop_last() =~= c);
            assert forall|i: int| 0 <= i < c.push(l).len() - 1 implies (#[trigger] c.push(l)[i]).len() > CHUNK_LIMIT by {
                if i < c.len() - 1 {
                    assert(c.push(l)[i] == c[i]);
                } else {
                    assert(c.push(l)[i] == c.last());
                }
            }
        } else {
            let u = c.update(c.len() - 1, c.last() + l);
            assert(u.drop_last() =~= c.drop_last());
            assert(c.flatten_alt() == c.drop_last().flatten_alt() + c.last());
            assert(u.flatten_alt() == u.drop_last().flatten_alt() + u.last());
            assert(u.flatten_alt() =~= c.flatten_alt() + l);
            assert forall|i: int| 0 <= i < u.len() - 1 implies (#[trigger] u[i]).len() > CHUNK_LIMIT by {
                assert(u[i] == c[i]);
            }
        }
    }
}

} // verus!
