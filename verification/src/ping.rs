//! The commands that are held back by cooldowns: role pings and log time lookups.

use vstd::prelude::*;

use crate::cooldown::{
    applies, key_view, lemma_time_left_push, readable_at, same_cooldown, time_left, Cooldown,
    Cooldowns, CooldownType,
};
use crate::embed::{empty_embed, field, fields_view, text_is, Embed};
use crate::roles::holds;
use crate::text::{decimal, push_decimal, push_role_mention, push_str, role_mention, str_eq};

verus! {

/// Nanoseconds in a second.
pub const SECOND: u128 = 1_000_000_000;

/// A ping command of the configuration: its name, and the channels (or categories) it
/// may be used in, if it is limited.
#[derive(Debug)]
pub struct PingConfig {
    pub name: String,
    pub allowed_channels: Option<Vec<u64>>,
}

/// The command that pings a role on request.
pub struct Ping {
    pub cooldowns: Cooldowns,
}

/// The first ping command named `name`.
pub open spec fn ping_named(pings: Seq<PingConfig>, name: Seq<char>) -> Option<int>
    decreases pings.len(),
{
    if pings.len() == 0 {
        None
    } else {
        match ping_named(pings.drop_last(), name) {
            Some(i) => Some(i),
            None => if pings.last().name@ == name {
                Some(pings.len() - 1)
            } else {
                None
            },
        }
    }
}

/// A ping may be used in a channel unless its command limits it to channels and
/// categories of which neither the channel nor its category is one.
pub open spec fn ping_allowed(pings: Seq<PingConfig>, name: Seq<char>, channel: u64, parent: Option<u64>) -> bool {
    match ping_named(pings, name) {
        None => true,
        Some(i) => match pings[i].allowed_channels {
            None => true,
            Some(cs) => exists|k: int|
                0 <= k < cs@.len() && (#[trigger] cs@[k] == channel || Some(cs@[k]) == parent),
        },
    }
}

proof fn lemma_ping_named_prefix(pings: Seq<PingConfig>, name: Seq<char>, k: int)
    requires
        0 < k <= pings.len(),
        ping_named(pings.take(k - 1), name) is None,
        pings[k - 1].name@ == name,
    ensures
        ping_named(pings, name) == Some(k - 1),
    decreases pings.len(),
{
    if k < pings.len() {
        assert(pings.drop_last().take(k - 1) =~= pings.take(k - 1));
        lemma_ping_named_prefix(pings.drop_last(), name, k);
    } else {
        assert(pings.drop_last() =~= pings.take(k - 1));
    }
}

/// The answer in a channel where the ping may not be used.
pub const PING_DISABLED: &'static str = "This command is disabled in this channel.";

/// The answer once the ping is sent.
pub const PING_SENT: &'static str = "Ping sent!";

/// Whether the ping command `name` may be used in `channel` under `parent`.
pub fn ping_allowed_in(pings: &Vec<PingConfig>, name: &str, channel: u64, parent: Option<u64>) -> (r: bool)
    ensures
        r == ping_allowed(pings@, name@, channel, parent),
{
    let mut i: usize = 0;
    while i < pings.len()
        invariant
            i <= pings@.len(),
            ping_named(pings@.take(i as int), name@) is None,
        decreases pings@.len() - i,
    {
        assert(pings@.take(i + 1).drop_last() =~= pings@.take(i as int));
        if str_eq(pings[i].name.as_str(), name) {
            proof {
                lemma_ping_named_prefix(pings@, name@, i + 1);
            }
            return match &pings[i].allowed_channels {
                None => true,
                Some(cs) => {
                    let mut found = false;
                    let mut k: usize = 0;
                    while k < cs.len()
                        invariant
                            k <= cs@.len(),
                            found == exists|j: int|
                                0 <= j < k && (#[trigger] cs@[j] == channel || Some(cs@[j]) == parent),
                        decreases cs@.len() - k,
                    {
                        if cs[k] == channel || Some(cs[k]) == parent {
                            found = true;
                        }
                        k = k + 1;
                    }
                    found
                },
            };
        }
        i = i + 1;
    }
    assert(pings@.take(pings@.len() as int) =~= pings@);
    true
}

/// The key of the cooldowns of a ping: the role's number.
pub open spec fn ping_key(role: u64) -> Seq<char> {
    decimal(role as nat)
}

/// The message that pings the role: the user, the role, and the extra text.
pub open spec fn ping_text(user: u64, role: u64, text: Seq<char>) -> Seq<char> {
    "<@!"@ + decimal(user as nat) + ">: "@ + role_mention(role) + " "@ + text
}

impl Ping {
    /// The command with no cooldowns.
    pub fn new() -> (p: Ping)
        ensures
            p.cooldowns.items@.len() == 0,
    {
        Ping { cooldowns: Cooldowns::new() }
    }

    /// The command's name.
    pub fn name(&self) -> (s: String)
        ensures
            s@ == "ping"@,
    {
        String::from_str("ping")
    }

    /// A ping of `role` by `user` at `now`: when a cooldown for the role holds the
    /// user back, the time left; otherwise the ping goes ahead, and the role gets a
    /// global cooldown of 20 seconds and one of 35 seconds for the user (handed back,
    /// to be removed when they end).
    pub fn begin(&mut self, user: u64, role: u64, now: u128) -> (r: Result<(Cooldown, Cooldown), u128>)
        requires
            readable_at(old(self).cooldowns.items@, Some(ping_key(role)), user, now),
            now + 35 * SECOND <= u128::MAX,
        ensures
            match time_left(old(self).cooldowns.items@, Some(ping_key(role)), user, now) {
                Some(t) => r == Err::<(Cooldown, Cooldown), u128>(t as u128) && final(self).cooldowns.items@
                    == old(self).cooldowns.items@,
                None => r matches Ok((g, u)) && final(self).cooldowns.items@.len() == old(
                    self,
                ).cooldowns.items@.len() + 2 && final(self).cooldowns.items@.take(
                    old(self).cooldowns.items@.len() as int,
                ) == old(self).cooldowns.items@ && g.spec_duration() == 20 * SECOND
                    && g.spec_expire() == now + 20 * SECOND && g.spec_key() == Some(ping_key(role))
                    && g.spec_info() == CooldownType::Global && u.spec_duration() == 35 * SECOND
                    && u.spec_expire() == now + 35 * SECOND && u.spec_key() == Some(ping_key(role))
                    && u.spec_info() == CooldownType::User(user),
            },
            r matches Ok((g, u)) ==> same_cooldown(
                final(self).cooldowns.items@[old(self).cooldowns.items@.len() as int],
                g,
            ) && same_cooldown(final(self).cooldowns.items@[old(self).cooldowns.items@.len() + 1int], u),
            r is Ok ==> forall|v: u64|
                #[trigger] time_left(final(self).cooldowns.items@, Some(ping_key(role)), v, now)
                    == match time_left(old(self).cooldowns.items@, Some(ping_key(role)), v, now) {
                    Some(t) => Some(t),
                    None => Some(20 * SECOND as int),
                },
    {
        let mut key = String::new();
        push_decimal(&mut key, role);
        assert(key@ =~= ping_key(role));
        let key2 = String::from_str(key.as_str());
        let key3 = String::from_str(key.as_str());
        match self.cooldowns.check_cooldown_key(user, key, now) {
            Some(t) => Err(t),
            None => {
                let ghost before = self.cooldowns.items@;
                let g = self.cooldowns.add_cooldown(20 * SECOND, Some(key2), CooldownType::Global, now);
                let ghost mid = self.cooldowns.items@;
                let u = self.cooldowns.add_cooldown(
                    35 * SECOND,
                    Some(key3),
                    CooldownType::User(user),
                    now,
                );
                proof {
                    let fin = self.cooldowns.items@;
                    assert(mid =~= before.push(mid.last()));
                    assert(fin =~= mid.push(fin.last()));
                    assert(fin.take(before.len() as int) =~= before);
                    assert forall|v: u64| #[trigger]
                        time_left(fin, Some(ping_key(role)), v, now) == match time_left(
                            before,
                            Some(ping_key(role)),
                            v,
                            now,
                        ) {
                            Some(t) => Some(t),
                            None => Some(20 * SECOND as int),
                        } by {
                        lemma_time_left_push(before, mid.last(), Some(ping_key(role)), v, now);
                        lemma_time_left_push(mid, fin.last(), Some(ping_key(role)), v, now);
                    }
                }
                Ok((g, u))
            },
        }
    }

    /// The message that pings the role.
    pub fn message(user: u64, role: u64, text: &Option<String>) -> (s: String)
        ensures
            s@ == ping_text(
                user,
                role,
                match text {
                    Some(t) => t@,
                    None => seq![],
                },
            ),
    {
        let mut s = String::from_str("<@!");
        push_decimal(&mut s, user);
        push_str(&mut s, ">: ");
        push_role_mention(&mut s, role);
        push_str(&mut s, " ");
        match text {
            Some(t) => push_str(&mut s, t.as_str()),
            None => {},
        }
        assert(s@ =~= ping_text(
            user,
            role,
            match text {
                Some(t) => t@,
                None => seq![],
            },
        ));
        s
    }
}

/// The command that shows when a player last logged in and out of Hypixel.
pub struct LogTime {
    pub cooldowns: Cooldowns,
}

impl LogTime {
    /// The command with no cooldowns.
    pub fn new() -> (l: LogTime)
        ensures
            l.cooldowns.items@.len() == 0,
    {
        LogTime { cooldowns: Cooldowns::new() }
    }

    /// The command's name.
    pub fn name(&self) -> (s: String)
        ensures
            s@ == "logtime"@,
    {
        String::from_str("logtime")
    }

    /// A lookup by `user` at `now`: when a cooldown holds the user back, the time
    /// left; otherwise the lookup goes ahead, with a global cooldown of 5 seconds and
    /// one of 15 seconds for the user (handed back, to be removed when they end).
    pub fn begin(&mut self, user: u64, now: u128) -> (r: Result<(Cooldown, Cooldown), u128>)
        requires
            readable_at(old(self).cooldowns.items@, None, user, now),
            now + 15 * SECOND <= u128::MAX,
        ensures
            match time_left(old(self).cooldowns.items@, None, user, now) {
                Some(t) => r == Err::<(Cooldown, Cooldown), u128>(t as u128) && final(self).cooldowns.items@
                    == old(self).cooldowns.items@,
                None => r matches Ok((g, u)) && final(self).cooldowns.items@.len() == old(
                    self,
                ).cooldowns.items@.len() + 2 && final(self).cooldowns.items@.take(
                    old(self).cooldowns.items@.len() as int,
                ) == old(self).cooldowns.items@ && g.spec_duration() == 5 * SECOND
                    && g.spec_expire() == now + 5 * SECOND && g.spec_key() is None
                    && g.spec_info() == CooldownType::Global && u.spec_duration() == 15 * SECOND
                    && u.spec_expire() == now + 15 * SECOND && u.spec_key() is None
                    && u.spec_info() == CooldownType::User(user),
            },
            r matches Ok((g, u)) ==> same_cooldown(
                final(self).cooldowns.items@[old(self).cooldowns.items@.len() as int],
                g,
            ) && same_cooldown(final(self).cooldowns.items@[old(self).cooldowns.items@.len() + 1int], u),
            r is Ok ==> forall|v: u64|
                #[trigger] time_left(final(self).cooldowns.items@, None, v, now) == match time_left(
                    old(self).cooldowns.items@,
                    None,
                    v,
                    now,
                ) {
                    Some(t) => Some(t),
                    None => Some(5 * SECOND as int),
                },
    {
        match self.cooldowns.check_cooldown(user, now) {
            Some(t) => Err(t),
            None => {
                let ghost before = self.cooldowns.items@;
                let g = self.cooldowns.add_cooldown(5 * SECOND, None, CooldownType::Global, now);
                let ghost mid = self.cooldowns.items@;
                let u = self.cooldowns.add_cooldown(15 * SECOND, None, CooldownType::User(user), now);
                proof {
                    let fin = self.cooldowns.items@;
                    assert(mid =~= before.push(mid.last()));
                    assert(fin =~= mid.push(fin.last()));
                    assert(fin.take(before.len() as int) =~= before);
                    assert forall|v: u64| #[trigger]
                        time_left(fin, None, v, now) == match time_left(before, None, v, now) {
                            Some(t) => Some(t),
                            None => Some(5 * SECOND as int),
                        } by {
                        lemma_time_left_push(before, mid.last(), None, v, now);
                        lemma_time_left_push(mid, fin.last(), None, v, now);
                    }
                }
                Ok((g, u))
            },
        }
    }

    /// The answer for a player that could not be found.
    pub fn not_found_embed(name: &str) -> (e: Embed)
        ensures
            text_is(e.title, "Invalid User!"@),
            text_is(e.description, "The player `"@ + name@ + "` could not be found"@),
            e.author is None && e.url is None && e.color is None && e.fields@.len() == 0
                && e.image is None && e.thumbnail is None && e.footer is None && e.timestamp is None,
    {
        let mut d = String::from_str("The player `");
        push_str(&mut d, name);
        push_str(&mut d, "` could not be found");
        let mut e = empty_embed();
        e.title = Some(String::from_str("Invalid User!"));
        e.description = Some(d);
        e
    }

    /// The answer when the Hypixel API failed.
    pub fn api_error_embed() -> (e: Embed)
        ensures
            text_is(e.title, "API Error!"@),
            text_is(e.description, "The Hypixel api has yielded an error!"@),
            e.author is None && e.url is None && e.color is None && e.fields@.len() == 0
                && e.image is None && e.thumbnail is None && e.footer is None && e.timestamp is None,
    {
        let mut e = empty_embed();
        e.title = Some(String::from_str("API Error!"));
        e.description = Some(String::from_str("The Hypixel api has yielded an error!"));
        e
    }

    /// The answer with a player's last login and logout (0 when unknown).
    pub fn times_embed(name: &str, last_login: Option<u64>, last_logout: Option<u64>) -> (e: Embed)
        ensures
            text_is(e.title, "Log Time information for "@ + name@),
            fields_view(e.fields@) == seq![
                (
                    "Last login time"@,
                    decimal(
                        match last_login {
                            Some(t) => t as nat,
                            None => 0,
                        },
                    ),
                    false,
                ),
                (
                    "Last logout time"@,
                    decimal(
                        match last_logout {
                            Some(t) => t as nat,
                            None => 0,
                        },
                    ),
                    false,
                ),
            ],
            e.author is None && e.url is None && e.color is None && e.description is None
                && e.image is None && e.thumbnail is None && e.footer is None && e.timestamp is None,
    {
        let mut t = String::from_str("Log Time information for ");
        push_str(&mut t, name);
        let mut login = String::new();
        push_decimal(
            &mut login,
            match last_login {
                Some(v) => v,
                None => 0,
            },
        );
        let mut logout = String::new();
        push_decimal(
            &mut logout,
            match last_logout {
                Some(v) => v,
                None => 0,
            },
        );
        let mut e = empty_embed();
        e.title = Some(t);
        e.fields = vec![
            field("Last login time", login, false),
            field("Last logout time", logout, false),
        ];
        assert(fields_view(e.fields@) =~= seq![
            (
                "Last login time"@,
                decimal(
                    match last_login {
                        Some(t) => t as nat,
                        None => 0,
                    },
                ),
                false,
            ),
            (
                "Last logout time"@,
                decimal(
                    match last_logout {
                        Some(t) => t as nat,
                        None => 0,
                    },
                ),
                false,
            ),
        ]);
        e
    }
}

} // verus!
