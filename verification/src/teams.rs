//! Teams and captains for a full queue channel, and finding a team call to move a
//! player into.

use rand::seq::SliceRandom;
use vstd::prelude::*;

use crate::custom_id::button_id;
use crate::embed::{empty_embed, field, fields_view, Embed, EmbedAuthor, EmbedFooter, ErrorResponse};
use crate::matching::{captures_all, is_match, regex_captures, regex_is_match};
use crate::text::{
    channel_mention, chars_contain, chars_of, contains, decimal, joined, parse_u64,
    parse_u64_chars, push_channel_mention, push_char, push_decimal, push_str, push_user_mention,
    str_eq, user_mention,
};

verus! {

/// A team call is named `team`, something, then a number (matched in lower case).
pub const TEAM_CALL_PATTERN: &'static str = r"team.+\d+";

/// A user mention, with the user id in group 1.
pub const USER_MENTION_PATTERN: &'static str = r"<@(\d+)>";

/// Button action: roll the teams again.
pub const REROLL: &'static str = "REROLL";

/// Button action: join the team's voice call.
pub const JOIN_CALL: &'static str = "JOIN_CALL";

/// The game modes, in the order they are tried.
pub open spec fn game_modes() -> Seq<Seq<char>> {
    seq!["1v1"@, "2v2"@, "3v3"@, "4v4"@]
}

/// What `str::to_lowercase` gives (full Unicode lower case).
pub uninterp spec fn unicode_lowercase(s: Seq<char>) -> Seq<char>;

/// `str::to_lowercase`. Claimed: the result is [`unicode_lowercase`] of the argument.
#[verifier::external_body]
pub(crate) fn to_lowercase(s: &str) -> (r: String)
    ensures
        r@ == unicode_lowercase(s@),
{
    s.to_lowercase()
}

/// Puts the elements in random order with `rand`'s `SliceRandom::shuffle` and
/// `thread_rng`. Claimed: the result holds the same elements, each as often; which
/// order comes out is chance.
#[verifier::external_body]
pub(crate) fn shuffle<T>(v: &mut Vec<T>)
    ensures
        final(v)@.to_multiset() == old(v)@.to_multiset(),
{
    v.shuffle(&mut rand::thread_rng());
}

/// The two halves of a list of members: the first `len / 2` and the rest.
pub fn split_teams(members: &Vec<u64>) -> (r: (Vec<u64>, Vec<u64>))
    ensures
        r.0@ == members@.take((members@.len() / 2) as int),
        r.1@ == members@.skip((members@.len() / 2) as int),
{
    let middle = members.len() / 2;
    let mut a: Vec<u64> = Vec::new();
    let mut b: Vec<u64> = Vec::new();
    for i in 0..members.len()
        invariant
            middle == members@.len() / 2,
            i <= middle ==> a@ == members@.take(i as int) && b@.len() == 0,
            i > middle ==> a@ == members@.take(middle as int) && b@ == members@.subrange(
                middle as int,
                i as int,
            ),
    {
        if i < middle {
            a.push(members[i]);
            assert(members@.take(i + 1) =~= members@.take(i as int).push(members@[i as int]));
        } else {
            b.push(members[i]);
            assert(members@.subrange(middle as int, i + 1) =~= b@);
        }
    }
    assert(members@.subrange(middle as int, members@.len() as int) =~= members@.skip(
        middle as int,
    ));
    if members.len() <= middle {
        assert(a@ =~= members@.take(middle as int));
        assert(b@ =~= members@.skip(middle as int));
    }
    (a, b)
}

/// Splitting gives back all members, in two teams whose sizes differ by at most one.
pub proof fn lemma_split_teams(members: Seq<u64>)
    ensures
        members.take((members.len() / 2) as int) + members.skip((members.len() / 2) as int)
            == members,
        members.skip((members.len() / 2) as int).len() - members.take(
            (members.len() / 2) as int,
        ).len() <= 1,
        members.take((members.len() / 2) as int).len() <= members.skip(
            (members.len() / 2) as int,
        ).len(),
{
    assert(members.take((members.len() / 2) as int) + members.skip((members.len() / 2) as int)
        =~= members);
}

/// Two random teams from the members of a queue: the members are shuffled, then the
/// first half is the first team.
pub fn random_teams(members: Vec<u64>) -> (r: (Vec<u64>, Vec<u64>))
    ensures
        (r.0@ + r.1@).to_multiset() == members@.to_multiset(),
        r.0@.len() == members@.len() / 2,
        r.1@.len() == members@.len() - members@.len() / 2,
{
    let mut m = members;
    let ghost before = m@;
    shuffle(&mut m);
    let r = split_teams(&m);
    proof {
        lemma_split_teams(m@);
        m@.to_multiset_ensures();
        before.to_multiset_ensures();
    }
    r
}

/// The text of a team field: the members' mentions, one per line.
pub open spec fn team_text(team: Seq<u64>) -> Seq<char> {
    joined(team.map_values(|u: u64| user_mention(u)), "\n"@)
}

/// The text listing a team.
pub fn team_field_value(team: &Vec<u64>) -> (s: String)
    ensures
        s@ == team_text(team@),
{
    let ghost parts = team@.map_values(|u: u64| user_mention(u));
    let mut s = String::new();
    let mut i: usize = 0;
    while i < team.len()
        invariant
            i <= team@.len(),
            parts == team@.map_values(|u: u64| user_mention(u)),
            s@ == joined(parts.take(i as int), "\n"@),
        decreases team@.len() - i,
    {
        if i > 0 {
            push_str(&mut s, "\n");
        }
        push_user_mention(&mut s, team[i]);
        assert(parts.take(i + 1).drop_last() =~= parts.take(i as int));
        if i == 0 {
            assert(s@ =~= joined(parts.take(1), "\n"@));
        }
        i = i + 1;
    }
    assert(parts.take(team@.len() as int) =~= parts);
    s
}

/// The text of a captain field: the mention of the member at `i`, or `None`.
pub fn captain_field(members: &Vec<u64>, i: usize) -> (s: String)
    ensures
        i < members@.len() ==> s@ == user_mention(members@[i as int]),
        i >= members@.len() ==> s@ == "None"@,
{
    if i < members.len() {
        let mut s = String::new();
        push_user_mention(&mut s, members[i]);
        assert(s@ =~= user_mention(members@[i as int]));
        s
    } else {
        String::from_str("None")
    }
}

/// A queue is not full while it has a user limit and fewer members than that.
pub fn queue_is_full(user_limit: Option<u32>, members: usize) -> (r: bool)
    ensures
        r == match user_limit {
            Some(l) => members >= l,
            None => true,
        },
{
    match user_limit {
        Some(l) => members as u64 >= l as u64,
        None => true,
    }
}

/// Whether a channel is under one of the ranked queue categories.
pub fn in_queue_category(parent: Option<u64>, tiers: &Vec<Vec<u64>>) -> (r: bool)
    ensures
        r == match parent {
            Some(p) => exists|t: int| 0 <= t < tiers@.len() && (#[trigger] tiers@[t])@.contains(p),
            None => false,
        },
{
    match parent {
        None => false,
        Some(p) => {
            let mut t: usize = 0;
            while t < tiers.len()
                invariant
                    t <= tiers@.len(),
                    parent == Some(p),
                    forall|k: int| 0 <= k < t ==> !(#[trigger] tiers@[k])@.contains(p),
                decreases tiers@.len() - t,
            {
                if crate::roles::holds(&tiers[t], p) {
                    assert(tiers@[t as int]@.contains(p));
                    return true;
                }
                t = t + 1;
            }
            false
        },
    }
}

/// The user ids mentioned in a text, in order: the matches of
/// [`USER_MENTION_PATTERN`]. `None` where a mentioned id does not fit a `u64`.
pub open spec fn mentioned_users(text: Seq<char>) -> Option<Seq<u64>> {
    match regex_captures(USER_MENTION_PATTERN@, text) {
        None => None,
        Some(caps) => if forall|i: int|
            0 <= i < caps.len() ==> (#[trigger] caps[i]).len() >= 2 && caps[i][1] is Some
                && parse_u64(caps[i][1]->0) is Some {
            Some(caps.map_values(|c: Seq<Option<Seq<char>>>| parse_u64(c[1]->0)->0))
        } else {
            None
        },
    }
}

/// The user ids mentioned in a text.
pub fn mentions_in(text: &str) -> (r: Option<Vec<u64>>)
    ensures
        match mentioned_users(text@) {
            Some(v) => r matches Some(w) && w@ == v,
            None => r is None,
        },
{
    let caps = match captures_all(USER_MENTION_PATTERN, text) {
        None => return None,
        Some(c) => c,
    };
    let ghost all = caps.deep_view();
    let mut ids: Vec<u64> = Vec::new();
    let mut i: usize = 0;
    while i < caps.len()
        invariant
            i <= caps@.len(),
            all == caps.deep_view(),
            regex_captures(USER_MENTION_PATTERN@, text@) == Some(all),
            ids@.len() == i,
            forall|k: int|
                #![trigger all[k]]
                0 <= k < i ==> all[k].len() >= 2 && all[k][1] is Some && parse_u64(all[k][1]->0)
                    == Some(ids@[k]),
        decreases caps@.len() - i,
    {
        let c = &caps[i];
        assert(all[i as int] == c.deep_view());
        if c.len() < 2 {
            assert(!(all[i as int].len() >= 2));
            return None;
        }
        let id = match &c[1] {
            None => {
                assert(all[i as int][1] is None);
                return None;
            },
            Some(s) => {
                let digits = chars_of(s.as_str());
                match parse_u64_chars(digits.as_slice()) {
                    None => {
                        assert(all[i as int][1] == Some(s@));
                        assert(parse_u64(all[i as int][1]->0) is None);
                        return None;
                    },
                    Some(v) => v,
                }
            },
        };
        let ghost before = ids@;
        ids.push(id);
        proof {
            assert forall|k: int| #![trigger all[k]] 0 <= k < i + 1 implies all[k].len() >= 2
                && all[k][1] is Some && parse_u64(all[k][1]->0) == Some(ids@[k]) by {
                if k < i {
                    assert(ids@[k] == before[k]);
                }
            }
        }
        i = i + 1;
    }
    assert(ids@ =~= all.map_values(|c: Seq<Option<Seq<char>>>| parse_u64(c[1]->0)->0));
    Some(ids)
}

/// The team of `user` from the team fields of a teams message: the mentions of the
/// first field that mentions the user, or none. `None` where a mention cannot be read.
pub open spec fn team_of_user(fields: Seq<Seq<char>>, user: u64) -> Option<Seq<u64>>
    decreases fields.len(),
{
    if fields.len() == 0 {
        Some(seq![])
    } else {
        match mentioned_users(fields[0]) {
            None => None,
            Some(t) => if t.contains(user) {
                Some(t)
            } else {
                team_of_user(fields.drop_first(), user)
            },
        }
    }
}

/// The team of `user` in a teams message.
pub fn find_team(fields: &Vec<String>, user: u64) -> (r: Option<Vec<u64>>)
    ensures
        match team_of_user(fields@.map_values(|f: String| f@), user) {
            Some(t) => r matches Some(w) && w@ == t,
            None => r is None,
        },
{
    let ghost views = fields@.map_values(|f: String| f@);
    assert(views.skip(0) =~= views);
    let mut i: usize = 0;
    while i < fields.len()
        invariant
            i <= fields@.len(),
            views == fields@.map_values(|f: String| f@),
            team_of_user(views, user) == team_of_user(views.skip(i as int), user),
        decreases fields@.len() - i,
    {
        assert(views.skip(i as int)[0] == fields@[i as int]@);
        assert(views.skip(i as int).drop_first() =~= views.skip(i + 1));
        let t = match mentions_in(fields[i].as_str()) {
            None => return None,
            Some(t) => t,
        };
        if crate::roles::holds(&t, user) {
            return Some(t);
        }
        i = i + 1;
    }
    assert(views.skip(fields@.len() as int) =~= Seq::<Seq<char>>::empty());
    Some(Vec::new())
}

/// What the logic reads of a channel that can serve as a team call.
pub struct CallChannel {
    pub id: u64,
    pub name: String,
    pub is_voice: bool,
    pub parent_id: Option<u64>,
    pub position: i64,
    pub user_limit: Option<u32>,
    /// The users connected to it.
    pub members: Vec<u64>,
}

/// The game mode a queue is for: the first mode its name contains.
pub open spec fn mode_of(name: Seq<char>) -> Option<Seq<char>> {
    if contains(name, game_modes()[0]) {
        Some(game_modes()[0])
    } else if contains(name, game_modes()[1]) {
        Some(game_modes()[1])
    } else if contains(name, game_modes()[2]) {
        Some(game_modes()[2])
    } else if contains(name, game_modes()[3]) {
        Some(game_modes()[3])
    } else {
        None
    }
}

/// The rank tier of a queue: the first tier whose categories hold its parent, or 0.
pub open spec fn tier_of(parent: Option<u64>, tiers: Seq<Seq<u64>>) -> int {
    match parent {
        None => 0,
        Some(p) => match first_tier(tiers, p) {
            Some(t) => t,
            None => 0,
        },
    }
}

/// The first tier holding category `p`.
pub open spec fn first_tier(tiers: Seq<Seq<u64>>, p: u64) -> Option<int>
    decreases tiers.len(),
{
    if tiers.len() == 0 {
        None
    } else {
        match first_tier(tiers.drop_last(), p) {
            Some(t) => Some(t),
            None => if tiers.last().contains(p) {
                Some(tiers.len() - 1)
            } else {
                None
            },
        }
    }
}

/// A call fits the game mode when its name mentions no mode or mentions this one.
pub open spec fn fits_mode(name: Seq<char>, mode: Seq<char>) -> bool {
    !(exists|m: int| 0 <= m < 4 && contains(name, #[trigger] game_modes()[m])) || contains(
        name,
        mode,
    )
}

/// Whether a channel name marks a team call; `None` where the pattern cannot be used.
pub open spec fn team_call_name(name: Seq<char>) -> Option<bool> {
    regex_is_match(TEAM_CALL_PATTERN@, unicode_lowercase(name))
}

/// The team calls under category `cat`, in channel order: voice channels under it
/// named as team calls that fit the mode. `None` where a name cannot be matched.
pub open spec fn calls_under(chans: Seq<CallChannel>, cat: u64, mode: Seq<char>) -> Option<Seq<usize>>
    decreases chans.len(),
{
    if chans.len() == 0 {
        Some(seq![])
    } else {
        match calls_under(chans.drop_last(), cat, mode) {
            None => None,
            Some(rest) => {
                let c = chans.last();
                if c.parent_id == Some(cat) && c.is_voice {
                    match team_call_name(c.name@) {
                        None => None,
                        Some(b) => if b && fits_mode(c.name@, mode) {
                            Some(rest.push((chans.len() - 1) as usize))
                        } else {
                            Some(rest)
                        },
                    }
                } else {
                    Some(rest)
                }
            },
        }
    }
}

/// The team calls of a tier before ordering: for each guild category of the tier, in
/// category order, its team calls.
pub open spec fn tier_calls(
    cats: Seq<u64>,
    chans: Seq<CallChannel>,
    tier: Seq<u64>,
    mode: Seq<char>,
) -> Option<Seq<usize>>
    decreases cats.len(),
{
    if cats.len() == 0 {
        Some(seq![])
    } else {
        match tier_calls(cats.drop_last(), chans, tier, mode) {
            None => None,
            Some(rest) => if tier.contains(cats.last()) {
                match calls_under(chans, cats.last(), mode) {
                    None => None,
                    Some(more) => Some(rest + more),
                }
            } else {
                Some(rest)
            },
        }
    }
}

fn calls_under_exec(chans: &Vec<CallChannel>, cat: u64, mode: &[char]) -> (r: Option<Vec<usize>>)
    ensures
        match calls_under(chans@, cat, mode@) {
            Some(v) => r matches Some(w) && w@ == v,
            None => r is None,
        },
        r matches Some(w) ==> forall|k: int| 0 <= k < w@.len() ==> w@[k] < chans@.len(),
{
    let modes: Vec<Vec<char>> = vec![chars_of("1v1"), chars_of("2v2"), chars_of("3v3"), chars_of("4v4")];
    let mut r: Vec<usize> = Vec::new();
    let mut i: usize = 0;
    while i < chans.len()
        invariant
            i <= chans@.len(),
            modes@.len() == 4,
            forall|m: int| 0 <= m < 4 ==> (#[trigger] modes@[m])@ == game_modes()[m],
            calls_under(chans@.take(i as int), cat, mode@) == Some(r@),
            forall|k: int| 0 <= k < r@.len() ==> r@[k] < i,
        decreases chans@.len() - i,
    {
        assert(chans@.take(i + 1).drop_last() =~= chans@.take(i as int));
        let c = &chans[i];
        if c.parent_id == Some(cat) && c.is_voice {
            let lower = to_lowercase(c.name.as_str());
            let m = is_match(TEAM_CALL_PATTERN, lower.as_str());
            match m {
                None => {
                    proof {
                        lemma_calls_under_none(chans@, cat, mode@, i + 1);
                    }
                    return None;
                },
                Some(b) => {
                    if b {
                        let name = chars_of(c.name.as_str());
                        let mut any_mode = false;
                        let mut k: usize = 0;
                        while k < 4
                            invariant
                                k <= 4,
                                modes@.len() == 4,
                                forall|m: int| 0 <= m < 4 ==> (#[trigger] modes@[m])@ == game_modes()[m],
                                any_mode == exists|m: int| 0 <= m < k && contains(name@, #[trigger] game_modes()[m]),
                            decreases 4 - k,
                        {
                            if chars_contain(name.as_slice(), modes[k].as_slice()) {
                                any_mode = true;
                            }
                            k = k + 1;
                        }
                        if !any_mode || chars_contain(name.as_slice(), mode) {
                            r.push(i);
                        }
                    }
                },
            }
        }
        i = i + 1;
    }
    assert(chans@.take(chans@.len() as int) =~= chans@);
    Some(r)
}

proof fn lemma_calls_under_none(chans: Seq<CallChannel>, cat: u64, mode: Seq<char>, k: int)
    requires
        0 < k <= chans.len(),
        calls_under(chans.take(k), cat, mode) is None,
    ensures
        calls_under(chans, cat, mode) is None,
    decreases chans.len(),
{
    if k < chans.len() {
        assert(chans.drop_last().take(k) =~= chans.take(k));
        lemma_calls_under_none(chans.drop_last(), cat, mode, k);
    } else {
        assert(chans.take(k) =~= chans);
    }
}

/// A channel is among the team calls under category `cat` for game mode `mode` exactly
/// when it is a voice channel under `cat` whose name marks a team call and either
/// names none of the game modes 1v1, 2v2, 3v3 and 4v4, or names `mode`. The calls are
/// channel indices; the list is `None` exactly when the name of such a voice channel
/// cannot be matched.
pub proof fn lemma_calls_under_members(chans: Seq<CallChannel>, cat: u64, mode: Seq<char>)
    requires
        chans.len() <= usize::MAX,
    ensures
        calls_under(chans, cat, mode) is None <==> exists|i: int|
            0 <= i < chans.len() && (#[trigger] chans[i]).parent_id == Some(cat) && chans[i].is_voice
                && team_call_name(chans[i].name@) is None,
        calls_under(chans, cat, mode) matches Some(v) ==> (forall|k: int| 0 <= k < v.len() ==> v[k] < chans.len())
            && forall|i: int| #![trigger chans[i]] 0 <= i < chans.len() ==> (v.contains(i as usize) <==> (
            chans[i].parent_id == Some(cat) && chans[i].is_voice && team_call_name(chans[i].name@) == Some(true)
                && ((!contains(chans[i].name@, "1v1"@) && !contains(chans[i].name@, "2v2"@) && !contains(
                chans[i].name@,
                "3v3"@,
            ) && !contains(chans[i].name@, "4v4"@)) || contains(chans[i].name@, mode)))),
    decreases chans.len(),
{
    if chans.len() > 0 {
        let rs = chans.drop_last();
        let n = chans.len() - 1;
        lemma_calls_under_members(rs, cat, mode);
        assert forall|i: int| 0 <= i < rs.len() implies #[trigger] chans[i] == rs[i] by {}
        let c = chans[n];
        let no_mode = !contains(c.name@, "1v1"@) && !contains(c.name@, "2v2"@) && !contains(c.name@, "3v3"@)
            && !contains(c.name@, "4v4"@);
        assert(no_mode == !(exists|m: int| 0 <= m < 4 && contains(c.name@, #[trigger] game_modes()[m]))) by {
            assert(game_modes()[0] == "1v1"@);
            assert(game_modes()[1] == "2v2"@);
            assert(game_modes()[2] == "3v3"@);
            assert(game_modes()[3] == "4v4"@);
        }
        if calls_under(chans, cat, mode) is None {
            if calls_under(rs, cat, mode) is None {
                let i = choose|i: int|
                    0 <= i < rs.len() && (#[trigger] rs[i]).parent_id == Some(cat) && rs[i].is_voice
                        && team_call_name(rs[i].name@) is None;
                assert(chans[i] == rs[i]);
            } else {
                assert(c.parent_id == Some(cat) && c.is_voice && team_call_name(c.name@) is None);
            }
        }
        match calls_under(chans, cat, mode) {
            None => {},
            Some(v) => {
                let rest = calls_under(rs, cat, mode)->0;
                assert(n as usize == n);
                assert forall|i: int| #![trigger chans[i]] 0 <= i < chans.len() implies (v.contains(i as usize) <==> (
                    chans[i].parent_id == Some(cat) && chans[i].is_voice && team_call_name(chans[i].name@) == Some(true)
                        && ((!contains(chans[i].name@, "1v1"@) && !contains(chans[i].name@, "2v2"@) && !contains(
                        chans[i].name@,
                        "3v3"@,
                    ) && !contains(chans[i].name@, "4v4"@)) || contains(chans[i].name@, mode)))) by {
                    if i < n {
                        assert(chans[i] == rs[i]);
                        if v.contains(i as usize) && !rest.contains(i as usize) {
                            let k = choose|k: int| 0 <= k < v.len() && v[k] == i as usize;
                            assert(k == rest.len());
                        }
                        if rest.contains(i as usize) {
                            let k = choose|k: int| 0 <= k < rest.len() && rest[k] == i as usize;
                            assert(v[k] == rest[k]);
                        }
                    } else {
                        if rest.contains(i as usize) {
                            let k = choose|k: int| 0 <= k < rest.len() && rest[k] == i as usize;
                        }
                        if v.len() > rest.len() {
                            assert(v[rest.len() as int] == i as usize);
                        }
                    }
                }
            },
        }
    } else {
        assert forall|i: int| #![trigger chans[i]] 0 <= i < chans.len() implies false by {}
    }
}

/// The team calls of one tier, before ordering by position.
pub fn team_calls_of_tier(
    cats: &Vec<u64>,
    chans: &Vec<CallChannel>,
    tier: &Vec<u64>,
    mode: &str,
) -> (r: Option<Vec<usize>>)
    ensures
        match tier_calls(cats@, chans@, tier@, mode@) {
            Some(v) => r matches Some(w) && w@ == v,
            None => r is None,
        },
        r matches Some(w) ==> forall|k: int| 0 <= k < w@.len() ==> w@[k] < chans@.len(),
{
    let mode_chars = chars_of(mode);
    let mut r: Vec<usize> = Vec::new();
    let mut i: usize = 0;
    while i < cats.len()
        invariant
            i <= cats@.len(),
            mode_chars@ == mode@,
            tier_calls(cats@.take(i as int), chans@, tier@, mode@) == Some(r@),
            forall|k: int| 0 <= k < r@.len() ==> r@[k] < chans@.len(),
        decreases cats@.len() - i,
    {
        assert(cats@.take(i + 1).drop_last() =~= cats@.take(i as int));
        if crate::roles::holds(tier, cats[i]) {
            match calls_under_exec(chans, cats[i], mode_chars.as_slice()) {
                None => {
                    proof {
                        lemma_tier_calls_none(cats@, chans@, tier@, mode@, i + 1);
                    }
                    return None;
                },
                Some(more) => {
                    let ghost before = r@;
                    let mut j: usize = 0;
                    while j < more.len()
                        invariant
                            j <= more@.len(),
                            r@ == before + more@.take(j as int),
                            forall|k: int| 0 <= k < before.len() ==> before[k] < chans@.len(),
                            forall|k: int| 0 <= k < more@.len() ==> more@[k] < chans@.len(),
                        decreases more@.len() - j,
                    {
                        r.push(more[j]);
                        assert(more@.take(j + 1) =~= more@.take(j as int).push(more@[j as int]));
                        j = j + 1;
                    }
                    assert(more@.take(more@.len() as int) =~= more@);
                },
            }
        }
        i = i + 1;
    }
    assert(cats@.take(cats@.len() as int) =~= cats@);
    Some(r)
}

proof fn lemma_tier_calls_none(
    cats: Seq<u64>,
    chans: Seq<CallChannel>,
    tier: Seq<u64>,
    mode: Seq<char>,
    k: int,
)
    requires
        0 < k <= cats.len(),
        tier_calls(cats.take(k), chans, tier, mode) is None,
    ensures
        tier_calls(cats, chans, tier, mode) is None,
    decreases cats.len(),
{
    if k < cats.len() {
        assert(cats.drop_last().take(k) =~= cats.take(k));
        lemma_tier_calls_none(cats.drop_last(), chans, tier, mode, k);
    } else {
        assert(cats.take(k) =~= cats);
    }
}

/// Call `a` of `calls` comes before call `b`: a lower position, or the same position
/// and an earlier place in `calls`.
pub open spec fn call_before(chans: Seq<CallChannel>, calls: Seq<usize>, a: usize, b: usize) -> bool {
    let pa = chans[calls[a as int] as int].position;
    let pb = chans[calls[b as int] as int].position;
    pa < pb || (pa == pb && a < b)
}

/// `order` arranges the places of `calls` by position, equal positions keeping their
/// order.
pub open spec fn ordered_by_position(chans: Seq<CallChannel>, calls: Seq<usize>, order: Seq<usize>) -> bool {
    &&& order.len() == calls.len()
    &&& forall|x: usize| order.contains(x) <==> x < calls.len()
    &&& forall|i: int, j: int|
        #![trigger order[i], order[j]]
        0 <= i < j < order.len() ==> call_before(chans, calls, order[i], order[j])
}

/// The calls arranged by position, equal positions keeping their order (a stable sort).
pub open spec fn calls_by_position(chans: Seq<CallChannel>, calls: Seq<usize>) -> Seq<usize> {
    let order = choose|order: Seq<usize>| ordered_by_position(chans, calls, order);
    order.map_values(|q: usize| calls[q as int])
}

proof fn lemma_order_agrees(
    chans: Seq<CallChannel>,
    calls: Seq<usize>,
    o1: Seq<usize>,
    o2: Seq<usize>,
    i: int,
)
    requires
        ordered_by_position(chans, calls, o1),
        ordered_by_position(chans, calls, o2),
        0 <= i < o1.len(),
    ensures
        o1[i] == o2[i],
    decreases i,
{
    assert forall|k: int| 0 <= k < i implies o1[k] == o2[k] by {
        lemma_order_agrees(chans, calls, o1, o2, k);
    }
    if o1[i] != o2[i] {
        let x = o1[i];
        let y = o2[i];
        assert(o1.contains(x));
        assert(o2.contains(x));
        let j = choose|j: int| 0 <= j < o2.len() && o2[j] == x;
        if j < i {
            assert(o1[j] == x);
            assert(call_before(chans, calls, o1[j], o1[i]));
        }
        assert(o2.contains(y));
        assert(o1.contains(y));
        let j2 = choose|j2: int| 0 <= j2 < o1.len() && o1[j2] == y;
        if j2 < i {
            assert(o2[j2] == y);
            assert(call_before(chans, calls, o2[j2], o2[i]));
        }
        assert(call_before(chans, calls, o1[i], o1[j2]));
        assert(call_before(chans, calls, o2[i], o2[j]));
    }
}

/// An arrangement by position is unique.
proof fn lemma_order_unique(chans: Seq<CallChannel>, calls: Seq<usize>, o1: Seq<usize>, o2: Seq<usize>)
    requires
        ordered_by_position(chans, calls, o1),
        ordered_by_position(chans, calls, o2),
    ensures
        o1 == o2,
{
    assert forall|i: int| 0 <= i < o1.len() implies o1[i] == o2[i] by {
        lemma_order_agrees(chans, calls, o1, o2, i);
    }
    assert(o1 =~= o2);
}

/// The calls sorted by position, a stable sort.
pub fn sort_by_position(chans: &Vec<CallChannel>, calls: &Vec<usize>) -> (r: Vec<usize>)
    requires
        forall|i: int| 0 <= i < calls@.len() ==> calls@[i] < chans@.len(),
    ensures
        r@ == calls_by_position(chans@, calls@),
        forall|i: int| 0 <= i < r@.len() ==> r@[i] < chans@.len(),
{
    let mut order: Vec<usize> = Vec::new();
    let mut p: usize = 0;
    while p < calls.len()
        invariant
            p <= calls@.len(),
            forall|i: int| 0 <= i < calls@.len() ==> calls@[i] < chans@.len(),
            order@.len() == p,
            forall|x: usize| order@.contains(x) <==> x < p,
            forall|m: int| 0 <= m < order@.len() ==> order@[m] < p,
            forall|i: int, j: int|
                #![trigger order@[i], order@[j]]
                0 <= i < j < order@.len() ==> {
                    let a = order@[i];
                    let b = order@[j];
                    chans@[calls@[a as int] as int].position < chans@[calls@[b as int] as int].position
                        || (chans@[calls@[a as int] as int].position
                        == chans@[calls@[b as int] as int].position && a < b)
                },
        decreases calls@.len() - p,
    {
        let kp = chans[calls[p]].position;
        let mut k: usize = 0;
        while k < order.len() && !(kp < chans[calls[order[k]]].position)
            invariant
                k <= order@.len(),
                order@.len() == p,
                p < calls@.len(),
                forall|i: int| 0 <= i < calls@.len() ==> calls@[i] < chans@.len(),
                kp == chans@[calls@[p as int] as int].position,
                forall|m: int| 0 <= m < order@.len() ==> order@[m] < p,
                forall|m: int| 0 <= m < k ==> chans@[calls@[order@[m] as int] as int].position <= kp,
            decreases order@.len() - k,
        {
            k = k + 1;
        }
        let ghost before = order@;
        proof {
            assert forall|m: int| k <= m < before.len() implies kp < chans@[calls@[before[m] as int] as int].position by {
                if k < m {
                    let a = before[k as int];
                    let b = before[m];
                    assert(chans@[calls@[a as int] as int].position < chans@[calls@[b as int] as int].position
                        || (chans@[calls@[a as int] as int].position
                        == chans@[calls@[b as int] as int].position && a < b));
                }
            }
        }
        order.insert(k, p);
        proof {
            let after = order@;
            assert(after == before.insert(k as int, p));
            assert forall|i: int, j: int| 0 <= i < j < after.len() implies ({
                let a = #[trigger] after[i];
                let b = #[trigger] after[j];
                chans@[calls@[a as int] as int].position < chans@[calls@[b as int] as int].position
                    || (chans@[calls@[a as int] as int].position
                    == chans@[calls@[b as int] as int].position && a < b)
            }) by {
                if j < k {
                    assert(after[i] == before[i] && after[j] == before[j]);
                } else if j == k {
                    assert(after[i] == before[i]);
                } else if i == k {
                    assert(after[j] == before[j - 1]);
                } else if i < k {
                    assert(after[i] == before[i] && after[j] == before[j - 1]);
                } else {
                    assert(after[i] == before[i - 1] && after[j] == before[j - 1]);
                }
            }
            assert forall|m: int| 0 <= m < after.len() implies after[m] < p + 1 by {
                if m < k {
                    assert(after[m] == before[m]);
                } else if m > k {
                    assert(after[m] == before[m - 1]);
                }
            }
            assert forall|x: usize| after.contains(x) <==> x < p + 1 by {
                if x == p {
                    assert(after[k as int] == p);
                } else {
                    if before.contains(x) {
                        let m = choose|m: int| 0 <= m < before.len() && before[m] == x;
                        if m < k {
                            assert(after[m] == x);
                        } else {
                            assert(after[m + 1] == x);
                        }
                    }
                    if after.contains(x) {
                        let m = choose|m: int| 0 <= m < after.len() && after[m] == x;
                        if m < k {
                            assert(before[m] == x);
                        } else if m > k {
                            assert(before[m - 1] == x);
                        }
                    }
                }
            }
        }
        p = p + 1;
    }
    let mut r: Vec<usize> = Vec::new();
    let mut i: usize = 0;
    while i < order.len()
        invariant
            i <= order@.len(),
            order@.len() == calls@.len(),
            forall|m: int| 0 <= m < order@.len() ==> order@[m] < calls@.len(),
            r@ == order@.take(i as int).map_values(|q: usize| calls@[q as int]),
        decreases order@.len() - i,
    {
        r.push(calls[order[i]]);
        assert(r@ =~= order@.take(i + 1).map_values(|q: usize| calls@[q as int]));
        i = i + 1;
    }
    assert(order@.take(order@.len() as int) =~= order@);
    assert(ordered_by_position(chans@, calls@, order@));
    proof {
        let chosen = choose|o: Seq<usize>| ordered_by_position(chans@, calls@, o);
        lemma_order_unique(chans@, calls@, chosen, order@);
    }
    r
}

/// A call has room when it has no user limit or fewer members than the limit.
pub open spec fn has_room(c: CallChannel) -> bool {
    match c.user_limit {
        Some(l) => c.members@.len() < l,
        None => true,
    }
}

/// Some member of the team is in the call.
pub open spec fn holds_teammate(c: CallChannel, team: Seq<u64>) -> bool {
    exists|i: int| 0 <= i < team.len() && c.members@.contains(#[trigger] team[i])
}

/// The first call in `calls` that has room and holds a teammate.
pub open spec fn first_team_call(chans: Seq<CallChannel>, calls: Seq<usize>, team: Seq<u64>) -> Option<int>
    decreases calls.len(),
{
    if calls.len() == 0 {
        None
    } else {
        match first_team_call(chans, calls.drop_last(), team) {
            Some(i) => Some(i),
            None => {
                let c = chans[calls.last() as int];
                if has_room(c) && holds_teammate(c, team) {
                    Some(calls.len() - 1)
                } else {
                    None
                }
            },
        }
    }
}

/// The first empty call in `calls`.
pub open spec fn first_empty_call(chans: Seq<CallChannel>, calls: Seq<usize>) -> Option<int>
    decreases calls.len(),
{
    if calls.len() == 0 {
        None
    } else {
        match first_empty_call(chans, calls.drop_last()) {
            Some(i) => Some(i),
            None => if chans[calls.last() as int].members@.len() == 0 {
                Some(calls.len() - 1)
            } else {
                None
            },
        }
    }
}

/// The call to move a player into: the first call with room that holds a teammate,
/// else the first empty call.
pub open spec fn chosen_call(chans: Seq<CallChannel>, calls: Seq<usize>, team: Seq<u64>) -> Option<u64> {
    match first_team_call(chans, calls, team) {
        Some(i) => Some(chans[calls[i] as int].id),
        None => match first_empty_call(chans, calls) {
            Some(i) => Some(chans[calls[i] as int].id),
            None => None,
        },
    }
}

/// Picks the call to move a player into from the ordered calls.
pub fn pick_team_call(chans: &Vec<CallChannel>, calls: &Vec<usize>, team: &Vec<u64>) -> (r: Option<u64>)
    requires
        forall|i: int| 0 <= i < calls@.len() ==> calls@[i] < chans@.len(),
    ensures
        r == chosen_call(chans@, calls@, team@),
{
    let mut i: usize = 0;
    while i < calls.len()
        invariant
            i <= calls@.len(),
            forall|k: int| 0 <= k < calls@.len() ==> calls@[k] < chans@.len(),
            first_team_call(chans@, calls@.take(i as int), team@) is None,
        decreases calls@.len() - i,
    {
        assert(calls@.take(i + 1).drop_last() =~= calls@.take(i as int));
        let c = &chans[calls[i]];
        let room = match c.user_limit {
            Some(l) => (c.members.len() as u64) < l as u64,
            None => true,
        };
        let mut mate = false;
        let mut t: usize = 0;
        while t < team.len()
            invariant
                t <= team@.len(),
                mate == exists|k: int| 0 <= k < t && c.members@.contains(#[trigger] team@[k]),
            decreases team@.len() - t,
        {
            if crate::roles::holds(&c.members, team[t]) {
                mate = true;
            }
            t = t + 1;
        }
        if room && mate {
            proof {
                lemma_first_team_call_prefix(chans@, calls@, team@, i + 1);
            }
            return Some(c.id);
        }
        i = i + 1;
    }
    assert(calls@.take(calls@.len() as int) =~= calls@);
    let mut j: usize = 0;
    while j < calls.len()
        invariant
            j <= calls@.len(),
            forall|k: int| 0 <= k < calls@.len() ==> calls@[k] < chans@.len(),
            first_team_call(chans@, calls@, team@) is None,
            first_empty_call(chans@, calls@.take(j as int)) is None,
        decreases calls@.len() - j,
    {
        assert(calls@.take(j + 1).drop_last() =~= calls@.take(j as int));
        if chans[calls[j]].members.len() == 0 {
            proof {
                lemma_first_empty_call_prefix(chans@, calls@, j + 1);
            }
            return Some(chans[calls[j]].id);
        }
        j = j + 1;
    }
    assert(calls@.take(calls@.len() as int) =~= calls@);
    None
}

proof fn lemma_first_team_call_is_first(chans: Seq<CallChannel>, calls: Seq<usize>, team: Seq<u64>)
    ensures
        first_team_call(chans, calls, team) matches Some(i) ==> 0 <= i < calls.len() && (
        chans[calls[i] as int].user_limit matches Some(l) ==> chans[calls[i] as int].members@.len() < l)
            && (exists|t: int| 0 <= t < team.len() && chans[calls[i] as int].members@.contains(#[trigger] team[t]))
            && forall|j: int| #![trigger calls[j]] 0 <= j < i ==> !((chans[calls[j] as int].user_limit matches Some(l)
            ==> chans[calls[j] as int].members@.len() < l) && exists|t: int|
            0 <= t < team.len() && chans[calls[j] as int].members@.contains(#[trigger] team[t])),
        first_team_call(chans, calls, team) is None ==> forall|j: int| #![trigger calls[j]] 0 <= j < calls.len() ==> !((
        chans[calls[j] as int].user_limit matches Some(l) ==> chans[calls[j] as int].members@.len() < l) && exists|t: int|
            0 <= t < team.len() && chans[calls[j] as int].members@.contains(#[trigger] team[t])),
    decreases calls.len(),
{
    if calls.len() > 0 {
        let p = calls.drop_last();
        lemma_first_team_call_is_first(chans, p, team);
        assert forall|j: int| 0 <= j < p.len() implies #[trigger] calls[j] == p[j] by {}
    }
}

proof fn lemma_first_empty_call_is_first(chans: Seq<CallChannel>, calls: Seq<usize>)
    ensures
        first_empty_call(chans, calls) matches Some(i) ==> 0 <= i < calls.len() && chans[calls[i] as int].members@.len()
            == 0 && forall|j: int| #![trigger calls[j]] 0 <= j < i ==> chans[calls[j] as int].members@.len() != 0,
        first_empty_call(chans, calls) is None ==> forall|j: int| #![trigger calls[j]]
            0 <= j < calls.len() ==> chans[calls[j] as int].members@.len() != 0,
    decreases calls.len(),
{
    if calls.len() > 0 {
        let p = calls.drop_last();
        lemma_first_empty_call_is_first(chans, p);
        assert forall|j: int| 0 <= j < p.len() implies #[trigger] calls[j] == p[j] by {}
    }
}

/// The call a player is moved into: the first call that has room (no user limit, or
/// fewer members than the limit) and holds a member of the team; when no call does,
/// the first empty call; when there is none either, no call. A full call is never
/// chosen for holding a teammate.
pub proof fn lemma_chosen_call_rule(chans: Seq<CallChannel>, calls: Seq<usize>, team: Seq<u64>)
    ensures
        (exists|k: int| #![trigger calls[k]] 0 <= k < calls.len() && (chans[calls[k] as int].user_limit matches Some(l)
            ==> chans[calls[k] as int].members@.len() < l) && exists|t: int|
            0 <= t < team.len() && chans[calls[k] as int].members@.contains(#[trigger] team[t])) ==> exists|k: int|
            #![trigger calls[k]] 0 <= k < calls.len() && (chans[calls[k] as int].user_limit matches Some(l)
                ==> chans[calls[k] as int].members@.len() < l) && (exists|t: int|
                0 <= t < team.len() && chans[calls[k] as int].members@.contains(#[trigger] team[t])) && (forall|j: int|
                #![trigger calls[j]] 0 <= j < k ==> !((chans[calls[j] as int].user_limit matches Some(l)
                ==> chans[calls[j] as int].members@.len() < l) && exists|t: int|
                0 <= t < team.len() && chans[calls[j] as int].members@.contains(#[trigger] team[t])))
                && chosen_call(chans, calls, team) == Some(chans[calls[k] as int].id),
        (forall|k: int| #![trigger calls[k]] 0 <= k < calls.len() ==> !((chans[calls[k] as int].user_limit matches Some(l)
            ==> chans[calls[k] as int].members@.len() < l) && exists|t: int|
            0 <= t < team.len() && chans[calls[k] as int].members@.contains(#[trigger] team[t]))) ==> (
        chosen_call(chans, calls, team) matches Some(id) ==> exists|k: int| #![trigger calls[k]]
            0 <= k < calls.len() && chans[calls[k] as int].members@.len() == 0 && (forall|j: int|
                #![trigger calls[j]] 0 <= j < k ==> chans[calls[j] as int].members@.len() != 0) && id
                == chans[calls[k] as int].id) && (chosen_call(chans, calls, team) is None ==> forall|k: int|
            #![trigger calls[k]] 0 <= k < calls.len() ==> chans[calls[k] as int].members@.len() != 0),
{
    lemma_first_team_call_is_first(chans, calls, team);
    lemma_first_empty_call_is_first(chans, calls);
}

proof fn lemma_first_team_call_prefix(chans: Seq<CallChannel>, calls: Seq<usize>, team: Seq<u64>, k: int)
    requires
        0 < k <= calls.len(),
        first_team_call(chans, calls.take(k - 1), team) is None,
        has_room(chans[calls[k - 1] as int]) && holds_teammate(chans[calls[k - 1] as int], team),
    ensures
        first_team_call(chans, calls, team) == Some(k - 1),
    decreases calls.len(),
{
    if k < calls.len() {
        assert(calls.drop_last().take(k - 1) =~= calls.take(k - 1));
        lemma_first_team_call_prefix(chans, calls.drop_last(), team, k);
    } else {
        assert(calls.drop_last() =~= calls.take(k - 1));
    }
}

proof fn lemma_first_empty_call_prefix(chans: Seq<CallChannel>, calls: Seq<usize>, k: int)
    requires
        0 < k <= calls.len(),
        first_empty_call(chans, calls.take(k - 1)) is None,
        chans[calls[k - 1] as int].members@.len() == 0,
    ensures
        first_empty_call(chans, calls) == Some(k - 1),
    decreases calls.len(),
{
    if k < calls.len() {
        assert(calls.drop_last().take(k - 1) =~= calls.take(k - 1));
        lemma_first_empty_call_prefix(chans, calls.drop_last(), k);
    } else {
        assert(calls.drop_last() =~= calls.take(k - 1));
    }
}

/// The team calls of tiers `n - 1` down to 0, each tier's calls by position.
pub open spec fn ranked_calls(
    cats: Seq<u64>,
    chans: Seq<CallChannel>,
    tiers: Seq<Seq<u64>>,
    mode: Seq<char>,
    n: nat,
) -> Option<Seq<usize>>
    decreases n,
{
    if n == 0 {
        Some(seq![])
    } else {
        match tier_calls(cats, chans, tiers[n - 1], mode) {
            None => None,
            Some(c) => match ranked_calls(cats, chans, tiers, mode, (n - 1) as nat) {
                None => None,
                Some(rest) => Some(calls_by_position(chans, c) + rest),
            },
        }
    }
}

/// The team call to move a player of `team` into, from the queue named `name` under
/// category `parent`: the queue's game mode decides which calls fit, and the calls of
/// the queue's tier come first, then those of each lower tier. `None` when the queue
/// has no game mode, no call fits, or a call's name cannot be matched.
pub open spec fn team_call(
    name: Seq<char>,
    parent: Option<u64>,
    tiers: Seq<Seq<u64>>,
    cats: Seq<u64>,
    chans: Seq<CallChannel>,
    team: Seq<u64>,
) -> Option<u64> {
    match mode_of(name) {
        None => None,
        Some(m) => {
            let n = if tiers.len() == 0 { 0 } else { tier_of(parent, tiers) + 1 };
            match ranked_calls(cats, chans, tiers, m, n as nat) {
                None => None,
                Some(calls) => chosen_call(chans, calls, team),
            }
        },
    }
}

/// The name of game mode `k`.
fn mode_name(k: usize) -> (s: &'static str)
    requires
        k < 4,
    ensures
        s@ == game_modes()[k as int],
{
    if k == 0 {
        "1v1"
    } else if k == 1 {
        "2v2"
    } else if k == 2 {
        "3v3"
    } else {
        "4v4"
    }
}

/// Which game mode a queue name is for.
pub fn mode_index(name: &str) -> (r: Option<usize>)
    ensures
        match mode_of(name@) {
            None => r is None,
            Some(m) => r matches Some(k) && k < 4 && game_modes()[k as int] == m,
        },
{
    let chars = chars_of(name);
    let mut k: usize = 0;
    while k < 4
        invariant
            k <= 4,
            chars@ == name@,
            forall|j: int| 0 <= j < k ==> !contains(name@, #[trigger] game_modes()[j]),
        decreases 4 - k,
    {
        let m = chars_of(mode_name(k));
        if chars_contain(chars.as_slice(), m.as_slice()) {
            return Some(k);
        }
        k = k + 1;
    }
    None
}

proof fn lemma_first_tier_bound(tiers: Seq<Seq<u64>>, p: u64)
    ensures
        first_tier(tiers, p) matches Some(t) ==> 0 <= t < tiers.len(),
    decreases tiers.len(),
{
    if tiers.len() > 0 {
        lemma_first_tier_bound(tiers.drop_last(), p);
    }
}

/// The tier of a queue's category.
pub fn rank_index(parent: Option<u64>, tiers: &Vec<Vec<u64>>) -> (r: usize)
    ensures
        r == tier_of(parent, tiers@.map_values(|t: Vec<u64>| t@)),
        tiers@.len() > 0 ==> r < tiers@.len(),
{
    let ghost views = tiers@.map_values(|t: Vec<u64>| t@);
    proof {
        if let Some(p) = parent {
            lemma_first_tier_bound(views, p);
        }
    }
    match parent {
        None => 0,
        Some(p) => {
            let mut t: usize = 0;
            while t < tiers.len()
                invariant
                    t <= tiers@.len(),
                    views == tiers@.map_values(|t: Vec<u64>| t@),
                    parent == Some(p),
                    first_tier(views.take(t as int), p) is None,
                decreases tiers@.len() - t,
            {
                assert(views.take(t + 1).drop_last() =~= views.take(t as int));
                if crate::roles::holds(&tiers[t], p) {
                    proof {
                        assert(views[t as int] == tiers@[t as int]@);
                        lemma_first_tier_prefix(views, p, t + 1);
                    }
                    return t;
                }
                t = t + 1;
            }
            assert(views.take(tiers@.len() as int) =~= views);
            0
        },
    }
}

proof fn lemma_first_tier_prefix(tiers: Seq<Seq<u64>>, p: u64, k: int)
    requires
        0 < k <= tiers.len(),
        first_tier(tiers.take(k - 1), p) is None,
        tiers[k - 1].contains(p),
    ensures
        first_tier(tiers, p) == Some(k - 1),
    decreases tiers.len(),
{
    if k < tiers.len() {
        assert(tiers.drop_last().take(k - 1) =~= tiers.take(k - 1));
        lemma_first_tier_prefix(tiers.drop_last(), p, k);
    } else {
        assert(tiers.drop_last() =~= tiers.take(k - 1));
    }
}

/// Finds the team call to move a player of `team` into, from the queue named `name`
/// under category `parent`, among the guild's categories `cats` and channels `chans`.
pub fn find_team_call(
    name: &str,
    parent: Option<u64>,
    tiers: &Vec<Vec<u64>>,
    cats: &Vec<u64>,
    chans: &Vec<CallChannel>,
    team: &Vec<u64>,
) -> (r: Option<u64>)
    ensures
        r == team_call(name@, parent, tiers@.map_values(|t: Vec<u64>| t@), cats@, chans@, team@),
{
    let ghost views = tiers@.map_values(|t: Vec<u64>| t@);
    let k = match mode_index(name) {
        None => return None,
        Some(k) => k,
    };
    let mode = mode_name(k);
    let n: usize = if tiers.len() == 0 { 0 } else { rank_index(parent, tiers) + 1 };
    let mut acc: Vec<usize> = Vec::new();
    let mut t: usize = n;
    while t > 0
        invariant
            t <= n <= tiers@.len(),
            views == tiers@.map_values(|t: Vec<u64>| t@),
            mode_of(name@) == Some(mode@),
            n == (if views.len() == 0 { 0 } else { tier_of(parent, views) + 1 }),
            forall|j: int| 0 <= j < acc@.len() ==> acc@[j] < chans@.len(),
            ranked_calls(cats@, chans@, views, mode@, n as nat) == match ranked_calls(
                cats@,
                chans@,
                views,
                mode@,
                t as nat,
            ) {
                None => None,
                Some(rest) => Some(acc@ + rest),
            },
        decreases t,
    {
        assert(views[t - 1] == tiers@[t - 1]@);
        let calls = match team_calls_of_tier(cats, chans, &tiers[t - 1], mode) {
            None => {
                assert(ranked_calls(cats@, chans@, views, mode@, t as nat) is None);
                return None;
            },
            Some(c) => c,
        };
        let sorted = sort_by_position(chans, &calls);
        let ghost before = acc@;
        let mut j: usize = 0;
        while j < sorted.len()
            invariant
                j <= sorted@.len(),
                acc@ == before + sorted@.take(j as int),
                forall|i: int| 0 <= i < before.len() ==> before[i] < chans@.len(),
                forall|i: int| 0 <= i < sorted@.len() ==> sorted@[i] < chans@.len(),
            decreases sorted@.len() - j,
        {
            acc.push(sorted[j]);
            assert(sorted@.take(j + 1) =~= sorted@.take(j as int).push(sorted@[j as int]));
            j = j + 1;
        }
        assert(sorted@.take(sorted@.len() as int) =~= sorted@);
        proof {
            match ranked_calls(cats@, chans@, views, mode@, (t - 1) as nat) {
                None => {},
                Some(rest) => {
                    assert(before + (sorted@ + rest) =~= acc@ + rest);
                },
            }
        }
        t = t - 1;
    }
    assert(acc@ + seq![] =~= acc@);
    pick_team_call(chans, &acc, team)
}

/// The command that splits a full queue into two random teams.
pub struct TeamsCommand;

/// The command that picks two random captains in a full queue.
pub struct CaptainsCommand;

impl TeamsCommand {
    /// The command's name.
    pub fn name(&self) -> (s: String)
        ensures
            s@ == "teams"@,
    {
        String::from_str("teams")
    }

    /// The id of one of the command's buttons: the command's name and the arguments,
    /// joined with `:`.
    pub fn button_custom_id(&self, args: &Vec<String>) -> (s: String)
        ensures
            s@ == joined(seq!["teams"@] + args@.map_values(|a: String| a@), seq![':']),
    {
        button_id("teams", args)
    }
}

impl CaptainsCommand {
    /// The command's name.
    pub fn name(&self) -> (s: String)
        ensures
            s@ == "captains"@,
    {
        String::from_str("captains")
    }
}

/// The answer outside the ranked queue categories.
pub const DISABLED_HERE: &'static str = "This command is disabled in this channel!";

/// The answer to a user in no queue.
pub const JOIN_A_QUEUE: &'static str = "Please join a queue before using this command.";

/// The answer in a queue that is not full.
pub const QUEUE_NOT_FULL: &'static str = "This queue is not full yet.";

/// The answer to a button pressed from another queue.
pub const WRONG_QUEUE: &'static str = "You are not in the correct queue to do this.";

/// The answer to a reroll when the queue is no longer full.
pub const NO_LONGER_FULL: &'static str = "This queue channel is no longer full.";

/// The answer when no team call fits.
pub const NO_TEAM_CALL: &'static str = "No suitable team call could be found for you.";

/// The error is a plain message with this text.
pub open spec fn error_says(e: ErrorResponse, text: Seq<char>) -> bool {
    e.title is None && e.description@ == text && e.footer is None
}

/// Checks that the teams or captains command may run: it is used in a channel under a
/// ranked queue category, by a user in a queue (`queue` holds the queue's user limit
/// and how many members it has), and the queue is full.
pub fn check_queue_command(
    parent: Option<u64>,
    tiers: &Vec<Vec<u64>>,
    queue: Option<(Option<u32>, usize)>,
) -> (r: Result<(), ErrorResponse>)
    ensures
        if (match parent {
            Some(p) => exists|t: int| 0 <= t < tiers@.len() && (#[trigger] tiers@[t])@.contains(p),
            None => false,
        }) {
            match queue {
                None => r matches Err(e) && error_says(e, JOIN_A_QUEUE@),
                Some((limit, members)) => if match limit {
                    Some(l) => members >= l,
                    None => true,
                } {
                    r is Ok
                } else {
                    r matches Err(e) && error_says(e, QUEUE_NOT_FULL@)
                },
            }
        } else {
            r matches Err(e) && error_says(e, DISABLED_HERE@)
        },
{
    if !in_queue_category(parent, tiers) {
        return Err(ErrorResponse::message(DISABLED_HERE));
    }
    match queue {
        None => Err(ErrorResponse::message(JOIN_A_QUEUE)),
        Some((limit, members)) => if queue_is_full(limit, members) {
            Ok(())
        } else {
            Err(ErrorResponse::message(QUEUE_NOT_FULL))
        },
    }
}

/// What a press of a teams button does.
#[derive(Clone, Copy, Debug, PartialEq, Eq, Structural)]
pub enum TeamsPress {
    /// Roll the teams again in the same message.
    Reroll,
    /// Move the presser to a team call.
    JoinCall,
    /// An unknown action: nothing happens.
    Ignore,
}

/// Decides what a press of a teams button with action `action` for the queue
/// `expected_queue` does; `queue` is the presser's queue (its id, user limit and number
/// of members), if any.
pub fn teams_press(action: &str, expected_queue: &str, queue: Option<(u64, Option<u32>, usize)>) -> (r: Result<
    TeamsPress,
    ErrorResponse,
>)
    ensures
        match queue {
            None => r matches Err(e) && error_says(e, JOIN_A_QUEUE@),
            Some((id, limit, members)) => if decimal(id as nat) != expected_queue@ {
                r matches Err(e) && error_says(e, WRONG_QUEUE@)
            } else if action@ == REROLL@ {
                if match limit {
                    Some(l) => members >= l,
                    None => true,
                } {
                    r == Ok::<TeamsPress, ErrorResponse>(TeamsPress::Reroll)
                } else {
                    r matches Err(e) && error_says(e, NO_LONGER_FULL@)
                }
            } else if action@ == JOIN_CALL@ {
                r == Ok::<TeamsPress, ErrorResponse>(TeamsPress::JoinCall)
            } else {
                r == Ok::<TeamsPress, ErrorResponse>(TeamsPress::Ignore)
            },
        },
{
    let (id, limit, members) = match queue {
        None => return Err(ErrorResponse::message(JOIN_A_QUEUE)),
        Some(q) => q,
    };
    let mut id_text = String::new();
    push_decimal(&mut id_text, id);
    assert(id_text@ =~= decimal(id as nat));
    if !str_eq(id_text.as_str(), expected_queue) {
        return Err(ErrorResponse::message(WRONG_QUEUE));
    }
    if str_eq(action, REROLL) {
        if queue_is_full(limit, members) {
            Ok(TeamsPress::Reroll)
        } else {
            Err(ErrorResponse::message(NO_LONGER_FULL))
        }
    } else if str_eq(action, JOIN_CALL) {
        Ok(TeamsPress::JoinCall)
    } else {
        Ok(TeamsPress::Ignore)
    }
}

/// The icon of the teams and captains messages.
pub const TEAMS_ICON: &'static str = "https://cdn.discordapp.com/attachments/1075184074718707722/1131610023622086706/766c86e6244395ea36c530a7a4f27242.png";

/// The colour of the teams and captains messages.
pub const TEAMS_COLOR: u64 = 0x5CA3F5;

/// The author line of the teams and captains messages: the queue's name and icon.
pub open spec fn queue_author(a: Option<EmbedAuthor>, queue_name: Seq<char>) -> bool {
    match a {
        Some(a) => a.name@ == queue_name && a.url is None && match a.icon_url {
            Some(i) => i@ == TEAMS_ICON@,
            None => false,
        },
        None => false,
    }
}

fn queue_embed(queue_name: &str) -> (e: Embed)
    ensures
        queue_author(e.author, queue_name@),
        e.color == Some(TEAMS_COLOR),
        e.fields@.len() == 0,
        e.title is None && e.url is None && e.description is None && e.image is None
            && e.thumbnail is None && e.footer is None && e.timestamp is None,
{
    let mut e = empty_embed();
    e.author = Some(
        EmbedAuthor {
            name: String::from_str(queue_name),
            url: None,
            icon_url: Some(String::from_str(TEAMS_ICON)),
        },
    );
    e.color = Some(TEAMS_COLOR);
    e
}

/// The message that shows two teams of the queue `queue_name`.
pub fn teams_embed(queue_name: &str, first: &Vec<u64>, second: &Vec<u64>) -> (e: Embed)
    ensures
        queue_author(e.author, queue_name@),
        e.color == Some(TEAMS_COLOR),
        fields_view(e.fields@) == seq![
            ("First Team"@, team_text(first@), true),
            ("Second Team"@, team_text(second@), true),
        ],
        e.title is None && e.url is None && e.description is None && e.image is None
            && e.thumbnail is None && e.footer is None && e.timestamp is None,
{
    let mut e = queue_embed(queue_name);
    e.fields = vec![
        field("First Team", team_field_value(first), true),
        field("Second Team", team_field_value(second), true),
    ];
    assert(fields_view(e.fields@) =~= seq![
        ("First Team"@, team_text(first@), true),
        ("Second Team"@, team_text(second@), true),
    ]);
    e
}

/// The footer of the captains message.
pub const CAPTAINS_FOOTER: &'static str = "Captains should take turns selecting team members until two teams are formed.";

/// The text of a captain field: the mention of the member at `i`, or `None`.
pub open spec fn captain_text(members: Seq<u64>, i: int) -> Seq<char> {
    if i < members.len() {
        user_mention(members[i])
    } else {
        "None"@
    }
}

/// The message that names the first two of the (shuffled) members as captains.
pub fn captains_embed(queue_name: &str, members: &Vec<u64>) -> (e: Embed)
    ensures
        queue_author(e.author, queue_name@),
        e.color == Some(TEAMS_COLOR),
        fields_view(e.fields@) == seq![
            ("First Captain"@, captain_text(members@, 0), true),
            ("Second Captain"@, captain_text(members@, 1), true),
        ],
        e.footer matches Some(f) && f.text@ == CAPTAINS_FOOTER@ && f.icon_url is None,
        e.title is None && e.url is None && e.description is None && e.image is None
            && e.thumbnail is None && e.timestamp is None,
{
    let mut e = queue_embed(queue_name);
    e.fields = vec![
        field("First Captain", captain_field(members, 0), true),
        field("Second Captain", captain_field(members, 1), true),
    ];
    e.footer = Some(EmbedFooter { text: String::from_str(CAPTAINS_FOOTER), icon_url: None });
    assert(fields_view(e.fields@) =~= seq![
        ("First Captain"@, captain_text(members@, 0), true),
        ("Second Captain"@, captain_text(members@, 1), true),
    ]);
    e
}

/// The captains message for a queue: its members are shuffled, and the first two of
/// them are named captains.
pub fn random_captains(queue_name: &str, members: Vec<u64>) -> (e: Embed)
    ensures
        exists|m: Seq<u64>|
            #[trigger] m.to_multiset() == members@.to_multiset() && fields_view(e.fields@) == seq![
                ("First Captain"@, captain_text(m, 0), true),
                ("Second Captain"@, captain_text(m, 1), true),
            ],
        queue_author(e.author, queue_name@),
        e.color == Some(TEAMS_COLOR),
        e.footer matches Some(f) && f.text@ == CAPTAINS_FOOTER@ && f.icon_url is None,
        e.title is None && e.url is None && e.description is None && e.image is None
            && e.thumbnail is None && e.timestamp is None,
{
    let ghost before = members@;
    let mut m = members;
    shuffle(&mut m);
    let e = captains_embed(queue_name, &m);
    assert(m@.to_multiset() == before.to_multiset());
    e
}

/// The answer after moving a player into a team call.
pub fn moved_message(call: u64) -> (s: String)
    ensures
        s@ == ":white_check_mark:  Moved you to "@ + channel_mention(call),
{
    let mut s = String::from_str(":white_check_mark:  Moved you to ");
    push_channel_mention(&mut s, call);
    s
}

} // verus!
