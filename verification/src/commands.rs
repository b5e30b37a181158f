//! The slash commands of the first command set: notes, purge, roll, teams, suggestion
//! and timeout.

use vstd::prelude::*;

use crate::embed::{empty_embed, field, fields_view, text_is, Embed, EmbedAuthor, EmbedFooter};
use crate::roles::holds;
use crate::teams::shuffle;
use crate::text::{
    chars_of, decimal, parse_u64, parse_u64_chars, push_decimal, push_signed_decimal, push_str,
    signed_decimal, str_eq,
};

verus! {

/// The roles that may use the staff commands, and whether a member holds one.
pub open spec fn has_any_role(member_roles: Seq<u64>, allowed: Seq<u64>) -> bool {
    exists|i: int| 0 <= i < allowed.len() && member_roles.contains(#[trigger] allowed[i])
}

/// Whether a member holds one of the allowed roles.
pub fn holds_any_role(member_roles: &Vec<u64>, allowed: &Vec<u64>) -> (r: bool)
    ensures
        r == has_any_role(member_roles@, allowed@),
{
    let mut found = false;
    let mut i: usize = 0;
    while i < allowed.len()
        invariant
            i <= allowed@.len(),
            found == exists|k: int| 0 <= k < i && member_roles@.contains(#[trigger] allowed@[k]),
        decreases allowed@.len() - i,
    {
        if holds(member_roles, allowed[i]) {
            found = true;
        }
        i = i + 1;
    }
    found
}

/// The staff command that keeps notes on users.
pub struct Notes;

/// What a notes command asks for.
#[derive(Clone, Copy, Debug, PartialEq, Eq, Structural)]
pub enum NotesAction {
    List,
    Add,
    Delete,
    /// A sub command that does not exist.
    Unknown,
}

/// The title of the answer to a member without a staff role.
pub const MISSING_PERMISSIONS_TITLE: &'static str = "Missing Permissions";

/// The answer to a member without a staff role.
pub const MISSING_PERMISSIONS_TEXT: &'static str = "You currently do **NOT** have permissions to do this command.";

impl Notes {
    /// The command's name.
    pub fn name(&self) -> (s: String)
        ensures
            s@ == "notes"@,
    {
        String::from_str("notes")
    }

    /// What the sub command `sub` asks for, when the member holds a staff role;
    /// `None` when the member holds none.
    pub fn action(&self, sub: &str, member_roles: &Vec<u64>, staff_roles: &Vec<u64>) -> (r: Option<
        NotesAction,
    >)
        ensures
            !has_any_role(member_roles@, staff_roles@) ==> r is None,
            has_any_role(member_roles@, staff_roles@) ==> r == Some(
                if sub@ == "list"@ {
                    NotesAction::List
                } else if sub@ == "add"@ {
                    NotesAction::Add
                } else if sub@ == "delete"@ {
                    NotesAction::Delete
                } else {
                    NotesAction::Unknown
                },
            ),
    {
        if !holds_any_role(member_roles, staff_roles) {
            return None;
        }
        Some(
            if str_eq(sub, "list") {
                NotesAction::List
            } else if str_eq(sub, "add") {
                NotesAction::Add
            } else if str_eq(sub, "delete") {
                NotesAction::Delete
            } else {
                NotesAction::Unknown
            },
        )
    }

    /// The answer to a sub command that does not exist.
    pub fn unknown_subcommand_text(sub: &str) -> (s: String)
        ensures
            s@ == "You selected a sub command that doesn't exsist: "@ + sub@,
    {
        let mut s = String::from_str("You selected a sub command that doesn't exsist: ");
        push_str(&mut s, sub);
        s
    }
}

/// The two ways to purge messages.
#[derive(Clone, Copy, Debug, PartialEq, Eq, Structural)]
pub enum PurgeOption {
    /// Every message.
    All,
    /// The messages of one user.
    FromUser,
}

/// The name of a purge option.
pub open spec fn option_name(o: PurgeOption) -> Seq<char> {
    match o {
        PurgeOption::All => "all"@,
        PurgeOption::FromUser => "from_user"@,
    }
}

/// The user option that [`PurgeOption::FromUser`] needs is given, and is a number.
pub open spec fn user_option_given(o: PurgeOption, user: Option<String>) -> bool {
    o == PurgeOption::FromUser ==> match user {
        Some(u) => parse_u64(u@) is Some,
        None => false,
    }
}

impl PurgeOption {
    /// The option's name.
    pub fn name(&self) -> (s: String)
        ensures
            s@ == option_name(*self),
    {
        match self {
            PurgeOption::All => String::from_str("all"),
            PurgeOption::FromUser => String::from_str("from_user"),
        }
    }

    /// The option's description.
    pub fn description(&self) -> (s: String)
        ensures
            s@ == match *self {
                PurgeOption::All => "Purges a certain number of messages in a certain channel"@,
                PurgeOption::FromUser => "Purges messages from a certain user in a channel"@,
            },
    {
        match self {
            PurgeOption::All => String::from_str(
                "Purges a certain number of messages in a certain channel",
            ),
            PurgeOption::FromUser => String::from_str(
                "Purges messages from a certain user in a channel",
            ),
        }
    }

    /// Whether a message by `author` is purged. For [`PurgeOption::FromUser`], `user`
    /// is the user option, which must be given and be a number.
    pub fn check(&self, user: &Option<String>, author: u64) -> (r: bool)
        requires
            user_option_given(*self, *user),
        ensures
            r == match *self {
                PurgeOption::All => true,
                PurgeOption::FromUser => parse_u64(user->0@) == Some(author),
            },
    {
        match self {
            PurgeOption::All => true,
            PurgeOption::FromUser => {
                let u = match user {
                    Some(u) => u,
                    None => {
                        assert(false);
                        return false;
                    },
                };
                let c = chars_of(u.as_str());
                match parse_u64_chars(c.as_slice()) {
                    Some(x) => author == x,
                    None => false,
                }
            },
        }
    }
}

/// The command that deletes recent messages in a channel.
pub struct Purge {
    options: Vec<PurgeOption>,
}

/// The purge options, looked up by name; no two share a name.
impl Purge {
    /// The options the command has.
    pub closed spec fn spec_options(&self) -> Seq<PurgeOption> {
        self.options@
    }

    #[verifier::type_invariant]
    closed spec fn names_unique(self) -> bool {
        forall|i: int, j: int|
            0 <= i < j < self.options@.len() ==> option_name(#[trigger] self.options@[i])
                != option_name(#[trigger] self.options@[j])
    }

    /// The command with its two options.
    pub fn new() -> (p: Purge)
        ensures
            p.spec_options() == seq![PurgeOption::All, PurgeOption::FromUser],
    {
        proof {
            reveal_strlit("all");
            reveal_strlit("from_user");
            assert("all"@.len() != "from_user"@.len());
        }
        Purge { options: vec![PurgeOption::All, PurgeOption::FromUser] }
    }

    /// The command's name.
    pub fn name(&self) -> (s: String)
        ensures
            s@ == "purge"@,
    {
        String::from_str("purge")
    }

    /// The option named `name`.
    pub fn option(&self, name: &str) -> (r: Option<PurgeOption>)
        ensures
            match r {
                Some(o) => self.spec_options().contains(o) && option_name(o) == name@,
                None => forall|i: int|
                    0 <= i < self.spec_options().len() ==> option_name(
                        #[trigger] self.spec_options()[i],
                    ) != name@,
            },
    {
        let mut i: usize = 0;
        while i < self.options.len()
            invariant
                i <= self.options@.len(),
                forall|k: int| 0 <= k < i ==> option_name(#[trigger] self.options@[k]) != name@,
            decreases self.options@.len() - i,
        {
            let o = self.options[i];
            let n = o.name();
            if str_eq(n.as_str(), name) {
                assert(self.options@[i as int] == o);
                return Some(o);
            }
            i = i + 1;
        }
        None
    }

    /// The number of messages to go through: the amount given, or 50.
    pub fn max_purge(amount: Option<i64>) -> (r: i64)
        ensures
            r == match amount {
                Some(a) => a,
                None => 50,
            },
    {
        match amount {
            Some(a) => a,
            None => 50,
        }
    }

    /// The messages to delete among the latest messages of a channel, newest first
    /// (`authors` holds their authors): of the first `max` messages, those that the
    /// option selects.
    pub fn messages_to_delete(option: PurgeOption, user: &Option<String>, authors: &Vec<u64>, max: i64) -> (r: Vec<
        usize,
    >)
        requires
            user_option_given(option, *user),
        ensures
            forall|k: int| 0 <= k < r@.len() ==> (#[trigger] r@[k]) < authors@.len() && r@[k] < max,
            forall|a: int, b: int| 0 <= a < b < r@.len() ==> r@[a] < r@[b],
            forall|i: int|
                0 <= i < authors@.len() && i < max ==> (r@.contains(i as usize) <==> purged(
                    option,
                    *user,
                    #[trigger] authors@[i],
                )),
    {
        let mut r: Vec<usize> = Vec::new();
        let mut i: usize = 0;
        while i < authors.len() && (i as i64) < max
            invariant
                i <= authors@.len(),
                user_option_given(option, *user),
                i <= i64::MAX,
                i > 0 ==> i - 1 < max,
                forall|k: int| 0 <= k < r@.len() ==> (#[trigger] r@[k]) < i,
                forall|a: int, b: int| 0 <= a < b < r@.len() ==> r@[a] < r@[b],
                forall|j: int|
                    0 <= j < i ==> (r@.contains(j as usize) <==> purged(
                        option,
                        *user,
                        #[trigger] authors@[j],
                    )),
            decreases authors@.len() - i,
        {
            let ghost before = r@;
            let take = option.check(user, authors[i]);
            if take {
                r.push(i);
            }
            proof {
                assert(!before.contains(i)) by {
                    if before.contains(i) {
                        let k = choose|k: int| 0 <= k < before.len() && before[k] == i;
                        assert(before[k] < i);
                    }
                }
                assert forall|j: int| 0 <= j < i + 1 implies (r@.contains(j as usize) <==> purged(
                    option,
                    *user,
                    #[trigger] authors@[j],
                )) by {
                    if take {
                        crate::roles::lemma_push_contains(before, i, j as usize);
                    }
                }
            }
            i = i + 1;
        }
        r
    }
}

/// Whether the option selects a message by `author`.
pub open spec fn purged(option: PurgeOption, user: Option<String>, author: u64) -> bool {
    match option {
        PurgeOption::All => true,
        PurgeOption::FromUser => parse_u64(user->0@) == Some(author),
    }
}

/// The answer once the purge is done.
pub const PURGE_DONE: &'static str = "Purge Successful!";

/// Why a queue command does not run.
#[derive(Clone, Copy, Debug, PartialEq, Eq, Structural)]
pub enum QueueRefusal {
    /// The command was used outside the queue categories.
    DisabledHere,
    /// The user is in no queue.
    NotInQueue,
    /// The queue is not full.
    NotFull,
}

impl QueueRefusal {
    /// The answer to the user.
    pub fn text(&self) -> (s: &'static str)
        ensures
            s@ == match *self {
                QueueRefusal::DisabledHere => "This command is disabled in this channel!"@,
                QueueRefusal::NotInQueue => "Please join a queue before using this command."@,
                QueueRefusal::NotFull => "This queue is not full yet."@,
            },
    {
        match self {
            QueueRefusal::DisabledHere => "This command is disabled in this channel!",
            QueueRefusal::NotInQueue => "Please join a queue before using this command.",
            QueueRefusal::NotFull => "This queue is not full yet.",
        }
    }
}

/// The voice channel the user is in, as the queue commands read it.
#[derive(Debug)]
pub struct QueueChannel {
    pub category: Option<u64>,
    pub user_limit: Option<u32>,
    pub members: usize,
}

/// Whether the roll or teams command runs: it must be used in a channel under a queue
/// category, by a user in a voice channel under a queue category, and that channel
/// must hold at least its user limit (four when it has none).
pub open spec fn queue_check(
    command_category: Option<u64>,
    queue_categories: Seq<u64>,
    voice: Option<QueueChannel>,
) -> Result<(), QueueRefusal> {
    match command_category {
        Some(c) if queue_categories.contains(c) => match voice {
            Some(v) => match v.category {
                Some(vc) if queue_categories.contains(vc) => if v.members < match v.user_limit {
                    Some(l) => l as int,
                    None => 4,
                } {
                    Err(QueueRefusal::NotFull)
                } else {
                    Ok(())
                },
                _ => Err(QueueRefusal::NotInQueue),
            },
            None => Err(QueueRefusal::NotInQueue),
        },
        _ => Err(QueueRefusal::DisabledHere),
    }
}

/// Checks whether the roll or teams command runs.
pub fn check_queue(command_category: Option<u64>, queue_categories: &Vec<u64>, voice: &Option<QueueChannel>) -> (r:
    Result<(), QueueRefusal>)
    ensures
        r == queue_check(command_category, queue_categories@, *voice),
{
    match command_category {
        Some(c) if holds(queue_categories, c) => {},
        _ => return Err(QueueRefusal::DisabledHere),
    }
    match voice {
        None => Err(QueueRefusal::NotInQueue),
        Some(v) => match v.category {
            Some(vc) if holds(queue_categories, vc) => {
                let limit: u64 = match v.user_limit {
                    Some(l) => l as u64,
                    None => 4,
                };
                if (v.members as u64) < limit {
                    Err(QueueRefusal::NotFull)
                } else {
                    Ok(())
                }
            },
            _ => Err(QueueRefusal::NotInQueue),
        },
    }
}

/// The command that picks two captains.
pub struct Roll;

impl Roll {
    /// The command's name.
    pub fn name(&self) -> (s: String)
        ensures
            s@ == "roll"@,
    {
        String::from_str("roll")
    }

    /// Two captains picked at random among at least two members: the members are
    /// shuffled and the first two are taken, so they stand at different places of the
    /// list (the same name twice only when it is there twice).
    pub fn pick_captains(members: Vec<String>) -> (r: (String, String))
        requires
            members@.len() >= 2,
        ensures
            exists|i: int, j: int|
                0 <= i < members@.len() && 0 <= j < members@.len() && i != j && r.0@
                    == members@[i]@ && r.1@ == members@[j]@,
    {
        let mut m = members;
        let ghost before = m@;
        shuffle(&mut m);
        proof {
            m@.to_multiset_ensures();
            before.to_multiset_ensures();
            lemma_two_places(before, m@, 0, 1);
        }
        let ghost shuffled = m@;
        let second = m.remove(1);
        let first = m.remove(0);
        assert(first == shuffled[0] && second == shuffled[1]);
        (first, second)
    }
}

proof fn lemma_two_places(before: Seq<String>, after: Seq<String>, p: int, q: int)
    requires
        before.to_multiset() == after.to_multiset(),
        0 <= p < q < after.len(),
        before.len() == after.len(),
    ensures
        exists|i: int, j: int|
            0 <= i < before.len() && 0 <= j < before.len() && i != j && before[i] == after[p]
                && before[j] == after[q],
{
    let x = after[p];
    let y = after[q];
    after.to_multiset_ensures();
    before.to_multiset_ensures();
    assert(after.contains(x));
    assert(after.contains(y));
    assert(after.to_multiset().count(x) > 0);
    assert(after.to_multiset().count(y) > 0);
    assert(before.to_multiset().count(x) > 0);
    assert(before.to_multiset().count(y) > 0);
    assert(before.contains(x));
    assert(before.contains(y));
    let i = choose|i: int| 0 <= i < before.len() && before[i] == x;
    if x == y {
        let rest_after = after.remove(q);
        rest_after.to_multiset_ensures();
        assert(rest_after.to_multiset() == after.to_multiset().remove(y));
        assert(rest_after[p] == x);
        assert(rest_after.contains(x));
        assert(rest_after.to_multiset().count(x) > 0);
        assert(after.to_multiset().count(x) >= 2);
        let rest_before = before.remove(i);
        rest_before.to_multiset_ensures();
        assert(rest_before.to_multiset() == before.to_multiset().remove(x));
        assert(rest_before.to_multiset().count(x) >= 1);
        assert(rest_before.contains(x));
        let k = choose|k: int| 0 <= k < rest_before.len() && rest_before[k] == x;
        let j = if k < i { k } else { k + 1 };
        assert(rest_before[k] == before[j]);
        assert(before[j] == y);
        assert(i != j);
    } else {
        let j = choose|j: int| 0 <= j < before.len() && before[j] == y;
        assert(i != j);
    }
}

/// The command that splits a queue into two teams.
pub struct Teams;

impl Teams {
    /// The command's name.
    pub fn name(&self) -> (s: String)
        ensures
            s@ == "teams"@,
    {
        String::from_str("teams")
    }

    /// The texts of the two teams: names are taken from the end of the list, in
    /// turn for the first and the second team.
    pub fn alternate(names: &Vec<String>) -> (r: (String, String))
        ensures
            r.0@ == alternate_text(names@.map_values(|n: String| n@), 0),
            r.1@ == alternate_text(names@.map_values(|n: String| n@), 1),
    {
        let ghost views = names@.map_values(|n: String| n@);
        let mut x = String::new();
        let mut y = String::new();
        let n = names.len();
        let mut k: usize = 0;
        while k < n
            invariant
                n == names@.len(),
                k <= n,
                views == names@.map_values(|n: String| n@),
                x@ == picked(views, 0, k as int),
                y@ == picked(views, 1, k as int),
            decreases n - k,
        {
            let name = &names[n - 1 - k];
            assert(views[n - 1 - k] == name@);
            if k % 2 == 0 {
                push_str(&mut x, "\n");
                push_str(&mut x, name.as_str());
            } else {
                push_str(&mut y, "\n");
                push_str(&mut y, name.as_str());
            }
            assert(x@ =~= picked(views, 0, k + 1));
            assert(y@ =~= picked(views, 1, k + 1));
            k = k + 1;
        }
        (x, y)
    }

    /// The two teams of a full queue: the names are shuffled, then dealt out from the
    /// end in turn.
    pub fn random_teams(names: Vec<String>) -> (r: (String, String))
        ensures
            exists|order: Seq<String>|
                #[trigger] order.to_multiset() == names@.to_multiset() && r.0@ == alternate_text(
                    order.map_values(|n: String| n@),
                    0,
                ) && r.1@ == alternate_text(order.map_values(|n: String| n@), 1),
    {
        let mut m = names;
        shuffle(&mut m);
        let r = Teams::alternate(&m);
        assert(m@.to_multiset() == names@.to_multiset());
        r
    }
}

/// The text of a team after `k` names were dealt from the end of `names`.
pub open spec fn picked(names: Seq<Seq<char>>, parity: int, k: int) -> Seq<char>
    decreases k,
{
    if k <= 0 {
        seq![]
    } else {
        picked(names, parity, k - 1) + if (k - 1) % 2 == parity {
            "\n"@ + names[names.len() - k]
        } else {
            seq![]
        }
    }
}

/// The text of a team once every name was dealt.
pub open spec fn alternate_text(names: Seq<Seq<char>>, parity: int) -> Seq<char> {
    picked(names, parity, names.len() as int)
}

/// The command that posts a suggestion.
pub struct Suggestion;

/// The colour of the suggestion embeds.
pub const SUGGESTION_COLOR: u64 = 0x74a8ee;

/// The text posted above each suggestion.
pub const SUGGESTION_CONTENT: &'static str = "aaaaaaa";

impl Suggestion {
    /// The command's name.
    pub fn name(&self) -> (s: String)
        ensures
            s@ == "suggestion"@,
    {
        String::from_str("suggestion")
    }

    /// The answer to the user who made a suggestion.
    pub fn delivered_embed() -> (e: Embed)
        ensures
            text_is(e.title, "Suggestions"@),
            text_is(e.description, "Your suggestion has been delivered successfully"@),
            e.color == Some(SUGGESTION_COLOR),
            e.author is None && e.url is None && e.fields@.len() == 0 && e.image is None
                && e.thumbnail is None && e.footer is None && e.timestamp is None,
    {
        let mut e = empty_embed();
        e.title = Some(String::from_str("Suggestions"));
        e.description = Some(String::from_str("Your suggestion has been delivered successfully"));
        e.color = Some(SUGGESTION_COLOR);
        e
    }

    /// The suggestion as posted in the suggestions channel: the user's tag and face as
    /// the author, the suggestion as the name of the one field, and the community's name
    /// in the footer.
    pub fn posted_embed(tag: &str, face: &str, suggestion: &str) -> (e: Embed)
        ensures
            e.author matches Some(a) && a.name@ == tag@ && text_is(a.icon_url, face@)
                && a.url is None,
            fields_view(e.fields@) == seq![(suggestion@, "_ _"@, false)],
            e.color == Some(SUGGESTION_COLOR),
            e.footer matches Some(f) && f.text@ == "Bridge Scrims"@ && f.icon_url is None,
            e.title is None && e.url is None && e.description is None && e.image is None
                && e.thumbnail is None && e.timestamp is None,
    {
        let mut e = empty_embed();
        e.author = Some(
            EmbedAuthor {
                name: String::from_str(tag),
                url: None,
                icon_url: Some(String::from_str(face)),
            },
        );
        e.fields = vec![field(suggestion, String::from_str("_ _"), false)];
        e.color = Some(SUGGESTION_COLOR);
        e.footer = Some(EmbedFooter { text: String::from_str("Bridge Scrims"), icon_url: None });
        assert(fields_view(e.fields@) =~= seq![(suggestion@, "_ _"@, false)]);
        e
    }
}

/// The command that times a member out.
pub struct Timeout {}

/// `d` read as a signed number the way `as i64` does: numbers above `i64::MAX` wrap
/// around to negative ones.
pub open spec fn as_signed(d: u64) -> int {
    if d <= i64::MAX {
        d as int
    } else {
        d - 18446744073709551616
    }
}

/// The length of a timeout in seconds: the duration (3 when not given) read as a
/// signed number, times the unit (an hour when not given).
pub open spec fn timeout_seconds(duration: Option<u64>, unit: Option<i64>) -> int {
    as_signed(
        match duration {
            Some(d) => d,
            None => 3,
        },
    ) * match unit {
        Some(u) => u as int,
        None => 3600,
    }
}

impl Timeout {
    /// The command's name.
    pub fn name(&self) -> (s: String)
        ensures
            s@ == "timeout"@,
    {
        String::from_str("timeout")
    }

    /// The length of a timeout in seconds. `chrono` refuses lengths beyond
    /// `i64::MAX / 1000` seconds either way.
    pub fn seconds(duration: Option<u64>, unit: Option<i64>) -> (r: i64)
        requires
            -(i64::MAX / 1000) <= timeout_seconds(duration, unit) <= i64::MAX / 1000,
        ensures
            r == timeout_seconds(duration, unit),
    {
        let d: u64 = match duration {
            Some(d) => d,
            None => 3,
        };
        let u: i64 = match unit {
            Some(u) => u,
            None => 3600,
        };
        let signed: i64 = if d <= 9223372036854775807u64 {
            d as i64
        } else {
            let rest: u64 = d - 9223372036854775808u64;
            (rest as i64) + i64::MIN
        };
        assert(signed == as_signed(d));
        signed * u
    }

    /// The answer when the executor may not time the member out.
    pub fn refused_text(tag: &str) -> (s: String)
        ensures
            s@ == "You do not have permission to timeout "@ + tag@,
    {
        let mut s = String::from_str("You do not have permission to timeout ");
        push_str(&mut s, tag);
        s
    }

    /// The description of a done timeout: until when, as a Discord timestamp.
    pub fn done_text(tag: &str, end: i64) -> (s: String)
        ensures
            s@ == "The user "@ + tag@ + " has been timed out until <t:"@ + signed_decimal(end as int)
                + ">."@,
    {
        let mut s = String::from_str("The user ");
        push_str(&mut s, tag);
        push_str(&mut s, " has been timed out until <t:");
        push_signed_decimal(&mut s, end);
        push_str(&mut s, ">.");
        s
    }

    /// The answer when Discord refused the timeout.
    pub fn failed_text(tag: &str, error: &str) -> (s: String)
        ensures
            s@ == "Could not timeout "@ + tag@ + ": "@ + error@,
    {
        let mut s = String::from_str("Could not timeout ");
        push_str(&mut s, tag);
        push_str(&mut s, ": ");
        push_str(&mut s, error);
        s
    }
}

} // verus!
