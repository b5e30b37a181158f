//! Custom reactions: which triggers may be used, the steps of adding one, the pages
//! that list them, and which reaction a message gets.

use vstd::prelude::*;

use crate::embed::EmbedField;
use crate::model::CustomReaction;
use crate::text::{
    ascii_lower, chars_contain, chars_eq, chars_of, chars_start_with, contains, decimal,
    lower_chars, push_decimal, push_str, starts_with,
};

verus! {

/// Why a custom reaction could not be added or removed.
#[derive(Clone, Copy, Debug, PartialEq, Eq, Structural)]
pub enum ErrorKind {
    /// The emoji is not valid.
    InvalidEmoji,
    /// The user already has a reaction.
    AlreadyExists,
    /// The database failed.
    Database,
    /// The trigger is not valid.
    InvalidTrigger,
}

impl ErrorKind {
    /// The number of the error kind.
    pub fn code(&self) -> (r: i32)
        ensures
            r == match *self {
                ErrorKind::InvalidEmoji => -1,
                ErrorKind::AlreadyExists => -2,
                ErrorKind::Database => -3,
                ErrorKind::InvalidTrigger => -4,
            },
    {
        match self {
            ErrorKind::InvalidEmoji => -1,
            ErrorKind::AlreadyExists => -2,
            ErrorKind::Database => -3,
            ErrorKind::InvalidTrigger => -4,
        }
    }
}

/// A failed reaction command.
#[derive(Clone, Copy, Debug, PartialEq, Eq, Structural)]
pub struct ReactionError {
    kind: ErrorKind,
}

/// The text of an error of kind `k`, ending in a line break.
pub open spec fn error_text(k: ErrorKind) -> Seq<char> {
    (match k {
        ErrorKind::InvalidEmoji => "invalid emoji"@,
        ErrorKind::AlreadyExists => "reaction already exists"@,
        ErrorKind::Database => "database error"@,
        ErrorKind::InvalidTrigger => "invalid trigger"@,
    }) + "\n"@
}

impl ReactionError {
    /// The kind of the error, as a spec value.
    pub closed spec fn spec_kind(&self) -> ErrorKind {
        self.kind
    }

    /// An error of kind `kind`.
    pub fn new(kind: ErrorKind) -> (r: ReactionError)
        ensures
            r.spec_kind() == kind,
    {
        ReactionError { kind }
    }

    /// The kind of the error.
    pub fn kind(&self) -> (r: ErrorKind)
        ensures
            r == self.spec_kind(),
    {
        self.kind
    }

    /// The text of the error.
    pub fn message(&self) -> (s: String)
        ensures
            s@ == error_text(self.spec_kind()),
    {
        let mut s = match self.kind {
            ErrorKind::InvalidEmoji => String::from_str("invalid emoji"),
            ErrorKind::AlreadyExists => String::from_str("reaction already exists"),
            ErrorKind::Database => String::from_str("database error"),
            ErrorKind::InvalidTrigger => String::from_str("invalid trigger"),
        };
        push_str(&mut s, "\n");
        s
    }
}

/// The command with which boosters add or remove their reaction.
pub struct Reaction;

/// The staff command that deletes someone's reaction.
pub struct DelReaction;

/// The staff command that lists all reactions.
pub struct ListReactions;

impl Reaction {
    /// The command's name.
    pub fn name(&self) -> (s: String)
        ensures
            s@ == "reaction"@,
    {
        String::from_str("reaction")
    }
}

impl DelReaction {
    /// The command's name.
    pub fn name(&self) -> (s: String)
        ensures
            s@ == "delete_reaction"@,
    {
        String::from_str("delete_reaction")
    }
}

impl ListReactions {
    /// The command's name.
    pub fn name(&self) -> (s: String)
        ensures
            s@ == "list_reactions"@,
    {
        String::from_str("list_reactions")
    }
}

/// A trigger may not mention ratios or shmill in any case, nor start like a command
/// (`/`) or a mention (`<`).
pub open spec fn trigger_forbidden(trigger: Seq<char>) -> bool {
    contains(ascii_lower(trigger), "ratio"@) || contains(ascii_lower(trigger), "shmill"@)
        || starts_with(trigger, "/"@) || starts_with(trigger, "<"@)
}

/// Whether a trigger is refused.
pub fn is_trigger_forbidden(trigger: &str) -> (r: bool)
    ensures
        r == trigger_forbidden(trigger@),
{
    let t = chars_of(trigger);
    let lower = lower_chars(t.as_slice());
    let ratio = chars_of("ratio");
    let shmill = chars_of("shmill");
    let slash = chars_of("/");
    let angle = chars_of("<");
    chars_contain(lower.as_slice(), ratio.as_slice()) || chars_contain(
        lower.as_slice(),
        shmill.as_slice(),
    ) || chars_start_with(t.as_slice(), slash.as_slice()) || chars_start_with(
        t.as_slice(),
        angle.as_slice(),
    )
}

/// What happened in the last step of adding a reaction.
#[derive(Debug)]
pub enum AddEvent {
    /// The user asked to add a reaction.
    Requested,
    /// The reactions that already use the trigger were counted.
    TriggerUses(u64),
    /// The bot tried to react with the emoji; whether that worked.
    EmojiTried(bool),
    /// The user's own reactions were counted.
    OwnReactions(u64),
    /// The reaction was stored; whether that worked.
    Stored(bool),
}

/// What to do next when adding a reaction.
#[derive(Debug)]
pub enum AddAction {
    /// Count the reactions that use the trigger.
    CountTriggerUses,
    /// Try to react with the emoji.
    TryEmoji,
    /// Count the user's own reactions.
    CountOwnReactions,
    /// Store the reaction.
    Store,
    /// The reaction was added; tell the user this.
    Added(String),
    /// Refuse with this error and this explanation.
    Refuse(ReactionError, String),
}

/// The explanation when a forbidden trigger is refused.
pub open spec fn forbidden_trigger_text(trigger: Seq<char>) -> Seq<char> {
    "You are not allowed to use `"@ + trigger + "` as a trigger"@
}

/// The explanation when the emoji is not usable.
pub open spec fn invalid_emoji_text(emoji: Seq<char>) -> Seq<char> {
    emoji + " is not a valid default emoji"@
}

/// The confirmation of an added reaction.
pub open spec fn added_text(emoji: Seq<char>) -> Seq<char> {
    "The "@ + emoji + " reaction has been added."@
}

/// The explanation when the trigger is taken.
pub const TRIGGER_TAKEN: &'static str = "That trigger already exists!";

/// The explanation when the user has a reaction already.
pub const ALREADY_HAS_REACTION: &'static str = "You already have a reaction! Remove it with `/reaction remove` and then try again.";

/// The explanation when the database failed.
pub const DATABASE_FAILED: &'static str = "There was an error with the database! Try again, and if this happens again contact a developer.";

/// The action is a refusal of kind `k` with explanation `text`.
pub open spec fn refuses(a: AddAction, k: ErrorKind, text: Seq<char>) -> bool {
    a matches AddAction::Refuse(e, t) && e.spec_kind() == k && t@ == text
}

/// The next step of adding a reaction with `trigger` and `emoji` after `event`.
pub fn add_step(trigger: &str, emoji: &str, event: AddEvent) -> (r: AddAction)
    ensures
        match event {
            AddEvent::Requested => if trigger_forbidden(trigger@) {
                refuses(r, ErrorKind::InvalidTrigger, forbidden_trigger_text(trigger@))
            } else {
                r is CountTriggerUses
            },
            AddEvent::TriggerUses(n) => if n > 0 {
                refuses(r, ErrorKind::InvalidTrigger, TRIGGER_TAKEN@)
            } else {
                r is TryEmoji
            },
            AddEvent::EmojiTried(ok) => if !ok {
                refuses(r, ErrorKind::InvalidEmoji, invalid_emoji_text(emoji@))
            } else {
                r is CountOwnReactions
            },
            AddEvent::OwnReactions(n) => if n > 0 {
                refuses(r, ErrorKind::AlreadyExists, ALREADY_HAS_REACTION@)
            } else {
                r is Store
            },
            AddEvent::Stored(ok) => if !ok {
                refuses(r, ErrorKind::Database, DATABASE_FAILED@)
            } else {
                r matches AddAction::Added(t) && t@ == added_text(emoji@)
            },
        },
{
    match event {
        AddEvent::Requested => {
            if is_trigger_forbidden(trigger) {
                let mut t = String::from_str("You are not allowed to use `");
                push_str(&mut t, trigger);
                push_str(&mut t, "` as a trigger");
                AddAction::Refuse(ReactionError::new(ErrorKind::InvalidTrigger), t)
            } else {
                AddAction::CountTriggerUses
            }
        },
        AddEvent::TriggerUses(n) => {
            if n > 0 {
                AddAction::Refuse(
                    ReactionError::new(ErrorKind::InvalidTrigger),
                    String::from_str(TRIGGER_TAKEN),
                )
            } else {
                AddAction::TryEmoji
            }
        },
        AddEvent::EmojiTried(ok) => {
            if !ok {
                let mut t = String::from_str(emoji);
                push_str(&mut t, " is not a valid default emoji");
                AddAction::Refuse(ReactionError::new(ErrorKind::InvalidEmoji), t)
            } else {
                AddAction::CountOwnReactions
            }
        },
        AddEvent::OwnReactions(n) => {
            if n > 0 {
                AddAction::Refuse(
                    ReactionError::new(ErrorKind::AlreadyExists),
                    String::from_str(ALREADY_HAS_REACTION),
                )
            } else {
                AddAction::Store
            }
        },
        AddEvent::Stored(ok) => {
            if !ok {
                AddAction::Refuse(
                    ReactionError::new(ErrorKind::Database),
                    String::from_str(DATABASE_FAILED),
                )
            } else {
                let mut t = String::from_str("The ");
                push_str(&mut t, emoji);
                push_str(&mut t, " reaction has been added.");
                AddAction::Added(t)
            }
        },
    }
}

/// The field that lists one reaction.
pub open spec fn reaction_field_name(r: CustomReaction) -> Seq<char> {
    "Reaction `"@ + r.trigger@ + "`:"@
}

/// The text of the field that lists one reaction.
pub open spec fn reaction_field_value(r: CustomReaction) -> Seq<char> {
    "`"@ + r.trigger@ + "` reacts with "@ + r.emoji@ + ", created by <@!"@ + decimal(
        r.user_id as nat,
    ) + ">"@
}

/// The title of page `i` (from 0) of a list of `n` reactions. The first page counts
/// `(n - 1) / 10 + 1` pages, the later ones `n / 10 + 1`.
pub open spec fn page_title(i: nat, n: nat) -> Seq<char> {
    "Page "@ + decimal(i + 1) + " of "@ + decimal(
        if i == 0 {
            ((n - 1) / 10 + 1) as nat
        } else {
            n / 10 + 1
        },
    )
}

/// One page of the list of reactions.
#[derive(Debug)]
pub struct ReactionPage {
    pub title: String,
    /// Only the first page has a description.
    pub description: Option<String>,
    pub fields: Vec<EmbedField>,
}

/// The description of the first page.
pub const PAGES_DESCRIPTION: &'static str = "These are all custom reactions currently:";

/// Page `i` lists the reactions from `10 * i` on, at most ten.
pub open spec fn page_lists(p: ReactionPage, rs: Seq<CustomReaction>, i: int) -> bool {
    &&& p.title@ == page_title(i as nat, rs.len())
    &&& (if i == 0 {
        p.description matches Some(d) && d@ == PAGES_DESCRIPTION@
    } else {
        p.description is None
    })
    &&& p.fields@.len() == (if rs.len() - 10 * i < 10 {
        rs.len() - 10 * i
    } else {
        10
    })
    &&& forall|j: int|
        0 <= j < p.fields@.len() ==> {
            let f = #[trigger] p.fields@[j];
            &&& f.name@ == reaction_field_name(rs[10 * i + j])
            &&& f.value@ == reaction_field_value(rs[10 * i + j])
            &&& !f.inline
        }
}

fn reaction_field(r: &CustomReaction) -> (f: EmbedField)
    ensures
        f.name@ == reaction_field_name(*r),
        f.value@ == reaction_field_value(*r),
        !f.inline,
{
    let mut name = String::from_str("Reaction `");
    push_str(&mut name, r.trigger.as_str());
    push_str(&mut name, "`:");
    let mut value = String::from_str("`");
    push_str(&mut value, r.trigger.as_str());
    push_str(&mut value, "` reacts with ");
    push_str(&mut value, r.emoji.as_str());
    push_str(&mut value, ", created by <@!");
    push_decimal(&mut value, r.user_id);
    push_str(&mut value, ">");
    EmbedField { name, value, inline: false }
}

/// The pages that list the reactions, ten to a page (none for no reactions).
pub fn reaction_pages(rs: &Vec<CustomReaction>) -> (pages: Vec<ReactionPage>)
    ensures
        pages@.len() == (rs@.len() + 9) / 10,
        forall|i: int| 0 <= i < pages@.len() ==> page_lists(#[trigger] pages@[i], rs@, i),
{
    let n = rs.len();
    let mut pages: Vec<ReactionPage> = Vec::new();
    let mut start: usize = 0;
    while start < n
        invariant
            n == rs@.len(),
            start <= n,
            start < n ==> start == 10 * pages@.len(),
            start == n ==> pages@.len() == (n + 9) / 10,
            forall|i: int| 0 <= i < pages@.len() ==> page_lists(#[trigger] pages@[i], rs@, i),
        decreases n - start,
    {
        let i = pages.len();
        let mut title = String::from_str("Page ");
        push_decimal(&mut title, (i + 1) as u64);
        push_str(&mut title, " of ");
        let total: usize = if i == 0 { (n - 1) / 10 + 1 } else { n / 10 + 1 };
        push_decimal(&mut title, total as u64);
        assert(title@ == page_title(i as nat, n as nat));
        let description = if i == 0 { Some(String::from_str(PAGES_DESCRIPTION)) } else { None };
        let end: usize = if n - start < 10 { n } else { start + 10 };
        let mut fields: Vec<EmbedField> = Vec::new();
        let mut k: usize = start;
        while k < end
            invariant
                start <= k <= end <= n,
                n == rs@.len(),
                fields@.len() == k - start,
                forall|j: int|
                    0 <= j < fields@.len() ==> {
                        let f = #[trigger] fields@[j];
                        &&& f.name@ == reaction_field_name(rs@[start + j])
                        &&& f.value@ == reaction_field_value(rs@[start + j])
                        &&& !f.inline
                    },
            decreases end - k,
        {
            let f = reaction_field(&rs[k]);
            fields.push(f);
            k = k + 1;
        }
        let page = ReactionPage { title, description, fields };
        assert(page_lists(page, rs@, i as int));
        pages.push(page);
        assert(pages@[i as int] == page);
        start = end;
    }
    pages
}

/// The reaction a message gets: the last reaction whose trigger is the message, both
/// read in ASCII lower case (the reactions are read in order into a map keyed by the
/// lower-case trigger, so a later one replaces an earlier one).
pub open spec fn reaction_for(rs: Seq<CustomReaction>, content: Seq<char>) -> Option<int>
    decreases rs.len(),
{
    if rs.len() == 0 {
        None
    } else if ascii_lower(rs.last().trigger@) == ascii_lower(content) {
        Some(rs.len() - 1)
    } else {
        reaction_for(rs.drop_last(), content)
    }
}

/// Finds the reaction a message gets.
pub fn find_reaction(rs: &Vec<CustomReaction>, content: &str) -> (r: Option<usize>)
    ensures
        match reaction_for(rs@, content@) {
            Some(i) => r == Some(i as usize),
            None => r is None,
        },
{
    let c = chars_of(content);
    let key = lower_chars(c.as_slice());
    let mut i: usize = rs.len();
    assert(rs@.take(rs@.len() as int) =~= rs@);
    while i > 0
        invariant
            i <= rs@.len(),
            key@ == ascii_lower(content@),
            reaction_for(rs@, content@) == reaction_for(rs@.take(i as int), content@),
        decreases i,
    {
        let t = chars_of(rs[i - 1].trigger.as_str());
        let lt = lower_chars(t.as_slice());
        assert(rs@.take(i as int).last() == rs@[i - 1]);
        assert(rs@.take(i as int).drop_last() =~= rs@.take(i - 1));
        if chars_eq(lt.as_slice(), key.as_slice()) {
            return Some(i - 1);
        }
        i = i - 1;
    }
    None
}

/// Every reaction whose trigger matches a message is replaced by the last one: the
/// reaction found is the last that matches.
pub proof fn lemma_last_trigger_wins(rs: Seq<CustomReaction>, content: Seq<char>)
    ensures
        reaction_for(rs, content) matches Some(i) ==> 0 <= i < rs.len() && ascii_lower(
            rs[i].trigger@,
        ) == ascii_lower(content) && forall|j: int|
            i < j < rs.len() ==> ascii_lower(#[trigger] rs[j].trigger@) != ascii_lower(content),
        reaction_for(rs, content) is None ==> forall|j: int|
            0 <= j < rs.len() ==> ascii_lower(#[trigger] rs[j].trigger@) != ascii_lower(content),
    decreases rs.len(),
{
    if rs.len() > 0 {
        lemma_last_trigger_wins(rs.drop_last(), content);
        assert forall|j: int| 0 <= j < rs.len() - 1 implies rs[j] == rs.drop_last()[j] by {}
    }
}

/// An error text that says the emoji of a reaction is unusable: it mentions an unknown
/// emoji or an invalid form body, in any case.
pub open spec fn emoji_rejected(error: Seq<char>) -> bool {
    contains(ascii_lower(error), "unknown emoji"@) || contains(ascii_lower(error), "invalid form body"@)
}

/// Whether a failed reaction means that its emoji is unusable.
pub fn is_emoji_rejected(error: &str) -> (r: bool)
    ensures
        r == emoji_rejected(error@),
{
    let e = chars_of(error);
    let lower = lower_chars(e.as_slice());
    let unknown = chars_of("unknown emoji");
    let form = chars_of("invalid form body");
    chars_contain(lower.as_slice(), unknown.as_slice()) || chars_contain(
        lower.as_slice(),
        form.as_slice(),
    )
}

/// The reply to the owner of a reaction whose emoji was unusable.
pub open spec fn emoji_removed_text(user: u64) -> Seq<char> {
    "Hey <@"@ + decimal(user as nat)
        + ">, it looks like the custom reaction which you added has an invalid emoji. It's been removed from the database, make sure that anything which you add is a default emoji."@
}

/// Writes the reply to the owner of a reaction whose emoji was unusable.
pub fn emoji_removed_message(user: u64) -> (s: String)
    ensures
        s@ == emoji_removed_text(user),
{
    let mut s = String::from_str("Hey <@");
    push_decimal(&mut s, user);
    push_str(
        &mut s,
        ">, it looks like the custom reaction which you added has an invalid emoji. It's been removed from the database, make sure that anything which you add is a default emoji.",
    );
    s
}

/// The title of the log entry when someone's reaction was removed.
pub fn reaction_removed_title(tag: &str) -> (s: String)
    ensures
        s@ == tag@ + "'s reaction has been removed"@,
{
    let mut s = String::from_str(tag);
    push_str(&mut s, "'s reaction has been removed");
    s
}

/// The answer when staff removed someone's reaction.
pub fn reaction_deleted_text(user: u64) -> (s: String)
    ensures
        s@ == "<@"@ + decimal(user as nat) + ">'s reaction has been removed."@,
{
    let mut s = String::from_str("<@");
    push_decimal(&mut s, user);
    push_str(&mut s, ">'s reaction has been removed.");
    s
}

/// The log entry text when staff removed someone's reaction.
pub fn reaction_deleted_by(staff_tag: &str) -> (s: String)
    ensures
        s@ == "Removed using the /delete_reaction command by "@ + staff_tag@,
{
    let mut s = String::from_str("Removed using the /delete_reaction command by ");
    push_str(&mut s, staff_tag);
    s
}

/// The title of the log entry of a new reaction.
pub fn reaction_added_title(tag: &str) -> (s: String)
    ensures
        s@ == "New reaction added by "@ + tag@ + "."@,
{
    let mut s = String::from_str("New reaction added by ");
    push_str(&mut s, tag);
    push_str(&mut s, ".");
    s
}

/// The text of the log entry of a new reaction.
pub fn reaction_added_text(trigger: &str, emoji: &str) -> (s: String)
    ensures
        s@ == "`"@ + trigger@ + "` reacts with `"@ + emoji@ + "`"@,
{
    let mut s = String::from_str("`");
    push_str(&mut s, trigger);
    push_str(&mut s, "` reacts with `");
    push_str(&mut s, emoji);
    push_str(&mut s, "`");
    s
}

/// What becomes of a member who does not boost and is no administrator: their custom
/// reaction is removed when they have one, and their colour roles are taken away
/// (`Some` roles to keep) when they have any.
#[derive(Debug)]
pub struct BoosterPlan {
    pub remove_reaction: bool,
    pub roles: Option<Vec<u64>>,
}

/// The log text when a reaction is removed because its owner stopped boosting.
pub const NO_LONGER_BOOSTING: &'static str = "No longer has booster and is not an administrator.";

/// Decides what becomes of a member whose boost or roles changed; `None` for a
/// booster or an administrator.
pub fn booster_plan(boosting: bool, administrator: bool, reactions: usize, roles: &Vec<u64>, colors: &Vec<u64>) -> (r:
    Option<BoosterPlan>)
    ensures
        if boosting || administrator {
            r is None
        } else {
            r matches Some(p) && p.remove_reaction == (reactions > 0) && match p.roles {
                Some(v) => (exists|i: int| 0 <= i < roles@.len() && colors@.contains(
                    #[trigger] roles@[i],
                )) && v@ == crate::roles::dropped_from(roles@, colors@),
                None => !(exists|i: int| 0 <= i < roles@.len() && colors@.contains(
                    #[trigger] roles@[i],
                )),
            }
        },
{
    if boosting || administrator {
        return None;
    }
    Some(BoosterPlan { remove_reaction: reactions > 0, roles: crate::roles::without_color_roles(roles, colors) })
}

} // verus!
