//! Screenshare tickets: the ticket channel, its request message, and what a press of
//! one of its buttons starts.

use vstd::prelude::*;

use crate::custom_id::{pieces, split_on};
use crate::embed::{embed_string, embed_text, empty_embed, field, fields_view, Embed, ErrorResponse};
use crate::text::{
    channel_mention, decimal, join_strings, joined, push_channel_mention, push_decimal,
    push_role_mention, push_signed_decimal, push_str, push_user_mention, role_mention,
    signed_decimal, str_eq, user_mention,
};

verus! {

/// What a button of a screenshare ticket starts.
#[derive(Clone, Copy, Debug, PartialEq, Eq, Structural)]
pub enum Operation {
    Close,
    Freeze,
}

/// A button named an operation that does not exist.
#[derive(Clone, Copy, Debug, PartialEq, Eq, Structural)]
pub struct OperationDoesNotExist;

impl OperationDoesNotExist {
    /// The error's text.
    pub fn message(&self) -> (s: String)
        ensures
            s@ == "Operation does not exist"@,
    {
        String::from_str("Operation does not exist")
    }
}

/// The operation a button names: `close` or `freeze`.
pub open spec fn operation_named(name: Seq<char>) -> Result<Operation, OperationDoesNotExist> {
    if name == "close"@ {
        Ok(Operation::Close)
    } else if name == "freeze"@ {
        Ok(Operation::Freeze)
    } else {
        Err(OperationDoesNotExist)
    }
}

impl<'a> TryFrom<&'a str> for Operation {
    type Error = OperationDoesNotExist;

    fn try_from(value: &'a str) -> (r: Result<Operation, OperationDoesNotExist>)
        ensures
            r == operation_named(value@),
    {
        if str_eq(value, "close") {
            Ok(Operation::Close)
        } else if str_eq(value, "freeze") {
            Ok(Operation::Freeze)
        } else {
            Err(OperationDoesNotExist)
        }
    }
}

impl<'a> vstd::std_specs::convert::TryFromSpecImpl<&'a str> for Operation {
    open spec fn obeys_try_from_spec() -> bool {
        true
    }

    open spec fn try_from_spec(v: &'a str) -> Result<Operation, OperationDoesNotExist> {
        operation_named(v@)
    }
}

/// The command that opens a screenshare ticket.
pub struct Screenshare;

impl Screenshare {
    /// The command's name.
    pub fn name(&self) -> (s: String)
        ensures
            s@ == "screenshare"@,
    {
        String::from_str("screenshare")
    }
}

/// The reply to a user who already has a ticket open in channel `channel`.
pub open spec fn active_ticket_text(channel: u64) -> Seq<char> {
    "You already have an active screenshare in <#$"@ + decimal(channel as nat) + ">"@
}

/// Replies that the user already has a ticket open.
pub fn active_ticket_message(channel: u64) -> (s: String)
    ensures
        s@ == active_ticket_text(channel),
{
    let mut s = String::from_str("You already have an active screenshare in <#$");
    push_decimal(&mut s, channel);
    push_str(&mut s, ">");
    s
}

/// The name of a new ticket channel: `screenshare-` and one more than the number of
/// tickets so far (none counted is zero).
pub open spec fn ticket_channel_name(count: Option<i64>) -> Seq<char> {
    "screenshare-"@ + signed_decimal(
        match count {
            Some(c) => c + 1,
            None => 1,
        },
    )
}

/// Names a new ticket channel.
pub fn ticket_name(count: Option<i64>) -> (s: String)
    requires
        count matches Some(c) ==> c < i64::MAX,
    ensures
        s@ == ticket_channel_name(count),
{
    let n: i64 = match count {
        Some(c) => c + 1,
        None => 1,
    };
    let mut s = String::from_str("screenshare-");
    push_signed_decimal(&mut s, n);
    s
}

/// The text that opens a ticket: it pings the screenshare support role and asks the
/// creator to explain how the player in question is cheating.
pub open spec fn request_text(support_role: u64, creator: u64, in_question: u64) -> Seq<char> {
    role_mention(support_role) + "\n"@ + user_mention(creator) + " Please explain how "@
        + user_mention(in_question)
        + " is cheating and screenshots of you telling them\nnot to log aswell as any other info.\n"@
}

/// Writes the text that opens a ticket.
pub fn request_message(support_role: u64, creator: u64, in_question: u64) -> (s: String)
    ensures
        s@ == request_text(support_role, creator, in_question),
{
    let mut s = String::new();
    push_role_mention(&mut s, support_role);
    push_str(&mut s, "\n");
    push_user_mention(&mut s, creator);
    push_str(&mut s, " Please explain how ");
    push_user_mention(&mut s, in_question);
    push_str(
        &mut s,
        " is cheating and screenshots of you telling them\nnot to log aswell as any other info.\n",
    );
    assert(s@ =~= request_text(support_role, creator, in_question));
    s
}

/// The id of the ticket's freeze button: `freeze:` and the player in question.
pub fn freeze_button_id(in_question: u64) -> (s: String)
    ensures
        s@ == "freeze:"@ + decimal(in_question as nat),
{
    let mut s = String::from_str("freeze:");
    push_decimal(&mut s, in_question);
    s
}

/// The id of the ticket's close button: `close:` and the ticket channel.
pub fn close_button_id(channel: u64) -> (s: String)
    ensures
        s@ == "close:"@ + decimal(channel as nat),
{
    let mut s = String::from_str("close:");
    push_decimal(&mut s, channel);
    s
}

/// The reply once the ticket exists.
pub fn ticket_created_message(channel: u64) -> (s: String)
    ensures
        s@ == "Ticket created in "@ + channel_mention(channel),
{
    let mut s = String::from_str("Ticket created in ");
    push_channel_mention(&mut s, channel);
    s
}

/// The reply when the ticket channel could not be made.
pub fn ticket_failed_message(error: &str) -> (s: String)
    ensures
        s@ == "Could not create your ticket: "@ + error@,
{
    let mut s = String::from_str("Could not create your ticket: ");
    push_str(&mut s, error);
    s
}

/// What a press of a ticket button leads to.
#[derive(Clone, Copy, Debug, PartialEq, Eq, Structural)]
pub enum ButtonPress {
    /// The player in question or the ticket's creator pressed it: they are told they
    /// may not, and the ticket waits on.
    Refused,
    /// The buttons are taken off and the operation runs.
    Start(Operation),
    /// The buttons are taken off, but the button names no operation.
    Unknown(OperationDoesNotExist),
}

/// The outcome of a press by `presser` of the button with id `custom_id`.
pub open spec fn press_outcome(presser: u64, in_question: u64, creator: u64, custom_id: Seq<char>) -> ButtonPress {
    if presser == in_question || presser == creator {
        ButtonPress::Refused
    } else {
        match operation_named(pieces(custom_id, ':')[0]) {
            Ok(op) => ButtonPress::Start(op),
            Err(e) => ButtonPress::Unknown(e),
        }
    }
}

/// Decides what a press of a ticket button leads to.
pub fn button_press(presser: u64, in_question: u64, creator: u64, custom_id: &str) -> (r: ButtonPress)
    ensures
        r == press_outcome(presser, in_question, creator, custom_id@),
{
    if presser == in_question || presser == creator {
        return ButtonPress::Refused;
    }
    let parts = split_on(custom_id, ':');
    proof {
        crate::custom_id::lemma_pieces_join(custom_id@, ':');
    }
    assert(parts@.map_values(|p: String| p@)[0] == parts@[0]@);
    match Operation::try_from(parts[0].as_str()) {
        Ok(op) => ButtonPress::Start(op),
        Err(e) => ButtonPress::Unknown(e),
    }
}

/// The reply to a press that is refused.
pub const PRESS_REFUSED: &'static str = "You do not have permission to do that";

/// The error when the user has a ticket open already.
pub fn one_at_a_time(channel: u64) -> (e: ErrorResponse)
    ensures
        e.title matches Some(t) && t@ == "One at a time please"@,
        e.description@ == "You already have a screenshare request open at "@ + channel_mention(
            channel,
        ) + "."@,
        e.footer is None,
{
    let mut d = String::from_str("You already have a screenshare request open at ");
    push_channel_mention(&mut d, channel);
    push_str(&mut d, ".");
    ErrorResponse { title: Some(String::from_str("One at a time please")), description: d, footer: None }
}

/// The error when the ticket channel could not be made.
pub const CHANNEL_NOT_CREATED: &'static str = "Your screenshare channel couldn't be created...";

/// The warning in a ticket whose record could not be stored.
pub const TICKET_NOT_STORED: &'static str = "Due to an error occurring in the database, this ticket may not work as expected.";

/// The answer once a ticket exists.
pub fn ticket_created_at(channel: u64) -> (s: String)
    ensures
        s@ == "Ticket created at "@ + channel_mention(channel) + "."@,
{
    let mut s = String::from_str("Ticket created at ");
    push_channel_mention(&mut s, channel);
    push_str(&mut s, ".");
    s
}

/// The text that opens a ticket: it pings the screenshare support role and asks the
/// creator why they suspect the player.
pub open spec fn suspect_text(support_role: u64, creator: u64, in_question: u64) -> Seq<char> {
    role_mention(support_role) + " \n"@ + user_mention(creator)
        + " Please explain why you suspect "@ + user_mention(in_question)
        + " of cheating and send us the screenshots of you telling them not to log as well as any other info you can provide."@
}

/// Writes the text that opens a ticket.
pub fn suspect_message(support_role: u64, creator: u64, in_question: u64) -> (s: String)
    ensures
        s@ == suspect_text(support_role, creator, in_question),
{
    let mut s = String::new();
    push_role_mention(&mut s, support_role);
    push_str(&mut s, " \n");
    push_user_mention(&mut s, creator);
    push_str(&mut s, " Please explain why you suspect ");
    push_user_mention(&mut s, in_question);
    push_str(
        &mut s,
        " of cheating and send us the screenshots of you telling them not to log as well as any other info you can provide.",
    );
    assert(s@ =~= suspect_text(support_role, creator, in_question));
    s
}

/// The colour of a ticket's request embed.
pub const REQUEST_COLOR: u64 = 0xf03291;

/// What the request embed says after the player's mention.
pub const REQUEST_WAIT: &'static str = " is not frozen by us within the next 15 minutes, this will automatically get deleted and they are safe to logout.\n                    ";

/// The embed of a ticket: the request, how long the player must wait, and the
/// player's Minecraft account.
pub fn request_embed(in_question: u64, ign: &str) -> (e: Embed)
    ensures
        e.title matches Some(t) && t@ == "Screenshare Request"@,
        e.color == Some(REQUEST_COLOR),
        e.description matches Some(d) && d@ == "If "@ + user_mention(in_question) + REQUEST_WAIT@,
        fields_view(e.fields@) == seq![("Minecraft Account"@, "```"@ + ign@ + "```"@, false)],
        e.author is None && e.url is None && e.image is None && e.thumbnail is None
            && e.footer is None && e.timestamp is None,
{
    let mut d = String::from_str("If ");
    push_user_mention(&mut d, in_question);
    push_str(&mut d, REQUEST_WAIT);
    let mut account = String::from_str("```");
    push_str(&mut account, ign);
    push_str(&mut account, "```");
    let mut e = empty_embed();
    e.title = Some(String::from_str("Screenshare Request"));
    e.color = Some(REQUEST_COLOR);
    e.description = Some(d);
    e.fields = vec![field("Minecraft Account", account, false)];
    assert(fields_view(e.fields@) =~= seq![("Minecraft Account"@, "```"@ + ign@ + "```"@, false)]);
    e
}

/// The error when a channel is closed that is no ticket.
pub const NOT_A_TICKET: &'static str = "This channel isn't a screenshare ticket!";

/// A message of a ticket, as it is kept when the ticket closes.
#[derive(Debug)]
pub struct HistoryMessage {
    pub timestamp: String,
    pub author_tag: String,
    pub content: String,
    pub embeds: Vec<Embed>,
}

/// The lines of one message: `[time] author: content`, then each embed printed after
/// `Embed:` and a line break.
pub open spec fn message_lines(m: HistoryMessage) -> Seq<Seq<char>> {
    seq!["["@ + m.timestamp@ + "] "@ + m.author_tag@ + ": "@ + m.content@] + m.embeds@.map_values(
        |e: Embed| "Embed:\n"@ + embed_text(e),
    )
}

/// The lines of the messages, in the order the messages come (newest first).
pub open spec fn history_lines(ms: Seq<HistoryMessage>) -> Seq<Seq<char>>
    decreases ms.len(),
{
    if ms.len() == 0 {
        seq![]
    } else {
        history_lines(ms.drop_last()) + message_lines(ms.last())
    }
}

/// The log of a closed ticket: the lines in reverse order (oldest first), one per
/// line.
pub open spec fn history_text(ms: Seq<HistoryMessage>) -> Seq<char> {
    joined(history_lines(ms).reverse(), "\n"@)
}

/// Writes the log of a closed ticket from its messages, newest first.
pub fn ticket_history(ms: &Vec<HistoryMessage>) -> (s: String)
    ensures
        s@ == history_text(ms@),
{
    let mut lines: Vec<String> = Vec::new();
    let mut i: usize = 0;
    while i < ms.len()
        invariant
            i <= ms@.len(),
            lines@.map_values(|l: String| l@) == history_lines(ms@.take(i as int)),
        decreases ms@.len() - i,
    {
        let m = &ms[i];
        let ghost before = lines@.map_values(|l: String| l@);
        let mut head = String::from_str("[");
        push_str(&mut head, m.timestamp.as_str());
        push_str(&mut head, "] ");
        push_str(&mut head, m.author_tag.as_str());
        push_str(&mut head, ": ");
        push_str(&mut head, m.content.as_str());
        lines.push(head);
        let ghost with_head = lines@.map_values(|l: String| l@);
        assert(with_head =~= before.push(head@));
        let mut k: usize = 0;
        while k < m.embeds.len()
            invariant
                k <= m.embeds@.len(),
                lines@.map_values(|l: String| l@) == with_head + m.embeds@.take(k as int).map_values(
                    |e: Embed| "Embed:\n"@ + embed_text(e),
                ),
            decreases m.embeds@.len() - k,
        {
            let mut t = String::from_str("Embed:\n");
            let body = embed_string(&m.embeds[k]);
            push_str(&mut t, body.as_str());
            let ghost prev = lines@.map_values(|l: String| l@);
            lines.push(t);
            assert(lines@.map_values(|l: String| l@) =~= prev.push(t@));
            assert(m.embeds@.take(k + 1).map_values(|e: Embed| "Embed:\n"@ + embed_text(e))
                =~= m.embeds@.take(k as int).map_values(|e: Embed| "Embed:\n"@ + embed_text(e)).push(
                "Embed:\n"@ + embed_text(m.embeds@[k as int]),
            ));
            k = k + 1;
        }
        assert(m.embeds@.take(m.embeds@.len() as int) =~= m.embeds@);
        assert(ms@.take(i + 1).drop_last() =~= ms@.take(i as int));
        assert(lines@.map_values(|l: String| l@) =~= history_lines(ms@.take(i + 1)));
        i = i + 1;
    }
    assert(ms@.take(ms@.len() as int) =~= ms@);
    let ghost all = lines@.map_values(|l: String| l@);
    let mut rev: Vec<String> = Vec::new();
    let mut j: usize = lines.len();
    assert(all.take(j as int) =~= all);
    while j > 0
        invariant
            j == lines@.len(),
            j <= all.len(),
            lines@.map_values(|l: String| l@) == all.take(j as int),
            rev@.map_values(|l: String| l@) == all.subrange(j as int, all.len() as int).reverse(),
        decreases j,
    {
        let ghost prev = rev@.map_values(|l: String| l@);
        let ghost before = lines@;
        let line = lines.pop().unwrap();
        assert(line@ == before.map_values(|l: String| l@)[j - 1]);
        assert(line@ == all[j - 1]);
        rev.push(line);
        j = j - 1;
        assert(lines@.map_values(|l: String| l@) =~= all.take(j as int));
        assert(rev@.map_values(|l: String| l@) =~= prev.push(line@));
        assert(all.subrange(j as int, all.len() as int).reverse() =~= all.subrange(
            j + 1,
            all.len() as int,
        ).reverse().push(all[j as int]));
    }
    assert(all.subrange(0, all.len() as int) =~= all);
    join_strings(&rev, "\n")
}

/// The description of the log message of a closed ticket.
pub open spec fn closed_text(creator: u64, in_question: u64, closer: u64) -> Seq<char> {
    "- Creator: "@ + user_mention(creator) + " \n- In Question: "@ + user_mention(in_question)
        + " \n- Closer: "@ + user_mention(closer) + " "@
}

/// Writes the description of the log message of a closed ticket.
pub fn closed_message(creator: u64, in_question: u64, closer: u64) -> (s: String)
    ensures
        s@ == closed_text(creator, in_question, closer),
{
    let mut s = String::from_str("- Creator: ");
    push_user_mention(&mut s, creator);
    push_str(&mut s, " \n- In Question: ");
    push_user_mention(&mut s, in_question);
    push_str(&mut s, " \n- Closer: ");
    push_user_mention(&mut s, closer);
    push_str(&mut s, " ");
    assert(s@ =~= closed_text(creator, in_question, closer));
    s
}

/// What the ticket command does to a member of a ticket.
#[derive(Clone, Copy, Debug, PartialEq, Eq, Structural)]
pub enum TicketChange {
    /// `a`: let the member into the ticket.
    Add,
    /// `r`: take the member out of the ticket.
    Remove,
}

/// The answer when the ticket command is used outside a ticket.
pub const NOT_A_TICKET_CHANNEL: &'static str = "That channel is not a ticket!";

/// The answer to an unknown ticket operation.
pub const NOT_AN_OPTION: &'static str = "That is not an option.";

/// The change that the operation `a` or `r` asks for.
pub fn ticket_change(operation: &str) -> (r: Option<TicketChange>)
    ensures
        r == if operation@ == "a"@ {
            Some(TicketChange::Add)
        } else if operation@ == "r"@ {
            Some(TicketChange::Remove)
        } else {
            None::<TicketChange>
        },
{
    if str_eq(operation, "a") {
        Some(TicketChange::Add)
    } else if str_eq(operation, "r") {
        Some(TicketChange::Remove)
    } else {
        None
    }
}

/// The answer after a change to a ticket.
pub fn ticket_change_message(change: TicketChange, who: u64) -> (s: String)
    ensures
        s@ == user_mention(who) + match change {
            TicketChange::Add => " has been added to the ticket."@,
            TicketChange::Remove => " has been removed from the ticket."@,
        },
{
    let mut s = String::new();
    push_user_mention(&mut s, who);
    match change {
        TicketChange::Add => push_str(&mut s, " has been added to the ticket."),
        TicketChange::Remove => push_str(&mut s, " has been removed from the ticket."),
    }
    s
}

} // verus!
