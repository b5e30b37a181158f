//! How interactions are handled: who may run a handler, what is answered first, how
//! the handler's outcome is answered, and how the options of a command are read.

use vstd::prelude::*;

use crate::embed::{text_is, ErrorResponse};
use crate::commands::{has_any_role, holds_any_role};
use crate::text::str_eq;

verus! {

/// What a handler answers before it runs.
#[derive(Clone, Copy, Debug, PartialEq, Eq, Structural)]
pub enum InitialInteractionResponse {
    /// A deferred reply that only the user sees.
    DeferEphemeralReply,
    /// A deferred reply.
    DeferReply,
    /// A deferred update of the message.
    DeferUpdate,
    /// Nothing: the handler answers itself.
    NoDefer,
}

/// The kind of a first answer.
#[derive(Clone, Copy, Debug, PartialEq, Eq, Structural)]
pub enum DeferKind {
    /// `DeferredChannelMessageWithSource`.
    ChannelMessage,
    /// `DeferredUpdateMessage`.
    UpdateMessage,
}

/// A first answer: its kind and whether only the user sees it.
#[derive(Clone, Copy, Debug, PartialEq, Eq, Structural)]
pub struct InitialAnswer {
    pub kind: DeferKind,
    pub ephemeral: bool,
}

/// The first answer a handler gives, if any.
pub fn initial_answer(r: InitialInteractionResponse) -> (a: Option<InitialAnswer>)
    ensures
        a == match r {
            InitialInteractionResponse::DeferEphemeralReply => Some(
                InitialAnswer { kind: DeferKind::ChannelMessage, ephemeral: true },
            ),
            InitialInteractionResponse::DeferReply => Some(
                InitialAnswer { kind: DeferKind::ChannelMessage, ephemeral: false },
            ),
            InitialInteractionResponse::DeferUpdate => Some(
                InitialAnswer { kind: DeferKind::UpdateMessage, ephemeral: false },
            ),
            InitialInteractionResponse::NoDefer => None::<InitialAnswer>,
        },
{
    match r {
        InitialInteractionResponse::DeferEphemeralReply => Some(
            InitialAnswer { kind: DeferKind::ChannelMessage, ephemeral: true },
        ),
        InitialInteractionResponse::DeferReply => Some(
            InitialAnswer { kind: DeferKind::ChannelMessage, ephemeral: false },
        ),
        InitialInteractionResponse::DeferUpdate => Some(
            InitialAnswer { kind: DeferKind::UpdateMessage, ephemeral: false },
        ),
        InitialInteractionResponse::NoDefer => None,
    }
}

/// What the permission check reads of the member who used a command.
#[derive(Debug)]
pub struct MemberAccess {
    pub administrator: bool,
    pub roles: Vec<u64>,
}

/// A member may run a handler when they are an administrator, or the handler allows
/// everyone, or they hold one of its allowed roles. A user outside the guild may not.
pub open spec fn may_run(member: Option<MemberAccess>, allowed: Option<Seq<u64>>) -> bool {
    match member {
        None => false,
        Some(m) => m.administrator || match allowed {
            None => true,
            Some(a) => has_any_role(m.roles@, a),
        },
    }
}

/// The title of the error for a user who may not run a handler.
pub const NO_PERMISSIONS_TITLE: &'static str = "Insufficient Permissions";

/// The text of the error for a user who may not run a handler.
pub const NO_PERMISSIONS_TEXT: &'static str = "You are missing the required permissions to run this command!";

/// The error when something unexpected went wrong.
pub const UNEXPECTED_TITLE: &'static str = "Whoopsie!";

/// What the error when something unexpected went wrong says.
pub const UNEXPECTED_TEXT: &'static str = "Unfortunately your command could not be handled due to something unexpected going wrong. Sorry for the inconvenience. Maybe try again in a minute.";

/// The footer of the error when something unexpected went wrong.
pub const UNEXPECTED_FOOTER: &'static str = "If this issue persists, please report this to the developers.";

/// Checks that the member may run a handler that allows the roles `allowed` (`None`:
/// everyone).
pub fn verify_execution(member: &Option<MemberAccess>, allowed: &Option<Vec<u64>>) -> (r: Result<
    (),
    ErrorResponse,
>)
    ensures
        if may_run(
            *member,
            match allowed {
                Some(a) => Some(a@),
                None => None,
            },
        ) {
            r is Ok
        } else {
            r matches Err(e) && text_is(e.title, NO_PERMISSIONS_TITLE@) && e.description@
                == NO_PERMISSIONS_TEXT@ && e.footer is None
        },
{
    let ok = match member {
        None => false,
        Some(m) => m.administrator || match allowed {
            None => true,
            Some(a) => holds_any_role(&m.roles, a),
        },
    };
    if ok {
        Ok(())
    } else {
        Err(ErrorResponse::with_title(NO_PERMISSIONS_TITLE, NO_PERMISSIONS_TEXT))
    }
}

/// The error when something unexpected went wrong.
pub fn unexpected_error() -> (e: ErrorResponse)
    ensures
        e.title matches Some(t) && t@ == UNEXPECTED_TITLE@,
        e.description@ == UNEXPECTED_TEXT@,
        e.footer matches Some(f) && f@ == UNEXPECTED_FOOTER@,
{
    ErrorResponse::with_footer(UNEXPECTED_TITLE, UNEXPECTED_TEXT, UNEXPECTED_FOOTER)
}

/// How a handler finished.
#[derive(Clone, Copy, Debug, PartialEq, Eq, Structural)]
pub enum HandlerOutcome {
    /// It returned an answer to send.
    Answer,
    /// It returned without an answer.
    Done,
    /// It failed with an error answer.
    Refused,
    /// It failed otherwise.
    Failed,
    /// It panicked: the panic is caught and answered as something unexpected, and
    /// nothing is passed on.
    Panicked,
}

/// What is sent after a handler finished.
#[derive(Clone, Copy, Debug, PartialEq, Eq, Structural)]
pub enum Reply {
    /// The handler's answer.
    HandlerAnswer,
    /// The error answer the handler failed with.
    ErrorAnswer,
    /// The error for something unexpected.
    Unexpected,
}

/// How an answer is sent: by editing the first answer, or as a new answer.
#[derive(Clone, Copy, Debug, PartialEq, Eq, Structural)]
pub enum ReplyWay {
    Edit,
    Respond,
}

/// An answer sent after a handler finished, and how it is sent.
#[derive(Clone, Copy, Debug, PartialEq, Eq, Structural)]
pub struct SentReply {
    pub what: Reply,
    pub way: ReplyWay,
}

/// What happens after a handler finished: what is sent and how, and whether the error
/// is passed on to be logged.
#[derive(Clone, Copy, Debug, PartialEq, Eq, Structural)]
pub struct AfterHandler {
    pub reply: Option<SentReply>,
    pub pass_on: bool,
}

/// What happens after a handler finished with `outcome`, when a first answer was
/// (`answered_first`) or was not sent.
pub open spec fn after_handler_spec(outcome: HandlerOutcome, answered_first: bool) -> AfterHandler {
    let way = if answered_first { ReplyWay::Edit } else { ReplyWay::Respond };
    match outcome {
        HandlerOutcome::Answer => AfterHandler { reply: Some(SentReply { what: Reply::HandlerAnswer, way }), pass_on: false },
        HandlerOutcome::Done => AfterHandler { reply: None, pass_on: false },
        HandlerOutcome::Refused => AfterHandler { reply: Some(SentReply { what: Reply::ErrorAnswer, way }), pass_on: false },
        HandlerOutcome::Failed => AfterHandler { reply: Some(SentReply { what: Reply::Unexpected, way }), pass_on: true },
        HandlerOutcome::Panicked => AfterHandler { reply: Some(SentReply { what: Reply::Unexpected, way }), pass_on: false },
    }
}

/// Decides what happens after a handler finished.
pub fn after_handler(outcome: HandlerOutcome, answered_first: bool) -> (r: AfterHandler)
    ensures
        r == after_handler_spec(outcome, answered_first),
{
    let way = if answered_first { ReplyWay::Edit } else { ReplyWay::Respond };
    match outcome {
        HandlerOutcome::Answer => AfterHandler { reply: Some(SentReply { what: Reply::HandlerAnswer, way }), pass_on: false },
        HandlerOutcome::Done => AfterHandler { reply: None, pass_on: false },
        HandlerOutcome::Refused => AfterHandler { reply: Some(SentReply { what: Reply::ErrorAnswer, way }), pass_on: false },
        HandlerOutcome::Failed => AfterHandler { reply: Some(SentReply { what: Reply::Unexpected, way }), pass_on: true },
        HandlerOutcome::Panicked => AfterHandler { reply: Some(SentReply { what: Reply::Unexpected, way }), pass_on: false },
    }
}

/// How a new answer is sent: a component on a message that only the user sees
/// updates that message; an answer that sets no flags is made one that only the user
/// sees.
#[derive(Clone, Copy, Debug, PartialEq, Eq, Structural)]
pub struct RespondWay {
    pub update_message: bool,
    pub make_ephemeral: bool,
}

/// Decides how a new answer is sent.
pub fn respond_way(component_on_ephemeral: bool, answer_has_flags: bool) -> (r: RespondWay)
    ensures
        r == (RespondWay { update_message: component_on_ephemeral, make_ephemeral: !answer_has_flags }),
{
    RespondWay { update_message: component_on_ephemeral, make_ephemeral: !answer_has_flags }
}

/// The value of a command option.
#[derive(Debug)]
pub enum OptionValue {
    /// A string.
    Text(String),
    /// A whole number (any that fits a `u64` or an `i64`).
    Integer(i128),
    /// A boolean.
    Bool(bool),
    /// A number with a fraction, or anything else.
    Other,
}

/// An option of a command: its name and value.
#[derive(Debug)]
pub struct CommandOption {
    pub name: String,
    pub value: Option<OptionValue>,
}

/// The first option named `name`.
pub open spec fn option_named(opts: Seq<CommandOption>, name: Seq<char>) -> Option<int>
    decreases opts.len(),
{
    if opts.len() == 0 {
        None
    } else {
        match option_named(opts.drop_last(), name) {
            Some(i) => Some(i),
            None => if opts.last().name@ == name {
                Some(opts.len() - 1)
            } else {
                None
            },
        }
    }
}

proof fn lemma_option_named_bound(opts: Seq<CommandOption>, name: Seq<char>)
    ensures
        option_named(opts, name) matches Some(i) ==> 0 <= i < opts.len() && opts[i].name@ == name,
    decreases opts.len(),
{
    if opts.len() > 0 {
        lemma_option_named_bound(opts.drop_last(), name);
    }
}

proof fn lemma_option_named_prefix(opts: Seq<CommandOption>, name: Seq<char>, k: int)
    requires
        0 < k <= opts.len(),
        option_named(opts.take(k - 1), name) is None,
        opts[k - 1].name@ == name,
    ensures
        option_named(opts, name) == Some(k - 1),
    decreases opts.len(),
{
    if k < opts.len() {
        assert(opts.drop_last().take(k - 1) =~= opts.take(k - 1));
        lemma_option_named_prefix(opts.drop_last(), name, k);
    } else {
        assert(opts.drop_last() =~= opts.take(k - 1));
    }
}

/// Finds the first option named `name`.
pub fn find_option(opts: &Vec<CommandOption>, name: &str) -> (r: Option<usize>)
    ensures
        match r {
            Some(k) => option_named(opts@, name@) == Some(k as int) && k < opts@.len(),
            None => option_named(opts@, name@) is None,
        },
{
    let mut i: usize = 0;
    while i < opts.len()
        invariant
            i <= opts@.len(),
            option_named(opts@.take(i as int), name@) is None,
        decreases opts@.len() - i,
    {
        assert(opts@.take(i + 1).drop_last() =~= opts@.take(i as int));
        if str_eq(opts[i].name.as_str(), name) {
            proof {
                lemma_option_named_prefix(opts@, name@, i + 1);
            }
            return Some(i);
        }
        i = i + 1;
    }
    assert(opts@.take(opts@.len() as int) =~= opts@);
    None
}

/// The string option `name`: the first option of that name, when it is a string.
pub open spec fn str_option(opts: Seq<CommandOption>, name: Seq<char>) -> Option<Seq<char>> {
    match option_named(opts, name) {
        Some(i) => match opts[i].value {
            Some(OptionValue::Text(s)) => Some(s@),
            _ => None,
        },
        None => None,
    }
}

/// Reads a string option.
pub fn get_str(opts: &Vec<CommandOption>, name: &str) -> (r: Option<String>)
    ensures
        match str_option(opts@, name@) {
            Some(s) => r matches Some(t) && t@ == s,
            None => r is None,
        },
{
    match find_option(opts, name) {
        None => None,
        Some(i) => match &opts[i].value {
            Some(OptionValue::Text(s)) => Some(String::from_str(s.as_str())),
            _ => None,
        },
    }
}

/// The whole-number option `name` when it lies in `lo..=hi`.
pub open spec fn int_option(opts: Seq<CommandOption>, name: Seq<char>, lo: int, hi: int) -> Option<int> {
    match option_named(opts, name) {
        Some(i) => match opts[i].value {
            Some(OptionValue::Integer(n)) => if lo <= n <= hi {
                Some(n as int)
            } else {
                None
            },
            _ => None,
        },
        None => None,
    }
}

/// Reads a signed whole-number option (`None` when it does not fit an `i64`).
pub fn get_i64(opts: &Vec<CommandOption>, name: &str) -> (r: Option<i64>)
    ensures
        match int_option(opts@, name@, i64::MIN as int, i64::MAX as int) {
            Some(n) => r == Some(n as i64),
            None => r is None,
        },
{
    match find_option(opts, name) {
        None => None,
        Some(i) => match &opts[i].value {
            Some(OptionValue::Integer(n)) => if -9223372036854775808i128 <= *n && *n
                <= 9223372036854775807i128 {
                Some(*n as i64)
            } else {
                None
            },
            _ => None,
        },
    }
}

/// Reads an unsigned whole-number option (`None` when it does not fit a `u64`).
pub fn get_u64(opts: &Vec<CommandOption>, name: &str) -> (r: Option<u64>)
    ensures
        match int_option(opts@, name@, 0, u64::MAX as int) {
            Some(n) => r == Some(n as u64),
            None => r is None,
        },
{
    match find_option(opts, name) {
        None => None,
        Some(i) => match &opts[i].value {
            Some(OptionValue::Integer(n)) => if 0i128 <= *n && *n <= 18446744073709551615i128 {
                Some(*n as u64)
            } else {
                None
            },
            _ => None,
        },
    }
}

/// Reads a boolean option.
pub fn get_bool(opts: &Vec<CommandOption>, name: &str) -> (r: Option<bool>)
    ensures
        r == match option_named(opts@, name@) {
            Some(i) => match opts@[i].value {
                Some(OptionValue::Bool(b)) => Some(b),
                _ => None,
            },
            None => None,
        },
{
    match find_option(opts, name) {
        None => None,
        Some(i) => match &opts[i].value {
            Some(OptionValue::Bool(b)) => Some(*b),
            _ => None,
        },
    }
}

/// A voice state: the user and the channel they are connected to, if any.
#[derive(Debug)]
pub struct VoiceState {
    pub user: u64,
    pub channel: Option<u64>,
}

/// The users connected to channel `vc`, in the order of the voice states.
pub open spec fn members_of(states: Seq<VoiceState>, vc: u64) -> Seq<u64>
    decreases states.len(),
{
    if states.len() == 0 {
        seq![]
    } else if states.last().channel == Some(vc) {
        members_of(states.drop_last(), vc).push(states.last().user)
    } else {
        members_of(states.drop_last(), vc)
    }
}

/// The users connected to a voice channel.
pub fn vc_members(states: &Vec<VoiceState>, vc: u64) -> (r: Vec<u64>)
    ensures
        r@ == members_of(states@, vc),
{
    let mut r: Vec<u64> = Vec::new();
    let mut i: usize = 0;
    while i < states.len()
        invariant
            i <= states@.len(),
            r@ == members_of(states@.take(i as int), vc),
        decreases states@.len() - i,
    {
        assert(states@.take(i + 1).drop_last() =~= states@.take(i as int));
        if states[i].channel == Some(vc) {
            r.push(states[i].user);
        }
        i = i + 1;
    }
    assert(states@.take(states@.len() as int) =~= states@);
    r
}

} // verus!
