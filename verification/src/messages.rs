//! What the bot does with a message posted in the guild: the reactions it adds, the
//! role it gives, the thread it opens and the announcement it sends.

use vstd::prelude::*;

use crate::model::CustomReaction;
use crate::reaction::{find_reaction, reaction_for};
use crate::roles::holds;
use crate::text::{
    ascii_lower, chars_contain, chars_eq, chars_of, contains, decimal, lower_chars, push_decimal,
    push_str, remove_char, without_char,
};

verus! {

/// The kinds of message that the bot treats apart.
#[derive(Clone, Copy, Debug, PartialEq, Eq, Structural)]
pub enum MessageKind {
    /// A member joined.
    MemberJoin,
    /// Someone boosted the server (any boost tier).
    Boost,
    /// Anything else.
    Other,
}

/// What the bot reads of a message.
#[derive(Debug)]
pub struct IncomingMessage {
    pub author_bot: bool,
    pub guild: Option<u64>,
    pub channel: u64,
    pub content: String,
    pub kind: MessageKind,
}

/// The channels that get special treatment.
#[derive(Debug)]
pub struct MessageChannels {
    pub guild: u64,
    pub q_and_a_channel: u64,
    pub clips: u64,
    pub upvote_downvote_channels: Vec<u64>,
    pub like_react_channels: Vec<u64>,
}

/// The emojis the bot reacts with.
#[derive(Clone, Copy, Debug, PartialEq, Eq, Structural)]
pub enum Emoji {
    ThumbsUp,
    ThumbsDown,
    Check,
    Cross,
    Wave,
    Tada,
}

impl Emoji {
    /// The emoji's text.
    pub fn text(&self) -> (s: &'static str)
        ensures
            s@ == match *self {
                Emoji::ThumbsUp => "\u{1F44D}"@,
                Emoji::ThumbsDown => "\u{1F44E}"@,
                Emoji::Check => "\u{2705}"@,
                Emoji::Cross => "\u{274C}"@,
                Emoji::Wave => "\u{1F44B}"@,
                Emoji::Tada => "\u{1F389}"@,
            },
    {
        match self {
            Emoji::ThumbsUp => "\u{1F44D}",
            Emoji::ThumbsDown => "\u{1F44E}",
            Emoji::Check => "\u{2705}",
            Emoji::Cross => "\u{274C}",
            Emoji::Wave => "\u{1F44B}",
            Emoji::Tada => "\u{1F389}",
        }
    }
}

/// One thing to do with a message, in the order they are done.
#[derive(Clone, Copy, Debug, PartialEq, Eq, Structural)]
pub enum MessageAction {
    /// React with the guild's shmill emoji.
    ReactShmill,
    /// React with an emoji.
    React(Emoji),
    /// Give the author the Q&A role.
    GiveQandARole,
    /// Open a public thread on the clip.
    OpenClipThread,
    /// Announce the boost in the booster channel.
    AnnounceBoost,
    /// React with the custom reaction at this index.
    CustomReaction(usize),
}

/// The message content in ASCII lower case with its spaces taken out.
pub open spec fn squeezed(content: Seq<char>) -> Seq<char> {
    without_char(ascii_lower(content), ' ')
}

/// Both thumbs.
pub open spec fn thumbs() -> Seq<MessageAction> {
    seq![MessageAction::React(Emoji::ThumbsUp), MessageAction::React(Emoji::ThumbsDown)]
}

/// `s` when `b`, else nothing.
pub open spec fn when(b: bool, s: Seq<MessageAction>) -> Seq<MessageAction> {
    if b {
        s
    } else {
        seq![]
    }
}

/// The reactions that the text of a message calls for: shmill anywhere (spaces and
/// case ignored), and thumbs for a ratio or counter-ratio.
pub open spec fn text_plan(content: Seq<char>) -> Seq<MessageAction> {
    when(contains(squeezed(content), "shmill"@), seq![MessageAction::ReactShmill]) + when(
        ascii_lower(content) == "ratio"@ || squeezed(content) == "counterratio"@,
        thumbs(),
    )
}

/// What the channel of a message calls for: the Q&A, clip, vote and like channels.
pub open spec fn channel_plan(channel: u64, c: MessageChannels) -> Seq<MessageAction> {
    when(
        channel == c.q_and_a_channel,
        seq![MessageAction::React(Emoji::ThumbsUp), MessageAction::GiveQandARole],
    ) + when(channel == c.clips, thumbs().push(MessageAction::OpenClipThread)) + when(
        c.upvote_downvote_channels@.contains(channel),
        seq![MessageAction::React(Emoji::Check), MessageAction::React(Emoji::Cross)],
    ) + when(c.like_react_channels@.contains(channel), seq![MessageAction::React(Emoji::ThumbsUp)])
}

/// What the kind of a message calls for: a wave for a join, a party and an
/// announcement for a boost.
pub open spec fn kind_plan(kind: MessageKind) -> Seq<MessageAction> {
    match kind {
        MessageKind::MemberJoin => seq![MessageAction::React(Emoji::Wave)],
        MessageKind::Boost => seq![MessageAction::React(Emoji::Tada), MessageAction::AnnounceBoost],
        MessageKind::Other => seq![],
    }
}

/// The custom reaction whose trigger the message is.
pub open spec fn custom_plan(rs: Seq<CustomReaction>, content: Seq<char>) -> Seq<MessageAction> {
    match reaction_for(rs, content) {
        Some(i) => seq![MessageAction::CustomReaction(i as usize)],
        None => seq![],
    }
}

/// What the bot does with a message, in order: nothing for bots or other guilds;
/// otherwise what its text, its channel and its kind call for, and last the custom
/// reaction whose trigger the message is.
pub open spec fn message_plan(m: IncomingMessage, c: MessageChannels, rs: Seq<CustomReaction>) -> Seq<
    MessageAction,
> {
    if m.author_bot || m.guild != Some(c.guild) {
        seq![]
    } else {
        text_plan(m.content@) + channel_plan(m.channel, c) + kind_plan(m.kind) + custom_plan(
            rs,
            m.content@,
        )
    }
}

/// A member's message in the guild that reads "ratio" (in any ASCII case), or
/// "counter ratio" however spaced and cased, gets a thumbs up followed right away by
/// a thumbs down, before anything its channel or kind calls for (only a shmill
/// reaction may come first).
pub proof fn lemma_ratio_gets_both_thumbs(m: IncomingMessage, c: MessageChannels, rs: Seq<CustomReaction>)
    requires
        !m.author_bot,
        m.guild == Some(c.guild),
        ascii_lower(m.content@) == "ratio"@ || without_char(ascii_lower(m.content@), ' ') == "counterratio"@,
    ensures
        exists|k: int|
            0 <= k <= 1 && k + 1 < message_plan(m, c, rs).len() && #[trigger] message_plan(m, c, rs)[k] == MessageAction::React(
                Emoji::ThumbsUp,
            ) && message_plan(m, c, rs)[k + 1] == MessageAction::React(Emoji::ThumbsDown),
{
    let plan = message_plan(m, c, rs);
    let shmill = contains(squeezed(m.content@), "shmill"@);
    let k: int = if shmill { 1 } else { 0 };
    assert(plan[k] == MessageAction::React(Emoji::ThumbsUp));
    assert(plan[k + 1] == MessageAction::React(Emoji::ThumbsDown));
}

/// A message from a bot or from another guild calls for nothing.
pub proof fn lemma_foreign_messages_ignored(m: IncomingMessage, c: MessageChannels, rs: Seq<CustomReaction>)
    requires
        m.author_bot || m.guild != Some(c.guild),
    ensures
        message_plan(m, c, rs).len() == 0,
{
}

fn push_when(v: &mut Vec<MessageAction>, b: bool, a: &Vec<MessageAction>)
    ensures
        final(v)@ == old(v)@ + when(b, a@),
{
    if b {
        let ghost start = v@;
        let mut i: usize = 0;
        while i < a.len()
            invariant
                i <= a@.len(),
                v@ == start + a@.take(i as int),
            decreases a@.len() - i,
        {
            v.push(a[i]);
            assert(a@.take(i + 1) =~= a@.take(i as int).push(a@[i as int]));
            i = i + 1;
        }
        assert(a@.take(a@.len() as int) =~= a@);
    } else {
        assert(v@ + when(b, a@) =~= v@);
    }
}

fn text_actions(content: &str) -> (r: Vec<MessageAction>)
    ensures
        r@ == text_plan(content@),
{
    let mut r: Vec<MessageAction> = Vec::new();
    let chars = chars_of(content);
    let lower = lower_chars(chars.as_slice());
    let sq = remove_char(lower.as_slice(), ' ');
    let shmill = chars_of("shmill");
    let ratio = chars_of("ratio");
    let counterratio = chars_of("counterratio");
    push_when(
        &mut r,
        chars_contain(sq.as_slice(), shmill.as_slice()),
        &vec![MessageAction::ReactShmill],
    );
    let votes = chars_eq(lower.as_slice(), ratio.as_slice()) || chars_eq(
        sq.as_slice(),
        counterratio.as_slice(),
    );
    push_when(
        &mut r,
        votes,
        &vec![MessageAction::React(Emoji::ThumbsUp), MessageAction::React(Emoji::ThumbsDown)],
    );
    assert(Seq::<MessageAction>::empty() + when(contains(squeezed(content@), "shmill"@), seq![MessageAction::ReactShmill]) =~= when(contains(squeezed(content@), "shmill"@), seq![MessageAction::ReactShmill]));
    r
}

fn channel_actions(channel: u64, c: &MessageChannels) -> (r: Vec<MessageAction>)
    ensures
        r@ == channel_plan(channel, *c),
{
    let mut r: Vec<MessageAction> = Vec::new();
    push_when(
        &mut r,
        channel == c.q_and_a_channel,
        &vec![MessageAction::React(Emoji::ThumbsUp), MessageAction::GiveQandARole],
    );
    let ghost first = r@;
    push_when(
        &mut r,
        channel == c.clips,
        &vec![
            MessageAction::React(Emoji::ThumbsUp),
            MessageAction::React(Emoji::ThumbsDown),
            MessageAction::OpenClipThread,
        ],
    );
    push_when(
        &mut r,
        holds(&c.upvote_downvote_channels, channel),
        &vec![MessageAction::React(Emoji::Check), MessageAction::React(Emoji::Cross)],
    );
    push_when(&mut r, holds(&c.like_react_channels, channel), &vec![MessageAction::React(Emoji::ThumbsUp)]);
    assert(thumbs().push(MessageAction::OpenClipThread) =~= seq![
        MessageAction::React(Emoji::ThumbsUp),
        MessageAction::React(Emoji::ThumbsDown),
        MessageAction::OpenClipThread,
    ]);
    assert(first =~= when(
        channel == c.q_and_a_channel,
        seq![MessageAction::React(Emoji::ThumbsUp), MessageAction::GiveQandARole],
    ));
    r
}

/// Decides what the bot does with a message, given the custom reactions.
pub fn message_actions(m: &IncomingMessage, c: &MessageChannels, rs: &Vec<CustomReaction>) -> (r: Vec<
    MessageAction,
>)
    ensures
        r@ == message_plan(*m, *c, rs@),
{
    if m.author_bot || m.guild != Some(c.guild) {
        return Vec::new();
    }
    let mut r = text_actions(m.content.as_str());
    let chan = channel_actions(m.channel, c);
    push_when(&mut r, true, &chan);
    let kind_actions: Vec<MessageAction> = match m.kind {
        MessageKind::MemberJoin => vec![MessageAction::React(Emoji::Wave)],
        MessageKind::Boost => vec![MessageAction::React(Emoji::Tada), MessageAction::AnnounceBoost],
        MessageKind::Other => vec![],
    };
    push_when(&mut r, true, &kind_actions);
    let custom: Vec<MessageAction> = match find_reaction(rs, m.content.as_str()) {
        Some(i) => vec![MessageAction::CustomReaction(i)],
        None => vec![],
    };
    push_when(&mut r, true, &custom);
    r
}

/// The name of the thread opened on a clip.
pub fn clip_thread_name(author_name: &str) -> (s: String)
    ensures
        s@ == "Clip by "@ + author_name@ + "!"@,
{
    let mut s = String::from_str("Clip by ");
    push_str(&mut s, author_name);
    push_str(&mut s, "!");
    s
}

/// The title of a boost announcement.
pub fn boost_title(author_tag: &str) -> (s: String)
    ensures
        s@ == author_tag@ + " has boosted the server!"@,
{
    let mut s = String::from_str(author_tag);
    push_str(&mut s, " has boosted the server!");
    s
}

/// The text of a boost announcement.
pub fn boost_description(author: u64) -> (s: String)
    ensures
        s@ == "Thank you for boosting the server <@!"@ + decimal(author as nat) + ">"@,
{
    let mut s = String::from_str("Thank you for boosting the server <@!");
    push_decimal(&mut s, author);
    push_str(&mut s, ">");
    s
}

} // verus!
