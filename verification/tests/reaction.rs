use bridge_scrims::messages::{
    boost_description, boost_title, clip_thread_name, message_actions, Emoji, IncomingMessage,
    MessageAction, MessageChannels, MessageKind,
};
use bridge_scrims::model::CustomReaction;
use bridge_scrims::reaction::{
    add_step, booster_plan, emoji_removed_message, find_reaction, is_emoji_rejected,
    is_trigger_forbidden, reaction_added_text, reaction_added_title, reaction_deleted_by,
    reaction_deleted_text, reaction_pages, reaction_removed_title, AddAction, AddEvent,
    DelReaction, ErrorKind, ListReactions, Reaction, ReactionError, ALREADY_HAS_REACTION,
    DATABASE_FAILED, PAGES_DESCRIPTION, TRIGGER_TAKEN,
};

fn reaction(user: u64, trigger: &str, emoji: &str) -> CustomReaction {
    CustomReaction { user_id: user, trigger: trigger.to_string(), emoji: emoji.to_string() }
}

#[test]
fn error_kinds_and_texts() {
    assert_eq!(ErrorKind::InvalidEmoji.code(), -1);
    assert_eq!(ErrorKind::AlreadyExists.code(), -2);
    assert_eq!(ErrorKind::Database.code(), -3);
    assert_eq!(ErrorKind::InvalidTrigger.code(), -4);
    assert_eq!(ReactionError::new(ErrorKind::InvalidEmoji).message(), "invalid emoji\n");
    assert_eq!(ReactionError::new(ErrorKind::AlreadyExists).message(), "reaction already exists\n");
    assert_eq!(ReactionError::new(ErrorKind::Database).message(), "database error\n");
    assert_eq!(ReactionError::new(ErrorKind::InvalidTrigger).message(), "invalid trigger\n");
    assert_eq!(ReactionError::new(ErrorKind::Database).kind(), ErrorKind::Database);
    assert_eq!(Reaction.name(), "reaction");
    assert_eq!(DelReaction.name(), "delete_reaction");
    assert_eq!(ListReactions.name(), "list_reactions");
}

#[test]
fn forbidden_triggers() {
    assert!(is_trigger_forbidden("RaTiO please"));
    assert!(is_trigger_forbidden("big SHMILL"));
    assert!(is_trigger_forbidden("/command"));
    assert!(is_trigger_forbidden("<@123>"));
    assert!(!is_trigger_forbidden("hello"));
    assert!(!is_trigger_forbidden("a/b"));
}

fn refusal(a: AddAction) -> (ErrorKind, String) {
    match a {
        AddAction::Refuse(e, t) => (e.kind(), t),
        _ => panic!("expected a refusal"),
    }
}

#[test]
fn adding_a_reaction_step_by_step() {
    assert!(matches!(add_step("hi", "x", AddEvent::Requested), AddAction::CountTriggerUses));
    assert_eq!(
        refusal(add_step("ratio", "x", AddEvent::Requested)),
        (ErrorKind::InvalidTrigger, "You are not allowed to use `ratio` as a trigger".to_string())
    );
    assert_eq!(
        refusal(add_step("hi", "x", AddEvent::TriggerUses(1))),
        (ErrorKind::InvalidTrigger, TRIGGER_TAKEN.to_string())
    );
    assert!(matches!(add_step("hi", "x", AddEvent::TriggerUses(0)), AddAction::TryEmoji));
    assert_eq!(
        refusal(add_step("hi", "x", AddEvent::EmojiTried(false))),
        (ErrorKind::InvalidEmoji, "x is not a valid default emoji".to_string())
    );
    assert!(matches!(add_step("hi", "x", AddEvent::EmojiTried(true)), AddAction::CountOwnReactions));
    assert_eq!(
        refusal(add_step("hi", "x", AddEvent::OwnReactions(2))),
        (ErrorKind::AlreadyExists, ALREADY_HAS_REACTION.to_string())
    );
    assert!(matches!(add_step("hi", "x", AddEvent::OwnReactions(0)), AddAction::Store));
    assert_eq!(
        refusal(add_step("hi", "x", AddEvent::Stored(false))),
        (ErrorKind::Database, DATABASE_FAILED.to_string())
    );
    match add_step("hi", "x", AddEvent::Stored(true)) {
        AddAction::Added(t) => assert_eq!(t, "The x reaction has been added."),
        _ => panic!("expected the reaction to be added"),
    }
}

#[test]
fn pages_of_reactions() {
    let rs: Vec<CustomReaction> = (0..23).map(|i| reaction(i, &format!("t{}", i), "e")).collect();
    let pages = reaction_pages(&rs);
    assert_eq!(pages.len(), 3);
    assert_eq!(pages[0].title, "Page 1 of 3");
    assert_eq!(pages[0].description.as_deref(), Some(PAGES_DESCRIPTION));
    assert_eq!(pages[1].title, "Page 2 of 3");
    assert!(pages[1].description.is_none());
    assert_eq!(pages[2].fields.len(), 3);
    assert_eq!(pages[2].fields[0].name, "Reaction `t20`:");
    assert_eq!(pages[2].fields[0].value, "`t20` reacts with e, created by <@!20>");
    // the first page counts (n - 1) / 10 + 1 pages, the later ones n / 10 + 1
    let twenty: Vec<CustomReaction> = (0..20).map(|i| reaction(i, "t", "e")).collect();
    let pages = reaction_pages(&twenty);
    assert_eq!(pages.len(), 2);
    assert_eq!(pages[0].title, "Page 1 of 2");
    assert_eq!(pages[1].title, "Page 2 of 3");
    assert!(reaction_pages(&vec![]).is_empty());
}

#[test]
fn last_trigger_wins() {
    let rs = vec![reaction(1, "GG", "a"), reaction(2, "other", "b"), reaction(3, "gg", "c")];
    assert_eq!(find_reaction(&rs, "Gg"), Some(2));
    assert_eq!(find_reaction(&rs, "OTHER"), Some(1));
    assert_eq!(find_reaction(&rs, "none"), None);
}

#[test]
fn rejected_emoji_errors() {
    assert!(is_emoji_rejected("Unknown Emoji"));
    assert!(is_emoji_rejected("HTTP error: Invalid Form Body"));
    assert!(!is_emoji_rejected("Missing Access"));
    assert_eq!(
        emoji_removed_message(5),
        "Hey <@5>, it looks like the custom reaction which you added has an invalid emoji. It's been removed from the database, make sure that anything which you add is a default emoji."
    );
}

#[test]
fn reaction_log_texts() {
    assert_eq!(reaction_removed_title("a#1"), "a#1's reaction has been removed");
    assert_eq!(reaction_deleted_text(5), "<@5>'s reaction has been removed.");
    assert_eq!(reaction_deleted_by("s#2"), "Removed using the /delete_reaction command by s#2");
    assert_eq!(reaction_added_title("a#1"), "New reaction added by a#1.");
    assert_eq!(reaction_added_text("gg", "x"), "`gg` reacts with `x`");
}

#[test]
fn boosters_keep_their_perks() {
    assert!(booster_plan(true, false, 1, &vec![1], &vec![1]).is_none());
    assert!(booster_plan(false, true, 1, &vec![1], &vec![1]).is_none());
    let p = booster_plan(false, false, 1, &vec![1, 2, 3], &vec![2]).unwrap();
    assert!(p.remove_reaction);
    assert_eq!(p.roles, Some(vec![1, 3]));
    let q = booster_plan(false, false, 0, &vec![1, 3], &vec![2]).unwrap();
    assert!(!q.remove_reaction);
    assert_eq!(q.roles, None);
}

fn channels() -> MessageChannels {
    MessageChannels {
        guild: 1,
        q_and_a_channel: 10,
        clips: 11,
        upvote_downvote_channels: vec![12],
        like_react_channels: vec![13, 11],
    }
}

fn msg(content: &str, channel: u64, kind: MessageKind) -> IncomingMessage {
    IncomingMessage { author_bot: false, guild: Some(1), channel, content: content.to_string(), kind }
}

#[test]
fn message_plans() {
    let rs = vec![reaction(9, "hello there", "x")];
    assert_eq!(
        message_actions(&msg("Sh Mill is here", 5, MessageKind::Other), &channels(), &rs),
        vec![MessageAction::ReactShmill]
    );
    assert_eq!(
        message_actions(&msg("Counter Ratio", 5, MessageKind::Other), &channels(), &rs),
        vec![MessageAction::React(Emoji::ThumbsUp), MessageAction::React(Emoji::ThumbsDown)]
    );
    assert_eq!(
        message_actions(&msg("clip", 11, MessageKind::Other), &channels(), &rs),
        vec![
            MessageAction::React(Emoji::ThumbsUp),
            MessageAction::React(Emoji::ThumbsDown),
            MessageAction::OpenClipThread,
            MessageAction::React(Emoji::ThumbsUp),
        ]
    );
    assert_eq!(
        message_actions(&msg("question", 10, MessageKind::Other), &channels(), &rs),
        vec![MessageAction::React(Emoji::ThumbsUp), MessageAction::GiveQandARole]
    );
    assert_eq!(
        message_actions(&msg("vote", 12, MessageKind::Boost), &channels(), &rs),
        vec![
            MessageAction::React(Emoji::Check),
            MessageAction::React(Emoji::Cross),
            MessageAction::React(Emoji::Tada),
            MessageAction::AnnounceBoost,
        ]
    );
    assert_eq!(
        message_actions(&msg("Hello There", 5, MessageKind::MemberJoin), &channels(), &rs),
        vec![MessageAction::React(Emoji::Wave), MessageAction::CustomReaction(0)]
    );
    let mut bot = msg("ratio", 5, MessageKind::Other);
    bot.author_bot = true;
    assert!(message_actions(&bot, &channels(), &rs).is_empty());
    let mut elsewhere = msg("ratio", 5, MessageKind::Other);
    elsewhere.guild = Some(2);
    assert!(message_actions(&elsewhere, &channels(), &rs).is_empty());
}

#[test]
fn message_texts() {
    assert_eq!(Emoji::ThumbsUp.text(), "\u{1F44D}");
    assert_eq!(clip_thread_name("bob"), "Clip by bob!");
    assert_eq!(boost_title("bob#1"), "bob#1 has boosted the server!");
    assert_eq!(boost_description(7), "Thank you for boosting the server <@!7>");
}
