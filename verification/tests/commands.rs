use bridge_scrims::commands::{
    check_queue, holds_any_role, Notes, NotesAction, Purge, PurgeOption, QueueChannel,
    QueueRefusal, Roll, Suggestion, Teams, Timeout,
};

#[test]
fn purge_options() {
    assert_eq!(PurgeOption::All.name(), "all");
    assert_eq!(PurgeOption::FromUser.name(), "from_user");
    assert_eq!(PurgeOption::All.description(), "Purges a certain number of messages in a certain channel");
    assert_eq!(PurgeOption::FromUser.description(), "Purges messages from a certain user in a channel");
    let p = Purge::new();
    assert_eq!(p.name(), "purge");
    assert_eq!(p.option("all"), Some(PurgeOption::All));
    assert_eq!(p.option("from_user"), Some(PurgeOption::FromUser));
    assert_eq!(p.option("nope"), None);
    assert_eq!(Purge::max_purge(None), 50);
    assert_eq!(Purge::max_purge(Some(3)), 3);
}

#[test]
fn purge_selects_messages() {
    let authors = vec![1, 2, 1, 3, 1];
    assert!(PurgeOption::All.check(&None, 9));
    assert!(PurgeOption::FromUser.check(&Some("1".to_string()), 1));
    assert!(!PurgeOption::FromUser.check(&Some("1".to_string()), 2));
    assert_eq!(Purge::messages_to_delete(PurgeOption::All, &None, &authors, 3), vec![0, 1, 2]);
    assert_eq!(
        Purge::messages_to_delete(PurgeOption::FromUser, &Some("1".to_string()), &authors, 50),
        vec![0, 2, 4]
    );
    assert!(Purge::messages_to_delete(PurgeOption::All, &None, &authors, 0).is_empty());
    assert!(Purge::messages_to_delete(PurgeOption::All, &None, &authors, -1).is_empty());
}

#[test]
fn notes_subcommands() {
    let n = Notes;
    assert_eq!(n.name(), "notes");
    let staff = vec![3, 4];
    assert_eq!(n.action("list", &vec![4], &staff), Some(NotesAction::List));
    assert_eq!(n.action("add", &vec![4], &staff), Some(NotesAction::Add));
    assert_eq!(n.action("delete", &vec![3], &staff), Some(NotesAction::Delete));
    assert_eq!(n.action("edit", &vec![3], &staff), Some(NotesAction::Unknown));
    assert_eq!(n.action("list", &vec![5], &staff), None);
    assert_eq!(Notes::unknown_subcommand_text("edit"), "You selected a sub command that doesn't exsist: edit");
    assert!(holds_any_role(&vec![1, 2], &vec![2]));
    assert!(!holds_any_role(&vec![1, 2], &vec![]));
}

#[test]
fn queue_checks_for_roll_and_teams() {
    let cats = vec![10];
    let full = Some(QueueChannel { category: Some(10), user_limit: None, members: 4 });
    assert_eq!(check_queue(Some(10), &cats, &full), Ok(()));
    assert_eq!(check_queue(Some(11), &cats, &full), Err(QueueRefusal::DisabledHere));
    assert_eq!(check_queue(None, &cats, &full), Err(QueueRefusal::DisabledHere));
    assert_eq!(check_queue(Some(10), &cats, &None), Err(QueueRefusal::NotInQueue));
    let elsewhere = Some(QueueChannel { category: Some(11), user_limit: None, members: 4 });
    assert_eq!(check_queue(Some(10), &cats, &elsewhere), Err(QueueRefusal::NotInQueue));
    let short = Some(QueueChannel { category: Some(10), user_limit: None, members: 3 });
    assert_eq!(check_queue(Some(10), &cats, &short), Err(QueueRefusal::NotFull));
    let two = Some(QueueChannel { category: Some(10), user_limit: Some(2), members: 2 });
    assert_eq!(check_queue(Some(10), &cats, &two), Ok(()));
    assert_eq!(QueueRefusal::NotFull.text(), "This queue is not full yet.");
}

#[test]
fn captains_and_teams() {
    assert_eq!(Roll.name(), "roll");
    let names = vec!["a".to_string(), "b".to_string(), "c".to_string()];
    let (x, y) = Roll::pick_captains(names.clone());
    assert_ne!(x, y);
    assert!(names.contains(&x) && names.contains(&y));
    assert_eq!(Teams.name(), "teams");
    let (t1, t2) = Teams::alternate(&vec!["a".into(), "b".into(), "c".into()]);
    assert_eq!(t1, "\nc\na");
    assert_eq!(t2, "\nb");
    let (r1, r2) = Teams::random_teams(vec!["a".into(), "b".into(), "c".into(), "d".into()]);
    assert_eq!(r1.matches('\n').count(), 2);
    assert_eq!(r2.matches('\n').count(), 2);
    assert_eq!(Suggestion.name(), "suggestion");
}

#[test]
fn timeout_lengths_and_texts() {
    assert_eq!(Timeout::seconds(None, None), 3 * 3600);
    assert_eq!(Timeout::seconds(Some(5), Some(60)), 300);
    // a huge duration wraps around to a negative number, as `as i64` does
    assert_eq!(Timeout::seconds(Some(u64::MAX - 4), Some(60)), -300);
    let t = Timeout {};
    assert_eq!(t.name(), "timeout");
    assert_eq!(Timeout::refused_text("a#1"), "You do not have permission to timeout a#1");
    assert_eq!(Timeout::done_text("a#1", 99), "The user a#1 has been timed out until <t:99>.");
    assert_eq!(Timeout::failed_text("a#1", "no"), "Could not timeout a#1: no");
}

#[test]
fn suggestion_embeds() {
    let d = Suggestion::delivered_embed();
    assert_eq!(d.title.as_deref(), Some("Suggestions"));
    assert_eq!(d.description.as_deref(), Some("Your suggestion has been delivered successfully"));
    assert_eq!(d.color, Some(0x74a8ee));
    let p = Suggestion::posted_embed("someone#0001", "https://cdn/face.png", "More maps");
    let a = p.author.as_ref().unwrap();
    assert_eq!(a.name, "someone#0001");
    assert_eq!(a.icon_url.as_deref(), Some("https://cdn/face.png"));
    assert_eq!(p.fields.len(), 1);
    assert_eq!(p.fields[0].name, "More maps");
    assert_eq!(p.fields[0].value, "_ _");
    assert!(!p.fields[0].inline);
    assert_eq!(p.footer.as_ref().unwrap().text, "Bridge Scrims");
}
