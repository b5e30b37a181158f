use bridge_scrims::embed::{empty_embed, EmbedField};
use bridge_scrims::screenshare::{
    active_ticket_message, button_press, close_button_id, closed_message, freeze_button_id,
    one_at_a_time, request_embed, request_message, suspect_message, ticket_change,
    ticket_change_message, ticket_created_at, ticket_created_message, ticket_failed_message,
    ticket_history, ticket_name, ButtonPress, HistoryMessage, Operation, OperationDoesNotExist,
    Screenshare, TicketChange,
};

#[test]
fn operation_from_name() {
    assert_eq!(Operation::try_from("close"), Ok(Operation::Close));
    assert_eq!(Operation::try_from("freeze"), Ok(Operation::Freeze));
    assert_eq!(Operation::try_from("Close"), Err(OperationDoesNotExist));
    assert_eq!(OperationDoesNotExist.message(), "Operation does not exist");
}

#[test]
fn button_presses() {
    assert_eq!(button_press(1, 1, 2, "freeze:1"), ButtonPress::Refused);
    assert_eq!(button_press(2, 1, 2, "close:9"), ButtonPress::Refused);
    assert_eq!(button_press(3, 1, 2, "freeze:1"), ButtonPress::Start(Operation::Freeze));
    assert_eq!(button_press(3, 1, 2, "close"), ButtonPress::Start(Operation::Close));
    assert_eq!(button_press(3, 1, 2, "open:1"), ButtonPress::Unknown(OperationDoesNotExist));
}

#[test]
fn ticket_texts() {
    assert_eq!(Screenshare.name(), "screenshare");
    assert_eq!(ticket_name(None), "screenshare-1");
    assert_eq!(ticket_name(Some(41)), "screenshare-42");
    assert_eq!(freeze_button_id(5), "freeze:5");
    assert_eq!(close_button_id(6), "close:6");
    assert_eq!(active_ticket_message(7), "You already have an active screenshare in <#$7>");
    assert_eq!(ticket_created_message(8), "Ticket created in <#8>");
    assert_eq!(ticket_created_at(8), "Ticket created at <#8>.");
    assert_eq!(ticket_failed_message("boom"), "Could not create your ticket: boom");
    assert_eq!(
        request_message(1, 2, 3),
        "<@&1>\n<@2> Please explain how <@3> is cheating and screenshots of you telling them\nnot to log aswell as any other info.\n"
    );
    assert_eq!(
        suspect_message(1, 2, 3),
        "<@&1> \n<@2> Please explain why you suspect <@3> of cheating and send us the screenshots of you telling them not to log as well as any other info you can provide."
    );
    let e = one_at_a_time(4);
    assert_eq!(e.title.as_deref(), Some("One at a time please"));
    assert_eq!(e.description, "You already have a screenshare request open at <#4>.");
}

#[test]
fn request_embed_fields() {
    let e = request_embed(3, "Notch");
    assert_eq!(e.title.as_deref(), Some("Screenshare Request"));
    assert_eq!(e.fields[0].value, "```Notch```");
    assert!(e.description.unwrap().starts_with("If <@3> is not frozen by us within the next 15 minutes, this will"));
}

#[test]
fn closed_ticket_log() {
    let mut embed = empty_embed();
    embed.title = Some(String::from("T"));
    embed.fields = vec![EmbedField { name: "n".into(), value: "v".into(), inline: false }];
    let newest = HistoryMessage {
        timestamp: "t2".into(),
        author_tag: "b#2".into(),
        content: "bye".into(),
        embeds: vec![embed],
    };
    let oldest = HistoryMessage {
        timestamp: "t1".into(),
        author_tag: "a#1".into(),
        content: "hi".into(),
        embeds: vec![],
    };
    let log = ticket_history(&vec![newest, oldest]);
    assert_eq!(
        log,
        "[t1] a#1: hi\nEmbed:\nAuthor: no author\n# T\n\n\n- n\nv\n\n\n[t2] b#2: bye"
    );
    assert_eq!(
        closed_message(1, 2, 3),
        "- Creator: <@1> \n- In Question: <@2> \n- Closer: <@3> "
    );
}

#[test]
fn ticket_member_changes() {
    assert_eq!(ticket_change("a"), Some(TicketChange::Add));
    assert_eq!(ticket_change("r"), Some(TicketChange::Remove));
    assert_eq!(ticket_change("x"), None);
    assert_eq!(ticket_change_message(TicketChange::Add, 5), "<@5> has been added to the ticket.");
    assert_eq!(ticket_change_message(TicketChange::Remove, 5), "<@5> has been removed from the ticket.");
}
