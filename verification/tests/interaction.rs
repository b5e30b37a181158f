use bridge_scrims::interaction::{
    after_handler, get_bool, get_i64, get_str, get_u64, initial_answer, respond_way,
    unexpected_error, verify_execution, vc_members, AfterHandler, CommandOption, DeferKind,
    HandlerOutcome, InitialAnswer, InitialInteractionResponse, MemberAccess, OptionValue, Reply,
    ReplyWay, RespondWay, SentReply, VoiceState, NO_PERMISSIONS_TEXT, UNEXPECTED_TEXT,
};

#[test]
fn first_answers() {
    assert_eq!(
        initial_answer(InitialInteractionResponse::DeferEphemeralReply),
        Some(InitialAnswer { kind: DeferKind::ChannelMessage, ephemeral: true })
    );
    assert_eq!(
        initial_answer(InitialInteractionResponse::DeferUpdate),
        Some(InitialAnswer { kind: DeferKind::UpdateMessage, ephemeral: false })
    );
    assert_eq!(initial_answer(InitialInteractionResponse::NoDefer), None);
}

#[test]
fn who_may_run() {
    let admin = Some(MemberAccess { administrator: true, roles: vec![] });
    let staff = Some(MemberAccess { administrator: false, roles: vec![3] });
    let user = Some(MemberAccess { administrator: false, roles: vec![4] });
    assert!(verify_execution(&admin, &Some(vec![3])).is_ok());
    assert!(verify_execution(&staff, &Some(vec![3])).is_ok());
    assert!(verify_execution(&user, &None).is_ok());
    let e = verify_execution(&user, &Some(vec![3])).unwrap_err();
    assert_eq!(e.description, NO_PERMISSIONS_TEXT);
    assert!(verify_execution(&None, &None).is_err());
}

#[test]
fn after_a_handler() {
    assert_eq!(
        after_handler(HandlerOutcome::Failed, true),
        AfterHandler { reply: Some(SentReply { what: Reply::Unexpected, way: ReplyWay::Edit }), pass_on: true }
    );
    assert_eq!(
        after_handler(HandlerOutcome::Refused, false),
        AfterHandler { reply: Some(SentReply { what: Reply::ErrorAnswer, way: ReplyWay::Respond }), pass_on: false }
    );
    assert_eq!(after_handler(HandlerOutcome::Done, true), AfterHandler { reply: None, pass_on: false });
    // a panic is answered as something unexpected and not passed on
    assert_eq!(
        after_handler(HandlerOutcome::Panicked, false),
        AfterHandler { reply: Some(SentReply { what: Reply::Unexpected, way: ReplyWay::Respond }), pass_on: false }
    );
    assert_eq!(unexpected_error().description, UNEXPECTED_TEXT);
    assert_eq!(respond_way(true, false), RespondWay { update_message: true, make_ephemeral: true });
}

#[test]
fn reading_options() {
    let opts = vec![
        CommandOption { name: "user".into(), value: Some(OptionValue::Text("123".into())) },
        CommandOption { name: "amount".into(), value: Some(OptionValue::Integer(-5)) },
        CommandOption { name: "big".into(), value: Some(OptionValue::Integer(18446744073709551615)) },
        CommandOption { name: "flag".into(), value: Some(OptionValue::Bool(true)) },
        CommandOption { name: "user".into(), value: Some(OptionValue::Text("456".into())) },
    ];
    assert_eq!(get_str(&opts, "user"), Some("123".to_string()));
    assert_eq!(get_str(&opts, "amount"), None);
    assert_eq!(get_i64(&opts, "amount"), Some(-5));
    assert_eq!(get_u64(&opts, "amount"), None);
    assert_eq!(get_u64(&opts, "big"), Some(u64::MAX));
    assert_eq!(get_i64(&opts, "big"), None);
    assert_eq!(get_bool(&opts, "flag"), Some(true));
    assert_eq!(get_bool(&opts, "none"), None);
}

#[test]
fn voice_members() {
    let states = vec![
        VoiceState { user: 1, channel: Some(5) },
        VoiceState { user: 2, channel: None },
        VoiceState { user: 3, channel: Some(5) },
        VoiceState { user: 4, channel: Some(6) },
    ];
    assert_eq!(vc_members(&states, 5), vec![1, 3]);
}
