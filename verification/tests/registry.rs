use bridge_scrims::registry::{
    autocomplete_choices, combine_results, commands_to_remove, member_count_name,
    registration_plan, reload_result_message, removal_message, Reload,
};

fn names(v: &[&str]) -> Vec<String> {
    v.iter().map(|s| s.to_string()).collect()
}

#[test]
fn only_new_handlers_are_registered() {
    let handlers = names(&["ping", "teams", "purge"]);
    assert_eq!(registration_plan(&handlers, &Some(names(&["teams"]))), vec![true, false, true]);
    assert_eq!(registration_plan(&handlers, &None), vec![true, true, true]);
}

#[test]
fn first_failure_is_reported() {
    let results: Vec<Result<(), String>> = vec![Ok(()), Err("a".into()), Err("b".into())];
    assert_eq!(combine_results(&results), Some(1));
    assert_eq!(combine_results(&vec![Ok(()), Ok(())]), None);
}

#[test]
fn reload_removes_and_answers() {
    let cmds = names(&["ping", "teams", "ping"]);
    assert_eq!(commands_to_remove(&cmds, &Some("ping".to_string())), vec![0, 2]);
    assert_eq!(commands_to_remove(&cmds, &None), vec![0, 1, 2]);
    assert_eq!(removal_message(&vec![]), "Removed no commands.");
    assert_eq!(removal_message(&names(&["ping"])), "Removed command `/ping`\nAdding command back now...");
    assert_eq!(removal_message(&names(&["a", "b"])), "Removed all commands.\nAdding commands back now...");
    assert_eq!(reload_result_message(&None), "Successfully reloaded!");
    assert_eq!(reload_result_message(&Some("x".to_string())), "Reloading failed: x");
    assert_eq!(Reload.name(), "reload");
}

#[test]
fn autocomplete_offers_matching_names_once() {
    let handlers = names(&["ping", "purge", "teams"]);
    let registered = names(&["ping", "prefab", "roll"]);
    let mut got = autocomplete_choices(&handlers, &registered, "p");
    got.sort();
    assert_eq!(got, names(&["ping", "prefab", "purge"]));
    let many: Vec<String> = (0..40).map(|i| format!("cmd{}", i)).collect();
    assert_eq!(autocomplete_choices(&many, &vec![], "cmd").len(), 25);
}

#[test]
fn member_count_channel_name() {
    assert_eq!(member_count_name(1234), "Members: 1234");
}
