use bridge_scrims::custom_id::{button_id, route_component, split_on};
use bridge_scrims::teams::{
    captains_embed, check_queue_command, find_team, find_team_call, mentions_in, mode_index,
    moved_message, random_captains, random_teams, rank_index, sort_by_position, split_teams, team_field_value,
    teams_embed, teams_press, CallChannel, CaptainsCommand, TeamsCommand, TeamsPress,
    JOIN_A_QUEUE, NO_LONGER_FULL, QUEUE_NOT_FULL, DISABLED_HERE, WRONG_QUEUE,
};

fn call(id: u64, name: &str, parent: u64, position: i64, limit: Option<u32>, members: Vec<u64>) -> CallChannel {
    CallChannel {
        id,
        name: name.to_string(),
        is_voice: true,
        parent_id: Some(parent),
        position,
        user_limit: limit,
        members,
    }
}

#[test]
fn teams_button_id_routes_back() {
    let cmd = TeamsCommand;
    let id = cmd.button_custom_id(&vec!["REROLL".to_string(), "123".to_string()]);
    assert_eq!(id, "teams:REROLL:123");
    let (name, args) = route_component(&id);
    assert_eq!(name, "teams");
    assert_eq!(args, vec!["REROLL".to_string(), "123".to_string()]);
}

#[test]
fn split_keeps_empty_pieces() {
    assert_eq!(split_on("a::b:", ':'), vec!["a", "", "b", ""]);
    assert_eq!(split_on("", ':'), vec![""]);
    assert_eq!(button_id("close", &vec![]), "close");
}

#[test]
fn split_teams_halves() {
    let (a, b) = split_teams(&vec![1, 2, 3, 4, 5]);
    assert_eq!(a, vec![1, 2]);
    assert_eq!(b, vec![3, 4, 5]);
}

#[test]
fn random_teams_keep_every_member() {
    let (a, b) = random_teams(vec![1, 2, 3, 4, 5, 6]);
    assert_eq!(a.len(), 3);
    assert_eq!(b.len(), 3);
    let mut all: Vec<u64> = a.into_iter().chain(b).collect();
    all.sort();
    assert_eq!(all, vec![1, 2, 3, 4, 5, 6]);
}

#[test]
fn team_field_lists_mentions() {
    assert_eq!(team_field_value(&vec![1, 22]), "<@1>\n<@22>");
    assert_eq!(team_field_value(&vec![]), "");
}

#[test]
fn mentions_are_read_in_order() {
    assert_eq!(mentions_in("<@1>\n<@22> and <@333>"), Some(vec![1, 22, 333]));
    assert_eq!(mentions_in("nobody"), Some(vec![]));
    assert_eq!(mentions_in("<@99999999999999999999999>"), None);
}

#[test]
fn find_team_of_user() {
    let fields = vec!["<@1>\n<@2>".to_string(), "<@3>\n<@4>".to_string()];
    assert_eq!(find_team(&fields, 3), Some(vec![3, 4]));
    assert_eq!(find_team(&fields, 9), Some(vec![]));
}

#[test]
fn mode_of_queue_name() {
    assert_eq!(mode_index("ranked 2v2 queue"), Some(1));
    assert_eq!(mode_index("1v1 and 2v2"), Some(0));
    assert_eq!(mode_index("lobby"), None);
}

#[test]
fn rank_of_category() {
    let tiers = vec![vec![10, 11], vec![20], vec![30]];
    assert_eq!(rank_index(Some(20), &tiers), 1);
    assert_eq!(rank_index(Some(99), &tiers), 0);
    assert_eq!(rank_index(None, &tiers), 0);
}

#[test]
fn sort_is_stable_by_position() {
    let chans = vec![
        call(1, "Team 1", 5, 3, None, vec![]),
        call(2, "Team 2", 5, 1, None, vec![]),
        call(3, "Team 3", 5, 3, None, vec![]),
        call(4, "Team 4", 5, 0, None, vec![]),
    ];
    assert_eq!(sort_by_position(&chans, &vec![0, 1, 2, 3]), vec![3, 1, 0, 2]);
}

#[test]
fn team_call_prefers_teammates_then_empty() {
    let tiers = vec![vec![100], vec![200]];
    let cats = vec![100, 200];
    let chans = vec![
        call(1, "Team 2v2 #1", 100, 2, Some(2), vec![7]),
        call(2, "Team 2v2 #2", 100, 1, Some(2), vec![]),
        call(3, "Team 1v1 #1", 100, 0, Some(2), vec![]),
        call(4, "Lobby", 100, 5, None, vec![]),
        call(5, "Team 2v2 #9", 200, 0, Some(2), vec![]),
    ];
    // a teammate (7) is in call 1, which has room
    assert_eq!(find_team_call("2v2 queue", Some(100), &tiers, &cats, &chans, &vec![7, 8]), Some(1));
    // no teammate anywhere: the first empty call by position in the queue's tier
    assert_eq!(find_team_call("2v2 queue", Some(100), &tiers, &cats, &chans, &vec![8]), Some(2));
    // the higher tier lists its own calls first
    assert_eq!(find_team_call("2v2 queue", Some(200), &tiers, &cats, &chans, &vec![8]), Some(5));
    // no game mode in the queue name
    assert_eq!(find_team_call("queue", Some(100), &tiers, &cats, &chans, &vec![8]), None);
}

#[test]
fn queue_command_checks() {
    let tiers = vec![vec![10]];
    let e = check_queue_command(Some(11), &tiers, Some((Some(2), 2))).unwrap_err();
    assert_eq!(e.description, DISABLED_HERE);
    let e = check_queue_command(Some(10), &tiers, None).unwrap_err();
    assert_eq!(e.description, JOIN_A_QUEUE);
    let e = check_queue_command(Some(10), &tiers, Some((Some(4), 3))).unwrap_err();
    assert_eq!(e.description, QUEUE_NOT_FULL);
    assert!(check_queue_command(Some(10), &tiers, Some((Some(4), 4))).is_ok());
    assert!(check_queue_command(Some(10), &tiers, Some((None, 0))).is_ok());
}

#[test]
fn teams_button_presses() {
    assert_eq!(teams_press("REROLL", "5", Some((5, Some(2), 2))).unwrap(), TeamsPress::Reroll);
    assert_eq!(teams_press("JOIN_CALL", "5", Some((5, Some(2), 1))).unwrap(), TeamsPress::JoinCall);
    assert_eq!(teams_press("OTHER", "5", Some((5, None, 0))).unwrap(), TeamsPress::Ignore);
    assert_eq!(teams_press("REROLL", "5", Some((5, Some(2), 1))).unwrap_err().description, NO_LONGER_FULL);
    assert_eq!(teams_press("REROLL", "6", Some((5, Some(2), 2))).unwrap_err().description, WRONG_QUEUE);
    assert_eq!(teams_press("REROLL", "5", None).unwrap_err().description, JOIN_A_QUEUE);
}

#[test]
fn teams_and_captains_embeds() {
    let e = teams_embed("Queue 1", &vec![1], &vec![2, 3]);
    assert_eq!(e.author.as_ref().unwrap().name, "Queue 1");
    assert_eq!(e.fields[0].name, "First Team");
    assert_eq!(e.fields[1].value, "<@2>\n<@3>");
    assert_eq!(e.color, Some(0x5CA3F5));
    let c = captains_embed("Queue 1", &vec![4]);
    assert_eq!(c.fields[0].value, "<@4>");
    assert_eq!(c.fields[1].value, "None");
    assert_eq!(moved_message(9), ":white_check_mark:  Moved you to <#9>");
    assert_eq!(TeamsCommand.name(), "teams");
    assert_eq!(CaptainsCommand.name(), "captains");
}

#[test]
fn random_captains_are_two_members() {
    let e = random_captains("Queue 2", vec![5, 6]);
    let first = e.fields[0].value.clone();
    let second = e.fields[1].value.clone();
    assert_ne!(first, second);
    for v in [&first, &second] {
        assert!(v == "<@5>" || v == "<@6>");
    }
    assert_eq!(e.fields[0].name, "First Captain");
    assert_eq!(e.footer.as_ref().unwrap().text, "Captains should take turns selecting team members until two teams are formed.");
    let lone = random_captains("Queue 2", vec![7]);
    assert_eq!(lone.fields[0].value, "<@7>");
    assert_eq!(lone.fields[1].value, "None");
}
