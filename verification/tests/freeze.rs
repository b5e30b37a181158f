use bridge_scrims::freeze::{
    freeze_message, frozen_message, is_banned_at, plan_freeze, plan_unfreeze, unfrozen_message,
    Freeze, Unfreeze, FREEZE_ASK, FREEZE_GREETING, FREEZE_INSTRUCTIONS,
};
use bridge_scrims::model::ScrimUnban as BanRecord;
use bridge_scrims::roles::RoleInfo;

fn role(id: u64, position: i64, managed: bool) -> RoleInfo {
    RoleInfo { id, position, managed }
}

#[test]
fn freeze_needs_a_higher_role() {
    let staff = vec![role(50, 10, false)];
    let player = vec![role(7, 1, true), role(2, 2, false)];
    let e = plan_freeze(&player, 5, &staff, false, &vec![], 0, 99).unwrap_err();
    assert_eq!(e.title.as_deref(), Some("Insufficient Permissions"));
    assert_eq!(e.description, "You are missing the required permissions to freeze <@5>!");
    let plan = plan_freeze(&staff, 5, &player, false, &vec![], 0, 99).unwrap();
    assert_eq!(plan.roles, vec![7, 99]);
    assert_eq!(plan.removed, vec![2]);
}

#[test]
fn frozen_or_banned_players_are_not_frozen() {
    let staff = vec![role(50, 10, false)];
    let e = plan_freeze(&staff, 5, &vec![], true, &vec![], 0, 99).unwrap_err();
    assert_eq!(e.description, "<@5> is already frozen.");
    let bans = vec![BanRecord { user_id: 5, expires_at: Some(100), roles: vec![] }];
    let e = plan_freeze(&staff, 5, &vec![], false, &bans, 50, 99).unwrap_err();
    assert_eq!(e.description, "<@5> is already banned.");
    assert!(plan_freeze(&staff, 5, &vec![], false, &bans, 100, 99).is_ok());
    assert!(is_banned_at(&bans, 5, 99));
    assert!(!is_banned_at(&bans, 5, 100));
    assert!(!is_banned_at(&bans, 6, 0));
}

#[test]
fn unfreeze_gives_roles_back() {
    let e = plan_unfreeze(5, &None, &None, 1, &vec![]).unwrap_err();
    assert_eq!(e.description, "<@5> is not frozen.");
    let e = plan_unfreeze(5, &Some(vec![2]), &None, 1, &vec![]).unwrap_err();
    assert_eq!(e.description, "<@5> can't be unfrozen since they left the server.");
    // frozen with managed role 7 and the frozen role 99; role 2 was taken, 3 no longer exists
    let current = vec![role(7, 1, true), role(99, 2, false)];
    let roles = plan_unfreeze(5, &Some(vec![2, 3]), &Some(current), 1, &vec![1, 2, 7]).unwrap();
    assert_eq!(roles, vec![7, 2, 1]);
}

#[test]
fn freeze_texts() {
    assert_eq!(Freeze.name(), "freeze");
    assert_eq!(Unfreeze.name(), "unfreeze");
    assert_eq!(frozen_message(5), "Successfully froze <@5>.");
    assert_eq!(unfrozen_message(":ice:", 5), ":ice: <@5>, you are now unfrozen");
    let m = freeze_message(5, 6);
    assert_eq!(m, format!("{}<@5>{}<#6>{}", FREEZE_GREETING, FREEZE_ASK, FREEZE_INSTRUCTIONS));
    assert!(m.starts_with("Hello <@5>, would you like to admit to cheating"));
    assert!(m.contains("join <#6> and follow the instructions below.\n \n**Download AnyDesk from here:** \n"));
    assert!(m.ends_with("trusted screenshare tools."));
}
