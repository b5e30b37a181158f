use bridge_scrims::bans::{
    already_unbanned_embed, ban_dm_embed, ban_embed, ban_list_kind, ban_list_messages,
    ban_list_title, ban_record, ban_refused, ban_seconds, bans_to_lift, check_banned, find_ban,
    leaderboard_fields, not_banned, unban_dm_embed, unban_embed, unban_plan, unban_target,
    unban_time, unfreeze_failed, unfreezing_notice, BanCheck, BanListKind, ListBans, ScrimBan,
    ScrimUnban, Screensharers, UnbanPlan, DEFAULT_BAN_SECONDS, INVALID_DURATION_TEXT,
};
use bridge_scrims::model::ScrimUnban as BanRecord;
use bridge_scrims::roles::RoleInfo;

const S: i128 = 1_000_000_000;

fn role(id: u64, position: i64, managed: bool) -> RoleInfo {
    RoleInfo { id, position, managed }
}

#[test]
fn ban_length() {
    assert_eq!(ban_seconds(&None).unwrap(), DEFAULT_BAN_SECONDS);
    assert_eq!(ban_seconds(&Some("1h 30m".to_string())).unwrap(), 5400);
    let e = ban_seconds(&Some("forever".to_string())).unwrap_err();
    assert_eq!(e.title.as_deref(), Some("Invalid Duration"));
    assert_eq!(e.description, INVALID_DURATION_TEXT);
    assert_eq!(unban_time(10 * S, 5), 15 * S);
}

#[test]
fn ban_announcements() {
    let e = ban_embed("bob#1", "http://a", 5, 6, None, 100 * S, "cheating");
    assert_eq!(e.author.as_ref().unwrap().name, "bob#1 Scrim Banned");
    assert_eq!(e.color, Some(0xFD4659));
    assert_eq!(e.fields[0].value, "<@5>");
    assert_eq!(e.fields[1].name, "Expires");
    assert_eq!(e.fields[1].value, "<t:100:R>");
    assert_eq!(e.fields[2].value, "<@6>");
    assert_eq!(e.fields[3].value, "```cheating```");
    let u = ban_embed("bob#1", "http://a", 5, 6, Some(Some(50 * S)), 100 * S, "again");
    assert_eq!(u.author.as_ref().unwrap().name, "bob#1 Scrim Ban Updated");
    assert_eq!(u.fields[1].value, "<t:50:R> **\u{2794}** <t:100:R>");
    assert_eq!(u.color, Some(0x0E87CC));
    let x = ban_embed("bob#1", "http://a", 5, 6, Some(None), -1, "again");
    assert_eq!(x.fields[1].value, "*Expired* **\u{2794}** <t:-1:R>");
    let dm = ban_dm_embed(77, 6, None, 100 * S, "r", "Bridge Scrims", None);
    assert_eq!(dm.title.as_deref(), Some("You were banned from queuing Scrims"));
    assert_eq!(dm.fields[0].value, "<#77>");
    assert_eq!(dm.footer.as_ref().unwrap().text, "Bridge Scrims");
}

#[test]
fn ban_records() {
    let fresh = ban_record(None, 5, 9, &vec![1, 2]);
    assert_eq!(fresh.roles, vec![1, 2]);
    assert_eq!(fresh.expires_at, Some(9));
    let old = BanRecord { user_id: 5, expires_at: Some(3), roles: vec![2, 3] };
    let mut merged = ban_record(Some(&old), 5, 9, &vec![1, 2]).roles;
    merged.sort();
    assert_eq!(merged, vec![1, 2, 3]);
}

#[test]
fn ban_messages() {
    let e = ban_refused(5);
    assert_eq!(e.title.as_deref(), Some("Insufficient Permissions"));
    assert_eq!(e.description, "You do not have permission to ban <@5>!");
    assert_eq!(unfreeze_failed(5).description, "Unable to unfreeze <@5>!");
    assert_eq!(unfreezing_notice(5), "Unfreezing <@5> before banning them...");
    assert_eq!(not_banned("123").description, "123 is not banned.");
    assert_eq!(unban_target("123"), 123);
    assert_eq!(unban_target("abc"), 0);
    assert_eq!(ScrimBan.name(), "scrimban");
    assert_eq!(ScrimUnban.name(), "scrimunban");
    assert_eq!(ListBans.name(), "list_bans");
    assert_eq!(Screensharers.name(), "screensharers");
}

#[test]
fn unban_announcements() {
    let e = unban_embed("bob#1", "http://a", 5, Some(6), "done");
    assert_eq!(e.author.as_ref().unwrap().name, "bob#1 Unbanned");
    assert_eq!(e.fields.len(), 3);
    assert_eq!(e.fields[1].value, "<@6>");
    let expired = unban_embed("bob#1", "http://a", 5, None, "Ban Expired");
    assert_eq!(expired.fields.len(), 2);
    let dm = unban_dm_embed(None, "r", "G", Some("icon".to_string()));
    assert_eq!(dm.title.as_deref(), Some("You were Unbanned"));
    assert_eq!(dm.footer.as_ref().unwrap().icon_url.as_deref(), Some("icon"));
    assert_eq!(already_unbanned_embed("bob#1").description.as_deref(), Some("**bob#1** was already unbanned."));
}

#[test]
fn lifting_a_ban() {
    let ban = BanRecord { user_id: 5, expires_at: Some(10), roles: vec![2, 3] };
    match unban_plan(&ban, &Some(vec![9, 4]), 1, 9, &vec![1, 2, 4]) {
        UnbanPlan::Restore { mut roles, announce } => {
            roles.sort();
            assert_eq!(roles, vec![1, 2, 4]);
            assert!(announce);
        }
        _ => panic!("the member is in the guild"),
    }
    assert!(matches!(unban_plan(&ban, &None, 1, 9, &vec![]), UnbanPlan::AnnounceAndMark));
    let logged = BanRecord { user_id: 5, expires_at: None, roles: vec![] };
    assert!(matches!(unban_plan(&logged, &None, 1, 9, &vec![]), UnbanPlan::AlreadyUnbanned));
}

#[test]
fn ban_and_lift_gives_roles_back() {
    // a member with a managed role 7 and roles 2, 3 is banned (ban role 9)
    let rs = vec![role(7, 1, true), role(2, 2, false), role(3, 3, false)];
    let now = 0;
    let bans = vec![BanRecord { user_id: 5, expires_at: Some(100), roles: vec![] }];
    let (roles, store) = match check_banned(&bans, 5, &rs, 9, now) {
        BanCheck::Enforce { roles, store } => (roles, store),
        _ => panic!("the ban must be enforced"),
    };
    assert_eq!(roles, vec![7, 9]);
    let taken = store.unwrap();
    let ban = BanRecord { user_id: 5, expires_at: Some(100), roles: taken };
    match unban_plan(&ban, &Some(roles), 1, 9, &vec![1, 2, 3, 7, 9]) {
        UnbanPlan::Restore { mut roles, .. } => {
            roles.sort();
            assert_eq!(roles, vec![1, 2, 3, 7]);
        }
        _ => panic!("the member is in the guild"),
    }
}

#[test]
fn member_checks_against_bans() {
    let bans = vec![
        BanRecord { user_id: 5, expires_at: Some(100), roles: vec![2] },
        BanRecord { user_id: 6, expires_at: Some(10), roles: vec![] },
    ];
    assert_eq!(find_ban(&bans, 6), Some(1));
    assert_eq!(find_ban(&bans, 7), None);
    assert!(matches!(check_banned(&bans, 7, &vec![], 9, 50), BanCheck::Nothing));
    assert!(matches!(check_banned(&bans, 6, &vec![], 9, 50), BanCheck::Lift(1)));
    // already restricted: only the ban role
    assert!(matches!(check_banned(&bans, 5, &vec![role(9, 1, false)], 9, 50), BanCheck::Nothing));
    // holds role 2 again, which the ban already took: no new roles to store
    match check_banned(&bans, 5, &vec![role(2, 1, false)], 9, 50) {
        BanCheck::Enforce { roles, store } => {
            assert_eq!(roles, vec![9]);
            assert_eq!(store, None);
        }
        _ => panic!("the ban must be enforced"),
    }
    assert_eq!(bans_to_lift(&bans, 50), vec![1]);
    assert_eq!(bans_to_lift(&bans, 100), vec![0, 1]);
}

#[test]
fn ban_lists() {
    assert_eq!(ban_list_kind("sv"), Some(BanListKind::Server));
    assert_eq!(ban_list_kind("sc"), Some(BanListKind::Scrim));
    assert_eq!(ban_list_kind("x"), None);
    assert_eq!(ban_list_title(BanListKind::Server), "Server Bans");
    let (first, rest) = ban_list_messages(&vec![(1, 5), (2, -3)]);
    assert_eq!(first, "- <@!1>: banned until <t:5:R>\n- <@!2>: banned until <t:-3:R>\n");
    assert!(rest.is_empty());
    let many: Vec<(u64, i64)> = (0..100).map(|i| (1000000000000000000 + i, 1700000000)).collect();
    let (first, rest) = ban_list_messages(&many);
    assert!(!rest.is_empty());
    let all: String = rest.iter().cloned().chain(std::iter::once(first.clone())).collect();
    assert_eq!(all.lines().count(), 100);
    for chunk in &rest {
        assert!(chunk.len() > 1950);
    }
    let (empty, none) = ban_list_messages(&vec![]);
    assert_eq!(empty, "");
    assert!(none.is_empty());
}

#[test]
fn unfreeze_leaderboard() {
    let fields = leaderboard_fields(&vec![(Some("a#1".to_string()), 3), (None, 2), (Some("b#2".to_string()), 1)]);
    assert_eq!(fields.len(), 2);
    assert_eq!(fields[0].name, "a#1");
    assert_eq!(fields[0].value, "3 freezes");
    assert_eq!(fields[1].value, "1 freezes");
}

#[test]
fn bans_expire_by_the_clock() {
    let ended = BanRecord { user_id: 1, expires_at: Some(0), roles: vec![] };
    let logged = BanRecord { user_id: 2, expires_at: None, roles: vec![] };
    let running = BanRecord { user_id: 3, expires_at: Some(bridge_scrims::bans::LATEST_TIME), roles: vec![] };
    assert!(ended.is_expired());
    assert!(logged.is_expired());
    assert!(logged.was_logged());
    assert!(!running.is_expired());
    assert!(!running.was_logged());
}

#[test]
fn notes_are_numbered_after_the_existing_ones() {
    assert_eq!(bridge_scrims::model::Note::next_id(0), 1);
    assert_eq!(bridge_scrims::model::Note::next_id(4), 5);
}
