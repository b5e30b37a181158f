use bridge_scrims::ping::{ping_allowed_in, LogTime, Ping, PingConfig, SECOND};

#[test]
fn ping_channels() {
    let pings = vec![
        PingConfig { name: "ping".to_string(), allowed_channels: Some(vec![5, 6]) },
        PingConfig { name: "open".to_string(), allowed_channels: None },
    ];
    assert!(ping_allowed_in(&pings, "ping", 5, None));
    assert!(ping_allowed_in(&pings, "ping", 9, Some(6)));
    assert!(!ping_allowed_in(&pings, "ping", 9, Some(8)));
    assert!(ping_allowed_in(&pings, "open", 9, None));
    assert!(ping_allowed_in(&pings, "unknown", 9, None));
}

#[test]
fn ping_cooldowns() {
    let mut p = Ping::new();
    assert_eq!(p.name(), "ping");
    let now: u128 = 1000 * SECOND;
    let (g, u) = p.begin(7, 42, now).unwrap();
    assert_eq!(g.expire(), now + 20 * SECOND);
    assert_eq!(u.expire(), now + 35 * SECOND);
    // another user is held back by the global cooldown of the role
    assert_eq!(p.begin(8, 42, now + 5 * SECOND).unwrap_err(), 15 * SECOND);
    // another role is free
    assert!(p.begin(8, 43, now).is_ok());
    assert_eq!(Ping::message(7, 42, &Some("go".to_string())), "<@!7>: <@&42> go");
    assert_eq!(Ping::message(7, 42, &None), "<@!7>: <@&42> ");
}

#[test]
fn logtime_cooldowns() {
    let mut l = LogTime::new();
    assert_eq!(l.name(), "logtime");
    let now: u128 = 50 * SECOND;
    assert!(l.begin(1, now).is_ok());
    assert_eq!(l.begin(2, now + SECOND).unwrap_err(), 4 * SECOND);
    assert_eq!(l.cooldowns.items.len(), 2);
}

#[test]
fn logtime_embeds() {
    let e = LogTime::times_embed("Notch", Some(12), None);
    assert_eq!(e.title.as_deref(), Some("Log Time information for Notch"));
    assert_eq!(e.fields[0].value, "12");
    assert_eq!(e.fields[1].value, "0");
    assert_eq!(LogTime::not_found_embed("x").description.as_deref(), Some("The player `x` could not be found"));
    assert_eq!(LogTime::api_error_embed().title.as_deref(), Some("API Error!"));
}

#[test]
fn ping_holds_back_everyone_for_twenty_seconds() {
    let mut p = Ping::new();
    let now: u128 = 1000 * SECOND;
    // an older cooldown of user 9 on the role, with 60 seconds left
    p.cooldowns.add_user_cooldown_key("42".to_string(), 60 * SECOND, 9, now);
    let (g, _u) = p.begin(7, 42, now).unwrap();
    for v in [1u64, 7, 8] {
        assert_eq!(p.cooldowns.check_cooldown_key(v, "42".to_string(), now), Some(20 * SECOND));
    }
    // the one already held back keeps their time
    assert_eq!(p.cooldowns.check_cooldown_key(9, "42".to_string(), now), Some(60 * SECOND));
    // once the shared cooldown is gone, the caller still waits out their own
    p.cooldowns.remove_cooldown(&g);
    assert_eq!(p.cooldowns.check_cooldown_key(7, "42".to_string(), now + 20 * SECOND), Some(15 * SECOND));
    assert_eq!(p.cooldowns.check_cooldown_key(8, "42".to_string(), now + 20 * SECOND), None);
}

#[test]
fn logtime_holds_back_everyone_for_five_seconds() {
    let mut l = LogTime::new();
    let now: u128 = 50 * SECOND;
    assert!(l.begin(1, now).is_ok());
    for v in [1u64, 2, 3] {
        assert_eq!(l.cooldowns.check_cooldown(v, now), Some(5 * SECOND));
    }
}
