use bridge_scrims::cooldown::{Cooldown, CooldownType, Cooldowns};

const S: u128 = 1_000_000_000;

#[test]
fn added_cooldown_holds_back() {
    let mut list = Cooldowns::new();
    assert_eq!(list.check_cooldown(7, 100 * S), None);
    let c = list.add_cooldown(20 * S, Some(String::from("42")), CooldownType::Global, 100 * S);
    assert_eq!(c.duration(), 20 * S);
    assert_eq!(c.expire(), 120 * S);
    assert_eq!(c.start(), 100 * S);
    // a keyed cooldown holds back that key only
    assert_eq!(list.check_cooldown_key(7, String::from("42"), 105 * S), Some(15 * S));
    assert_eq!(list.check_cooldown_key(7, String::from("43"), 105 * S), None);
    assert_eq!(list.check_cooldown(7, 105 * S), None);
    // a user cooldown without a key holds back that user for every key
    list.add_cooldown(10 * S, None, CooldownType::User(8), 100 * S);
    assert_eq!(list.check_cooldown_key(8, String::from("43"), 101 * S), Some(9 * S));
    assert_eq!(list.check_cooldown(9, 101 * S), None);
}

#[test]
fn removing_undoes_adding() {
    let mut list = Cooldowns::new();
    list.add_cooldown(5 * S, None, CooldownType::Global, 0);
    let c = list.add_cooldown(15 * S, None, CooldownType::User(3), 0);
    assert_eq!(list.items.len(), 2);
    list.remove_cooldown(&c);
    assert_eq!(list.items.len(), 1);
    assert_eq!(list.items[0].duration(), 5 * S);
    // removing one that is not there changes nothing
    let other = Cooldown::new(7 * S, None, CooldownType::Global, 0);
    list.remove_cooldown(&other);
    assert_eq!(list.items.len(), 1);
}

#[test]
fn cooldowns_are_readable_within_their_span() {
    let mut list = Cooldowns::new();
    assert!(list.readable(&None, 1, 0));
    list.add_cooldown(10 * S, None, CooldownType::Global, 100 * S);
    assert!(list.readable(&None, 1, 100 * S));
    assert!(list.readable(&None, 1, 110 * S));
    assert!(!list.readable(&None, 1, 111 * S));
    assert!(!list.readable(&None, 1, 99 * S));
}

#[test]
fn cooldown_shorthands() {
    let mut list = Cooldowns::new();
    let g = list.add_global_cooldown(5 * S, 0);
    let u = list.add_user_cooldown(15 * S, 4, 0);
    let gk = list.add_global_cooldown_key(String::from("7"), 20 * S, 0);
    let uk = list.add_user_cooldown_key(String::from("7"), 35 * S, 4, 0);
    assert_eq!(list.items.len(), 4);
    assert_eq!((g.duration(), u.duration(), gk.duration(), uk.duration()), (5 * S, 15 * S, 20 * S, 35 * S));
    // the keyless global cooldown comes first and holds back every key
    assert_eq!(list.check_cooldown_key(9, String::from("7"), S), Some(4 * S));
    // removing it moves the last cooldown (the user's keyed one) into its place
    list.remove_cooldown(&g);
    assert_eq!(list.check_cooldown_key(4, String::from("7"), S), Some(34 * S));
    assert_eq!(list.check_cooldown_key(9, String::from("7"), S), Some(19 * S));
    assert_eq!(list.check_cooldown(9, S), None);
}
