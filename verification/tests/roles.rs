use bridge_scrims::roles::{
    ban_must_be_enforced, can_freeze, can_moderate, merge_roles, muted_overwrite_fix,
    restrict_roles, top_role_key, unban_roles, unfreeze_roles, without_color_roles, RoleInfo,
    MUTED_DENY,
};

fn role(id: u64, position: i64, managed: bool) -> RoleInfo {
    RoleInfo { id, position, managed }
}

fn sorted(mut v: Vec<u64>) -> Vec<u64> {
    v.sort();
    v
}

#[test]
fn moderation_goes_one_way() {
    let low = vec![role(10, 3, false)];
    let high = vec![role(2, 5, false), role(11, 1, false)];
    assert_eq!(top_role_key(&high), Some((5, 2)));
    assert!(can_moderate(&low, &high, false));
    assert!(!can_moderate(&high, &low, false));
    // nobody moderates someone with the same roles, nor a bot, and a member
    // without roles moderates nobody
    assert!(!can_moderate(&high, &high, false));
    assert!(!can_moderate(&low, &high, true));
    assert!(!can_moderate(&low, &vec![], false));
    assert!(can_moderate(&vec![], &low, false));
    // equal positions are ordered by id
    assert!(can_moderate(&vec![role(1, 5, false)], &vec![role(9, 5, false)], false));
    assert!(!can_moderate(&vec![role(9, 5, false)], &vec![role(1, 5, false)], false));
}

#[test]
fn freezing_goes_one_way() {
    let low = vec![role(10, 3, false)];
    let high = vec![role(2, 5, false)];
    assert!(can_freeze(&high, &low));
    assert!(!can_freeze(&low, &high));
    assert!(!can_freeze(&high, &vec![role(7, 5, false)]));
}

#[test]
fn punishment_keeps_managed_roles() {
    let rs = vec![role(1, 1, true), role(2, 2, false), role(3, 3, true), role(4, 4, false)];
    let (kept, taken) = restrict_roles(&rs, 99);
    assert_eq!(kept, vec![1, 3, 99]);
    assert_eq!(taken, vec![2, 4]);
    assert!(ban_must_be_enforced(&rs, 99));
    assert!(!ban_must_be_enforced(&vec![role(1, 1, true), role(99, 2, false)], 99));
    assert!(ban_must_be_enforced(&vec![role(1, 1, true)], 99));
}

#[test]
fn roles_come_back() {
    assert_eq!(sorted(merge_roles(&vec![1, 2, 2], &vec![3, 1])), vec![1, 2, 3]);
    // unban: taken, member and current roles, without the ban role and gone roles
    let back = unban_roles(&vec![2, 4, 5], 7, &vec![1, 99], 99, &vec![1, 2, 4, 7, 99]);
    assert_eq!(sorted(back), vec![1, 2, 4, 7]);
    // unfreeze: managed roles first, then the stored roles and the member role that exist
    let current = vec![role(1, 1, true), role(50, 2, false)];
    assert_eq!(unfreeze_roles(&current, &vec![2, 3], 7, &vec![1, 2, 7]), vec![1, 2, 7]);
    assert_eq!(unfreeze_roles(&current, &vec![7, 2], 7, &vec![1, 2, 7]), vec![1, 7, 2]);
}

#[test]
fn color_roles_and_muted_overwrites() {
    assert_eq!(without_color_roles(&vec![1, 2, 3], &vec![2]), Some(vec![1, 3]));
    assert_eq!(without_color_roles(&vec![1, 3], &vec![2]), None);
    // a new channel gets the full deny; a fixed one is left alone
    let fixed = muted_overwrite_fix(None).unwrap();
    assert_eq!(fixed, (0, MUTED_DENY));
    assert_eq!(muted_overwrite_fix(Some(fixed)), None);
    let partly = muted_overwrite_fix(Some((1 << 11 | 1, 1 << 3))).unwrap();
    assert_eq!(partly, (1, 1 << 3 | MUTED_DENY));
}
