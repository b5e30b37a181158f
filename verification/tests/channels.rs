use bridge_scrims::channels::{
    channels_to_create, clone_name, divide_channel_name, joined_a_channel, voice_update_applies,
    ChannelFamily, ChannelGroup, VoiceChannel,
};

fn vc(id: u64, name: &str, parent: u64, position: i64, members: usize) -> VoiceChannel {
    VoiceChannel { id, name: name.to_string(), is_voice: true, parent_id: Some(parent), position, members }
}

fn guild(members: [usize; 3]) -> Vec<VoiceChannel> {
    let mut text = vc(40, "Queue #5", 5, 7, 0);
    text.is_voice = false;
    vec![
        vc(10, "Queue #1", 5, 0, members[0]),
        vc(12, "Queue #3", 5, 2, members[2]),
        vc(11, "Queue #2", 5, 1, members[1]),
        vc(20, "Other", 5, 3, 0),
        vc(30, "Queue #4", 6, 4, 0),
        text,
    ]
}

#[test]
fn names_divide_into_base_and_number() {
    assert_eq!(divide_channel_name("Queue #12"), Some(("Queue #".to_string(), 12)));
    assert_eq!(divide_channel_name("Queue 3"), Some(("Queue ".to_string(), 3)));
    assert_eq!(divide_channel_name("Lobby"), Some(("Lobby".to_string(), 1)));
    assert_eq!(divide_channel_name("Queue #99999999999999999999999"), None);
    assert_eq!(clone_name("Queue #", 4), "Queue #4");
}

#[test]
fn family_is_sorted_by_number() {
    let all = guild([1, 0, 0]);
    assert_eq!(ChannelFamily(10).get_channels(&all), Some(vec![0, 2, 1]));
    assert_eq!(ChannelFamily(99).get_channels(&all), Some(vec![]));
}

#[test]
fn family_cleanup_keeps_min_unused() {
    let all = guild([1, 0, 0]);
    // two unused channels: keep one, delete the highest numbered
    assert_eq!(ChannelFamily(10).remove_excess_channels(&all, 1), Some(vec![1]));
    assert_eq!(ChannelFamily(10).remove_excess_channels(&all, 2), Some(vec![]));
    assert_eq!(ChannelFamily(10).remove_excess_channels(&all, 0), Some(vec![1, 2]));
}

#[test]
fn family_grows_only_when_full() {
    let some_unused = guild([1, 0, 0]);
    assert_eq!(ChannelFamily(10).needs_more(&some_unused, 5), Some(false));
    let full = guild([1, 2, 1]);
    assert_eq!(ChannelFamily(10).needs_more(&full, 5), Some(true));
    assert_eq!(ChannelFamily(10).needs_more(&full, 3), Some(false));
    assert_eq!(ChannelFamily(10).next_num_pos(&full), Some((4, 2)));
}

#[test]
fn group_cleanup_spares_first_two() {
    let all = guild([1, 0, 0]);
    assert_eq!(ChannelGroup(10).get_channels(&all), Some(vec![0, 1, 2]));
    // "Queue #2" is unused but stays; "Queue #3" goes
    assert_eq!(ChannelGroup(10).remove_excess_channels(&all), Some(vec![1]));
    assert_eq!(ChannelGroup(10).needs_more(&all), Some(false));
    assert_eq!(ChannelGroup(10).needs_more(&guild([1, 1, 1])), Some(true));
    assert_eq!(ChannelGroup(10).next_number(&all), Some(4));
    assert_eq!(ChannelGroup(10).highest_pos(&all), Some(2));
}

#[test]
fn voice_updates() {
    assert!(voice_update_applies(None, Some(7), 5));
    assert!(voice_update_applies(Some(1), Some(5), 5));
    assert!(!voice_update_applies(Some(1), Some(7), 5));
    assert!(joined_a_channel(None, Some(1)));
    assert!(joined_a_channel(Some(None), Some(1)));
    assert!(joined_a_channel(Some(Some(1)), Some(2)));
    assert!(!joined_a_channel(Some(Some(1)), Some(1)));
    assert!(!joined_a_channel(Some(Some(1)), None));
}

#[test]
fn full_family_grows_by_two_on_join() {
    let full = guild([1, 1, 1]);
    let is_full = ChannelFamily(10).needs_more(&full, 5).unwrap();
    assert_eq!(channels_to_create(None, Some(10), is_full), 2);
    assert_eq!(channels_to_create(Some(Some(11)), Some(10), is_full), 2);
    // same channel, or left voice: nothing is made
    assert_eq!(channels_to_create(Some(Some(10)), Some(10), is_full), 0);
    assert_eq!(channels_to_create(Some(Some(10)), None, is_full), 0);
    // not full
    let some_unused = guild([1, 0, 1]);
    let not_full = ChannelFamily(10).needs_more(&some_unused, 5).unwrap();
    assert_eq!(channels_to_create(None, Some(10), not_full), 0);
}

#[test]
fn next_slot_of_gone_or_unreadable_family() {
    let all = guild([1, 0, 0]);
    // the first channel is gone: number 2 at position 0
    assert_eq!(ChannelFamily(99).next_num_pos(&all), Some((2, 0)));
    // a number beyond usize cannot be read
    let big = vec![vc(1, "Queue #99999999999999999999999", 5, 0, 1)];
    assert_eq!(ChannelFamily(1).next_num_pos(&big), None);
    // no next number after usize::MAX
    let last = vec![vc(1, &format!("Queue #{}", usize::MAX), 5, 0, 1)];
    assert_eq!(ChannelFamily(1).next_num_pos(&last), None);
}
