use iris::channel_list::ChannelList;

#[test]
fn test_add_channel() {
    let mut channel_list = ChannelList::new();
    channel_list.add_channel("channel1".to_string());

    assert!(channel_list.has_channel("channel1"));
    assert!(!channel_list.has_channel("channel2"));
}

#[test]
fn test_join_channel() {
    let mut channel_list = ChannelList::new();
    channel_list.join_channel("channel1", "user1");

    assert!(channel_list.has_channel("channel1"));
    assert!(channel_list.has_user("channel1", "user1"));
}

#[test]
fn test_part_channel() {
    let mut channel_list = ChannelList::new();
    channel_list.join_channel("channel1", "user1");
    channel_list.join_channel("channel1", "user2");
    channel_list.part_channel("channel1", "user1");

    assert!(channel_list.has_channel("channel1"));
    assert!(!channel_list.has_user("channel1", "user1"));
    assert!(channel_list.has_user("channel1", "user2"));
}

#[test]
fn test_remove_user() {
    let mut channel_list = ChannelList::new();
    channel_list.join_channel("channel1", "user1");
    channel_list.join_channel("channel2", "user1");
    channel_list.remove_user("user1");

    assert!(!channel_list.has_user("channel1", "user1"));
    assert!(!channel_list.has_user("channel2", "user1"));
}

#[test]
fn test_has_channel() {
    let mut channel_list = ChannelList::new();
    channel_list.add_channel("channel1".to_string());

    assert!(channel_list.has_channel("channel1"));
    assert!(!channel_list.has_channel("channel2"));
}

#[test]
fn test_has_user() {
    let mut channel_list = ChannelList::new();
    channel_list.join_channel("channel1", "user1");

    assert!(channel_list.has_user("channel1", "user1"));
    assert!(!channel_list.has_user("channel1", "user2"));
}

#[test]
fn join_twice_lists_the_nick_once() {
    let mut channel_list = ChannelList::new();
    channel_list.join_channel("#room", "alice");
    channel_list.join_channel("#room", "bob");
    channel_list.join_channel("#room", "alice");

    assert_eq!(
        channel_list.get_users("#room"),
        Some(&vec!["alice".to_string(), "bob".to_string()])
    );
}

#[test]
fn add_channel_twice_keeps_the_members() {
    let mut channel_list = ChannelList::new();
    channel_list.join_channel("#room", "alice");
    channel_list.add_channel("#room".to_string());

    assert!(channel_list.has_user("#room", "alice"));
}

#[test]
fn a_channel_stays_when_its_last_member_leaves() {
    let mut channel_list = ChannelList::new();
    channel_list.join_channel("#room", "alice");
    channel_list.part_channel("#room", "alice");

    assert!(channel_list.has_channel("#room"));
    assert_eq!(channel_list.get_users("#room"), Some(&Vec::<String>::new()));
}

#[test]
fn part_of_an_unknown_channel_changes_nothing() {
    let mut channel_list = ChannelList::new();
    channel_list.join_channel("#room", "alice");
    channel_list.part_channel("#other", "alice");

    assert!(!channel_list.has_channel("#other"));
    assert!(channel_list.has_user("#room", "alice"));
}

#[test]
fn has_user_of_an_unknown_channel_is_false() {
    let channel_list = ChannelList::default();
    assert!(!channel_list.has_user("#room", "alice"));
    assert_eq!(channel_list.get_users("#room"), None);
}

#[test]
fn remove_user_leaves_the_others() {
    let mut channel_list = ChannelList::new();
    channel_list.join_channel("#a", "alice");
    channel_list.join_channel("#a", "bob");
    channel_list.join_channel("#b", "bob");
    channel_list.remove_user("bob");

    assert_eq!(channel_list.get_users("#a"), Some(&vec!["alice".to_string()]));
    assert_eq!(channel_list.get_users("#b"), Some(&Vec::<String>::new()));
}

#[test]
fn get_users_mut_changes_the_list_in_place() {
    let mut channel_list = ChannelList::new();
    channel_list.join_channel("#room", "alice");
    assert!(channel_list.get_users_mut("#other").is_none());
    match channel_list.get_users_mut("#room") {
        Some(members) => members.push("bob".to_string()),
        None => panic!("the channel exists"),
    }

    assert!(channel_list.has_user("#room", "bob"));
    assert!(channel_list.has_user("#room", "alice"));
}

#[test]
fn rename_user_keeps_the_order() {
    let mut channel_list = ChannelList::new();
    channel_list.join_channel("#a", "alice");
    channel_list.join_channel("#a", "bob");
    channel_list.join_channel("#a", "carol");
    channel_list.join_channel("#b", "carol");
    channel_list.rename_user("bob", "zed");

    assert_eq!(
        channel_list.get_users("#a"),
        Some(&vec!["alice".to_string(), "zed".to_string(), "carol".to_string()])
    );
    assert_eq!(channel_list.get_users("#b"), Some(&vec!["carol".to_string()]));
    channel_list.rename_user("nobody", "zed");
    assert_eq!(channel_list.get_users("#b"), Some(&vec!["carol".to_string()]));
    channel_list.rename_user("alice", "carol");
    assert_eq!(
        channel_list.get_users("#a"),
        Some(&vec!["carol".to_string(), "zed".to_string()])
    );
    assert_eq!(channel_list.get_users("#b"), Some(&vec!["carol".to_string()]));
}
