use iris::types::{ErrorType, Nick, Reply};
use iris::user::{Delivery, User, UserList};

fn named(id: &str, nick: &str) -> User {
    let mut user = User::new(id.to_string());
    user.set_nick(nick.to_string());
    user
}

#[test]
fn a_new_user_is_known_by_its_id() {
    let user = User::new("10.0.0.1:4000".to_string());
    assert_eq!(user.get_id(), "10.0.0.1:4000");
    assert_eq!(user.get_nick(), Nick("10.0.0.1:4000".to_string()));
    assert_eq!(user.get_real_name(), Nick("10.0.0.1:4000".to_string()));
    assert!(!user.is_set_nick());
    assert!(!user.is_set_real_name());
    assert!(!user.is_registered());
    assert!(user.get_joined_channels().is_empty());
}

#[test]
fn nick_and_real_name_make_a_user_registered() {
    let mut user = User::new("c1".to_string());
    user.set_nick("alice".to_string());
    assert!(user.is_set_nick());
    assert!(!user.is_registered());
    assert_eq!(user.get_nick(), Nick("alice".to_string()));
    user.set_real_name("Alice Adams".to_string());
    assert!(user.is_set_real_name());
    assert!(user.is_registered());
    assert_eq!(user.get_real_name(), Nick("Alice Adams".to_string()));
    assert_eq!(user.get_id(), "c1");
}

#[test]
fn send_addresses_the_users_connection() {
    let user = named("c1", "alice");
    assert_eq!(
        user.send(Reply::Pong("t".to_string())),
        Delivery { to: "c1".to_string(), line: "PONG :t\r\n".to_string() }
    );
    assert_eq!(
        user.send_back_error(ErrorType::NoSuchNick),
        Delivery { to: "c1".to_string(), line: "401 :No such nick\r\n".to_string() }
    );
    assert_eq!(
        user.send_line(&"raw\r\n".to_string()),
        Delivery { to: "c1".to_string(), line: "raw\r\n".to_string() }
    );
}

#[test]
fn a_user_lists_each_channel_once() {
    let mut user = named("c1", "alice");
    user.join_channel("#a");
    user.join_channel("#b");
    user.join_channel("#a");
    assert_eq!(user.get_joined_channels(), &vec!["#a".to_string(), "#b".to_string()]);
    user.part_channel("#a");
    assert_eq!(user.get_joined_channels(), &vec!["#b".to_string()]);
    user.part_channel("#zzz");
    assert_eq!(user.get_joined_channels(), &vec!["#b".to_string()]);
}

#[test]
fn lookups_by_nick_and_by_id() {
    let mut users = UserList::new();
    assert!(users.add_user(named("c1", "alice")));
    assert!(users.add_user(User::new("c2".to_string())));
    assert_eq!(users.len(), 2);
    assert_eq!(users.find_by_nick("alice"), Some(0));
    assert_eq!(users.find_by_nick("c2"), Some(1));
    assert_eq!(users.find_by_nick("c1"), None);
    assert_eq!(users.find_by_id("c1"), Some(0));
    assert_eq!(users.find_by_id("alice"), None);
    assert!(users.nick_in_use("alice"));
    assert!(!users.nick_in_use("bob"));
    assert_eq!(users.snapshot_nick_of("c1"), Some(Nick("alice".to_string())));
    assert_eq!(users.snapshot_nick_of("c2"), Some(Nick("c2".to_string())));
    assert_eq!(users.snapshot_nick_of("c3"), None);
    assert_eq!(users.get(0).get_id(), "c1");
    assert_eq!(users.get_users().len(), 2);
}

#[test]
fn add_user_appends_every_new_id() {
    let mut users = UserList::default();
    assert!(users.add_user(named("1", "bob")));
    assert!(!users.add_user(User::new("1".to_string())));
    assert_eq!(users.len(), 1);
    assert!(users.add_user(User::new("bob".to_string())));
    assert!(users.add_user(named("c2", "alice")));
    assert_eq!(users.len(), 3);
    assert_eq!(users.get(1).get_id(), "bob");
    assert_eq!(users.get(2).get_id(), "c2");
    assert_eq!(users.find_by_nick("bob"), Some(0));
    assert_eq!(users.find_by_id("bob"), Some(1));
    assert_eq!(users.find_by_nick("alice"), Some(2));
}

#[test]
fn remove_by_nick_removes_zero_or_one() {
    let mut users = UserList::new();
    users.add_user(named("c1", "alice"));
    users.add_user(named("c2", "bob"));
    users.add_user(named("c3", "carol"));
    users.remove_by_nick("nobody");
    assert_eq!(users.len(), 3);
    users.remove_by_nick("bob");
    assert_eq!(users.len(), 2);
    assert_eq!(users.find_by_nick("alice"), Some(0));
    assert_eq!(users.find_by_nick("carol"), Some(1));
    assert_eq!(users.find_by_nick("bob"), None);
    users.remove_at(0);
    assert_eq!(users.find_by_nick("carol"), Some(0));
}

#[test]
fn changes_by_place() {
    let mut users = UserList::new();
    users.add_user(User::new("c1".to_string()));
    users.add_user(User::new("c2".to_string()));
    users.set_nick_at(1, "bob".to_string());
    users.set_real_name_at(1, "Bob B".to_string());
    users.join_at(1, "#x");
    users.join_at(1, "#y");
    users.join_at(1, "#x");
    users.part_at(1, "#y");
    let bob = users.get(1);
    assert!(bob.is_registered());
    assert_eq!(bob.get_nick(), Nick("bob".to_string()));
    assert_eq!(bob.get_joined_channels(), &vec!["#x".to_string()]);
    assert!(!users.get(0).is_set_nick());
}
