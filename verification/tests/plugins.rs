use iris::plugin::{names_plugin, plugin_handler, use_plugin_reminder, use_plugin_sample, PluginJob};
use iris::types::{ErrorType, Nick};
use iris::user::{Delivery, User, UserList};

fn nick(s: &str) -> Nick {
    Nick(s.to_string())
}

fn job(delay: u64, plugin: &str, receiver: &str, text: &str) -> PluginJob {
    PluginJob {
        delay_seconds: delay,
        plugin_nick: nick(plugin),
        receiver_nick: nick(receiver),
        text: text.to_string(),
    }
}

#[test]
fn plugin_nicks_have_the_reserved_prefix() {
    assert!(names_plugin("use_plugin_reminder"));
    assert!(names_plugin("use_plugin_"));
    assert!(!names_plugin("use_plugin"));
    assert!(!names_plugin("alice"));
    assert!(!names_plugin("Use_plugin_sample"));
}

#[test]
fn the_sample_plugin_echoes() {
    assert_eq!(use_plugin_sample("test", nick("alice")), Ok(job(0, "plugin_sample", "alice", "test")));
    assert_eq!(
        plugin_handler(nick("use_plugin_sample"), nick("alice"), "a b c"),
        Ok(job(0, "plugin_sample", "alice", "a b c"))
    );
    assert_eq!(use_plugin_sample("", nick("alice")), Ok(job(0, "plugin_sample", "alice", "")));
}

#[test]
fn the_reminder_plugin_reads_seconds_and_sentence() {
    assert_eq!(
        use_plugin_reminder("5 test, test, test", nick("alice")),
        Ok(job(5, "plugin_reminder", "alice", "test, test, test"))
    );
    assert_eq!(
        plugin_handler(nick("use_plugin_reminder"), nick("bob"), "1 wake up"),
        Ok(job(1, "plugin_reminder", "bob", "wake up"))
    );
    assert_eq!(use_plugin_reminder("0 hi", nick("a")), Ok(job(0, "plugin_reminder", "a", "hi")));
    assert_eq!(use_plugin_reminder("+3 x", nick("a")), Ok(job(3, "plugin_reminder", "a", "x")));
    assert_eq!(use_plugin_reminder("3 ", nick("a")), Ok(job(3, "plugin_reminder", "a", "")));
    assert_eq!(use_plugin_reminder("3  x", nick("a")), Ok(job(3, "plugin_reminder", "a", " x")));
    assert_eq!(
        use_plugin_reminder("18446744073709551615 x", nick("a")),
        Ok(job(u64::MAX, "plugin_reminder", "a", "x"))
    );
}

#[test]
fn the_reminder_plugin_refuses_what_it_cannot_read() {
    for text in ["", "5", "soon hello", " 5 hello", "-1 x", "1.5 x", "18446744073709551616 x", "hello"] {
        assert_eq!(use_plugin_reminder(text, nick("a")), Err(ErrorType::PluginCommandError));
    }
}

#[test]
fn an_unknown_plugin_is_an_error() {
    assert_eq!(
        plugin_handler(nick("use_plugin_weather"), nick("alice"), "x"),
        Err(ErrorType::PluginCommandError)
    );
    assert_eq!(
        plugin_handler(nick("use_plugin_"), nick("alice"), "x"),
        Err(ErrorType::PluginCommandError)
    );
}

#[test]
fn a_due_reply_goes_to_the_receiver_if_still_there() {
    let mut users = UserList::new();
    let mut alice = User::new("c1".to_string());
    alice.set_nick("alice".to_string());
    users.add_user(alice);
    let due = job(2, "plugin_reminder", "alice", "wake up");
    assert_eq!(
        due.reply(&users),
        Some(Delivery {
            to: "c1".to_string(),
            line: ":plugin_reminder PRIVMSG alice :wake up\r\n".to_string(),
        })
    );
    users.remove_by_nick("alice");
    assert_eq!(due.reply(&users), None);
}
