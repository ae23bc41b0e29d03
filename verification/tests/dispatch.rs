use iris::channel_list::ChannelList;
use iris::dispatcher::{dispatch, dispatch_all};
use iris::massage_handler::{error_msg_handler, global_msg_handler};
use iris::massage_sender::{
    error_msg_sender, global_msg_sender, join_msg_sender, nick_msg_sender, part_msg_sender,
    ping_msg_sender, priv_msg_sender, quit_msg_sender, user_msg_sender, Effects,
};
use iris::parser::parse_message_body;
use iris::plugin::PluginJob;
use iris::reader::{connection_lost, is_quit, read_line};
use iris::types::{
    Channel, DispatchError, ErrorType, JoinMsg, Message, Nick, NickMsg, ParsedMessage, PartMsg, PrivMsg,
    QuitMsg, Target, UserMsg,
};
use iris::user::{Delivery, User, UserList};

struct Server {
    users: UserList,
    channels: ChannelList,
}

fn server() -> Server {
    Server { users: UserList::new(), channels: ChannelList::new() }
}

fn connect(s: &mut Server, id: &str) {
    assert!(s.users.add_user(User::new(id.to_string())));
}

/// One line from the connection `id`, through the reader and the dispatcher.
fn line(s: &mut Server, id: &str, text: &str) -> Effects {
    let turn = read_line(&s.users, id, text).expect("the connection is known");
    dispatch(&mut s.users, &mut s.channels, turn.item).effects
}

fn lines(s: &mut Server, id: &str, texts: &[&str]) {
    for t in texts {
        line(s, id, t);
    }
}

fn register(s: &mut Server, id: &str, nick: &str) {
    connect(s, id);
    lines(s, id, &[&format!("NICK {}", nick), &format!("USER {} 0 * :{} Real", nick, nick)]);
}

fn d(to: &str, text: &str) -> Delivery {
    Delivery { to: to.to_string(), line: format!("{}\r\n", text) }
}

fn nick(s: &str) -> Nick {
    Nick(s.to_string())
}

fn msg(sender: &str, text: &str) -> ParsedMessage {
    ParsedMessage { sender_nick: nick(sender), message: parse_message_body(text).expect("parses") }
}

fn joined(s: &Server, nick: &str) -> Vec<String> {
    let i = s.users.find_by_nick(nick).expect("the user is known");
    s.users.get(i).get_joined_channels().clone()
}

fn members(s: &Server, channel: &str) -> Vec<String> {
    match s.channels.get_users(channel) {
        Some(m) => m.clone(),
        None => Vec::new(),
    }
}

/// Every user is listed in a channel exactly when it has joined it, and
/// every listed member is a user.
fn consistent(s: &Server, channels: &[&str]) -> bool {
    let mut ok = true;
    for i in 0..s.users.len() {
        let user = s.users.get(i);
        let name = user.get_nick().0;
        for c in channels {
            let listed = s.channels.has_user(c, &name);
            let noted = user.get_joined_channels().contains(&c.to_string());
            ok = ok && listed == noted;
        }
    }
    for c in channels {
        for m in members(s, c) {
            ok = ok && s.users.nick_in_use(&m);
        }
    }
    ok
}

#[test]
fn scenario_registration() {
    let mut s = server();
    connect(&mut s, "c1");
    let first = line(&mut s, "c1", "NICK alice");
    assert!(first.deliveries.is_empty());
    let second = line(&mut s, "c1", "USER alice 0 * :Alice Adams");
    assert_eq!(
        second.deliveries,
        vec![d("c1", ":iris.example 001 alice :Welcome to the server, Alice Adams!")]
    );
    assert!(second.job.is_none());
    assert!(s.users.get(0).is_registered());
}

#[test]
fn scenario_nick_collision() {
    let mut s = server();
    connect(&mut s, "a");
    line(&mut s, "a", "NICK bob");
    connect(&mut s, "b");
    let refused = line(&mut s, "b", "NICK bob");
    assert_eq!(refused.deliveries, vec![d("b", "436 :Nickname collision")]);
    assert_eq!(s.users.find_by_nick("bob"), Some(0));
    assert!(!s.users.get(1).is_set_nick());
}

#[test]
fn scenario_channel_broadcast() {
    let mut s = server();
    register(&mut s, "c1", "alice");
    register(&mut s, "c2", "bob");
    let first = line(&mut s, "c1", "JOIN #room");
    assert_eq!(first.deliveries, vec![d("c1", ":alice JOIN #room")]);
    let second = line(&mut s, "c2", "JOIN #room");
    assert_eq!(second.deliveries, vec![d("c1", ":bob JOIN #room"), d("c2", ":bob JOIN #room")]);
    let said = line(&mut s, "c1", "PRIVMSG #room :hello");
    assert_eq!(said.deliveries, vec![d("c2", ":alice PRIVMSG #room :hello")]);
}

#[test]
fn scenario_part() {
    let mut s = server();
    register(&mut s, "c1", "alice");
    register(&mut s, "c2", "bob");
    line(&mut s, "c1", "JOIN #room");
    line(&mut s, "c2", "JOIN #room");
    let left = line(&mut s, "c1", "PART #room");
    assert_eq!(left.deliveries, vec![d("c2", ":alice PART #room"), d("c1", ":alice PART #room")]);
    let after = line(&mut s, "c1", "PRIVMSG #room :still there?");
    assert!(after.deliveries.is_empty());
    assert!(after.job.is_none());
    assert_eq!(members(&s, "#room"), vec!["bob".to_string()]);
    assert!(joined(&s, "alice").is_empty());
}

#[test]
fn scenario_plugin_reminder() {
    let mut s = server();
    register(&mut s, "c3", "carol");
    let asked = line(&mut s, "c3", "PRIVMSG use_plugin_reminder :1 wake up");
    assert!(asked.deliveries.is_empty());
    let job = asked.job.expect("the plugin schedules a reply");
    assert_eq!(
        job,
        PluginJob {
            delay_seconds: 1,
            plugin_nick: nick("plugin_reminder"),
            receiver_nick: nick("carol"),
            text: "wake up".to_string(),
        }
    );
    assert_eq!(job.reply(&s.users), Some(d("c3", ":plugin_reminder PRIVMSG carol :wake up")));
}

#[test]
fn scenario_quit_fan_out() {
    let mut s = server();
    register(&mut s, "c4", "dave");
    register(&mut s, "c5", "eve");
    line(&mut s, "c4", "JOIN #x");
    line(&mut s, "c5", "JOIN #x");
    let turn = read_line(&s.users, "c4", "QUIT :bye").expect("known");
    assert!(turn.stop);
    let gone = dispatch(&mut s.users, &mut s.channels, turn.item).effects;
    assert_eq!(gone.deliveries, vec![d("c5", ":dave QUIT :bye")]);
    assert_eq!(s.users.find_by_nick("dave"), None);
    assert!(!s.channels.has_user("#x", "dave"));
    connect(&mut s, "c6");
    let again = line(&mut s, "c6", "NICK dave");
    assert!(again.deliveries.is_empty());
    assert_eq!(s.users.snapshot_nick_of("c6"), Some(nick("dave")));
}

#[test]
fn privmsg_from_a_non_member_is_dropped_in_silence() {
    let mut s = server();
    register(&mut s, "c1", "alice");
    register(&mut s, "c2", "bob");
    line(&mut s, "c1", "JOIN #room");
    let r = global_msg_sender(&mut s.users, &mut s.channels, msg("bob", "PRIVMSG #room :psst"));
    let effects = r.expect("no error");
    assert!(effects.deliveries.is_empty());
    assert!(effects.job.is_none());
}

#[test]
fn privmsg_to_self_is_delivered_once() {
    let mut s = server();
    register(&mut s, "c1", "alice");
    let e = line(&mut s, "c1", "PRIVMSG alice :note to self");
    assert_eq!(e.deliveries, vec![d("c1", ":alice PRIVMSG alice :note to self")]);
}

#[test]
fn reminder_of_zero_seconds_is_due_at_once() {
    let mut s = server();
    register(&mut s, "c1", "alice");
    let e = line(&mut s, "c1", "PRIVMSG use_plugin_reminder :0 hi");
    let job = e.job.expect("scheduled");
    assert_eq!(job.delay_seconds, 0);
    assert_eq!(job.reply(&s.users), Some(d("c1", ":plugin_reminder PRIVMSG alice :hi")));
}

#[test]
fn privmsg_errors() {
    let mut s = server();
    register(&mut s, "c1", "alice");
    let e = line(&mut s, "c1", "PRIVMSG #nowhere :hi");
    assert_eq!(e.deliveries, vec![d("c1", "403 :No such channel")]);
    let e = line(&mut s, "c1", "PRIVMSG bob :hi");
    assert_eq!(e.deliveries, vec![d("c1", "401 :No such nick")]);
    let e = line(&mut s, "c1", "PRIVMSG use_plugin_nothing :hi");
    assert_eq!(e.deliveries, vec![d("c1", "400 :Plugin command error")]);
    let e = line(&mut s, "c1", "PRIVMSG use_plugin_reminder :soon hi");
    assert_eq!(e.deliveries, vec![d("c1", "400 :Plugin command error")]);
    let r = priv_msg_sender(
        &mut s.users,
        &mut s.channels,
        PrivMsg { target: Target::User(nick("bob")), message: "x".to_string() },
        nick("alice"),
    );
    assert_eq!(r.err(), Some(DispatchError::Client(ErrorType::NoSuchNick)));
}

#[test]
fn privmsg_to_a_nick() {
    let mut s = server();
    register(&mut s, "c1", "alice");
    register(&mut s, "c2", "bob");
    let e = line(&mut s, "c1", "PRIVMSG bob :hi bob");
    assert_eq!(e.deliveries, vec![d("c2", ":alice PRIVMSG bob :hi bob")]);
}

#[test]
fn parse_errors_are_reported_to_the_sender() {
    let mut s = server();
    connect(&mut s, "c1");
    let e = line(&mut s, "c1", "NICK 9lives");
    assert_eq!(e.deliveries, vec![d("c1", "432 :Erroneous nickname")]);
    let e = line(&mut s, "c1", "BOGUS");
    assert_eq!(e.deliveries, vec![d("c1", "421 :Unknown command")]);
    let e = line(&mut s, "c1", "USER x");
    assert_eq!(e.deliveries, vec![d("c1", "461 :Not enough parameters")]);
    assert!(!s.users.get(0).is_set_nick());
}

#[test]
fn an_error_for_an_unknown_sender_is_dropped() {
    let mut s = server();
    let e = dispatch(&mut s.users, &mut s.channels, Err((ErrorType::UnknownCommand, nick("ghost"))));
    assert!(e.effects.deliveries.is_empty());
    assert_eq!(e.failure, Some(DispatchError::Client(ErrorType::UnknownCommand)));
    let no_such_nick = DispatchError::Client(ErrorType::NoSuchNick);
    assert_eq!(error_msg_sender(no_such_nick, &s.users, nick("ghost")), None);
    assert_eq!(error_msg_handler(no_such_nick, &s.users, nick("ghost")), None);
    connect(&mut s, "c1");
    assert_eq!(
        error_msg_sender(no_such_nick, &s.users, nick("c1")),
        Some(d("c1", "401 :No such nick"))
    );
    assert_eq!(error_msg_sender(DispatchError::UserNotFound, &s.users, nick("c1")), None);
    assert_eq!(error_msg_handler(DispatchError::UserNotFound, &s.users, nick("c1")), None);
}

#[test]
fn nobody_speaks_before_the_handshake() {
    let mut s = server();
    connect(&mut s, "c1");
    for text in ["PING x", "JOIN #room", "PART #room", "PRIVMSG #room :x", "PRIVMSG c1 :x", "QUIT :bye"] {
        let e = line(&mut s, "c1", text);
        assert!(e.deliveries.is_empty());
        assert!(e.job.is_none());
    }
    line(&mut s, "c1", "NICK alice");
    for text in ["PING x", "JOIN #room", "QUIT"] {
        let e = line(&mut s, "c1", text);
        assert!(e.deliveries.is_empty());
    }
    assert_eq!(s.users.len(), 1);
    assert!(!s.channels.has_channel("#room"));
}

#[test]
fn user_needs_a_nick_and_is_welcomed_once() {
    let mut s = server();
    connect(&mut s, "c1");
    let e = line(&mut s, "c1", "USER alice 0 * :Alice");
    assert!(e.deliveries.is_empty());
    assert!(!s.users.get(0).is_set_real_name());
    line(&mut s, "c1", "NICK alice");
    let e = line(&mut s, "c1", "USER alice 0 * :Alice");
    assert_eq!(e.deliveries.len(), 1);
    let e = line(&mut s, "c1", "USER alice 0 * :Someone Else");
    assert!(e.deliveries.is_empty());
    assert_eq!(s.users.get(0).get_real_name(), nick("Alice"));
}

#[test]
fn ping_is_answered() {
    let mut s = server();
    register(&mut s, "c1", "alice");
    let e = line(&mut s, "c1", "PING 12345");
    assert_eq!(e.deliveries, vec![d("c1", "PONG :12345")]);
    let r = ping_msg_sender(&mut s.users, "abc".to_string(), nick("alice")).expect("ok");
    assert_eq!(r.deliveries, vec![d("c1", "PONG :abc")]);
}

#[test]
fn a_repeated_join_is_a_no_op() {
    let mut s = server();
    register(&mut s, "c1", "alice");
    line(&mut s, "c1", "JOIN #room");
    let e = line(&mut s, "c1", "JOIN #room");
    assert!(e.deliveries.is_empty());
    assert_eq!(members(&s, "#room"), vec!["alice".to_string()]);
    assert_eq!(joined(&s, "alice"), vec!["#room".to_string()]);
}

#[test]
fn part_errors_and_silence() {
    let mut s = server();
    register(&mut s, "c1", "alice");
    register(&mut s, "c2", "bob");
    let e = line(&mut s, "c1", "PART #nowhere");
    assert_eq!(e.deliveries, vec![d("c1", "403 :No such channel")]);
    line(&mut s, "c2", "JOIN #room");
    let e = line(&mut s, "c1", "PART #room");
    assert!(e.deliveries.is_empty());
    assert_eq!(members(&s, "#room"), vec!["bob".to_string()]);
}

#[test]
fn join_then_part_restores_the_state() {
    let mut s = server();
    register(&mut s, "c1", "alice");
    register(&mut s, "c2", "bob");
    line(&mut s, "c1", "JOIN #other");
    line(&mut s, "c2", "JOIN #room");
    let joined_before = joined(&s, "alice");
    let members_before = members(&s, "#room");
    line(&mut s, "c1", "JOIN #room");
    assert_eq!(members(&s, "#room"), vec!["bob".to_string(), "alice".to_string()]);
    line(&mut s, "c1", "PART #room");
    assert_eq!(joined(&s, "alice"), joined_before);
    assert_eq!(members(&s, "#room"), members_before);
    assert_eq!(members(&s, "#other"), vec!["alice".to_string()]);
}

#[test]
fn a_refused_nick_changes_nothing() {
    let mut s = server();
    register(&mut s, "c1", "alice");
    connect(&mut s, "c2");
    let r = nick_msg_sender(&mut s.users, &mut s.channels, NickMsg { nick: nick("alice") }, nick("c2"));
    assert_eq!(r.err(), Some(DispatchError::Client(ErrorType::NickCollision)));
    let r = nick_msg_sender(&mut s.users, &mut s.channels, NickMsg { nick: nick("not a nick") }, nick("c2"));
    assert_eq!(r.err(), Some(DispatchError::Client(ErrorType::InvalidNick)));
    let r = nick_msg_sender(&mut s.users, &mut s.channels, NickMsg { nick: nick("waytoolongnick") }, nick("c2"));
    assert_eq!(r.err(), Some(DispatchError::Client(ErrorType::InvalidNick)));
    assert_eq!(s.users.len(), 2);
    assert_eq!(s.users.snapshot_nick_of("c1"), Some(nick("alice")));
    assert_eq!(s.users.snapshot_nick_of("c2"), Some(nick("c2")));
    assert!(!s.users.get(1).is_set_nick());
    let r = nick_msg_sender(&mut s.users, &mut s.channels, NickMsg { nick: nick("bob") }, nick("c2"));
    assert!(r.is_ok());
    assert_eq!(s.users.snapshot_nick_of("c2"), Some(nick("bob")));
}

#[test]
fn no_two_users_share_a_nick() {
    let mut s = server();
    for id in ["c1", "c2", "c3"] {
        connect(&mut s, id);
    }
    for id in ["c1", "c2", "c3"] {
        line(&mut s, id, "NICK same");
    }
    let e = line(&mut s, "c1", "NICK c3");
    assert_eq!(e.deliveries, vec![d("c1", "436 :Nickname collision")]);
    let mut holders = 0;
    for i in 0..s.users.len() {
        if s.users.get(i).get_nick() == nick("same") {
            holders += 1;
        }
    }
    assert_eq!(holders, 1);
    assert_eq!(s.users.find_by_nick("same"), Some(0));
}

#[test]
fn nothing_succeeds_in_the_name_of_a_user_that_quit() {
    let mut s = server();
    register(&mut s, "c1", "alice");
    register(&mut s, "c2", "bob");
    line(&mut s, "c1", "JOIN #room");
    line(&mut s, "c2", "JOIN #room");
    let r = quit_msg_sender(
        &mut s.users,
        &mut s.channels,
        QuitMsg { message: "bye".to_string() },
        nick("alice"),
    );
    assert_eq!(r.expect("ok").deliveries, vec![d("c2", ":alice QUIT :bye")]);
    for text in ["QUIT :again", "PING x", "JOIN #room", "PART #room", "PRIVMSG #room :boo", "USER a 0 * :A"] {
        let r = global_msg_sender(&mut s.users, &mut s.channels, msg("alice", text));
        assert_eq!(r.err(), Some(DispatchError::UserNotFound));
        let e = dispatch(&mut s.users, &mut s.channels, Ok(msg("alice", text)));
        assert!(e.effects.deliveries.is_empty());
        assert!(e.effects.job.is_none());
        assert_eq!(e.failure, Some(DispatchError::UserNotFound));
    }
    assert_eq!(s.users.len(), 1);
    assert_eq!(members(&s, "#room"), vec!["bob".to_string()]);
    let e = line(&mut s, "c2", "PRIVMSG alice :are you there");
    assert_eq!(e.deliveries, vec![d("c2", "401 :No such nick")]);
}

#[test]
fn quit_tells_each_shared_channel() {
    let mut s = server();
    register(&mut s, "c1", "alice");
    register(&mut s, "c2", "bob");
    register(&mut s, "c3", "carol");
    lines(&mut s, "c1", &["JOIN #a", "JOIN #b"]);
    lines(&mut s, "c2", &["JOIN #a", "JOIN #b"]);
    lines(&mut s, "c3", &["JOIN #b"]);
    let e = line(&mut s, "c1", "QUIT");
    assert_eq!(
        e.deliveries,
        vec![d("c2", ":alice QUIT :"), d("c2", ":alice QUIT :"), d("c3", ":alice QUIT :")]
    );
    assert!(consistent(&s, &["#a", "#b"]));
}

#[test]
fn the_registries_stay_consistent() {
    let mut s = server();
    register(&mut s, "c1", "alice");
    register(&mut s, "c2", "bob");
    connect(&mut s, "c3");
    let names = ["#a", "#b", "#c"];
    let script = [
        ("c1", "JOIN #a"),
        ("c2", "JOIN #a"),
        ("c3", "JOIN #a"),
        ("c1", "JOIN #b"),
        ("c3", "NICK carol"),
        ("c2", "PART #a"),
        ("c2", "PART #c"),
        ("c3", "USER c 0 * :C"),
        ("c3", "JOIN #b"),
        ("c3", "NICK carla"),
        ("c2", "NICK carla"),
        ("c3", "NICK carol"),
        ("c1", "PRIVMSG #b :hi"),
        ("c1", "QUIT :bye"),
        ("c2", "JOIN #c"),
    ];
    for (id, text) in script {
        line(&mut s, id, text);
        assert!(consistent(&s, &names));
    }
    assert_eq!(members(&s, "#a"), Vec::<String>::new());
    assert_eq!(members(&s, "#b"), vec!["carol".to_string()]);
    assert_eq!(members(&s, "#c"), vec!["bob".to_string()]);
}

#[test]
fn a_queue_is_handled_in_order() {
    let mut s = server();
    connect(&mut s, "c1");
    connect(&mut s, "c2");
    let items = vec![
        Ok(msg("c1", "NICK alice")),
        Ok(msg("alice", "USER a 0 * :Alice")),
        Err((ErrorType::UnknownCommand, nick("alice"))),
        Ok(msg("alice", "PING 1")),
        Ok(msg("c2", "NICK alice")),
        Ok(msg("alice", "PING 2")),
    ];
    let out = dispatch_all(&mut s.users, &mut s.channels, items);
    let got: Vec<Vec<Delivery>> = out.into_iter().map(|e| e.deliveries).collect();
    assert_eq!(
        got,
        vec![
            vec![],
            vec![d("c1", ":iris.example 001 alice :Welcome to the server, Alice!")],
            vec![d("c1", "421 :Unknown command")],
            vec![d("c1", "PONG :1")],
            vec![d("c2", "436 :Nickname collision")],
            vec![d("c1", "PONG :2")],
        ]
    );
}

#[test]
fn an_empty_queue_does_nothing() {
    let mut s = server();
    connect(&mut s, "c1");
    let out = dispatch_all(&mut s.users, &mut s.channels, Vec::new());
    assert!(out.is_empty());
    assert_eq!(s.users.len(), 1);
}

#[test]
fn the_handlers_one_by_one() {
    let mut s = server();
    connect(&mut s, "c1");
    connect(&mut s, "c2");
    assert!(nick_msg_sender(&mut s.users, &mut s.channels, NickMsg { nick: nick("alice") }, nick("c1")).is_ok());
    let e = user_msg_sender(&mut s.users, UserMsg { real_name: "Alice".to_string() }, nick("alice"));
    assert_eq!(
        e.expect("ok").deliveries,
        vec![d("c1", ":iris.example 001 alice :Welcome to the server, Alice!")]
    );
    assert!(nick_msg_sender(&mut s.users, &mut s.channels, NickMsg { nick: nick("bob") }, nick("c2")).is_ok());
    assert!(user_msg_sender(&mut s.users, UserMsg { real_name: "Bob".to_string() }, nick("bob")).is_ok());
    let join = |who: &str| JoinMsg { channel: Channel(who.to_string()) };
    let e = join_msg_sender(&mut s.users, &mut s.channels, join("#r"), nick("alice"));
    assert_eq!(e.expect("ok").deliveries, vec![d("c1", ":alice JOIN #r")]);
    let e = join_msg_sender(&mut s.users, &mut s.channels, join("#r"), nick("bob"));
    assert_eq!(e.expect("ok").deliveries, vec![d("c1", ":bob JOIN #r"), d("c2", ":bob JOIN #r")]);
    let e = part_msg_sender(
        &mut s.users,
        &mut s.channels,
        PartMsg { channel: Channel("#r".to_string()) },
        nick("bob"),
    );
    assert_eq!(e.expect("ok").deliveries, vec![d("c1", ":bob PART #r"), d("c2", ":bob PART #r")]);
    let e = part_msg_sender(
        &mut s.users,
        &mut s.channels,
        PartMsg { channel: Channel("#none".to_string()) },
        nick("bob"),
    );
    assert_eq!(e.err(), Some(DispatchError::Client(ErrorType::NoSuchChannel)));
}

#[test]
fn the_handshake_router_drops_channel_traffic() {
    let mut s = server();
    connect(&mut s, "c1");
    assert!(global_msg_handler(&mut s.users, &mut s.channels, msg("c1", "NICK alice")).is_ok());
    let e = global_msg_handler(&mut s.users, &mut s.channels, msg("alice", "USER a 0 * :Alice"));
    assert_eq!(e.expect("ok").deliveries.len(), 1);
    let e = global_msg_handler(&mut s.users, &mut s.channels, msg("alice", "PING 5"));
    assert_eq!(e.expect("ok").deliveries, vec![d("c1", "PONG :5")]);
    let e = global_msg_handler(&mut s.users, &mut s.channels, msg("alice", "JOIN #room"));
    assert!(e.expect("ok").deliveries.is_empty());
    assert!(!s.channels.has_channel("#room"));
    let e = global_msg_handler(&mut s.users, &mut s.channels, msg("alice", "PRIVMSG #room :x"));
    assert!(e.expect("ok").deliveries.is_empty());
    let e = global_msg_handler(&mut s.users, &mut s.channels, msg("alice", "QUIT"));
    assert!(e.is_ok());
    assert_eq!(s.users.len(), 0);
}

#[test]
fn the_reader_snapshots_the_nick() {
    let mut s = server();
    connect(&mut s, "c1");
    let turn = read_line(&s.users, "c1", "NICK alice").expect("known");
    assert!(!turn.stop);
    assert_eq!(turn.item, Ok(msg("c1", "NICK alice")));
    dispatch(&mut s.users, &mut s.channels, turn.item);
    let turn = read_line(&s.users, "c1", "nonsense").expect("known");
    assert_eq!(turn.item, Err((ErrorType::UnknownCommand, nick("alice"))));
    assert!(!turn.stop);
    let turn = read_line(&s.users, "c1", "QUIT").expect("known");
    assert!(!turn.stop);
    line(&mut s, "c1", "USER a 0 * :A");
    let turn = read_line(&s.users, "c1", "PING 1").expect("known");
    assert!(!turn.stop);
    let turn = read_line(&s.users, "c1", "QUIT").expect("known");
    assert!(turn.stop);
    assert!(read_line(&s.users, "c9", "PING 1").is_none());
    assert!(is_quit(&Message::Quit(QuitMsg { message: String::new() })));
    assert!(!is_quit(&Message::Ping("x".to_string())));
}

#[test]
fn a_lost_connection_quits() {
    let mut s = server();
    register(&mut s, "c1", "alice");
    register(&mut s, "c2", "bob");
    line(&mut s, "c1", "JOIN #room");
    line(&mut s, "c2", "JOIN #room");
    let item = connection_lost(&s.users, "c1").expect("known");
    assert_eq!(item, msg("alice", "QUIT"));
    let e = dispatch(&mut s.users, &mut s.channels, Ok(item)).effects;
    assert_eq!(e.deliveries, vec![d("c2", ":alice QUIT :")]);
    assert_eq!(s.users.find_by_id("c1"), None);
    assert!(connection_lost(&s.users, "c1").is_none());
}

#[test]
fn a_rename_reaches_the_channels() {
    let mut s = server();
    register(&mut s, "c1", "alice");
    register(&mut s, "c2", "bob");
    line(&mut s, "c1", "JOIN #room");
    line(&mut s, "c2", "JOIN #room");
    line(&mut s, "c1", "JOIN #solo");
    let e = line(&mut s, "c1", "NICK zed");
    assert!(e.deliveries.is_empty());
    assert_eq!(s.users.snapshot_nick_of("c1"), Some(nick("zed")));
    assert_eq!(joined(&s, "zed"), vec!["#room".to_string(), "#solo".to_string()]);
    assert_eq!(members(&s, "#room"), vec!["zed".to_string(), "bob".to_string()]);
    assert_eq!(members(&s, "#solo"), vec!["zed".to_string()]);
    assert!(!s.channels.has_user("#room", "alice"));
    assert_eq!(s.users.find_by_nick("alice"), None);
    assert!(consistent(&s, &["#room", "#solo"]));
    let said = line(&mut s, "c1", "PRIVMSG #room :it is me");
    assert_eq!(said.deliveries, vec![d("c2", ":zed PRIVMSG #room :it is me")]);
    line(&mut s, "c1", "QUIT");
    assert_eq!(members(&s, "#room"), vec!["bob".to_string()]);
    register(&mut s, "c3", "alice");
    assert!(!s.channels.has_user("#room", "alice"));
    assert!(consistent(&s, &["#room", "#solo"]));
}

#[test]
fn an_unknown_sender_is_an_error_for_the_log() {
    let mut s = server();
    register(&mut s, "c1", "alice");
    for text in [
        "NICK bob",
        "USER g 0 * :Ghost",
        "PING 1",
        "JOIN #room",
        "PART #room",
        "PRIVMSG #room :x",
        "PRIVMSG alice :x",
        "PRIVMSG use_plugin_sample :x",
        "QUIT :bye",
    ] {
        let r = global_msg_sender(&mut s.users, &mut s.channels, msg("ghost", text));
        assert_eq!(r, Err(DispatchError::UserNotFound));
        let h = dispatch(&mut s.users, &mut s.channels, Ok(msg("ghost", text)));
        assert_eq!(h.failure, Some(DispatchError::UserNotFound));
        assert!(h.effects.deliveries.is_empty());
        assert!(h.effects.job.is_none());
    }
    let r = global_msg_sender(&mut s.users, &mut s.channels, msg("ghost", "NICK alice"));
    assert_eq!(r, Err(DispatchError::Client(ErrorType::NickCollision)));
    let malformed = NickMsg { nick: nick("9lives") };
    let r = nick_msg_sender(&mut s.users, &mut s.channels, malformed, nick("ghost"));
    assert_eq!(r, Err(DispatchError::UserNotFound));
    assert_eq!(s.users.len(), 1);
    assert!(!s.channels.has_channel("#room"));
}

#[test]
fn a_handled_item_says_what_failed() {
    let mut s = server();
    register(&mut s, "c1", "alice");
    let turn = read_line(&s.users, "c1", "PART #nowhere").expect("known");
    let h = dispatch(&mut s.users, &mut s.channels, turn.item);
    assert_eq!(h.failure, Some(DispatchError::Client(ErrorType::NoSuchChannel)));
    assert_eq!(h.effects.deliveries, vec![d("c1", "403 :No such channel")]);
    let turn = read_line(&s.users, "c1", "PING 1").expect("known");
    let h = dispatch(&mut s.users, &mut s.channels, turn.item);
    assert_eq!(h.failure, None);
}

#[test]
fn a_connection_whose_id_is_a_nick() {
    let mut s = server();
    register(&mut s, "1", "bob");
    assert!(s.users.add_user(User::new("bob".to_string())));
    assert_eq!(s.users.len(), 2);
    assert_eq!(s.users.find_by_nick("bob"), Some(0));
    assert_eq!(s.users.find_by_id("bob"), Some(1));
    let e = line(&mut s, "1", "PING 1");
    assert_eq!(e.deliveries, vec![d("1", "PONG :1")]);
}

#[test]
fn effects_compare_by_value() {
    let mut s = server();
    register(&mut s, "c1", "alice");
    let e = line(&mut s, "c1", "PING 1");
    assert_eq!(e, Effects { deliveries: vec![d("c1", "PONG :1")], job: None });
    assert_eq!(e.clone(), e);
}
