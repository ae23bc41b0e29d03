//! The protocol's vocabulary: nicks, channels, messages, replies and errors,
//! and the wire form of every reply.
use vstd::prelude::*;
use vstd::string::*;
use crate::text::{all_digits, decimal_value};

verus! {

/// The name under which the server greets a newly registered user.
pub const SERVER_NAME: &'static str = "iris.example";

/// The longest nick that is accepted.
pub const MAX_NICK_LEN: usize = 9;

/// An ASCII letter.
pub open spec fn is_letter(c: char) -> bool {
    ('a' <= c && c <= 'z') || ('A' <= c && c <= 'Z')
}

/// An ASCII decimal digit.
pub open spec fn is_digit(c: char) -> bool {
    '0' <= c && c <= '9'
}

/// A character that may follow the first one of a nick.
pub open spec fn is_nick_char(c: char) -> bool {
    is_letter(c) || is_digit(c) || c == '-' || c == '_'
}

/// The grammar of a nick: one to nine characters, a letter first, then
/// letters, digits, `-` or `_`.
pub open spec fn valid_nick(s: Seq<char>) -> bool {
    &&& 1 <= s.len() <= 9
    &&& is_letter(s[0])
    &&& forall|i: int| 1 <= i < s.len() ==> is_nick_char(#[trigger] s[i])
}

/// No nick is longer than nine characters, and none begins with a digit.
pub proof fn lemma_nick_bounds(s: Seq<char>)
    ensures
        s.len() > 9 ==> !valid_nick(s),
        s.len() > 0 && is_digit(s[0]) ==> !valid_nick(s),
{
}

/// Any nine letters, and any fewer but one at least, make a nick.
pub proof fn lemma_letters_make_a_nick(s: Seq<char>)
    requires
        1 <= s.len() <= 9,
        forall|i: int| 0 <= i < s.len() ==> is_letter(#[trigger] s[i]),
    ensures
        valid_nick(s),
{
}

/// The grammar of a channel name: it begins with `#`.
pub open spec fn valid_channel(s: Seq<char>) -> bool {
    s.len() >= 1 && s[0] == '#'
}

/// The errors that are reported to a client.
#[derive(Clone, Copy, Debug, PartialEq, Eq, Structural)]
pub enum ErrorType {
    NickCollision,
    InvalidNick,
    NoSuchNick,
    NoSuchChannel,
    NeedMoreParams,
    UnknownCommand,
    PluginCommandError,
}

/// Why a message was not handled.
#[derive(Clone, Copy, Debug, PartialEq, Eq, Structural)]
pub enum DispatchError {
    /// An error of the protocol, which is reported to the sender.
    Client(ErrorType),
    /// No user is found under the sender's nick. There is nobody to tell:
    /// the caller may log it.
    UserNotFound,
}

/// The numeric of an error and its explanation, as they stand on the wire.
pub open spec fn error_text(e: ErrorType) -> Seq<char> {
    match e {
        ErrorType::NickCollision => "436 :Nickname collision"@,
        ErrorType::InvalidNick => "432 :Erroneous nickname"@,
        ErrorType::NoSuchNick => "401 :No such nick"@,
        ErrorType::NoSuchChannel => "403 :No such channel"@,
        ErrorType::NeedMoreParams => "461 :Not enough parameters"@,
        ErrorType::UnknownCommand => "421 :Unknown command"@,
        ErrorType::PluginCommandError => "400 :Plugin command error"@,
    }
}

/// The numeric of an error.
pub open spec fn error_code(e: ErrorType) -> u16 {
    match e {
        ErrorType::NickCollision => 436,
        ErrorType::InvalidNick => 432,
        ErrorType::NoSuchNick => 401,
        ErrorType::NoSuchChannel => 403,
        ErrorType::NeedMoreParams => 461,
        ErrorType::UnknownCommand => 421,
        ErrorType::PluginCommandError => 400,
    }
}

/// The line that greets `nick`.
pub open spec fn welcome_line(nick: Seq<char>, message: Seq<char>) -> Seq<char> {
    ":"@ + SERVER_NAME@ + " 001 "@ + nick + " :"@ + message + "\r\n"@
}

/// The text of the greeting for a user whose real name is `real_name`.
pub open spec fn welcome_text(real_name: Seq<char>) -> Seq<char> {
    "Welcome to the server, "@ + real_name + "!"@
}

/// The answer to a ping with `token`.
pub open spec fn pong_line(token: Seq<char>) -> Seq<char> {
    "PONG :"@ + token + "\r\n"@
}

/// A message `text` from `sender` to `target`, a channel or a nick.
pub open spec fn privmsg_line(sender: Seq<char>, target: Seq<char>, text: Seq<char>) -> Seq<char> {
    ":"@ + sender + " PRIVMSG "@ + target + " :"@ + text + "\r\n"@
}

/// The notice that `sender` joined `channel`.
pub open spec fn join_line(sender: Seq<char>, channel: Seq<char>) -> Seq<char> {
    ":"@ + sender + " JOIN "@ + channel + "\r\n"@
}

/// The notice that `sender` left `channel`.
pub open spec fn part_line(sender: Seq<char>, channel: Seq<char>) -> Seq<char> {
    ":"@ + sender + " PART "@ + channel + "\r\n"@
}

/// The notice that `sender` quit with `message`.
pub open spec fn quit_line(sender: Seq<char>, message: Seq<char>) -> Seq<char> {
    ":"@ + sender + " QUIT :"@ + message + "\r\n"@
}

/// The line that reports `e`.
pub open spec fn error_line(e: ErrorType) -> Seq<char> {
    error_text(e) + "\r\n"@
}

/// The report of an error begins with the three digits of its numeric, a
/// space and a colon.
pub proof fn lemma_error_text_begins_with_code(e: ErrorType)
    ensures
        error_text(e).len() > 5,
        all_digits(error_text(e).subrange(0, 3)),
        decimal_value(error_text(e).subrange(0, 3)) == error_code(e),
        error_text(e)[3] == ' ',
        error_text(e)[4] == ':',
{
    reveal_strlit("436 :Nickname collision");
    reveal_strlit("432 :Erroneous nickname");
    reveal_strlit("401 :No such nick");
    reveal_strlit("403 :No such channel");
    reveal_strlit("461 :Not enough parameters");
    reveal_strlit("421 :Unknown command");
    reveal_strlit("400 :Plugin command error");
    let digits = error_text(e).subrange(0, 3);
    assert(digits.drop_last() =~= seq![digits[0], digits[1]]);
    assert(digits.drop_last().drop_last() =~= seq![digits[0]]);
    assert(digits.drop_last().drop_last().drop_last() =~= Seq::<char>::empty());
    reveal_with_fuel(decimal_value, 4);
}

/// Every reply is one line: it ends with a carriage return and a line feed.
pub proof fn lemma_reply_ends_the_line(r: Reply)
    ensures
        reply_line(r).len() >= 2,
        reply_line(r)[reply_line(r).len() - 2] == '\r',
        reply_line(r)[reply_line(r).len() - 1] == '\n',
{
    reveal_strlit("\r\n");
}

impl ErrorType {
    /// The numeric that stands for this error on the wire.
    pub fn code(&self) -> (c: u16)
        ensures
            c == error_code(*self),
    {
        match self {
            ErrorType::NickCollision => 436,
            ErrorType::InvalidNick => 432,
            ErrorType::NoSuchNick => 401,
            ErrorType::NoSuchChannel => 403,
            ErrorType::NeedMoreParams => 461,
            ErrorType::UnknownCommand => 421,
            ErrorType::PluginCommandError => 400,
        }
    }

    /// The numeric and the explanation, without the line end.
    pub fn text(&self) -> (s: String)
        ensures
            s@ == error_text(*self),
    {
        match self {
            ErrorType::NickCollision => String::from_str("436 :Nickname collision"),
            ErrorType::InvalidNick => String::from_str("432 :Erroneous nickname"),
            ErrorType::NoSuchNick => String::from_str("401 :No such nick"),
            ErrorType::NoSuchChannel => String::from_str("403 :No such channel"),
            ErrorType::NeedMoreParams => String::from_str("461 :Not enough parameters"),
            ErrorType::UnknownCommand => String::from_str("421 :Unknown command"),
            ErrorType::PluginCommandError => String::from_str("400 :Plugin command error"),
        }
    }

    /// The line that reports this error to a client.
    pub fn to_wire(&self) -> (s: String)
        ensures
            s@ == error_line(*self),
    {
        let mut s = self.text();
        s.append("\r\n");
        s
    }
}

/// A user's short public name.
#[derive(Clone, Debug, PartialEq, Eq)]
pub struct Nick(pub String);

impl View for Nick {
    type V = Seq<char>;

    open spec fn view(&self) -> Seq<char> {
        self.0@
    }
}

impl Nick {
    /// Accepts `s` as a nick where it follows the grammar of nicks.
    pub fn try_from(s: String) -> (r: Result<Nick, ErrorType>)
        ensures
            valid_nick(s@) ==> r is Ok && r->Ok_0@ == s@,
            !valid_nick(s@) ==> r == Err::<Nick, ErrorType>(ErrorType::InvalidNick),
    {
        if is_valid_nick(s.as_str()) {
            Ok(Nick(s))
        } else {
            Err(ErrorType::InvalidNick)
        }
    }
}

/// Whether `s` follows the grammar of nicks.
pub fn is_valid_nick(s: &str) -> (r: bool)
    ensures
        r == valid_nick(s@),
{
    let n = s.unicode_len();
    if n < 1 || n > MAX_NICK_LEN {
        return false;
    }
    let first = s.get_char(0);
    if !is_ascii_letter(first) {
        return false;
    }
    let mut i: usize = 1;
    while i < n
        invariant
            1 <= i <= n,
            n == s@.len(),
            forall|j: int| 1 <= j < i ==> is_nick_char(#[trigger] s@[j]),
        decreases n - i,
    {
        let c = s.get_char(i);
        if !(is_ascii_letter(c) || is_ascii_digit(c) || c == '-' || c == '_') {
            return false;
        }
        i += 1;
    }
    true
}

/// Whether `c` is an ASCII letter.
pub fn is_ascii_letter(c: char) -> (r: bool)
    ensures
        r == is_letter(c),
{
    ('a' <= c && c <= 'z') || ('A' <= c && c <= 'Z')
}

/// Whether `c` is an ASCII decimal digit.
pub fn is_ascii_digit(c: char) -> (r: bool)
    ensures
        r == is_digit(c),
{
    '0' <= c && c <= '9'
}

/// Whether `s` follows the grammar of channel names.
pub fn is_valid_channel(s: &str) -> (r: bool)
    ensures
        r == valid_channel(s@),
{
    s.unicode_len() >= 1 && s.get_char(0) == '#'
}

/// The name of a channel.
#[derive(Clone, Debug, PartialEq, Eq)]
pub struct Channel(pub String);

impl View for Channel {
    type V = Seq<char>;

    open spec fn view(&self) -> Seq<char> {
        self.0@
    }
}

impl Channel {
    /// Accepts `s` as the name of a channel where it begins with `#`.
    pub fn try_from(s: String) -> (r: Result<Channel, ErrorType>)
        ensures
            valid_channel(s@) ==> r is Ok && r->Ok_0@ == s@,
            !valid_channel(s@) ==> r == Err::<Channel, ErrorType>(ErrorType::NoSuchChannel),
    {
        if is_valid_channel(s.as_str()) {
            Ok(Channel(s))
        } else {
            Err(ErrorType::NoSuchChannel)
        }
    }
}

/// Whom a private message is for.
#[derive(Clone, Debug, PartialEq, Eq)]
pub enum Target {
    Channel(Channel),
    User(Nick),
}

impl View for Target {
    type V = Seq<char>;

    /// The target as it is written on the wire.
    open spec fn view(&self) -> Seq<char> {
        match self {
            Target::Channel(c) => c@,
            Target::User(n) => n@,
        }
    }
}

#[derive(Clone, Debug, PartialEq, Eq)]
pub struct NickMsg {
    pub nick: Nick,
}

#[derive(Clone, Debug, PartialEq, Eq)]
pub struct UserMsg {
    pub real_name: String,
}

#[derive(Clone, Debug, PartialEq, Eq)]
pub struct QuitMsg {
    pub message: String,
}

#[derive(Clone, Debug, PartialEq, Eq)]
pub struct JoinMsg {
    pub channel: Channel,
}

#[derive(Clone, Debug, PartialEq, Eq)]
pub struct PartMsg {
    pub channel: Channel,
}

#[derive(Clone, Debug, PartialEq, Eq)]
pub struct PrivMsg {
    pub target: Target,
    pub message: String,
}

/// What a client can ask for.
#[derive(Clone, Debug, PartialEq, Eq)]
pub enum Message {
    Nick(NickMsg),
    User(UserMsg),
    Ping(String),
    Quit(QuitMsg),
    Join(JoinMsg),
    Part(PartMsg),
    PrivMsg(PrivMsg),
}

/// A message as plain values: the nick of a NICK, the real name of a USER,
/// the token of a PING, the message of a QUIT, the channel of a JOIN or a
/// PART, and the target and text of a PRIVMSG, to a channel or to a nick.
pub enum MessageView {
    Nick(Seq<char>),
    User(Seq<char>),
    Ping(Seq<char>),
    Quit(Seq<char>),
    Join(Seq<char>),
    Part(Seq<char>),
    ToChannel(Seq<char>, Seq<char>),
    ToNick(Seq<char>, Seq<char>),
}

impl View for Message {
    type V = MessageView;

    open spec fn view(&self) -> MessageView {
        match self {
            Message::Nick(m) => MessageView::Nick(m.nick@),
            Message::User(m) => MessageView::User(m.real_name@),
            Message::Ping(token) => MessageView::Ping(token@),
            Message::Quit(m) => MessageView::Quit(m.message@),
            Message::Join(m) => MessageView::Join(m.channel@),
            Message::Part(m) => MessageView::Part(m.channel@),
            Message::PrivMsg(m) => match m.target {
                Target::Channel(c) => MessageView::ToChannel(c@, m.message@),
                Target::User(n) => MessageView::ToNick(n@, m.message@),
            },
        }
    }
}

/// A message together with the nick its sender had when the line was read,
/// or the sender's connection id where no nick was set yet.
#[derive(Clone, Debug, PartialEq, Eq)]
pub struct ParsedMessage {
    pub sender_nick: Nick,
    pub message: Message,
}

#[derive(Clone, Debug, PartialEq, Eq)]
pub struct WelcomeReply {
    pub target_nick: Nick,
    pub message: String,
}

#[derive(Clone, Debug, PartialEq, Eq)]
pub struct PrivReply {
    pub sender_nick: Nick,
    pub message: PrivMsg,
}

#[derive(Clone, Debug, PartialEq, Eq)]
pub struct JoinReply {
    pub sender_nick: Nick,
    pub message: JoinMsg,
}

#[derive(Clone, Debug, PartialEq, Eq)]
pub struct PartReply {
    pub sender_nick: Nick,
    pub message: PartMsg,
}

#[derive(Clone, Debug, PartialEq, Eq)]
pub struct QuitReply {
    pub sender_nick: Nick,
    pub message: QuitMsg,
}

/// What the server can say to a client.
#[derive(Clone, Debug, PartialEq, Eq)]
pub enum Reply {
    Welcome(WelcomeReply),
    Pong(String),
    PrivMsg(PrivReply),
    Join(JoinReply),
    Part(PartReply),
    Quit(QuitReply),
    Error(ErrorType),
}

/// The wire form of a reply, line end included.
pub open spec fn reply_line(r: Reply) -> Seq<char> {
    match r {
        Reply::Welcome(w) => welcome_line(w.target_nick@, w.message@),
        Reply::Pong(token) => pong_line(token@),
        Reply::PrivMsg(p) => privmsg_line(p.sender_nick@, p.message.target@, p.message.message@),
        Reply::Join(j) => join_line(j.sender_nick@, j.message.channel@),
        Reply::Part(p) => part_line(p.sender_nick@, p.message.channel@),
        Reply::Quit(q) => quit_line(q.sender_nick@, q.message.message@),
        Reply::Error(e) => error_line(e),
    }
}

/// Builds `":" + sender + verb + rest`, the common head of most replies.
fn prefixed(sender: &str, verb: &str, rest: &str) -> (s: String)
    ensures
        s@ == ":"@ + sender@ + verb@ + rest@,
{
    let mut s = String::from_str(":");
    s.append(sender);
    s.append(verb);
    s.append(rest);
    s
}

/// The text that greets a user whose real name is `real_name`.
pub fn welcome_message(real_name: &str) -> (s: String)
    ensures
        s@ == welcome_text(real_name@),
{
    let mut s = String::from_str("Welcome to the server, ");
    s.append(real_name);
    s.append("!");
    s
}

impl Reply {
    /// The line that carries this reply, line end included.
    pub fn to_wire(&self) -> (s: String)
        ensures
            s@ == reply_line(*self),
    {
        match self {
            Reply::Welcome(w) => {
                let mut s = prefixed(SERVER_NAME, " 001 ", w.target_nick.0.as_str());
                s.append(" :");
                s.append(w.message.as_str());
                s.append("\r\n");
                s
            },
            Reply::Pong(token) => {
                let mut s = String::from_str("PONG :");
                s.append(token.as_str());
                s.append("\r\n");
                s
            },
            Reply::PrivMsg(p) => {
                let target: &str = match &p.message.target {
                    Target::Channel(c) => c.0.as_str(),
                    Target::User(n) => n.0.as_str(),
                };
                let mut s = prefixed(p.sender_nick.0.as_str(), " PRIVMSG ", target);
                s.append(" :");
                s.append(p.message.message.as_str());
                s.append("\r\n");
                s
            },
            Reply::Join(j) => {
                let mut s = prefixed(j.sender_nick.0.as_str(), " JOIN ", j.message.channel.0.as_str());
                s.append("\r\n");
                s
            },
            Reply::Part(p) => {
                let mut s = prefixed(p.sender_nick.0.as_str(), " PART ", p.message.channel.0.as_str());
                s.append("\r\n");
                s
            },
            Reply::Quit(q) => {
                let mut s = prefixed(q.sender_nick.0.as_str(), " QUIT :", q.message.message.as_str());
                s.append("\r\n");
                s
            },
            Reply::Error(e) => e.to_wire(),
        }
    }
}

} // verus!
