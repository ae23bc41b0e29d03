//! The reading half of the codec: one line of wire text to one message.
//!
//! A line is a command word and, after the first space, its parameters. The
//! command word is read without regard to case; parameters are taken as they
//! stand.
use vstd::prelude::*;
use vstd::string::*;
use crate::text::{find_char, first_index, lemma_first_index};
use crate::types::{
    is_valid_channel, is_valid_nick, valid_channel, valid_nick, Channel, ErrorType, JoinMsg,
    Message, MessageView, Nick, NickMsg, ParsedMessage, PartMsg, PrivMsg, QuitMsg, Target,
    UserMsg,
};

verus! {

/// A line as it was read, with the nick its sender had at that moment.
#[derive(Debug)]
pub struct UnparsedMessage<'a> {
    pub sender_nick: Nick,
    pub message: &'a str,
}

/// Whether `c` stands in `s`.
pub open spec fn has_char(s: Seq<char>, c: char) -> bool {
    first_index(s, c) < s.len()
}

/// The part of `s` before the first `c`; all of `s` where `c` does not stand
/// in it.
pub open spec fn before_first(s: Seq<char>, c: char) -> Seq<char> {
    s.subrange(0, first_index(s, c))
}

/// The part of `s` after the first `c`; nothing where `c` does not stand in
/// it.
pub open spec fn after_first(s: Seq<char>, c: char) -> Seq<char> {
    if has_char(s, c) {
        s.subrange(first_index(s, c) + 1, s.len() as int)
    } else {
        Seq::empty()
    }
}

/// Whether `word` is the keyword whose capital letters are `upper` and whose
/// small letters are `lower`, in any mix of the two.
pub open spec fn is_keyword(word: Seq<char>, upper: Seq<char>, lower: Seq<char>) -> bool {
    &&& word.len() == upper.len()
    &&& upper.len() == lower.len()
    &&& forall|i: int| 0 <= i < word.len() ==> #[trigger] word[i] == upper[i] || word[i] == lower[i]
}

/// `NICK <nick>`: the parameter is the nick and must follow the grammar of
/// nicks.
pub open spec fn parse_nick(rest: Seq<char>) -> Result<MessageView, ErrorType> {
    if rest.len() == 0 {
        Err(ErrorType::NeedMoreParams)
    } else if !valid_nick(rest) {
        Err(ErrorType::InvalidNick)
    } else {
        Ok(MessageView::Nick(rest))
    }
}

/// Whether `head` is three words, each followed by one space, and no more.
pub open spec fn is_three_words(head: Seq<char>) -> bool {
    let second = after_first(head, ' ');
    let third = after_first(second, ' ');
    &&& before_first(head, ' ').len() > 0
    &&& before_first(second, ' ').len() > 0
    &&& before_first(third, ' ').len() > 0
    &&& has_char(third, ' ')
    &&& after_first(third, ' ').len() == 0
}

/// `USER <user> <mode> <unused> :<real_name>`: three words stand before the
/// first colon, and the real name is what follows it.
pub open spec fn parse_user(rest: Seq<char>) -> Result<MessageView, ErrorType> {
    if !has_char(rest, ':') || !is_three_words(before_first(rest, ':')) {
        Err(ErrorType::NeedMoreParams)
    } else {
        Ok(MessageView::User(after_first(rest, ':')))
    }
}

/// `PING <token>`.
pub open spec fn parse_ping(rest: Seq<char>) -> Result<MessageView, ErrorType> {
    if rest.len() == 0 {
        Err(ErrorType::NeedMoreParams)
    } else {
        Ok(MessageView::Ping(rest))
    }
}

/// `QUIT [:<message>]`: the message is what follows the first colon, and
/// empty without one.
pub open spec fn parse_quit(rest: Seq<char>) -> Result<MessageView, ErrorType> {
    Ok(MessageView::Quit(after_first(rest, ':')))
}

/// `JOIN <channel>` and `PART <channel>`: the parameter is the channel and
/// must begin with `#`.
pub open spec fn parse_channel(rest: Seq<char>) -> Result<Seq<char>, ErrorType> {
    if rest.len() == 0 {
        Err(ErrorType::NeedMoreParams)
    } else if !valid_channel(rest) {
        Err(ErrorType::NoSuchChannel)
    } else {
        Ok(rest)
    }
}

/// `PRIVMSG <target> :<text>`: the target is the first word, a channel where
/// it begins with `#` and a nick otherwise; the text follows the colon that
/// stands right after the space behind the target.
pub open spec fn parse_privmsg(rest: Seq<char>) -> Result<MessageView, ErrorType> {
    let target = before_first(rest, ' ');
    let tail = after_first(rest, ' ');
    if target.len() == 0 || tail.len() == 0 || tail[0] != ':' {
        Err(ErrorType::NeedMoreParams)
    } else {
        let text = tail.subrange(1, tail.len() as int);
        if valid_channel(target) {
            Ok(MessageView::ToChannel(target, text))
        } else {
            Ok(MessageView::ToNick(target, text))
        }
    }
}

/// What a line means.
pub open spec fn parse_line(line: Seq<char>) -> Result<MessageView, ErrorType> {
    let command = before_first(line, ' ');
    let rest = after_first(line, ' ');
    if is_keyword(command, "NICK"@, "nick"@) {
        parse_nick(rest)
    } else if is_keyword(command, "USER"@, "user"@) {
        parse_user(rest)
    } else if is_keyword(command, "PING"@, "ping"@) {
        parse_ping(rest)
    } else if is_keyword(command, "QUIT"@, "quit"@) {
        parse_quit(rest)
    } else if is_keyword(command, "JOIN"@, "join"@) {
        match parse_channel(rest) {
            Ok(c) => Ok(MessageView::Join(c)),
            Err(e) => Err(e),
        }
    } else if is_keyword(command, "PART"@, "part"@) {
        match parse_channel(rest) {
            Ok(c) => Ok(MessageView::Part(c)),
            Err(e) => Err(e),
        }
    } else if is_keyword(command, "PRIVMSG"@, "privmsg"@) {
        parse_privmsg(rest)
    } else {
        Err(ErrorType::UnknownCommand)
    }
}

/// The result of parsing as plain values.
pub open spec fn parsed_view(r: Result<ParsedMessage, ErrorType>) -> Result<
    MessageView,
    ErrorType,
> {
    match r {
        Ok(p) => Ok(p.message@),
        Err(e) => Err(e),
    }
}

/// Cuts `s` at the first `c`: what stands before it, whether `c` was found,
/// and what stands after it.
pub fn split_first<'a>(s: &'a str, c: char) -> (parts: (&'a str, bool, &'a str))
    ensures
        parts.0@ == before_first(s@, c),
        parts.1 == has_char(s@, c),
        parts.2@ == after_first(s@, c),
{
    let n = s.unicode_len();
    let cut = find_char(s, c, 0);
    proof {
        lemma_first_index(s@, c, cut as int);
    }
    let head = s.substring_char(0, cut);
    if cut < n {
        (head, true, s.substring_char(cut + 1, n))
    } else {
        let tail = s.substring_char(n, n);
        assert(tail@ =~= Seq::<char>::empty());
        (head, false, tail)
    }
}

/// Whether `word` is the keyword written `upper` in capital letters and
/// `lower` in small ones.
pub fn matches_keyword(word: &str, upper: &str, lower: &str) -> (r: bool)
    ensures
        r == is_keyword(word@, upper@, lower@),
{
    let n = word.unicode_len();
    if n != upper.unicode_len() || n != lower.unicode_len() {
        return false;
    }
    let mut i: usize = 0;
    while i < n
        invariant
            i <= n,
            n == word@.len(),
            n == upper@.len(),
            n == lower@.len(),
            forall|j: int| 0 <= j < i ==> #[trigger] word@[j] == upper@[j] || word@[j] == lower@[j],
        decreases n - i,
    {
        let c = word.get_char(i);
        if c != upper.get_char(i) && c != lower.get_char(i) {
            return false;
        }
        i += 1;
    }
    true
}

/// Whether `head` is three words, each followed by one space, and no more.
pub fn has_three_words(head: &str) -> (r: bool)
    ensures
        r == is_three_words(head@),
{
    let (first, _, second) = split_first(head, ' ');
    let (middle, _, third) = split_first(second, ' ');
    let (last, found, tail) = split_first(third, ' ');
    first.unicode_len() > 0 && middle.unicode_len() > 0 && last.unicode_len() > 0 && found
        && tail.unicode_len() == 0
}

fn read_channel(rest: &str) -> (r: Result<Channel, ErrorType>)
    ensures
        match r {
            Ok(c) => parse_channel(rest@) == Ok::<Seq<char>, ErrorType>(c@),
            Err(e) => parse_channel(rest@) == Err::<Seq<char>, ErrorType>(e),
        },
{
    if rest.unicode_len() == 0 {
        Err(ErrorType::NeedMoreParams)
    } else {
        Channel::try_from(rest.to_owned())
    }
}

fn read_privmsg(rest: &str) -> (r: Result<Message, ErrorType>)
    ensures
        match r {
            Ok(m) => parse_privmsg(rest@) == Ok::<MessageView, ErrorType>(m@),
            Err(e) => parse_privmsg(rest@) == Err::<MessageView, ErrorType>(e),
        },
{
    let (target, _found, tail) = split_first(rest, ' ');
    let n = tail.unicode_len();
    if target.unicode_len() == 0 || n == 0 || tail.get_char(0) != ':' {
        return Err(ErrorType::NeedMoreParams);
    }
    let message = tail.substring_char(1, n).to_owned();
    if is_valid_channel(target) {
        Ok(Message::PrivMsg(PrivMsg { target: Target::Channel(Channel(target.to_owned())), message }))
    } else {
        Ok(Message::PrivMsg(PrivMsg { target: Target::User(Nick(target.to_owned())), message }))
    }
}

/// Reads one line, without its line end, as a message.
pub fn parse_message_body(line: &str) -> (r: Result<Message, ErrorType>)
    ensures
        match r {
            Ok(m) => parse_line(line@) == Ok::<MessageView, ErrorType>(m@),
            Err(e) => parse_line(line@) == Err::<MessageView, ErrorType>(e),
        },
{
    let (command, _found, rest) = split_first(line, ' ');
    if matches_keyword(command, "NICK", "nick") {
        if rest.unicode_len() == 0 {
            Err(ErrorType::NeedMoreParams)
        } else if !is_valid_nick(rest) {
            Err(ErrorType::InvalidNick)
        } else {
            Ok(Message::Nick(NickMsg { nick: Nick(rest.to_owned()) }))
        }
    } else if matches_keyword(command, "USER", "user") {
        let (head, found, real_name) = split_first(rest, ':');
        if !found || !has_three_words(head) {
            Err(ErrorType::NeedMoreParams)
        } else {
            Ok(Message::User(UserMsg { real_name: real_name.to_owned() }))
        }
    } else if matches_keyword(command, "PING", "ping") {
        if rest.unicode_len() == 0 {
            Err(ErrorType::NeedMoreParams)
        } else {
            Ok(Message::Ping(rest.to_owned()))
        }
    } else if matches_keyword(command, "QUIT", "quit") {
        let (_head, _found, message) = split_first(rest, ':');
        Ok(Message::Quit(QuitMsg { message: message.to_owned() }))
    } else if matches_keyword(command, "JOIN", "join") {
        match read_channel(rest) {
            Ok(channel) => Ok(Message::Join(JoinMsg { channel })),
            Err(e) => Err(e),
        }
    } else if matches_keyword(command, "PART", "part") {
        match read_channel(rest) {
            Ok(channel) => Ok(Message::Part(PartMsg { channel })),
            Err(e) => Err(e),
        }
    } else if matches_keyword(command, "PRIVMSG", "privmsg") {
        read_privmsg(rest)
    } else {
        Err(ErrorType::UnknownCommand)
    }
}

impl ParsedMessage {
    /// Reads the line of `value` as a message from the sender of `value`.
    pub fn try_from(value: UnparsedMessage) -> (r: Result<ParsedMessage, ErrorType>)
        ensures
            parsed_view(r) == parse_line(value.message@),
            r is Ok ==> r->Ok_0.sender_nick@ == value.sender_nick@,
    {
        match parse_message_body(value.message) {
            Ok(message) => Ok(ParsedMessage { sender_nick: value.sender_nick, message }),
            Err(e) => Err(e),
        }
    }
}

} // verus!
