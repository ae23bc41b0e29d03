//! What the reader of one connection decides.
//!
//! For every line that arrives, the reader looks up the nick that the
//! connection's user has at that moment, parses the line and hands the result
//! to the dispatch queue. It stops after the QUIT of a registered user. When
//! the connection is lost it hands in a QUIT with an empty message, so that
//! the user leaves the registries.
use vstd::prelude::*;
use crate::dispatcher::{item_view, ItemView};
use crate::parser::{parse_line, UnparsedMessage};
use crate::types::{ErrorType, Message, MessageView, Nick, ParsedMessage, QuitMsg};
use crate::user::{has_id, id_index, UserList, UserView};

verus! {

/// What to do with one line: the item for the dispatch queue, and whether
/// the reader is to stop after it.
#[derive(Debug, PartialEq, Eq)]
pub struct ReaderTurn {
    pub item: Result<ParsedMessage, (ErrorType, Nick)>,
    pub stop: bool,
}

/// Whether the reader stops after a line: it does after a QUIT of a
/// registered user.
pub open spec fn stops_after(user: UserView, parsed: Result<MessageView, ErrorType>) -> bool {
    user.registered() && parsed is Ok && parsed->Ok_0 is Quit
}

/// Turns one line that arrived on the connection `id` into an item for the
/// dispatch queue. The item carries the nick that the connection's user has
/// now, or the id while it has none. There is nothing to do where no user is
/// connected under `id`.
pub fn read_line(user_list: &UserList, id: &str, line: &str) -> (turn: Option<ReaderTurn>)
    requires
        user_list.wf(),
    ensures
        turn is Some == has_id(user_list@, id@),
        turn is Some ==> ({
            let user = user_list@[id_index(user_list@, id@)];
            let turn = turn->0;
            &&& item_view(turn.item) == (ItemView {
                sender: user.effective_nick(),
                content: parse_line(line@),
            })
            &&& turn.stop == stops_after(user, parse_line(line@))
        }),
{
    match user_list.find_by_id(id) {
        None => None,
        Some(i) => {
            let user = user_list.get(i);
            let sender_nick = user.get_nick();
            let registered = user.is_registered();
            let fallback = user.get_nick();
            match ParsedMessage::try_from(UnparsedMessage { sender_nick, message: line }) {
                Ok(parsed) => {
                    let stop = registered && is_quit(&parsed.message);
                    Some(ReaderTurn { item: Ok(parsed), stop })
                },
                Err(e) => Some(ReaderTurn { item: Err((e, fallback)), stop: false }),
            }
        },
    }
}

/// Whether `message` is a QUIT.
pub fn is_quit(message: &Message) -> (r: bool)
    ensures
        r == (message@ is Quit),
{
    match message {
        Message::Quit(_) => true,
        _ => false,
    }
}

/// The item to hand in when the connection `id` is lost: a QUIT with an
/// empty message from the connection's user. There is nothing to hand in
/// where no user is connected under `id`.
pub fn connection_lost(user_list: &UserList, id: &str) -> (item: Option<ParsedMessage>)
    requires
        user_list.wf(),
    ensures
        item is Some == has_id(user_list@, id@),
        item is Some ==> item->0.sender_nick@ == user_list@[id_index(
            user_list@,
            id@,
        )].effective_nick() && item->0.message@ == MessageView::Quit(Seq::empty()),
{
    match user_list.snapshot_nick_of(id) {
        None => None,
        Some(sender_nick) => Some(
            ParsedMessage { sender_nick, message: Message::Quit(QuitMsg { message: String::new() }) },
        ),
    }
}

} // verus!
