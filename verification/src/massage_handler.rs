//! The handshake router: NICK, USER, PING and QUIT, and nothing else.
//!
//! It serves a server without channels. A JOIN, a PART or a PRIVMSG is
//! dropped in silence; the other four kinds are handled as the full router
//! handles them.
use vstd::prelude::*;
use crate::channel_list::{ChannelList, ChannelView};
use crate::massage_sender::{
    error_delivery, error_msg_sender, global_msg_sender, message_step, quiet, Effects, Step,
    outcome_view,
};
use crate::types::{DispatchError, Message, MessageView, Nick, ParsedMessage};
use crate::user::{Delivery, UserList, UserView};

verus! {

/// Whether a message is one of the four kinds that the handshake router
/// handles.
pub open spec fn is_handshake(message: MessageView) -> bool {
    message is Nick || message is User || message is Ping || message is Quit
}

/// What a message does when only the handshake is served.
pub open spec fn handshake_step(
    users: Seq<UserView>,
    channels: Seq<ChannelView>,
    sender: Seq<char>,
    message: MessageView,
) -> Step {
    if is_handshake(message) {
        message_step(users, channels, sender, message)
    } else {
        Step { users, channels, outcome: quiet() }
    }
}

/// Reports `err` to the user found under `sender_nick`. Nobody is told
/// where no user is found, or where the error is no client's.
pub fn error_msg_handler(err: DispatchError, user_list: &UserList, sender_nick: Nick) -> (d: Option<
    Delivery,
>)
    requires
        user_list.wf(),
    ensures
        match d {
            Some(d) => error_delivery(user_list@, err, sender_nick@) == Some(d@),
            None => error_delivery(user_list@, err, sender_nick@) is None,
        },
{
    error_msg_sender(err, user_list, sender_nick)
}

/// Handles one message of the handshake; any other message is dropped.
pub fn global_msg_handler(
    user_list: &mut UserList,
    channel_list: &mut ChannelList,
    parsed_msg: ParsedMessage,
) -> (r: Result<Effects, DispatchError>)
    requires
        old(user_list).wf(),
        old(channel_list).wf(),
    ensures
        final(user_list).wf(),
        final(channel_list).wf(),
        (Step {
            users: final(user_list)@,
            channels: final(channel_list)@,
            outcome: outcome_view(r),
        }) == handshake_step(
            old(user_list)@,
            old(channel_list)@,
            parsed_msg.sender_nick@,
            parsed_msg.message@,
        ),
{
    let served = match &parsed_msg.message {
        Message::Nick(_) => true,
        Message::User(_) => true,
        Message::Ping(_) => true,
        Message::Quit(_) => true,
        _ => false,
    };
    if served {
        global_msg_sender(user_list, channel_list, parsed_msg)
    } else {
        Ok(crate::massage_sender::no_effects())
    }
}

} // verus!
