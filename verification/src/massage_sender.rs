//! The dispatcher: one message in, registry changes and deliveries out.
//!
//! Every handler is described by a function on plain values, from the state
//! before the message to the state after it and what is to be delivered. The
//! handler itself is proved to compute exactly that. A handler that reports
//! an error has changed nothing. An error is a client's, which the sender is
//! told, or it says that no user is found under the sender's nick, which
//! nobody is told.
use vstd::prelude::*;
use crate::channel_list::{
    channel_exists, is_member, members_of, renamed_everywhere, with_member, without_member,
    without_nick, ChannelList, ChannelView,
};
use crate::plugin::{is_plugin_nick, names_plugin, plugin_handler, plugin_job, JobView, PluginJob};
use crate::text::{drop_text, texts, with_item, without};
use crate::types::{
    error_line, join_line, part_line, pong_line, privmsg_line, quit_line, welcome_line,
    welcome_message, welcome_text, valid_nick, DispatchError, ErrorType, JoinMsg, JoinReply,
    Message,
    MessageView, Nick, NickMsg, ParsedMessage, PartMsg, PartReply, PrivMsg, PrivReply, QuitMsg,
    QuitReply, Reply, Target, UserMsg, WelcomeReply,
};
use crate::user::{
    deliveries_view, has_nick, is_registered, nick_index, Delivery, DeliveryView,
    UserList, UserView,
};

verus! {

/// What handling one message asks of the caller: lines to write now, and
/// perhaps a plugin's reply to send later.
#[derive(Clone, Debug, PartialEq, Eq)]
pub struct Effects {
    /// The lines to write, in this order.
    pub deliveries: Vec<Delivery>,
    /// The reply that a plugin scheduled, if the message was for a plugin.
    pub job: Option<PluginJob>,
}

/// Effects as plain values.
pub struct EffectsView {
    pub deliveries: Seq<DeliveryView>,
    pub job: Option<JobView>,
}

impl View for Effects {
    type V = EffectsView;

    open spec fn view(&self) -> EffectsView {
        EffectsView {
            deliveries: deliveries_view(self.deliveries@),
            job: match self.job {
                Some(j) => Some(j@),
                None => None,
            },
        }
    }
}

/// What a handler returns, as plain values.
pub open spec fn outcome_view(r: Result<Effects, DispatchError>) -> Result<
    EffectsView,
    DispatchError,
> {
    match r {
        Ok(e) => Ok(e@),
        Err(e) => Err(e),
    }
}

/// Nothing to write and nothing scheduled.
pub open spec fn nothing() -> EffectsView {
    EffectsView { deliveries: Seq::empty(), job: None }
}

/// The outcome of a message that is dropped in silence.
pub open spec fn quiet() -> Result<EffectsView, DispatchError> {
    Ok(nothing())
}

/// The outcome of a message that leads to the deliveries `d` and no more.
pub open spec fn delivering(d: Seq<DeliveryView>) -> Result<EffectsView, DispatchError> {
    Ok(EffectsView { deliveries: d, job: None })
}

/// The outcome of a message that is refused with an error for the sender.
pub open spec fn refused(e: ErrorType) -> Result<EffectsView, DispatchError> {
    Err(DispatchError::Client(e))
}

/// The outcome of a message under whose sender's nick no user is found.
pub open spec fn unknown_sender() -> Result<EffectsView, DispatchError> {
    Err(DispatchError::UserNotFound)
}

/// The user registry after a message, and the message's outcome.
pub struct UserStep {
    pub users: Seq<UserView>,
    pub outcome: Result<EffectsView, DispatchError>,
}

/// Both registries after a message, and the message's outcome.
pub struct Step {
    pub users: Seq<UserView>,
    pub channels: Seq<ChannelView>,
    pub outcome: Result<EffectsView, DispatchError>,
}

/// A step of the user registry beside channels that it leaves alone.
pub open spec fn beside(step: UserStep, channels: Seq<ChannelView>) -> Step {
    Step { users: step.users, channels, outcome: step.outcome }
}

/// One copy of `line` for each of `members`, in their order, addressed to the
/// connection of the user found under that nick; a nick under which no user
/// is found gets none.
pub open spec fn fan_out(users: Seq<UserView>, members: Seq<Seq<char>>, line: Seq<char>) -> Seq<
    DeliveryView,
>
    decreases members.len(),
{
    if members.len() == 0 {
        Seq::empty()
    } else {
        let rest = fan_out(users, members.drop_last(), line);
        let m = members.last();
        if has_nick(users, m) {
            rest.push(DeliveryView { to: users[nick_index(users, m)].id, line })
        } else {
            rest
        }
    }
}

/// Where a user is found under every nick of `members`, each gets its copy:
/// there are as many deliveries as members, in the members' order, each
/// addressed to the connection of the member it is for.
pub proof fn lemma_fan_out_reaches_all(
    users: Seq<UserView>,
    members: Seq<Seq<char>>,
    line: Seq<char>,
)
    requires
        forall|k: int| 0 <= k < members.len() ==> has_nick(users, #[trigger] members[k]),
    ensures
        fan_out(users, members, line).len() == members.len(),
        forall|k: int|
            0 <= k < members.len() ==> #[trigger] fan_out(users, members, line)[k] == (
            DeliveryView { to: users[nick_index(users, members[k])].id, line }),
    decreases members.len(),
{
    if members.len() > 0 {
        let head = members.drop_last();
        assert forall|k: int| 0 <= k < head.len() implies has_nick(users, #[trigger] head[k]) by {
            assert(head[k] == members[k]);
        }
        lemma_fan_out_reaches_all(users, head, line);
        assert(has_nick(users, members[members.len() - 1]));
        assert forall|k: int| 0 <= k < members.len() implies #[trigger] fan_out(
            users,
            members,
            line,
        )[k] == (DeliveryView { to: users[nick_index(users, members[k])].id, line }) by {
            if k < head.len() {
                assert(head[k] == members[k]);
                assert(fan_out(users, members, line)[k] == fan_out(users, head, line)[k]);
            }
        }
    }
}

/// What a quit delivers: for each channel that the quitter is in, in joining
/// order, one copy of `line` for each other member.
pub open spec fn quit_fan_out(
    users: Seq<UserView>,
    channels: Seq<ChannelView>,
    joined: Seq<Seq<char>>,
    nick: Seq<char>,
    line: Seq<char>,
) -> Seq<DeliveryView>
    decreases joined.len(),
{
    if joined.len() == 0 {
        Seq::empty()
    } else {
        quit_fan_out(users, channels, joined.drop_last(), nick, line) + fan_out(
            users,
            without(members_of(channels, joined.last()), nick),
            line,
        )
    }
}

/// NICK: a nick under which a user is found already is a collision. Else the
/// sender gets the nick, provided the nick is well formed, and every channel
/// that listed the sender lists it under the new nick.
pub open spec fn nick_step(
    users: Seq<UserView>,
    channels: Seq<ChannelView>,
    sender: Seq<char>,
    desired: Seq<char>,
) -> Step {
    if has_nick(users, desired) {
        Step { users, channels, outcome: refused(ErrorType::NickCollision) }
    } else if !has_nick(users, sender) {
        Step { users, channels, outcome: unknown_sender() }
    } else if !valid_nick(desired) {
        Step { users, channels, outcome: refused(ErrorType::InvalidNick) }
    } else {
        let i = nick_index(users, sender);
        Step {
            users: users.update(i, UserView { nick: Some(desired), ..users[i] }),
            channels: renamed_everywhere(channels, sender, desired),
            outcome: quiet(),
        }
    }
}

/// USER: a sender with a nick and without a real name gets the real name and
/// is welcomed. A sender without a nick, or with a real name, is ignored.
pub open spec fn user_step(users: Seq<UserView>, sender: Seq<char>, real_name: Seq<char>) -> UserStep {
    let i = nick_index(users, sender);
    if !has_nick(users, sender) {
        UserStep { users, outcome: unknown_sender() }
    } else if users[i].nick is Some && users[i].real_name is None {
        UserStep {
            users: users.update(i, UserView { real_name: Some(real_name), ..users[i] }),
            outcome: delivering(
                seq![
                    DeliveryView {
                        to: users[i].id,
                        line: welcome_line(sender, welcome_text(real_name)),
                    },
                ],
            ),
        }
    } else {
        UserStep { users, outcome: quiet() }
    }
}

/// PING: a registered sender gets the token back.
pub open spec fn ping_step(users: Seq<UserView>, sender: Seq<char>, token: Seq<char>) -> UserStep {
    let i = nick_index(users, sender);
    if !has_nick(users, sender) {
        UserStep { users, outcome: unknown_sender() }
    } else if users[i].registered() {
        UserStep {
            users,
            outcome: delivering(seq![DeliveryView { to: users[i].id, line: pong_line(token) }]),
        }
    } else {
        UserStep { users, outcome: quiet() }
    }
}

/// JOIN: a registered sender that is not yet a member becomes the channel's
/// newest member, and every member, the sender included, is told. A sender
/// that is a member already changes nothing and nobody is told.
pub open spec fn join_step(
    users: Seq<UserView>,
    channels: Seq<ChannelView>,
    sender: Seq<char>,
    channel: Seq<char>,
) -> Step {
    let i = nick_index(users, sender);
    if !has_nick(users, sender) {
        Step { users, channels, outcome: unknown_sender() }
    } else if !users[i].registered() || is_member(channels, channel, sender) {
        Step { users, channels, outcome: quiet() }
    } else {
        let users2 = users.update(
            i,
            UserView { joined: with_item(users[i].joined, channel), ..users[i] },
        );
        let channels2 = with_member(channels, channel, sender);
        Step {
            users: users2,
            channels: channels2,
            outcome: delivering(
                fan_out(users2, members_of(channels2, channel), join_line(sender, channel)),
            ),
        }
    }
}

/// PART: a registered sender leaves a channel that it is a member of; the
/// members that remain are told, and then the sender. An unknown channel is
/// an error. A sender that is no member is ignored.
pub open spec fn part_step(
    users: Seq<UserView>,
    channels: Seq<ChannelView>,
    sender: Seq<char>,
    channel: Seq<char>,
) -> Step {
    let i = nick_index(users, sender);
    if !has_nick(users, sender) {
        Step { users, channels, outcome: unknown_sender() }
    } else if !users[i].registered() {
        Step { users, channels, outcome: quiet() }
    } else if !channel_exists(channels, channel) {
        Step { users, channels, outcome: refused(ErrorType::NoSuchChannel) }
    } else if !is_member(channels, channel, sender) {
        Step { users, channels, outcome: quiet() }
    } else {
        let users2 = users.update(
            i,
            UserView { joined: without(users[i].joined, channel), ..users[i] },
        );
        let channels2 = without_member(channels, channel, sender);
        let line = part_line(sender, channel);
        Step {
            users: users2,
            channels: channels2,
            outcome: delivering(
                fan_out(users2, members_of(channels2, channel), line).push(
                    DeliveryView { to: users[i].id, line },
                ),
            ),
        }
    }
}

/// PRIVMSG to a channel, from a registered sender: every other member gets
/// the text, if the sender is a member; an unknown channel is an error.
/// Neither registry changes.
pub open spec fn channel_message_outcome(
    users: Seq<UserView>,
    channels: Seq<ChannelView>,
    sender: Seq<char>,
    channel: Seq<char>,
    text: Seq<char>,
) -> Result<EffectsView, DispatchError> {
    if !has_nick(users, sender) {
        unknown_sender()
    } else if !is_registered(users, sender) {
        quiet()
    } else if !channel_exists(channels, channel) {
        refused(ErrorType::NoSuchChannel)
    } else if !is_member(channels, channel, sender) {
        quiet()
    } else {
        delivering(
            fan_out(
                users,
                without(members_of(channels, channel), sender),
                privmsg_line(sender, channel, text),
            ),
        )
    }
}

/// PRIVMSG to a nick, from a registered sender. Where the nick names a
/// plugin, the plugin decides. Else the user found under the nick gets the
/// text, and an unknown nick is an error. Neither registry changes.
pub open spec fn nick_message_outcome(
    users: Seq<UserView>,
    sender: Seq<char>,
    nick: Seq<char>,
    text: Seq<char>,
) -> Result<EffectsView, DispatchError> {
    if !has_nick(users, sender) {
        unknown_sender()
    } else if !is_registered(users, sender) {
        quiet()
    } else if is_plugin_nick(nick) {
        match plugin_job(nick, sender, text) {
            Ok(job) => Ok(EffectsView { deliveries: Seq::empty(), job: Some(job) }),
            Err(e) => refused(e),
        }
    } else if has_nick(users, nick) {
        delivering(
            seq![
                DeliveryView {
                    to: users[nick_index(users, nick)].id,
                    line: privmsg_line(sender, nick, text),
                },
            ],
        )
    } else {
        refused(ErrorType::NoSuchNick)
    }
}

/// QUIT: a registered sender leaves every channel and the registry; the
/// other members of its channels are told.
pub open spec fn quit_step(
    users: Seq<UserView>,
    channels: Seq<ChannelView>,
    sender: Seq<char>,
    message: Seq<char>,
) -> Step {
    let i = nick_index(users, sender);
    if !has_nick(users, sender) {
        Step { users, channels, outcome: unknown_sender() }
    } else if !users[i].registered() {
        Step { users, channels, outcome: quiet() }
    } else {
        Step {
            users: users.remove(i),
            channels: without_nick(channels, sender),
            outcome: delivering(
                quit_fan_out(users, channels, users[i].joined, sender, quit_line(sender, message)),
            ),
        }
    }
}

/// What any message does, by its kind. A message under whose sender's nick
/// no user is found changes nothing and fails, unless it is a NICK for a
/// nick that is taken, which is a collision first.
pub open spec fn message_step(
    users: Seq<UserView>,
    channels: Seq<ChannelView>,
    sender: Seq<char>,
    message: MessageView,
) -> Step {
    match message {
        MessageView::Nick(nick) => nick_step(users, channels, sender, nick),
        MessageView::User(real_name) => beside(user_step(users, sender, real_name), channels),
        MessageView::Ping(token) => beside(ping_step(users, sender, token), channels),
        MessageView::Quit(message) => quit_step(users, channels, sender, message),
        MessageView::Join(channel) => join_step(users, channels, sender, channel),
        MessageView::Part(channel) => part_step(users, channels, sender, channel),
        MessageView::ToChannel(channel, text) => Step {
            users,
            channels,
            outcome: channel_message_outcome(users, channels, sender, channel, text),
        },
        MessageView::ToNick(nick, text) => Step {
            users,
            channels,
            outcome: nick_message_outcome(users, sender, nick, text),
        },
    }
}

/// The report of `err` to the user found under `sender`. There is none
/// where no user is found, and none for an error that is no client's.
pub open spec fn error_delivery(users: Seq<UserView>, err: DispatchError, sender: Seq<char>) -> Option<
    DeliveryView,
> {
    match err {
        DispatchError::Client(e) => if has_nick(users, sender) {
            Some(DeliveryView { to: users[nick_index(users, sender)].id, line: error_line(e) })
        } else {
            None
        },
        DispatchError::UserNotFound => None,
    }
}

/// Effects that ask for nothing.
pub fn no_effects() -> (e: Effects)
    ensures
        e@ == nothing(),
{
    let e = Effects { deliveries: Vec::new(), job: None };
    assert(deliveries_view(e.deliveries@) =~= Seq::<DeliveryView>::empty());
    e
}

fn one_delivery(d: Delivery) -> (e: Effects)
    ensures
        e@ == (EffectsView { deliveries: seq![d@], job: None }),
{
    let mut deliveries: Vec<Delivery> = Vec::new();
    deliveries.push(d);
    assert(deliveries_view(deliveries@) =~= seq![d@]);
    Effects { deliveries, job: None }
}

/// Adds to `out` one copy of `line` for each of `members` under whose nick a
/// user is found.
fn deliver_to_members(
    users: &UserList,
    members: &Vec<String>,
    line: &String,
    out: &mut Vec<Delivery>,
)
    requires
        users.wf(),
    ensures
        deliveries_view(final(out)@) == deliveries_view(old(out)@) + fan_out(
            users@,
            texts(members@),
            line@,
        ),
{
    let ghost start = deliveries_view(out@);
    let mut k: usize = 0;
    assert(texts(members@).take(0) =~= Seq::<Seq<char>>::empty());
    assert(deliveries_view(out@) =~= start + Seq::<DeliveryView>::empty());
    while k < members.len()
        invariant
            users.wf(),
            k <= members.len(),
            deliveries_view(out@) == start + fan_out(
                users@,
                texts(members@).take(k as int),
                line@,
            ),
        decreases members.len() - k,
    {
        let ghost before = texts(members@).take(k as int);
        let ghost after = texts(members@).take(k + 1);
        assert(after.drop_last() =~= before);
        assert(after.last() == members@[k as int]@);
        match users.find_by_nick(members[k].as_str()) {
            Some(i) => {
                let ghost prev = deliveries_view(out@);
                let d = users.get(i).send_line(line);
                out.push(d);
                assert(deliveries_view(out@) =~= prev.push(d@));
                assert(deliveries_view(out@) =~= start + fan_out(users@, after, line@));
            },
            None => {},
        }
        k += 1;
    }
    assert(texts(members@).take(members.len() as int) =~= texts(members@));
}

/// Reports `err` to the user found under `sender_nick`. Nobody is told
/// where no user is found, or where the error is no client's.
pub fn error_msg_sender(err: DispatchError, user_list: &UserList, sender_nick: Nick) -> (d: Option<
    Delivery,
>)
    requires
        user_list.wf(),
    ensures
        match d {
            Some(d) => error_delivery(user_list@, err, sender_nick@) == Some(d@),
            None => error_delivery(user_list@, err, sender_nick@) is None,
        },
{
    match err {
        DispatchError::Client(e) => match user_list.find_by_nick(sender_nick.0.as_str()) {
            Some(i) => Some(user_list.get(i).send_back_error(e)),
            None => None,
        },
        DispatchError::UserNotFound => None,
    }
}

/// Handles NICK.
pub fn nick_msg_sender(
    user_list: &mut UserList,
    channel_list: &mut ChannelList,
    nick_msg: NickMsg,
    user_id_as_nick: Nick,
) -> (r: Result<Effects, DispatchError>)
    requires
        old(user_list).wf(),
        old(channel_list).wf(),
    ensures
        final(user_list).wf(),
        final(channel_list).wf(),
        (Step {
            users: final(user_list)@,
            channels: final(channel_list)@,
            outcome: outcome_view(r),
        }) == nick_step(old(user_list)@, old(channel_list)@, user_id_as_nick@, nick_msg.nick@),
{
    let nick = nick_msg.nick;
    if user_list.nick_in_use(nick.0.as_str()) {
        return Err(DispatchError::Client(ErrorType::NickCollision));
    }
    match user_list.find_by_nick(user_id_as_nick.0.as_str()) {
        None => Err(DispatchError::UserNotFound),
        Some(i) => match Nick::try_from(nick.0) {
            Err(e) => Err(DispatchError::Client(e)),
            Ok(accepted) => {
                channel_list.rename_user(user_id_as_nick.0.as_str(), accepted.0.as_str());
                user_list.set_nick_at(i, accepted.0);
                Ok(no_effects())
            },
        },
    }
}

/// Handles USER.
pub fn user_msg_sender(user_list: &mut UserList, user_msg: UserMsg, user_id_as_nick: Nick) -> (r:
    Result<Effects, DispatchError>)
    requires
        old(user_list).wf(),
    ensures
        final(user_list).wf(),
        final(user_list)@ == user_step(old(user_list)@, user_id_as_nick@, user_msg.real_name@).users,
        outcome_view(r) == user_step(
            old(user_list)@,
            user_id_as_nick@,
            user_msg.real_name@,
        ).outcome,
{
    match user_list.find_by_nick(user_id_as_nick.0.as_str()) {
        None => Err(DispatchError::UserNotFound),
        Some(i) => {
            let known = user_list.get(i);
            if known.is_set_nick() && !known.is_set_real_name() {
                let message = welcome_message(user_msg.real_name.as_str());
                user_list.set_real_name_at(i, user_msg.real_name);
                let user = user_list.get(i);
                let reply = Reply::Welcome(WelcomeReply { target_nick: user.get_nick(), message });
                Ok(one_delivery(user.send(reply)))
            } else {
                Ok(no_effects())
            }
        },
    }
}

/// Handles PING.
pub fn ping_msg_sender(user_list: &mut UserList, ping_msg: String, sender_nick: Nick) -> (r: Result<
    Effects,
    DispatchError,
>)
    requires
        old(user_list).wf(),
    ensures
        final(user_list).wf(),
        final(user_list)@ == ping_step(old(user_list)@, sender_nick@, ping_msg@).users,
        outcome_view(r) == ping_step(old(user_list)@, sender_nick@, ping_msg@).outcome,
{
    match user_list.find_by_nick(sender_nick.0.as_str()) {
        None => Err(DispatchError::UserNotFound),
        Some(i) => {
            let user = user_list.get(i);
            if user.is_registered() {
                Ok(one_delivery(user.send(Reply::Pong(ping_msg))))
            } else {
                Ok(no_effects())
            }
        },
    }
}

/// Handles QUIT.
pub fn quit_msg_sender(
    user_list: &mut UserList,
    channel_list: &mut ChannelList,
    quit_msg: QuitMsg,
    sender_nick: Nick,
) -> (r: Result<Effects, DispatchError>)
    requires
        old(user_list).wf(),
        old(channel_list).wf(),
    ensures
        final(user_list).wf(),
        final(channel_list).wf(),
        final(user_list)@ == quit_step(
            old(user_list)@,
            old(channel_list)@,
            sender_nick@,
            quit_msg.message@,
        ).users,
        final(channel_list)@ == quit_step(
            old(user_list)@,
            old(channel_list)@,
            sender_nick@,
            quit_msg.message@,
        ).channels,
        outcome_view(r) == quit_step(
            old(user_list)@,
            old(channel_list)@,
            sender_nick@,
            quit_msg.message@,
        ).outcome,
{
    match user_list.find_by_nick(sender_nick.0.as_str()) {
        None => Err(DispatchError::UserNotFound),
        Some(i) => {
            let user = user_list.get(i);
            if !user.is_registered() {
                return Ok(no_effects());
            }
            let sender = sender_nick.0.clone();
            let ghost message = quit_msg.message@;
            let line = Reply::Quit(QuitReply { sender_nick, message: quit_msg }).to_wire();
            let mut out: Vec<Delivery> = Vec::new();
            let joined = user.get_joined_channels();
            let mut k: usize = 0;
            assert(texts(joined@).take(0) =~= Seq::<Seq<char>>::empty());
            assert(deliveries_view(out@) =~= Seq::<DeliveryView>::empty());
            while k < joined.len()
                invariant
                    user_list.wf(),
                    channel_list.wf(),
                    k <= joined.len(),
                    deliveries_view(out@) == quit_fan_out(
                        user_list@,
                        channel_list@,
                        texts(joined@).take(k as int),
                        sender@,
                        line@,
                    ),
                decreases joined.len() - k,
            {
                let ghost before = texts(joined@).take(k as int);
                let ghost after = texts(joined@).take(k + 1);
                assert(after.drop_last() =~= before);
                assert(after.last() == joined@[k as int]@);
                match channel_list.get_users(joined[k].as_str()) {
                    Some(members) => {
                        let others = drop_text(members, &sender);
                        deliver_to_members(user_list, &others, &line, &mut out);
                    },
                    None => {
                        assert(without(Seq::<Seq<char>>::empty(), sender@) =~= Seq::<
                            Seq<char>,
                        >::empty());
                        assert(deliveries_view(out@) =~= deliveries_view(out@) + Seq::<
                            DeliveryView,
                        >::empty());
                    },
                }
                k += 1;
            }
            assert(texts(joined@).take(joined.len() as int) =~= texts(joined@));
            channel_list.remove_user(sender.as_str());
            user_list.remove_at(i);
            Ok(Effects { deliveries: out, job: None })
        },
    }
}

/// Handles PRIVMSG.
pub fn priv_msg_sender(
    user_list: &mut UserList,
    channel_list: &mut ChannelList,
    priv_msg: PrivMsg,
    sender_nick: Nick,
) -> (r: Result<Effects, DispatchError>)
    requires
        old(user_list).wf(),
        old(channel_list).wf(),
    ensures
        final(user_list)@ == old(user_list)@,
        final(channel_list)@ == old(channel_list)@,
        outcome_view(r) == match priv_msg.target {
            Target::Channel(channel) => channel_message_outcome(
                old(user_list)@,
                old(channel_list)@,
                sender_nick@,
                channel@,
                priv_msg.message@,
            ),
            Target::User(nick) => nick_message_outcome(
                old(user_list)@,
                sender_nick@,
                nick@,
                priv_msg.message@,
            ),
        },
{
    match user_list.find_by_nick(sender_nick.0.as_str()) {
        None => Err(DispatchError::UserNotFound),
        Some(i) => {
            if !user_list.get(i).is_registered() {
                return Ok(no_effects());
            }
            match &priv_msg.target {
                Target::Channel(channel) => {
                    if !channel_list.has_channel(channel.0.as_str()) {
                        return Err(DispatchError::Client(ErrorType::NoSuchChannel));
                    }
                    if !channel_list.has_user(channel.0.as_str(), sender_nick.0.as_str()) {
                        return Ok(no_effects());
                    }
                    let sender = sender_nick.0.clone();
                    let name = channel.0.clone();
                    let line = Reply::PrivMsg(PrivReply { sender_nick, message: priv_msg }).to_wire();
                    let mut out: Vec<Delivery> = Vec::new();
                    assert(deliveries_view(out@) =~= Seq::<DeliveryView>::empty());
                    match channel_list.get_users(name.as_str()) {
                        Some(members) => {
                            let others = drop_text(members, &sender);
                            deliver_to_members(user_list, &others, &line, &mut out);
                        },
                        None => {},
                    }
                    assert(deliveries_view(out@) =~= fan_out(
                        user_list@,
                        without(members_of(channel_list@, name@), sender@),
                        line@,
                    ));
                    Ok(Effects { deliveries: out, job: None })
                },
                Target::User(user_nick) => {
                    if names_plugin(user_nick.0.as_str()) {
                        let target_nick = Nick(user_nick.0.clone());
                        match plugin_handler(target_nick, sender_nick, priv_msg.message.as_str()) {
                            Ok(job) => {
                                let e = Effects { deliveries: Vec::new(), job: Some(job) };
                                assert(deliveries_view(e.deliveries@) =~= Seq::<
                                    DeliveryView,
                                >::empty());
                                Ok(e)
                            },
                            Err(e) => Err(DispatchError::Client(e)),
                        }
                    } else {
                        match user_list.find_by_nick(user_nick.0.as_str()) {
                            Some(j) => {
                                let reply = Reply::PrivMsg(
                                    PrivReply { sender_nick, message: priv_msg },
                                );
                                Ok(one_delivery(user_list.get(j).send(reply)))
                            },
                            None => Err(DispatchError::Client(ErrorType::NoSuchNick)),
                        }
                    }
                },
            }
        },
    }
}

/// Handles JOIN.
pub fn join_msg_sender(
    user_list: &mut UserList,
    channel_list: &mut ChannelList,
    join_msg: JoinMsg,
    sender_nick: Nick,
) -> (r: Result<Effects, DispatchError>)
    requires
        old(user_list).wf(),
        old(channel_list).wf(),
    ensures
        final(user_list).wf(),
        final(channel_list).wf(),
        final(user_list)@ == join_step(
            old(user_list)@,
            old(channel_list)@,
            sender_nick@,
            join_msg.channel@,
        ).users,
        final(channel_list)@ == join_step(
            old(user_list)@,
            old(channel_list)@,
            sender_nick@,
            join_msg.channel@,
        ).channels,
        outcome_view(r) == join_step(
            old(user_list)@,
            old(channel_list)@,
            sender_nick@,
            join_msg.channel@,
        ).outcome,
{
    match user_list.find_by_nick(sender_nick.0.as_str()) {
        None => Err(DispatchError::UserNotFound),
        Some(i) => {
            if !user_list.get(i).is_registered() {
                return Ok(no_effects());
            }
            let channel = join_msg.channel.0.clone();
            let sender = sender_nick.0.clone();
            if channel_list.has_user(channel.as_str(), sender.as_str()) {
                return Ok(no_effects());
            }
            channel_list.join_channel(channel.as_str(), sender.as_str());
            user_list.join_at(i, channel.as_str());
            let line = Reply::Join(JoinReply { sender_nick, message: join_msg }).to_wire();
            let mut out: Vec<Delivery> = Vec::new();
            assert(deliveries_view(out@) =~= Seq::<DeliveryView>::empty());
            match channel_list.get_users(channel.as_str()) {
                Some(members) => {
                    deliver_to_members(user_list, members, &line, &mut out);
                },
                None => {},
            }
            assert(deliveries_view(out@) =~= fan_out(
                user_list@,
                members_of(channel_list@, channel@),
                line@,
            ));
            Ok(Effects { deliveries: out, job: None })
        },
    }
}

/// Handles PART.
pub fn part_msg_sender(
    user_list: &mut UserList,
    channel_list: &mut ChannelList,
    part_msg: PartMsg,
    sender_nick: Nick,
) -> (r: Result<Effects, DispatchError>)
    requires
        old(user_list).wf(),
        old(channel_list).wf(),
    ensures
        final(user_list).wf(),
        final(channel_list).wf(),
        final(user_list)@ == part_step(
            old(user_list)@,
            old(channel_list)@,
            sender_nick@,
            part_msg.channel@,
        ).users,
        final(channel_list)@ == part_step(
            old(user_list)@,
            old(channel_list)@,
            sender_nick@,
            part_msg.channel@,
        ).channels,
        outcome_view(r) == part_step(
            old(user_list)@,
            old(channel_list)@,
            sender_nick@,
            part_msg.channel@,
        ).outcome,
{
    match user_list.find_by_nick(sender_nick.0.as_str()) {
        None => Err(DispatchError::UserNotFound),
        Some(i) => {
            if !user_list.get(i).is_registered() {
                return Ok(no_effects());
            }
            let channel = part_msg.channel.0.clone();
            let sender = sender_nick.0.clone();
            if !channel_list.has_channel(channel.as_str()) {
                return Err(DispatchError::Client(ErrorType::NoSuchChannel));
            }
            if !channel_list.has_user(channel.as_str(), sender.as_str()) {
                return Ok(no_effects());
            }
            channel_list.part_channel(channel.as_str(), sender.as_str());
            user_list.part_at(i, channel.as_str());
            let line = Reply::Part(PartReply { sender_nick, message: part_msg }).to_wire();
            let mut out: Vec<Delivery> = Vec::new();
            assert(deliveries_view(out@) =~= Seq::<DeliveryView>::empty());
            match channel_list.get_users(channel.as_str()) {
                Some(members) => {
                    deliver_to_members(user_list, members, &line, &mut out);
                },
                None => {},
            }
            assert(deliveries_view(out@) =~= fan_out(
                user_list@,
                members_of(channel_list@, channel@),
                line@,
            ));
            let ghost told = deliveries_view(out@);
            let own = user_list.get(i).send_line(&line);
            out.push(own);
            assert(deliveries_view(out@) =~= told.push(own@));
            Ok(Effects { deliveries: out, job: None })
        },
    }
}

/// Handles one message: routes it by its kind to its handler.
pub fn global_msg_sender(
    user_list: &mut UserList,
    channel_list: &mut ChannelList,
    parsed_msg: ParsedMessage,
) -> (r: Result<Effects, DispatchError>)
    requires
        old(user_list).wf(),
        old(channel_list).wf(),
    ensures
        final(user_list).wf(),
        final(channel_list).wf(),
        (Step {
            users: final(user_list)@,
            channels: final(channel_list)@,
            outcome: outcome_view(r),
        }) == message_step(
            old(user_list)@,
            old(channel_list)@,
            parsed_msg.sender_nick@,
            parsed_msg.message@,
        ),
        r is Err ==> final(user_list)@ == old(user_list)@ && final(channel_list)@ == old(
            channel_list,
        )@,
{
    match parsed_msg.message {
        Message::Nick(nick_msg) => nick_msg_sender(
            user_list,
            channel_list,
            nick_msg,
            parsed_msg.sender_nick,
        ),
        Message::User(user_msg) => user_msg_sender(user_list, user_msg, parsed_msg.sender_nick),
        Message::Ping(ping_msg) => ping_msg_sender(user_list, ping_msg, parsed_msg.sender_nick),
        Message::Quit(quit_msg) => quit_msg_sender(
            user_list,
            channel_list,
            quit_msg,
            parsed_msg.sender_nick,
        ),
        Message::PrivMsg(priv_msg) => priv_msg_sender(
            user_list,
            channel_list,
            priv_msg,
            parsed_msg.sender_nick,
        ),
        Message::Join(join_msg) => join_msg_sender(
            user_list,
            channel_list,
            join_msg,
            parsed_msg.sender_nick,
        ),
        Message::Part(part_msg) => part_msg_sender(
            user_list,
            channel_list,
            part_msg,
            parsed_msg.sender_nick,
        ),
    }
}

} // verus!
