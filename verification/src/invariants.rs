//! What holds of the registries whatever the clients send.
//!
//! The handlers compute the steps that `massage_sender` describes on plain
//! values, so a law proved here of a step holds of the handler that takes it.
use vstd::prelude::*;
use crate::channel_list::{
    channel_exists, channel_index, channels_wf, is_member, lemma_renamed_everywhere,
    lemma_with_member, lemma_without_member, lemma_without_nick, members_of, ChannelView,
};
use crate::dispatcher::{dispatch_step, run, ItemView};
use crate::massage_sender::{
    channel_message_outcome, delivering, fan_out, join_step, lemma_fan_out_reaches_all,
    message_step, nick_message_outcome, nick_step, nothing, part_step, quiet, quit_step,
    refused, unknown_sender, user_step, Step,
};
use crate::plugin::is_plugin_nick;
use crate::text::{
    lemma_renamed, lemma_with_item, lemma_without_absent, lemma_without_contains,
    lemma_without_no_duplicates, lemma_without_one, renamed, replaced, with_item, without,
};
use crate::types::{join_line, privmsg_line, ErrorType, MessageView};
use crate::user::{
    has_id, has_nick, is_first_under, is_registered, lemma_first_under, lemma_nick_at,
    lemma_nicked_at, nick_index, users_wf, DeliveryView, UserView,
};

verus! {

/// Whether the channel registry and the user at place `u` agree on the
/// user's membership of the channel called `c`: a user with a nick is listed
/// under it exactly if it has joined the channel, and a user without a nick
/// has joined none.
pub open spec fn agrees(users: Seq<UserView>, channels: Seq<ChannelView>, u: int, c: Seq<char>) -> bool {
    match users[u].nick {
        Some(n) => is_member(channels, c, n) <==> users[u].joined.contains(c),
        None => !users[u].joined.contains(c),
    }
}

/// The two registries tell the same story: a user is listed as a member of a
/// channel exactly when the channel is among those the user has joined, and
/// every member that a channel lists is a registered user.
pub open spec fn membership_consistent(users: Seq<UserView>, channels: Seq<ChannelView>) -> bool {
    &&& forall|u: int, c: Seq<char>| 0 <= u < users.len() ==> #[trigger] agrees(users, channels, u, c)
    &&& forall|c: Seq<char>, n: Seq<char>| #[trigger] is_member(channels, c, n) ==> is_registered(users, n)
}

/// In a well-formed registry a nick belongs to at most one user.
pub proof fn lemma_nick_has_one_owner(users: Seq<UserView>, nick: Seq<char>, i: int, j: int)
    requires
        users_wf(users),
        0 <= i < users.len(),
        0 <= j < users.len(),
        users[i].nick == Some(nick),
        users[j].nick == Some(nick),
    ensures
        i == j,
{
    if i < j {
        assert(users[i].effective_nick() != users[j].effective_nick());
    }
    if j < i {
        assert(users[j].effective_nick() != users[i].effective_nick());
    }
}

/// A registered user that is found under a nick has that nick, and is the
/// only user that has it.
pub proof fn lemma_registered_owner(users: Seq<UserView>, nick: Seq<char>)
    requires
        users_wf(users),
        is_registered(users, nick),
    ensures
        is_first_under(users, nick, nick_index(users, nick)),
        users[nick_index(users, nick)].nick == Some(nick),
        forall|u: int|
            0 <= u < users.len() && u != nick_index(users, nick) ==> (#[trigger] users[u]).nick
                != Some(nick),
{
    lemma_first_under(users, nick);
    let i = nick_index(users, nick);
    assert forall|u: int| 0 <= u < users.len() && u != i implies (#[trigger] users[u]).nick
        != Some(nick) by {
        if users[u].nick == Some(nick) {
            lemma_nick_has_one_owner(users, nick, i, u);
        }
    }
}

/// A registry whose users keep their ids and nicks, and list no channel
/// twice, stays well formed, and every lookup by nick gives what it gave.
pub proof fn lemma_same_names(users: Seq<UserView>, after: Seq<UserView>)
    requires
        users_wf(users),
        after.len() == users.len(),
        forall|j: int|
            0 <= j < users.len() ==> (#[trigger] after[j]).id == users[j].id && after[j].nick
                == users[j].nick && after[j].joined.no_duplicates(),
    ensures
        users_wf(after),
        forall|n: Seq<char>| #[trigger] has_nick(after, n) == has_nick(users, n),
        forall|n: Seq<char>| has_nick(users, n) ==> #[trigger] nick_index(after, n) == nick_index(users, n),
{
    assert forall|a: int| 0 <= a < after.len() implies (#[trigger] after[a]).effective_nick()
        == users[a].effective_nick() by {}
    assert forall|a: int, b: int| 0 <= a < after.len() && 0 <= b < after.len() && a != b implies (
    #[trigger] after[a]).id != (#[trigger] after[b]).id by {
        assert(users[a].id != users[b].id);
    }
    assert forall|a: int, b: int| 0 <= a < b < after.len() && (#[trigger] after[b]).nick is Some implies (
    #[trigger] after[a]).effective_nick() != after[b].effective_nick() by {
        assert(users[a].effective_nick() != users[b].effective_nick());
    }
    assert forall|n: Seq<char>| #[trigger] has_nick(after, n) == has_nick(users, n) by {
        if has_nick(users, n) {
            lemma_first_under(users, n);
            let j = nick_index(users, n);
            assert(after[j].effective_nick() == n);
        }
        if has_nick(after, n) {
            lemma_first_under(after, n);
            let j = nick_index(after, n);
            assert(users[j].effective_nick() == n);
        }
    }
    assert forall|n: Seq<char>| has_nick(users, n) implies #[trigger] nick_index(after, n)
        == nick_index(users, n) by {
        lemma_first_under(users, n);
        let j = nick_index(users, n);
        assert(is_first_under(after, n, j)) by {
            assert forall|k: int| 0 <= k < j implies (#[trigger] after[k]).effective_nick() != n by {
                assert(users[k].effective_nick() != n);
            }
        }
        lemma_nick_at(after, n, j);
    }
}

/// The members of a channel of a well-formed registry are listed once each.
pub proof fn lemma_members_listed_once(channels: Seq<ChannelView>, c: Seq<char>)
    requires
        channels_wf(channels),
    ensures
        members_of(channels, c).no_duplicates(),
{
    if channel_exists(channels, c) {
        let i = channel_index(channels, c);
        assert(channels[i].members.no_duplicates());
    }
}

/// What is left when the user at place `i` goes: a well-formed registry, in
/// which those behind it have moved up by one place.
pub proof fn lemma_remove_user(users: Seq<UserView>, i: int)
    requires
        users_wf(users),
        0 <= i < users.len(),
    ensures
        users_wf(users.remove(i)),
        forall|a: int|
            0 <= a < users.len() - 1 ==> #[trigger] users.remove(i)[a] == users[if a < i {
                a
            } else {
                a + 1
            }],
{
    let after = users.remove(i);
    assert forall|a: int, b: int| 0 <= a < after.len() && 0 <= b < after.len() && a != b implies (
    #[trigger] after[a]).id != (#[trigger] after[b]).id by {
        let a0 = if a < i { a } else { a + 1 };
        let b0 = if b < i { b } else { b + 1 };
        assert(users[a0].id != users[b0].id);
    }
    assert forall|a: int, b: int| 0 <= a < b < after.len() && (#[trigger] after[b]).nick is Some implies (
    #[trigger] after[a]).effective_nick() != after[b].effective_nick() by {
        let a0 = if a < i { a } else { a + 1 };
        let b0 = if b < i { b } else { b + 1 };
        assert(users[a0].effective_nick() != users[b0].effective_nick());
    }
    assert forall|a: int| 0 <= a < after.len() implies (#[trigger] after[a]).joined.no_duplicates() by {
        let a0 = if a < i { a } else { a + 1 };
        assert(users[a0].joined.no_duplicates());
    }
}

/// NICK keeps both registries well formed: the new nick was free.
pub proof fn lemma_nick_keeps_wf(
    users: Seq<UserView>,
    channels: Seq<ChannelView>,
    sender: Seq<char>,
    desired: Seq<char>,
)
    requires
        users_wf(users),
        channels_wf(channels),
    ensures
        users_wf(nick_step(users, channels, sender, desired).users),
        channels_wf(nick_step(users, channels, sender, desired).channels),
{
    let step = nick_step(users, channels, sender, desired);
    if step.outcome is Ok {
        lemma_first_under(users, sender);
        let i = nick_index(users, sender);
        let after = step.users;
        assert(after =~= users.update(i, UserView { nick: Some(desired), ..users[i] }));
        assert forall|a: int, b: int| 0 <= a < after.len() && 0 <= b < after.len() && a != b implies (
        #[trigger] after[a]).id != (#[trigger] after[b]).id by {
            assert(users[a].id != users[b].id);
        }
        assert forall|a: int, b: int| 0 <= a < b < after.len() && (#[trigger] after[b]).nick is Some implies (
        #[trigger] after[a]).effective_nick() != after[b].effective_nick() by {
            assert(users[a].effective_nick() != desired);
            assert(users[b].effective_nick() != desired);
            if a != i && b != i {
                assert(users[a].effective_nick() != users[b].effective_nick());
            }
        }
        assert forall|a: int| 0 <= a < after.len() implies (#[trigger] after[a]).joined.no_duplicates() by {
            assert(after[a].joined == users[a].joined);
        }
        lemma_renamed_everywhere(channels, sender, desired);
    }
}

/// Whatever message is handled, both registries stay well formed. So at all
/// times at most one user has any nick.
pub proof fn lemma_step_keeps_wf(
    users: Seq<UserView>,
    channels: Seq<ChannelView>,
    sender: Seq<char>,
    message: MessageView,
)
    requires
        users_wf(users),
        channels_wf(channels),
    ensures
        users_wf(message_step(users, channels, sender, message).users),
        channels_wf(message_step(users, channels, sender, message).channels),
{
    let step = message_step(users, channels, sender, message);
    let i = nick_index(users, sender);
    if has_nick(users, sender) {
        lemma_first_under(users, sender);
    }
    match message {
        MessageView::Nick(nick) => lemma_nick_keeps_wf(users, channels, sender, nick),
        MessageView::User(_) => {
            if step.users != users {
                lemma_same_names(users, step.users);
            }
        },
        MessageView::Ping(_) => {},
        MessageView::Quit(_) => {
            if is_registered(users, sender) {
                lemma_remove_user(users, i);
                lemma_without_nick(channels, sender);
            }
        },
        MessageView::Join(channel) => {
            if is_registered(users, sender) && !is_member(channels, channel, sender) {
                lemma_with_item(users[i].joined, channel);
                lemma_same_names(users, step.users);
                lemma_with_member(channels, channel, sender);
            }
        },
        MessageView::Part(channel) => {
            if is_registered(users, sender) && channel_exists(channels, channel) && is_member(
                channels,
                channel,
                sender,
            ) {
                lemma_without_no_duplicates(users[i].joined, channel);
                lemma_same_names(users, step.users);
                lemma_without_member(channels, channel, sender);
            }
        },
        MessageView::ToChannel(_, _) => {},
        MessageView::ToNick(_, _) => {},
    }
}

/// However long the queue, both registries are well formed after it. So at
/// all times at most one user has any nick.
pub proof fn lemma_run_keeps_wf(
    users: Seq<UserView>,
    channels: Seq<ChannelView>,
    items: Seq<ItemView>,
)
    requires
        users_wf(users),
        channels_wf(channels),
    ensures
        users_wf(run(users, channels, items).0),
        channels_wf(run(users, channels, items).1),
    decreases items.len(),
{
    if items.len() > 0 {
        lemma_run_keeps_wf(users, channels, items.drop_last());
        let before = run(users, channels, items.drop_last());
        match items.last().content {
            Ok(message) => lemma_step_keeps_wf(before.0, before.1, items.last().sender, message),
            Err(_) => {},
        }
    }
}

/// Empty registries are well formed and consistent.
pub proof fn lemma_empty_is_consistent()
    ensures
        users_wf(Seq::<UserView>::empty()),
        channels_wf(Seq::<ChannelView>::empty()),
        membership_consistent(Seq::<UserView>::empty(), Seq::<ChannelView>::empty()),
{
    let channels = Seq::<ChannelView>::empty();
    assert forall|c: Seq<char>, n: Seq<char>| !#[trigger] is_member(channels, c, n) by {
        assert(members_of(channels, c) =~= Seq::<Seq<char>>::empty());
    }
}

/// A user that connects under a new id, in no channel yet, keeps the
/// registries well formed and consistent. Should it come with a nick, no
/// user may be found under that nick.
pub proof fn lemma_new_user_keeps_membership(
    users: Seq<UserView>,
    channels: Seq<ChannelView>,
    user: UserView,
)
    requires
        users_wf(users),
        membership_consistent(users, channels),
        !has_id(users, user.id),
        user.nick is Some ==> !has_nick(users, user.effective_nick()),
        user.joined.len() == 0,
    ensures
        users_wf(users.push(user)),
        membership_consistent(users.push(user), channels),
{
    let after = users.push(user);
    let n = users.len() as int;
    assert forall|a: int, b: int| 0 <= a < after.len() && 0 <= b < after.len() && a != b implies (
    #[trigger] after[a]).id != (#[trigger] after[b]).id by {
        if a < n {
            assert(users[a] == after[a]);
        }
        if b < n {
            assert(users[b] == after[b]);
        }
    }
    assert forall|a: int, b: int| 0 <= a < b < after.len() && (#[trigger] after[b]).nick is Some implies (
    #[trigger] after[a]).effective_nick() != after[b].effective_nick() by {
        assert(users[a] == after[a]);
        if b < n {
            assert(users[b] == after[b]);
        }
    }
    assert forall|a: int| 0 <= a < after.len() implies (#[trigger] after[a]).joined.no_duplicates() by {
        if a < n {
            assert(users[a] == after[a]);
        }
    }
    assert forall|u: int, c: Seq<char>| 0 <= u < after.len() implies #[trigger] agrees(
        after,
        channels,
        u,
        c,
    ) by {
        if u < n {
            assert(agrees(users, channels, u, c));
        } else if user.nick is Some && is_member(channels, c, user.effective_nick()) {
            assert(is_registered(users, user.effective_nick()));
        }
    }
    assert forall|c: Seq<char>, m: Seq<char>| #[trigger] is_member(channels, c, m) implies is_registered(
        after,
        m,
    ) by {
        assert(is_registered(users, m));
        lemma_first_under(users, m);
        let j = nick_index(users, m);
        assert(after[j] == users[j]);
        assert(is_first_under(after, m, j)) by {
            assert forall|k: int| 0 <= k < j implies (#[trigger] after[k]).effective_nick() != m by {
                assert(after[k] == users[k]);
            }
        }
        lemma_nick_at(after, m, j);
    }
}

/// USER keeps the registries consistent.
pub proof fn lemma_user_keeps_membership(
    users: Seq<UserView>,
    channels: Seq<ChannelView>,
    sender: Seq<char>,
    real_name: Seq<char>,
)
    requires
        users_wf(users),
        membership_consistent(users, channels),
    ensures
        users_wf(user_step(users, sender, real_name).users),
        membership_consistent(user_step(users, sender, real_name).users, channels),
{
    let after = user_step(users, sender, real_name).users;
    if after != users {
        lemma_first_under(users, sender);
        lemma_same_names(users, after);
        assert forall|u: int, c: Seq<char>| 0 <= u < after.len() implies #[trigger] agrees(
            after,
            channels,
            u,
            c,
        ) by {
            assert(agrees(users, channels, u, c));
        }
        assert forall|c: Seq<char>, n: Seq<char>| #[trigger] is_member(channels, c, n) implies is_registered(
            after,
            n,
        ) by {
            assert(is_registered(users, n));
            lemma_first_under(users, n);
            let j = nick_index(users, n);
            assert(after[j].registered());
        }
    }
}

/// NICK keeps the registries consistent: the channels that listed the
/// sender list it under its new nick.
pub proof fn lemma_nick_keeps_membership(
    users: Seq<UserView>,
    channels: Seq<ChannelView>,
    sender: Seq<char>,
    desired: Seq<char>,
)
    requires
        users_wf(users),
        channels_wf(channels),
        membership_consistent(users, channels),
    ensures
        users_wf(nick_step(users, channels, sender, desired).users),
        channels_wf(nick_step(users, channels, sender, desired).channels),
        membership_consistent(
            nick_step(users, channels, sender, desired).users,
            nick_step(users, channels, sender, desired).channels,
        ),
{
    let step = nick_step(users, channels, sender, desired);
    lemma_nick_keeps_wf(users, channels, sender, desired);
    if step.outcome is Ok {
        lemma_first_under(users, sender);
        let i = nick_index(users, sender);
        let after = step.users;
        let chans = step.channels;
        assert(sender != desired);
        lemma_renamed_everywhere(channels, sender, desired);
        assert forall|u: int| 0 <= u < users.len() && u != i implies (#[trigger] users[u]).nick
            != Some(sender) && users[u].nick != Some(desired) by {
            if users[u].nick == Some(sender) {
                lemma_nicked_at(users, u);
            }
            if users[u].nick == Some(desired) {
                assert(users[u].effective_nick() == desired);
            }
        }
        assert forall|u: int, c: Seq<char>| 0 <= u < after.len() implies #[trigger] agrees(
            after,
            chans,
            u,
            c,
        ) by {
            let s = members_of(channels, c);
            lemma_members_listed_once(channels, c);
            assert(members_of(chans, c) == renamed(s, sender, desired));
            if s.contains(desired) {
                assert(is_member(channels, c, desired));
                assert(is_registered(users, desired));
            }
            assert(agrees(users, channels, u, c));
            if u == i {
                lemma_renamed(s, sender, desired, desired);
                if s.contains(sender) {
                    assert(is_member(channels, c, sender));
                    assert(is_registered(users, sender));
                }
            } else if users[u].nick is Some {
                assert(after[u] == users[u]);
                lemma_renamed(s, sender, desired, users[u].nick->0);
            }
        }
        assert forall|c: Seq<char>, n: Seq<char>| #[trigger] is_member(chans, c, n) implies is_registered(
            after,
            n,
        ) by {
            let s = members_of(channels, c);
            lemma_members_listed_once(channels, c);
            assert(members_of(chans, c) == renamed(s, sender, desired));
            if s.contains(desired) {
                assert(is_member(channels, c, desired));
                assert(is_registered(users, desired));
            }
            lemma_renamed(s, sender, desired, n);
            if n == desired {
                assert(is_member(channels, c, sender));
                assert(is_registered(users, sender));
                lemma_nicked_at(after, i);
            } else {
                assert(is_member(channels, c, n));
                assert(is_registered(users, n));
                lemma_registered_owner(users, n);
                let j = nick_index(users, n);
                assert(j != i);
                assert(after[j] == users[j]);
                lemma_nicked_at(after, j);
            }
        }
    }
}

/// In consistent registries a NICK that is carried out renames in place:
/// every channel lists the new nick exactly where it listed the old one, and
/// every other member where it was.
pub proof fn lemma_nick_renames_in_place(
    users: Seq<UserView>,
    channels: Seq<ChannelView>,
    sender: Seq<char>,
    desired: Seq<char>,
    c: Seq<char>,
)
    requires
        channels_wf(channels),
        membership_consistent(users, channels),
        nick_step(users, channels, sender, desired).outcome is Ok,
    ensures
        members_of(nick_step(users, channels, sender, desired).channels, c) == replaced(
            members_of(channels, c),
            sender,
            desired,
        ),
{
    let s = members_of(channels, c);
    lemma_members_listed_once(channels, c);
    lemma_renamed_everywhere(channels, sender, desired);
    if s.contains(desired) {
        assert(is_member(channels, c, desired));
        assert(is_registered(users, desired));
    }
    lemma_renamed(s, sender, desired, desired);
    if !s.contains(sender) {
        assert(replaced(s, sender, desired) =~= s) by {
            assert forall|k: int| 0 <= k < s.len() implies s[k] != sender by {
                assert(s.contains(s[k]));
            }
        }
    }
}

/// JOIN keeps the registries consistent.
pub proof fn lemma_join_keeps_membership(
    users: Seq<UserView>,
    channels: Seq<ChannelView>,
    sender: Seq<char>,
    channel: Seq<char>,
)
    requires
        users_wf(users),
        channels_wf(channels),
        membership_consistent(users, channels),
    ensures
        users_wf(join_step(users, channels, sender, channel).users),
        channels_wf(join_step(users, channels, sender, channel).channels),
        membership_consistent(
            join_step(users, channels, sender, channel).users,
            join_step(users, channels, sender, channel).channels,
        ),
{
    let step = join_step(users, channels, sender, channel);
    let i = nick_index(users, sender);
    if is_registered(users, sender) && !is_member(channels, channel, sender) {
        lemma_registered_owner(users, sender);
        let after = step.users;
        let chans = step.channels;
        lemma_with_item(users[i].joined, channel);
        lemma_same_names(users, after);
        lemma_with_member(channels, channel, sender);
        lemma_members_listed_once(channels, channel);
        lemma_with_item(members_of(channels, channel), sender);
        assert forall|u: int, c: Seq<char>| 0 <= u < after.len() implies #[trigger] agrees(
            after,
            chans,
            u,
            c,
        ) by {
            assert(agrees(users, channels, u, c));
            assert(after[u].nick == users[u].nick);
            if u != i {
                assert(users[u].nick != Some(sender));
                assert(after[u].joined == users[u].joined);
            }
            if c == channel {
                assert(members_of(chans, c) == with_item(members_of(channels, c), sender));
            } else {
                assert(members_of(chans, c) == members_of(channels, c));
            }
        }
        assert forall|c: Seq<char>, n: Seq<char>| #[trigger] is_member(chans, c, n) implies is_registered(
            after,
            n,
        ) by {
            if c == channel {
                assert(members_of(chans, c) == with_item(members_of(channels, c), sender));
                if n != sender {
                    assert(is_member(channels, c, n));
                }
            } else {
                assert(members_of(chans, c) == members_of(channels, c));
                assert(is_member(channels, c, n));
            }
            assert(is_registered(users, n));
            lemma_first_under(users, n);
            let j = nick_index(users, n);
            assert(after[j].registered());
        }
    }
}

/// PART keeps the registries consistent.
pub proof fn lemma_part_keeps_membership(
    users: Seq<UserView>,
    channels: Seq<ChannelView>,
    sender: Seq<char>,
    channel: Seq<char>,
)
    requires
        users_wf(users),
        channels_wf(channels),
        membership_consistent(users, channels),
    ensures
        users_wf(part_step(users, channels, sender, channel).users),
        channels_wf(part_step(users, channels, sender, channel).channels),
        membership_consistent(
            part_step(users, channels, sender, channel).users,
            part_step(users, channels, sender, channel).channels,
        ),
{
    let step = part_step(users, channels, sender, channel);
    let i = nick_index(users, sender);
    if is_registered(users, sender) && channel_exists(channels, channel) && is_member(
        channels,
        channel,
        sender,
    ) {
        lemma_registered_owner(users, sender);
        let after = step.users;
        let chans = step.channels;
        lemma_without_no_duplicates(users[i].joined, channel);
        lemma_same_names(users, after);
        lemma_without_member(channels, channel, sender);
        assert forall|u: int, c: Seq<char>| 0 <= u < after.len() implies #[trigger] agrees(
            after,
            chans,
            u,
            c,
        ) by {
            assert(agrees(users, channels, u, c));
            assert(after[u].nick == users[u].nick);
            lemma_without_contains(users[i].joined, channel, c);
            if users[u].nick is Some {
                lemma_without_contains(members_of(channels, channel), sender, users[u].nick->0);
            }
            if u != i {
                assert(users[u].nick != Some(sender));
                assert(after[u].joined == users[u].joined);
            }
            if c == channel {
                assert(members_of(chans, c) == without(members_of(channels, c), sender));
            } else {
                assert(members_of(chans, c) == members_of(channels, c));
            }
        }
        assert forall|c: Seq<char>, n: Seq<char>| #[trigger] is_member(chans, c, n) implies is_registered(
            after,
            n,
        ) by {
            lemma_without_contains(members_of(channels, channel), sender, n);
            if c == channel {
                assert(members_of(chans, c) == without(members_of(channels, c), sender));
            } else {
                assert(members_of(chans, c) == members_of(channels, c));
            }
            assert(is_member(channels, c, n));
            assert(is_registered(users, n));
            lemma_first_under(users, n);
            let j = nick_index(users, n);
            assert(after[j].registered());
        }
    }
}

/// QUIT keeps the registries consistent.
pub proof fn lemma_quit_keeps_membership(
    users: Seq<UserView>,
    channels: Seq<ChannelView>,
    sender: Seq<char>,
    message: Seq<char>,
)
    requires
        users_wf(users),
        channels_wf(channels),
        membership_consistent(users, channels),
    ensures
        users_wf(quit_step(users, channels, sender, message).users),
        channels_wf(quit_step(users, channels, sender, message).channels),
        membership_consistent(
            quit_step(users, channels, sender, message).users,
            quit_step(users, channels, sender, message).channels,
        ),
{
    let step = quit_step(users, channels, sender, message);
    let i = nick_index(users, sender);
    if is_registered(users, sender) {
        lemma_registered_owner(users, sender);
        let after = step.users;
        let chans = step.channels;
        lemma_remove_user(users, i);
        lemma_without_nick(channels, sender);
        assert forall|u: int, c: Seq<char>| 0 <= u < after.len() implies #[trigger] agrees(
            after,
            chans,
            u,
            c,
        ) by {
            let u0 = if u < i { u } else { u + 1 };
            assert(after[u] == users[u0]);
            assert(users[u0].nick != Some(sender));
            assert(agrees(users, channels, u0, c));
            assert(members_of(chans, c) == without(members_of(channels, c), sender));
            if users[u0].nick is Some {
                lemma_without_contains(members_of(channels, c), sender, users[u0].nick->0);
            }
        }
        assert forall|c: Seq<char>, n: Seq<char>| #[trigger] is_member(chans, c, n) implies is_registered(
            after,
            n,
        ) by {
            assert(members_of(chans, c) == without(members_of(channels, c), sender));
            lemma_without_contains(members_of(channels, c), sender, n);
            assert(is_member(channels, c, n));
            assert(is_registered(users, n));
            lemma_registered_owner(users, n);
            let j = nick_index(users, n);
            assert(j != i);
            let j1 = if j < i { j } else { j - 1 };
            assert(after[j1] == users[j]);
            lemma_nicked_at(after, j1);
        }
    }
}

/// Whatever message is handled, the registries stay well formed and
/// consistent with each other: afterwards, as before, a user is listed as a
/// member of a channel exactly when the channel is among those the user has
/// joined, and every member is a registered user.
pub proof fn lemma_membership_kept(
    users: Seq<UserView>,
    channels: Seq<ChannelView>,
    sender: Seq<char>,
    message: MessageView,
)
    requires
        users_wf(users),
        channels_wf(channels),
        membership_consistent(users, channels),
    ensures
        users_wf(message_step(users, channels, sender, message).users),
        channels_wf(message_step(users, channels, sender, message).channels),
        membership_consistent(
            message_step(users, channels, sender, message).users,
            message_step(users, channels, sender, message).channels,
        ),
{
    match message {
        MessageView::Nick(nick) => lemma_nick_keeps_membership(users, channels, sender, nick),
        MessageView::User(name) => lemma_user_keeps_membership(users, channels, sender, name),
        MessageView::Ping(_) => {},
        MessageView::Quit(text) => lemma_quit_keeps_membership(users, channels, sender, text),
        MessageView::Join(channel) => lemma_join_keeps_membership(users, channels, sender, channel),
        MessageView::Part(channel) => lemma_part_keeps_membership(users, channels, sender, channel),
        MessageView::ToChannel(_, _) => {},
        MessageView::ToNick(_, _) => {},
    }
}

/// However long the queue, and whatever stands in it, the registries are
/// well formed and consistent with each other after it.
pub proof fn lemma_run_keeps_membership(
    users: Seq<UserView>,
    channels: Seq<ChannelView>,
    items: Seq<ItemView>,
)
    requires
        users_wf(users),
        channels_wf(channels),
        membership_consistent(users, channels),
    ensures
        users_wf(run(users, channels, items).0),
        channels_wf(run(users, channels, items).1),
        membership_consistent(run(users, channels, items).0, run(users, channels, items).1),
    decreases items.len(),
{
    if items.len() > 0 {
        lemma_run_keeps_membership(users, channels, items.drop_last());
        let before = run(users, channels, items.drop_last());
        match items.last().content {
            Ok(message) => lemma_membership_kept(
                before.0,
                before.1,
                items.last().sender,
                message,
            ),
            Err(_) => {},
        }
    }
}

/// A message that is answered with an error has changed neither registry. In
/// particular a NICK that is refused, for a collision or for a malformed
/// nick, leaves both as they were.
pub proof fn lemma_error_changes_nothing(
    users: Seq<UserView>,
    channels: Seq<ChannelView>,
    sender: Seq<char>,
    message: MessageView,
)
    requires
        message_step(users, channels, sender, message).outcome is Err,
    ensures
        message_step(users, channels, sender, message).users == users,
        message_step(users, channels, sender, message).channels == channels,
{
}

/// A refused NICK leaves both registries as they were; it is a collision
/// exactly if a user is found under the nick.
pub proof fn lemma_refused_nick_changes_nothing(
    users: Seq<UserView>,
    channels: Seq<ChannelView>,
    sender: Seq<char>,
    desired: Seq<char>,
)
    requires
        nick_step(users, channels, sender, desired).outcome is Err,
    ensures
        nick_step(users, channels, sender, desired).users == users,
        nick_step(users, channels, sender, desired).channels == channels,
        nick_step(users, channels, sender, desired).outcome == refused(ErrorType::NickCollision)
            <==> has_nick(users, desired),
{
}

/// Nothing succeeds in the name of a sender under whose nick no user is
/// found: the message fails, neither registry changes, and nothing is
/// written to anybody.
pub proof fn lemma_unknown_sender_fails(
    users: Seq<UserView>,
    channels: Seq<ChannelView>,
    sender: Seq<char>,
    message: MessageView,
)
    requires
        !has_nick(users, sender),
    ensures
        ({
            let step = message_step(users, channels, sender, message);
            let turn = dispatch_step(users, channels, ItemView { sender, content: Ok(message) });
            &&& step.outcome is Err
            &&& step.outcome == unknown_sender() || (message is Nick && step.outcome == refused(
                ErrorType::NickCollision,
            ))
            &&& step.users == users
            &&& step.channels == channels
            &&& turn.users == users
            &&& turn.channels == channels
            &&& turn.effects == nothing()
            &&& turn.failure is Some
        }),
{
}

/// Nobody speaks before the handshake is done: whatever a sender that is
/// known but not registered sends, other than NICK and USER, is dropped in
/// silence.
pub proof fn lemma_unregistered_is_ignored(
    users: Seq<UserView>,
    channels: Seq<ChannelView>,
    sender: Seq<char>,
    message: MessageView,
)
    requires
        has_nick(users, sender),
        !is_registered(users, sender),
        !(message is Nick),
        !(message is User),
    ensures
        message_step(users, channels, sender, message) == (Step {
            users,
            channels,
            outcome: quiet(),
        }),
{
}

/// JOIN and then PART of the same channel, by a registered user that was not
/// in the channel, undo each other: the user registry is what it was, the
/// channel has the members it had, and so has every other channel. (A user
/// that was in the channel before is out of it afterwards.)
pub proof fn lemma_join_then_part(
    users: Seq<UserView>,
    channels: Seq<ChannelView>,
    sender: Seq<char>,
    channel: Seq<char>,
)
    requires
        users_wf(users),
        channels_wf(channels),
        membership_consistent(users, channels),
        is_registered(users, sender),
        !is_member(channels, channel, sender),
    ensures
        ({
            let joined = join_step(users, channels, sender, channel);
            let parted = part_step(joined.users, joined.channels, sender, channel);
            &&& parted.users == users
            &&& forall|c: Seq<char>| #[trigger] members_of(parted.channels, c) == members_of(channels, c)
            &&& joined.outcome is Ok
            &&& parted.outcome is Ok
        }),
{
    lemma_registered_owner(users, sender);
    let i = nick_index(users, sender);
    assert(agrees(users, channels, i, channel));
    let joined = join_step(users, channels, sender, channel);
    lemma_with_item(users[i].joined, channel);
    lemma_same_names(users, joined.users);
    lemma_with_member(channels, channel, sender);
    lemma_members_listed_once(channels, channel);
    lemma_with_item(members_of(channels, channel), sender);
    assert(nick_index(joined.users, sender) == i);
    assert(is_member(joined.channels, channel, sender));
    let parted = part_step(joined.users, joined.channels, sender, channel);
    lemma_without_member(joined.channels, channel, sender);
    assert(without(users[i].joined.push(channel), channel) == users[i].joined) by {
        let longer = users[i].joined.push(channel);
        assert(longer.drop_last() =~= users[i].joined);
        lemma_without_absent(users[i].joined, channel);
    }
    assert(parted.users =~= users);
    assert(without(members_of(channels, channel).push(sender), sender) == members_of(
        channels,
        channel,
    )) by {
        let longer = members_of(channels, channel).push(sender);
        assert(longer.drop_last() =~= members_of(channels, channel));
        lemma_without_absent(members_of(channels, channel), sender);
    }
    assert forall|c: Seq<char>| #[trigger] members_of(parted.channels, c) == members_of(channels, c) by {
        if c == channel {
            assert(members_of(parted.channels, c) == without(
                members_of(joined.channels, c),
                sender,
            ));
        } else {
            assert(members_of(parted.channels, c) == members_of(joined.channels, c));
            assert(members_of(joined.channels, c) == members_of(channels, c));
        }
    }
}

/// In consistent registries a user is found under every member of every
/// channel, and every channel that a user has joined exists. So no fan-out
/// passes a member over: it has one delivery for each member it is given.
pub proof fn lemma_every_member_is_found(
    users: Seq<UserView>,
    channels: Seq<ChannelView>,
    c: Seq<char>,
    line: Seq<char>,
)
    requires
        membership_consistent(users, channels),
    ensures
        forall|k: int|
            0 <= k < members_of(channels, c).len() ==> has_nick(
                users,
                #[trigger] members_of(channels, c)[k],
            ),
        fan_out(users, members_of(channels, c), line).len() == members_of(channels, c).len(),
        forall|u: int|
            0 <= u < users.len() && (#[trigger] users[u]).joined.contains(c) ==> channel_exists(
                channels,
                c,
            ),
{
    let members = members_of(channels, c);
    assert forall|k: int| 0 <= k < members.len() implies has_nick(users, #[trigger] members[k]) by {
        assert(is_member(channels, c, members[k]));
        assert(is_registered(users, members[k]));
    }
    lemma_fan_out_reaches_all(users, members, line);
    assert forall|u: int| 0 <= u < users.len() && (#[trigger] users[u]).joined.contains(c) implies channel_exists(
        channels,
        c,
    ) by {
        assert(agrees(users, channels, u, c));
        if !channel_exists(channels, c) {
            assert(members =~= Seq::<Seq<char>>::empty());
            assert(!members.contains(users[u].nick->0));
        }
    }
}

/// In consistent registries a JOIN that is carried out tells every member of
/// the channel, the newcomer last: one line each, addressed to the member's
/// own connection.
pub proof fn lemma_join_tells_every_member(
    users: Seq<UserView>,
    channels: Seq<ChannelView>,
    sender: Seq<char>,
    channel: Seq<char>,
)
    requires
        users_wf(users),
        channels_wf(channels),
        membership_consistent(users, channels),
        is_registered(users, sender),
        !is_member(channels, channel, sender),
    ensures
        ({
            let step = join_step(users, channels, sender, channel);
            let members = members_of(step.channels, channel);
            let told = step.outcome->Ok_0.deliveries;
            &&& step.outcome is Ok
            &&& members == members_of(channels, channel).push(sender)
            &&& told.len() == members.len()
            &&& forall|k: int|
                0 <= k < members.len() ==> #[trigger] told[k] == (DeliveryView {
                    to: step.users[nick_index(step.users, members[k])].id,
                    line: join_line(sender, channel),
                })
        }),
{
    let step = join_step(users, channels, sender, channel);
    let members = members_of(step.channels, channel);
    lemma_join_keeps_membership(users, channels, sender, channel);
    lemma_with_member(channels, channel, sender);
    assert forall|k: int| 0 <= k < members.len() implies has_nick(step.users, #[trigger] members[k]) by {
        assert(is_member(step.channels, channel, members[k]));
        assert(is_registered(step.users, members[k]));
    }
    lemma_fan_out_reaches_all(step.users, members, join_line(sender, channel));
}

/// In consistent registries a private message to a channel, from a member of
/// it, reaches every other member and nobody else: one line each, addressed
/// to the member's own connection, and none to the sender's.
pub proof fn lemma_channel_message_reaches_the_others(
    users: Seq<UserView>,
    channels: Seq<ChannelView>,
    sender: Seq<char>,
    channel: Seq<char>,
    text: Seq<char>,
)
    requires
        users_wf(users),
        channels_wf(channels),
        membership_consistent(users, channels),
        is_registered(users, sender),
        is_member(channels, channel, sender),
    ensures
        ({
            let outcome = channel_message_outcome(users, channels, sender, channel, text);
            let others = without(members_of(channels, channel), sender);
            let told = outcome->Ok_0.deliveries;
            &&& outcome is Ok
            &&& outcome->Ok_0.job is None
            &&& told.len() == members_of(channels, channel).len() - 1
            &&& told.len() == others.len()
            &&& forall|k: int|
                0 <= k < others.len() ==> #[trigger] told[k] == (DeliveryView {
                    to: users[nick_index(users, others[k])].id,
                    line: privmsg_line(sender, channel, text),
                })
            &&& forall|k: int|
                0 <= k < others.len() ==> (#[trigger] told[k]).to != users[nick_index(
                    users,
                    sender,
                )].id
        }),
{
    let members = members_of(channels, channel);
    let others = without(members, sender);
    let line = privmsg_line(sender, channel, text);
    lemma_first_under(users, sender);
    let i = nick_index(users, sender);
    lemma_members_listed_once(channels, channel);
    lemma_without_one(members, sender);
    assert forall|k: int| 0 <= k < others.len() implies has_nick(users, #[trigger] others[k])
        && others[k] != sender by {
        assert(others.contains(others[k]));
        lemma_without_contains(members, sender, others[k]);
        assert(is_member(channels, channel, others[k]));
        assert(is_registered(users, others[k]));
    }
    lemma_fan_out_reaches_all(users, others, line);
    let told = fan_out(users, others, line);
    assert forall|k: int| 0 <= k < others.len() implies (#[trigger] told[k]).to != users[i].id by {
        assert(has_nick(users, others[k]));
        lemma_first_under(users, others[k]);
        let j = nick_index(users, others[k]);
        assert(users[j].effective_nick() == others[k]);
        assert(j != i);
    }
}

/// A private message to a channel that exists, from a registered user that
/// is not a member of it, is dropped in silence: nothing is delivered and no
/// error is reported.
pub proof fn lemma_non_member_is_ignored(
    users: Seq<UserView>,
    channels: Seq<ChannelView>,
    sender: Seq<char>,
    channel: Seq<char>,
    text: Seq<char>,
)
    requires
        is_registered(users, sender),
        channel_exists(channels, channel),
        !is_member(channels, channel, sender),
    ensures
        channel_message_outcome(users, channels, sender, channel, text) == quiet(),
{
}

/// A private message of a registered user to its own nick is delivered once,
/// to the user itself.
pub proof fn lemma_message_to_self(users: Seq<UserView>, sender: Seq<char>, text: Seq<char>)
    requires
        is_registered(users, sender),
        !is_plugin_nick(sender),
    ensures
        nick_message_outcome(users, sender, sender, text) == delivering(
            seq![
                DeliveryView {
                    to: users[nick_index(users, sender)].id,
                    line: privmsg_line(sender, sender, text),
                },
            ],
        ),
{
}

/// After the QUIT of a registered user the nick is free: no user has it, no
/// registered user is found under it, and no channel lists it.
pub proof fn lemma_quit_frees_the_nick(
    users: Seq<UserView>,
    channels: Seq<ChannelView>,
    sender: Seq<char>,
    message: Seq<char>,
)
    requires
        users_wf(users),
        channels_wf(channels),
        is_registered(users, sender),
    ensures
        ({
            let gone = quit_step(users, channels, sender, message);
            &&& gone.outcome is Ok
            &&& forall|u: int| 0 <= u < gone.users.len() ==> (#[trigger] gone.users[u]).nick != Some(sender)
            &&& !is_registered(gone.users, sender)
            &&& forall|c: Seq<char>| !#[trigger] is_member(gone.channels, c, sender)
        }),
{
    lemma_registered_owner(users, sender);
    let i = nick_index(users, sender);
    let gone = quit_step(users, channels, sender, message);
    lemma_remove_user(users, i);
    lemma_without_nick(channels, sender);
    assert forall|u: int| 0 <= u < gone.users.len() implies (#[trigger] gone.users[u]).nick != Some(
        sender,
    ) by {
        let u0 = if u < i { u } else { u + 1 };
        assert(gone.users[u] == users[u0]);
    }
    if is_registered(gone.users, sender) {
        lemma_first_under(gone.users, sender);
    }
    assert forall|c: Seq<char>| !#[trigger] is_member(gone.channels, c, sender) by {
        assert(members_of(gone.channels, c) == without(members_of(channels, c), sender));
        lemma_without_contains(members_of(channels, c), sender, sender);
    }
}

/// Whether no connection that has no nick yet has `nick` for its id. Lookups
/// find such a connection under its id.
pub open spec fn no_id_is(users: Seq<UserView>, nick: Seq<char>) -> bool {
    forall|u: int| 0 <= u < users.len() && (#[trigger] users[u]).nick is None ==> users[u].id != nick
}

/// After the QUIT of a registered user nothing succeeds in its name, a second
/// QUIT included: no user is found under the nick, every later message from
/// it fails, neither registry changes any more, and nothing is written to
/// anybody. This is said of a nick that is no connection's id.
pub proof fn lemma_quit_is_final(
    users: Seq<UserView>,
    channels: Seq<ChannelView>,
    sender: Seq<char>,
    message: Seq<char>,
    later: MessageView,
)
    requires
        users_wf(users),
        channels_wf(channels),
        is_registered(users, sender),
        no_id_is(users, sender),
    ensures
        ({
            let gone = quit_step(users, channels, sender, message);
            let next = message_step(gone.users, gone.channels, sender, later);
            let turn = dispatch_step(
                gone.users,
                gone.channels,
                ItemView { sender, content: Ok(later) },
            );
            &&& !has_nick(gone.users, sender)
            &&& forall|c: Seq<char>| !#[trigger] is_member(gone.channels, c, sender)
            &&& next.outcome is Err
            &&& next.users == gone.users
            &&& next.channels == gone.channels
            &&& turn.users == gone.users
            &&& turn.channels == gone.channels
            &&& turn.effects == nothing()
        }),
{
    let gone = quit_step(users, channels, sender, message);
    lemma_quit_frees_the_nick(users, channels, sender, message);
    lemma_registered_owner(users, sender);
    let i = nick_index(users, sender);
    lemma_remove_user(users, i);
    if has_nick(gone.users, sender) {
        lemma_first_under(gone.users, sender);
        let a = nick_index(gone.users, sender);
        let a0 = if a < i { a } else { a + 1 };
        assert(gone.users[a] == users[a0]);
        assert(users[a0].nick is None);
    }
    lemma_unknown_sender_fails(gone.users, gone.channels, sender, later);
}

/// After the QUIT of a registered user, a private message to its nick from
/// a registered user is answered with "no such nick", unless the nick names a
/// plugin. This is said of a nick that is no connection's id.
pub proof fn lemma_no_message_after_quit(
    users: Seq<UserView>,
    channels: Seq<ChannelView>,
    quitter: Seq<char>,
    message: Seq<char>,
    writer: Seq<char>,
    text: Seq<char>,
)
    requires
        users_wf(users),
        channels_wf(channels),
        is_registered(users, quitter),
        no_id_is(users, quitter),
        !is_plugin_nick(quitter),
    ensures
        ({
            let gone = quit_step(users, channels, quitter, message);
            is_registered(gone.users, writer) ==> nick_message_outcome(
                gone.users,
                writer,
                quitter,
                text,
            ) == refused(ErrorType::NoSuchNick)
        }),
{
    lemma_quit_is_final(users, channels, quitter, message, MessageView::Ping(text));
}

} // verus!
