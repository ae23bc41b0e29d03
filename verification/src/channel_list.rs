//! The channel registry: which nicks are in which channels.
//!
//! A channel comes into being with its first join and stays, even when its
//! last member has left. Members are kept in the order in which they joined,
//! each nick at most once.
use vstd::prelude::*;
use crate::text::{
    drop_text, holds_text, lemma_renamed, lemma_with_item, lemma_without_no_duplicates,
    rename_text, renamed, texts, with_item, without,
};

verus! {

/// What a channel is: its name and its members in joining order.
pub struct ChannelView {
    pub name: Seq<char>,
    pub members: Seq<Seq<char>>,
}

/// Whether some channel is called `name`.
pub open spec fn channel_exists(chs: Seq<ChannelView>, name: Seq<char>) -> bool {
    exists|i: int| 0 <= i < chs.len() && (#[trigger] chs[i]).name == name
}

/// The place of the channel called `name`, where there is one.
pub open spec fn channel_index(chs: Seq<ChannelView>, name: Seq<char>) -> int {
    choose|i: int| 0 <= i < chs.len() && (#[trigger] chs[i]).name == name
}

/// The members of the channel called `name`; none where no such channel is.
pub open spec fn members_of(chs: Seq<ChannelView>, name: Seq<char>) -> Seq<Seq<char>> {
    if channel_exists(chs, name) {
        chs[channel_index(chs, name)].members
    } else {
        Seq::empty()
    }
}

/// Whether `nick` is a member of the channel called `name`.
pub open spec fn is_member(chs: Seq<ChannelView>, name: Seq<char>, nick: Seq<char>) -> bool {
    members_of(chs, name).contains(nick)
}

/// No two channels share a name, and no channel lists a nick twice.
pub open spec fn channels_wf(chs: Seq<ChannelView>) -> bool {
    &&& forall|i: int, j: int|
        0 <= i < chs.len() && 0 <= j < chs.len() && i != j ==> (#[trigger] chs[i]).name != (
        #[trigger] chs[j]).name
    &&& forall|i: int| 0 <= i < chs.len() ==> (#[trigger] chs[i]).members.no_duplicates()
}

/// The registry with a channel called `name`: itself where there is one, else
/// with a new empty channel at the end.
pub open spec fn with_channel(chs: Seq<ChannelView>, name: Seq<char>) -> Seq<ChannelView> {
    if channel_exists(chs, name) {
        chs
    } else {
        chs.push(ChannelView { name, members: Seq::empty() })
    }
}

/// The registry after `nick` joins `name`: the channel is there, and `nick` is
/// its newest member unless it was a member already.
pub open spec fn with_member(chs: Seq<ChannelView>, name: Seq<char>, nick: Seq<char>) -> Seq<
    ChannelView,
> {
    let made = with_channel(chs, name);
    let i = channel_index(made, name);
    if made[i].members.contains(nick) {
        made
    } else {
        made.update(i, ChannelView { name, members: made[i].members.push(nick) })
    }
}

/// The registry after `nick` leaves `name`: that channel without `nick`, all
/// else as it was.
pub open spec fn without_member(chs: Seq<ChannelView>, name: Seq<char>, nick: Seq<char>) -> Seq<
    ChannelView,
> {
    if channel_exists(chs, name) {
        let i = channel_index(chs, name);
        chs.update(i, ChannelView { name, members: without(chs[i].members, nick) })
    } else {
        chs
    }
}

/// The registry with `nick` taken out of every channel.
pub open spec fn without_nick(chs: Seq<ChannelView>, nick: Seq<char>) -> Seq<ChannelView> {
    Seq::new(
        chs.len(),
        |i: int| ChannelView { name: chs[i].name, members: without(chs[i].members, nick) },
    )
}

/// The registry after the user `old` took the nick `new`: in every channel
/// `old` is replaced by `new` where it stands.
pub open spec fn renamed_everywhere(chs: Seq<ChannelView>, old: Seq<char>, new: Seq<char>) -> Seq<
    ChannelView,
> {
    Seq::new(
        chs.len(),
        |i: int| ChannelView { name: chs[i].name, members: renamed(chs[i].members, old, new) },
    )
}

/// In a well-formed registry a channel's name decides its place.
pub proof fn lemma_channel_at(chs: Seq<ChannelView>, name: Seq<char>, i: int)
    requires
        channels_wf(chs),
        0 <= i < chs.len(),
        chs[i].name == name,
    ensures
        channel_exists(chs, name),
        channel_index(chs, name) == i,
        members_of(chs, name) == chs[i].members,
{
}

/// What a join does to the members of every channel: the joined channel
/// exists and has the nick as a member, listed once; every other channel is
/// as it was.
pub proof fn lemma_with_member(chs: Seq<ChannelView>, name: Seq<char>, nick: Seq<char>)
    requires
        channels_wf(chs),
    ensures
        channels_wf(with_member(chs, name, nick)),
        channel_exists(with_member(chs, name, nick), name),
        members_of(with_member(chs, name, nick), name) == with_item(members_of(chs, name), nick),
        forall|c: Seq<char>|
            c != name ==> #[trigger] members_of(with_member(chs, name, nick), c) == members_of(
                chs,
                c,
            ),
        forall|c: Seq<char>|
            c != name ==> #[trigger] channel_exists(with_member(chs, name, nick), c)
                == channel_exists(chs, c),
{
    let made = with_channel(chs, name);
    let n = chs.len() as int;
    if !channel_exists(chs, name) {
        assert(made[n].name == name);
        assert forall|a: int, b: int| 0 <= a < made.len() && 0 <= b < made.len() && a != b implies (
        #[trigger] made[a]).name != (#[trigger] made[b]).name by {
            if a < n {
                assert(chs[a].name == made[a].name);
            }
            if b < n {
                assert(chs[b].name == made[b].name);
            }
        }
        assert forall|a: int| 0 <= a < made.len() implies (#[trigger] made[a]).members.no_duplicates() by {
            if a < n {
                assert(chs[a] == made[a]);
            }
        }
        lemma_channel_at(made, name, n);
    }
    assert(channels_wf(made));
    let i = channel_index(made, name);
    assert(0 <= i < made.len() && made[i].name == name);
    let after = with_member(chs, name, nick);
    lemma_with_item(made[i].members, nick);
    assert forall|a: int| 0 <= a < after.len() implies (#[trigger] after[a]).name == made[a].name
        && after[a].members.no_duplicates() by {}
    assert(channels_wf(after));
    lemma_channel_at(after, name, i);
    assert forall|c: Seq<char>| c != name implies #[trigger] channel_exists(after, c)
        == channel_exists(chs, c) && members_of(after, c) == members_of(chs, c) by {
        if channel_exists(chs, c) {
            let j = channel_index(chs, c);
            assert(after[j] == chs[j]);
            lemma_channel_at(after, c, j);
            lemma_channel_at(chs, c, j);
        } else if channel_exists(after, c) {
            let j = channel_index(after, c);
            assert(after[j].name == c);
            if j < n {
                assert(chs[j].name == c);
            }
        }
    }
}

/// What a part does to the members of every channel: the channel that was
/// left no longer lists the nick; every other channel is as it was. No
/// channel comes or goes.
pub proof fn lemma_without_member(chs: Seq<ChannelView>, name: Seq<char>, nick: Seq<char>)
    requires
        channels_wf(chs),
    ensures
        channels_wf(without_member(chs, name, nick)),
        forall|c: Seq<char>| #[trigger]
            channel_exists(without_member(chs, name, nick), c) == channel_exists(chs, c),
        members_of(without_member(chs, name, nick), name) == without(members_of(chs, name), nick),
        forall|c: Seq<char>|
            c != name ==> #[trigger] members_of(without_member(chs, name, nick), c) == members_of(
                chs,
                c,
            ),
{
    let after = without_member(chs, name, nick);
    if channel_exists(chs, name) {
        let i = channel_index(chs, name);
        lemma_without_no_duplicates(chs[i].members, nick);
        assert forall|a: int| 0 <= a < after.len() implies (#[trigger] after[a]).name == chs[a].name
            && after[a].members.no_duplicates() by {}
        assert(channels_wf(after));
        lemma_channel_at(after, name, i);
    } else {
        assert(without(Seq::<Seq<char>>::empty(), nick) =~= Seq::<Seq<char>>::empty());
    }
    assert forall|c: Seq<char>| #[trigger]
        channel_exists(after, c) == channel_exists(chs, c) && (c != name ==> members_of(after, c)
            == members_of(chs, c)) by {
        if channel_exists(chs, c) {
            let j = channel_index(chs, c);
            assert(after[j].name == c);
            lemma_channel_at(after, c, j);
            lemma_channel_at(chs, c, j);
        } else if channel_exists(after, c) {
            let j = channel_index(after, c);
            assert(chs[j].name == c);
        }
    }
}

/// What a removal does to the members of every channel: no channel lists the
/// nick any longer, and all else is as it was.
pub proof fn lemma_without_nick(chs: Seq<ChannelView>, nick: Seq<char>)
    requires
        channels_wf(chs),
    ensures
        channels_wf(without_nick(chs, nick)),
        forall|c: Seq<char>| #[trigger]
            channel_exists(without_nick(chs, nick), c) == channel_exists(chs, c),
        forall|c: Seq<char>| #[trigger]
            members_of(without_nick(chs, nick), c) == without(members_of(chs, c), nick),
{
    let after = without_nick(chs, nick);
    assert forall|a: int| 0 <= a < after.len() implies (#[trigger] after[a]).name == chs[a].name
        && after[a].members.no_duplicates() by {
        lemma_without_no_duplicates(chs[a].members, nick);
    }
    assert(channels_wf(after));
    assert(without(Seq::<Seq<char>>::empty(), nick) =~= Seq::<Seq<char>>::empty());
    assert forall|c: Seq<char>| #[trigger]
        channel_exists(after, c) == channel_exists(chs, c) && members_of(after, c) == without(
            members_of(chs, c),
            nick,
        ) by {
        if channel_exists(chs, c) {
            let j = channel_index(chs, c);
            assert(after[j].name == c);
            lemma_channel_at(after, c, j);
            lemma_channel_at(chs, c, j);
        } else if channel_exists(after, c) {
            let j = channel_index(after, c);
            assert(chs[j].name == c);
        }
    }
}

/// What a new nick does to the members of every channel: each channel lists
/// the new nick where it listed the old one, and all else is as it was.
pub proof fn lemma_renamed_everywhere(chs: Seq<ChannelView>, old: Seq<char>, new: Seq<char>)
    requires
        channels_wf(chs),
        old != new,
    ensures
        channels_wf(renamed_everywhere(chs, old, new)),
        forall|c: Seq<char>| #[trigger]
            channel_exists(renamed_everywhere(chs, old, new), c) == channel_exists(chs, c),
        forall|c: Seq<char>| #[trigger]
            members_of(renamed_everywhere(chs, old, new), c) == renamed(
                members_of(chs, c),
                old,
                new,
            ),
{
    let after = renamed_everywhere(chs, old, new);
    assert forall|a: int| 0 <= a < after.len() implies (#[trigger] after[a]).name == chs[a].name
        && after[a].members.no_duplicates() by {
        lemma_renamed(chs[a].members, old, new, old);
    }
    assert(channels_wf(after));
    assert(renamed(Seq::<Seq<char>>::empty(), old, new) =~= Seq::<Seq<char>>::empty());
    assert forall|c: Seq<char>| #[trigger]
        channel_exists(after, c) == channel_exists(chs, c) && members_of(after, c) == renamed(
            members_of(chs, c),
            old,
            new,
        ) by {
        if channel_exists(chs, c) {
            let j = channel_index(chs, c);
            assert(after[j].name == c);
            lemma_channel_at(after, c, j);
            lemma_channel_at(chs, c, j);
        } else if channel_exists(after, c) {
            let j = channel_index(after, c);
            assert(chs[j].name == c);
        }
    }
}

struct ChannelEntry {
    name: String,
    members: Vec<String>,
}

impl View for ChannelEntry {
    type V = ChannelView;

    closed spec fn view(&self) -> ChannelView {
        ChannelView { name: self.name@, members: texts(self.members@) }
    }
}

/// The registry of channels, in the order in which they were created.
pub struct ChannelList {
    channels: Vec<ChannelEntry>,
}

impl View for ChannelList {
    type V = Seq<ChannelView>;

    closed spec fn view(&self) -> Seq<ChannelView> {
        Seq::new(self.channels@.len(), |i: int| self.channels@[i]@)
    }
}

impl Default for ChannelList {
    fn default() -> (list: ChannelList)
        ensures
            list@ == Seq::<ChannelView>::empty(),
            list.wf(),
    {
        ChannelList::new()
    }
}

impl ChannelList {
    /// The registry's invariant.
    pub open spec fn wf(&self) -> bool {
        channels_wf(self@)
    }

    /// An empty registry.
    pub fn new() -> (list: ChannelList)
        ensures
            list@ == Seq::<ChannelView>::empty(),
            list.wf(),
    {
        let list = ChannelList { channels: Vec::new() };
        assert(list@ =~= Seq::<ChannelView>::empty());
        list
    }

    fn find(&self, name: &String) -> (found: Option<usize>)
        requires
            self.wf(),
        ensures
            match found {
                Some(i) => i < self@.len() && i < self.channels@.len() && self@[i as int].name
                    == name@ && channel_exists(self@, name@) && channel_index(self@, name@) == i,
                None => !channel_exists(self@, name@),
            },
    {
        let mut i: usize = 0;
        while i < self.channels.len()
            invariant
                self.wf(),
                i <= self.channels@.len(),
                self.channels@.len() == self@.len(),
                forall|j: int| 0 <= j < i ==> (#[trigger] self@[j]).name != name@,
            decreases self.channels.len() - i,
        {
            if self.channels[i].name == *name {
                proof {
                    lemma_channel_at(self@, name@, i as int);
                }
                return Some(i);
            }
            i += 1;
        }
        None
    }

    /// Whether a channel called `channel_name` exists.
    pub fn has_channel(&self, channel_name: &str) -> (r: bool)
        requires
            self.wf(),
        ensures
            r == channel_exists(self@, channel_name@),
    {
        let name = channel_name.to_owned();
        self.find(&name).is_some()
    }

    /// Whether `user_id` is a member of the channel called `channel_name`.
    pub fn has_user(&self, channel_name: &str, user_id: &str) -> (r: bool)
        requires
            self.wf(),
        ensures
            r == is_member(self@, channel_name@, user_id@),
    {
        let name = channel_name.to_owned();
        let nick = user_id.to_owned();
        match self.find(&name) {
            Some(i) => holds_text(&self.channels[i].members, &nick),
            None => {
                assert(!Seq::<Seq<char>>::empty().contains(nick@));
                false
            },
        }
    }

    /// The members of the channel called `channel_name`, in joining order;
    /// `None` where no such channel exists.
    pub fn get_users(&self, channel_name: &str) -> (r: Option<&Vec<String>>)
        requires
            self.wf(),
        ensures
            r is Some == channel_exists(self@, channel_name@),
            r is Some ==> texts(r->0@) == members_of(self@, channel_name@),
    {
        let name = channel_name.to_owned();
        match self.find(&name) {
            Some(i) => Some(&self.channels[i].members),
            None => None,
        }
    }

    /// The members of the channel called `channel_name`, to be changed in
    /// place; `None` where no such channel exists. Whoever changes the list
    /// keeps it free of repetitions.
    pub fn get_users_mut(&mut self, channel_name: &str) -> (r: Option<&mut Vec<String>>)
        requires
            old(self).wf(),
        ensures
            r is Some == channel_exists(old(self)@, channel_name@),
            r is None ==> final(self)@ == old(self)@,
            r is Some ==> texts(r->0@) == members_of(old(self)@, channel_name@),
            r is Some ==> final(self)@ == old(self)@.update(
                channel_index(old(self)@, channel_name@),
                ChannelView { name: channel_name@, members: texts(final(r->0)@) },
            ),
    {
        let name = channel_name.to_owned();
        match self.find(&name) {
            Some(i) => {
                let entry = &mut self.channels[i];
                Some(&mut entry.members)
            },
            None => None,
        }
    }

    /// Creates the channel called `channel_name` unless it exists.
    pub fn add_channel(&mut self, channel_name: String)
        requires
            old(self).wf(),
        ensures
            final(self).wf(),
            final(self)@ == with_channel(old(self)@, channel_name@),
    {
        if self.find(&channel_name).is_some() {
            return ;
        }
        let ghost before = self@;
        let ghost name = channel_name@;
        self.channels.push(ChannelEntry { name: channel_name, members: Vec::new() });
        assert(texts(Seq::<String>::empty()) =~= Seq::<Seq<char>>::empty());
        assert(self@ =~= before.push(ChannelView { name, members: Seq::empty() }));
    }

    /// Makes `user_id` a member of the channel called `channel_name`, creating
    /// the channel where it is missing. A nick that is a member already is not
    /// listed a second time.
    pub fn join_channel(&mut self, channel_name: &str, user_id: &str)
        requires
            old(self).wf(),
        ensures
            final(self).wf(),
            final(self)@ == with_member(old(self)@, channel_name@, user_id@),
    {
        let name = channel_name.to_owned();
        let nick = user_id.to_owned();
        self.add_channel(name.clone());
        let ghost made = self@;
        match self.find(&name) {
            Some(i) => {
                if !holds_text(&self.channels[i].members, &nick) {
                    let ghost old_members = self@[i as int].members;
                    self.channels[i].members.push(nick);
                    assert(texts(self.channels@[i as int].members@) =~= old_members.push(
                        user_id@,
                    ));
                    assert(self@ =~= made.update(
                        i as int,
                        ChannelView { name: name@, members: old_members.push(user_id@) },
                    ));
                    assert forall|a: int, b: int|
                        0 <= a < old_members.push(user_id@).len() && 0 <= b < old_members.push(
                            user_id@,
                        ).len() && a != b implies old_members.push(user_id@)[a]
                        != old_members.push(user_id@)[b] by {
                        if a < old_members.len() {
                            assert(old_members[a] == old_members.push(user_id@)[a]);
                        }
                        if b < old_members.len() {
                            assert(old_members[b] == old_members.push(user_id@)[b]);
                        }
                    }
                }
            },
            None => {
                assert(false) by {
                    let n = old(self)@.len() as int;
                    if !channel_exists(old(self)@, name@) {
                        assert(made[n].name == name@);
                    }
                }
            },
        }
    }

    /// Takes `user_id` out of the channel called `channel_name`. Nothing
    /// changes where the channel does not exist or does not list the nick.
    pub fn part_channel(&mut self, channel_name: &str, user_id: &str)
        requires
            old(self).wf(),
        ensures
            final(self).wf(),
            final(self)@ == without_member(old(self)@, channel_name@, user_id@),
    {
        let name = channel_name.to_owned();
        let nick = user_id.to_owned();
        match self.find(&name) {
            Some(i) => {
                let ghost before = self@;
                let kept = drop_text(&self.channels[i].members, &nick);
                self.channels[i].members = kept;
                proof {
                    lemma_without_no_duplicates(before[i as int].members, nick@);
                }
                assert(self@ =~= before.update(
                    i as int,
                    ChannelView { name: name@, members: without(before[i as int].members, nick@) },
                ));
            },
            None => {},
        }
    }

    /// Lets the member `old_nick` go by `new_nick` in every channel.
    pub fn rename_user(&mut self, old_nick: &str, new_nick: &str)
        requires
            old(self).wf(),
            old_nick@ != new_nick@,
        ensures
            final(self).wf(),
            final(self)@ == renamed_everywhere(old(self)@, old_nick@, new_nick@),
    {
        let from = old_nick.to_owned();
        let to = new_nick.to_owned();
        let ghost before = self@;
        let mut i: usize = 0;
        while i < self.channels.len()
            invariant
                i <= self.channels@.len(),
                self.channels@.len() == before.len(),
                self@.len() == before.len(),
                channels_wf(before),
                from@ == old_nick@,
                to@ == new_nick@,
                forall|j: int|
                    0 <= j < i ==> (#[trigger] self@[j]) == renamed_everywhere(
                        before,
                        from@,
                        to@,
                    )[j],
                forall|j: int| i <= j < before.len() ==> (#[trigger] self@[j]) == before[j],
            decreases self.channels.len() - i,
        {
            let ghost prev = self@;
            let named = rename_text(&self.channels[i].members, &from, &to);
            self.channels[i].members = named;
            assert forall|j: int| 0 <= j < before.len() && j != i implies (#[trigger] self@[j])
                == prev[j] by {}
            assert(prev[i as int] == before[i as int]);
            assert(self@[i as int] == ChannelView {
                name: before[i as int].name,
                members: renamed(before[i as int].members, from@, to@),
            });
            i += 1;
        }
        assert(self@ =~= renamed_everywhere(before, from@, to@));
        proof {
            lemma_renamed_everywhere(before, from@, to@);
        }
    }

    /// Takes `user_id` out of every channel.
    pub fn remove_user(&mut self, user_id: &str)
        requires
            old(self).wf(),
        ensures
            final(self).wf(),
            final(self)@ == without_nick(old(self)@, user_id@),
    {
        let nick = user_id.to_owned();
        let ghost before = self@;
        let mut i: usize = 0;
        while i < self.channels.len()
            invariant
                i <= self.channels@.len(),
                self.channels@.len() == before.len(),
                self@.len() == before.len(),
                channels_wf(before),
                nick@ == user_id@,
                forall|j: int| 0 <= j < i ==> (#[trigger] self@[j]) == without_nick(before, nick@)[j],
                forall|j: int| i <= j < before.len() ==> (#[trigger] self@[j]) == before[j],
            decreases self.channels.len() - i,
        {
            let ghost prev = self@;
            let kept = drop_text(&self.channels[i].members, &nick);
            self.channels[i].members = kept;
            assert forall|j: int| 0 <= j < before.len() && j != i implies (#[trigger] self@[j])
                == prev[j] by {}
            assert(prev[i as int] == before[i as int]);
            assert(self@[i as int] == ChannelView {
                name: before[i as int].name,
                members: without(before[i as int].members, nick@),
            });
            i += 1;
        }
        assert(self@ =~= without_nick(before, nick@));
        assert forall|j: int| 0 <= j < self@.len() implies (#[trigger] self@[j]).members.no_duplicates() by {
            lemma_without_no_duplicates(before[j].members, nick@);
        }
    }
}

} // verus!
