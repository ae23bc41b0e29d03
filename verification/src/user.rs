//! Connected users and the registry that holds them.
//!
//! A user is known by the id of its connection until it takes a nick. The
//! registry keeps ids apart and nicks apart: a user that has a nick is the
//! first that is found under it, so no two users have the same nick. Only a
//! connection that has no nick yet may have an id that is another user's
//! nick; a lookup then finds the user that connected first. Nothing here
//! writes to a connection: `send` returns the line and the id of the
//! connection that is to receive it.
use vstd::prelude::*;
use crate::text::{
    drop_text, holds_text, lemma_with_item, lemma_without_no_duplicates, texts, with_item,
    without,
};
use crate::types::{error_line, reply_line, ErrorType, Nick, Reply};

verus! {

/// One line for one connection.
#[derive(Clone, Debug, PartialEq, Eq)]
pub struct Delivery {
    /// The id of the connection that receives the line.
    pub to: String,
    /// The line, with its line end.
    pub line: String,
}

/// A delivery as plain values.
pub struct DeliveryView {
    pub to: Seq<char>,
    pub line: Seq<char>,
}

impl View for Delivery {
    type V = DeliveryView;

    open spec fn view(&self) -> DeliveryView {
        DeliveryView { to: self.to@, line: self.line@ }
    }
}

/// The views of a sequence of deliveries, one for one.
pub open spec fn deliveries_view(v: Seq<Delivery>) -> Seq<DeliveryView> {
    Seq::new(v.len(), |i: int| v[i]@)
}

/// A user as plain values.
pub struct UserView {
    pub id: Seq<char>,
    pub nick: Option<Seq<char>>,
    pub real_name: Option<Seq<char>>,
    pub joined: Seq<Seq<char>>,
}

impl UserView {
    /// The name under which the user is found: its nick, or its id while it
    /// has none.
    pub open spec fn effective_nick(self) -> Seq<char> {
        match self.nick {
            Some(n) => n,
            None => self.id,
        }
    }

    /// A user is registered once it has a nick and a real name.
    pub open spec fn registered(self) -> bool {
        self.nick is Some && self.real_name is Some
    }
}

/// A connected user.
#[derive(Debug)]
pub struct User {
    id: String,
    nick: Option<String>,
    real_name: Option<String>,
    joined_channels: Vec<String>,
}

impl View for User {
    type V = UserView;

    closed spec fn view(&self) -> UserView {
        UserView {
            id: self.id@,
            nick: match self.nick {
                Some(n) => Some(n@),
                None => None,
            },
            real_name: match self.real_name {
                Some(n) => Some(n@),
                None => None,
            },
            joined: texts(self.joined_channels@),
        }
    }
}

impl User {
    /// The user's invariant: it lists no channel twice.
    pub open spec fn wf(&self) -> bool {
        self@.joined.no_duplicates()
    }

    /// A user that has just connected: no nick, no real name, no channel.
    pub fn new(id: String) -> (user: User)
        ensures
            user.wf(),
            user@ == (UserView {
                id: id@,
                nick: None,
                real_name: None,
                joined: Seq::empty(),
            }),
    {
        let user = User { id, nick: None, real_name: None, joined_channels: Vec::new() };
        assert(texts(user.joined_channels@) =~= Seq::<Seq<char>>::empty());
        user
    }

    /// The id of the user's connection.
    pub fn get_id(&self) -> (id: String)
        ensures
            id@ == self@.id,
    {
        self.id.clone()
    }

    /// The user's nick, or its id while it has none.
    pub fn get_nick(&self) -> (nick: Nick)
        ensures
            nick@ == self@.effective_nick(),
    {
        match &self.nick {
            Some(nick) => Nick(nick.clone()),
            None => Nick(self.id.clone()),
        }
    }

    /// The user's real name, or its id while it has none.
    pub fn get_real_name(&self) -> (name: Nick)
        ensures
            name@ == match self@.real_name {
                Some(n) => n,
                None => self@.id,
            },
    {
        match &self.real_name {
            Some(real_name) => Nick(real_name.clone()),
            None => Nick(self.id.clone()),
        }
    }

    /// Gives the user the nick `nick`.
    pub fn set_nick(&mut self, nick: String)
        ensures
            final(self).wf() == old(self).wf(),
            final(self)@ == (UserView { nick: Some(nick@), ..old(self)@ }),
    {
        self.nick = Some(nick);
    }

    /// Gives the user the real name `real_name`.
    pub fn set_real_name(&mut self, real_name: String)
        ensures
            final(self).wf() == old(self).wf(),
            final(self)@ == (UserView { real_name: Some(real_name@), ..old(self)@ }),
    {
        self.real_name = Some(real_name);
    }

    /// Whether the user has a nick.
    pub fn is_set_nick(&self) -> (r: bool)
        ensures
            r == (self@.nick is Some),
    {
        self.nick.is_some()
    }

    /// Whether the user has a real name.
    pub fn is_set_real_name(&self) -> (r: bool)
        ensures
            r == (self@.real_name is Some),
    {
        self.real_name.is_some()
    }

    /// Whether the user has both a nick and a real name.
    pub fn is_registered(&self) -> (r: bool)
        ensures
            r == self@.registered(),
    {
        self.nick.is_some() && self.real_name.is_some()
    }

    /// The delivery that carries `reply` to this user.
    pub fn send(&self, reply: Reply) -> (d: Delivery)
        ensures
            d@ == (DeliveryView { to: self@.id, line: reply_line(reply) }),
    {
        Delivery { to: self.id.clone(), line: reply.to_wire() }
    }

    /// The delivery that reports `err` to this user.
    pub fn send_back_error(&self, err: ErrorType) -> (d: Delivery)
        ensures
            d@ == (DeliveryView { to: self@.id, line: error_line(err) }),
    {
        Delivery { to: self.id.clone(), line: err.to_wire() }
    }

    /// The delivery that carries the ready line `line` to this user.
    pub fn send_line(&self, line: &String) -> (d: Delivery)
        ensures
            d@ == (DeliveryView { to: self@.id, line: line@ }),
    {
        Delivery { to: self.id.clone(), line: line.clone() }
    }

    /// Notes that the user is in `channel_name`; a channel that is noted
    /// already is not noted twice.
    pub fn join_channel(&mut self, channel_name: &str)
        ensures
            old(self).wf() ==> final(self).wf(),
            final(self)@ == (UserView {
                joined: with_item(old(self)@.joined, channel_name@),
                ..old(self)@
            }),
    {
        let name = channel_name.to_owned();
        if !holds_text(&self.joined_channels, &name) {
            let ghost before = texts(self.joined_channels@);
            self.joined_channels.push(name);
            assert(texts(self.joined_channels@) =~= before.push(channel_name@));
        }
        proof {
            if old(self).wf() {
                lemma_with_item(old(self)@.joined, channel_name@);
            }
        }
    }

    /// Notes that the user is no longer in `channel_name`.
    pub fn part_channel(&mut self, channel_name: &str)
        ensures
            old(self).wf() ==> final(self).wf(),
            final(self)@ == (UserView {
                joined: without(old(self)@.joined, channel_name@),
                ..old(self)@
            }),
    {
        let name = channel_name.to_owned();
        let kept = drop_text(&self.joined_channels, &name);
        self.joined_channels = kept;
        proof {
            if old(self).wf() {
                lemma_without_no_duplicates(old(self)@.joined, channel_name@);
            }
        }
    }

    /// The channels the user is in, in joining order.
    pub fn get_joined_channels(&self) -> (joined: &Vec<String>)
        ensures
            texts(joined@) == self@.joined,
    {
        &self.joined_channels
    }
}

/// Whether some user is found under `nick`.
pub open spec fn has_nick(users: Seq<UserView>, nick: Seq<char>) -> bool {
    exists|i: int| 0 <= i < users.len() && (#[trigger] users[i]).effective_nick() == nick
}

/// Whether the user at place `i` is the first that is found under `nick`.
pub open spec fn is_first_under(users: Seq<UserView>, nick: Seq<char>, i: int) -> bool {
    &&& 0 <= i < users.len()
    &&& users[i].effective_nick() == nick
    &&& forall|j: int| 0 <= j < i ==> (#[trigger] users[j]).effective_nick() != nick
}

/// The place of the user found under `nick`: the first one, where a user
/// without a nick has an id that is another user's nick.
pub open spec fn nick_index(users: Seq<UserView>, nick: Seq<char>) -> int {
    choose|i: int| is_first_under(users, nick, i)
}

/// Whether a registered user is found under `nick`.
pub open spec fn is_registered(users: Seq<UserView>, nick: Seq<char>) -> bool {
    has_nick(users, nick) && users[nick_index(users, nick)].registered()
}

/// Whether some user's connection has the id `id`.
pub open spec fn has_id(users: Seq<UserView>, id: Seq<char>) -> bool {
    exists|i: int| 0 <= i < users.len() && (#[trigger] users[i]).id == id
}

/// The place of the user whose connection has the id `id`, where there is one.
pub open spec fn id_index(users: Seq<UserView>, id: Seq<char>) -> int {
    choose|i: int| 0 <= i < users.len() && (#[trigger] users[i]).id == id
}

/// Nicks are kept apart: a user that has a nick is the first that is found
/// under it. So no two users have the same nick; only a user without a nick
/// may have an id that is the nick of a user that connected before it.
pub open spec fn nicks_apart(users: Seq<UserView>) -> bool {
    forall|j: int, k: int|
        0 <= j < k < users.len() && (#[trigger] users[k]).nick is Some ==> (
        #[trigger] users[j]).effective_nick() != users[k].effective_nick()
}

/// The registry's invariant: no two users share an id, nicks are kept apart,
/// and no user lists a channel twice.
pub open spec fn users_wf(users: Seq<UserView>) -> bool {
    &&& forall|i: int, j: int|
        0 <= i < users.len() && 0 <= j < users.len() && i != j ==> (#[trigger] users[i]).id != (
        #[trigger] users[j]).id
    &&& nicks_apart(users)
    &&& forall|i: int| 0 <= i < users.len() ==> (#[trigger] users[i]).joined.no_duplicates()
}

/// The first user under a nick is the one that lookups find.
pub proof fn lemma_nick_at(users: Seq<UserView>, nick: Seq<char>, i: int)
    requires
        is_first_under(users, nick, i),
    ensures
        has_nick(users, nick),
        nick_index(users, nick) == i,
{
    let k = nick_index(users, nick);
    assert(is_first_under(users, nick, k));
    if k < i {
        assert(users[k].effective_nick() == nick);
    }
    if i < k {
        assert(users[i].effective_nick() == nick);
    }
}

/// Where a user is found under a nick, a first one is.
pub proof fn lemma_first_under(users: Seq<UserView>, nick: Seq<char>)
    requires
        has_nick(users, nick),
    ensures
        is_first_under(users, nick, nick_index(users, nick)),
{
    let i = choose|i: int| 0 <= i < users.len() && (#[trigger] users[i]).effective_nick() == nick;
    lemma_first_before(users, nick, i);
}

proof fn lemma_first_before(users: Seq<UserView>, nick: Seq<char>, i: int)
    requires
        0 <= i < users.len(),
        users[i].effective_nick() == nick,
    ensures
        exists|k: int| is_first_under(users, nick, k),
    decreases i,
{
    if forall|j: int| 0 <= j < i ==> (#[trigger] users[j]).effective_nick() != nick {
        assert(is_first_under(users, nick, i));
    } else {
        let j = choose|j: int| 0 <= j < i && (#[trigger] users[j]).effective_nick() == nick;
        lemma_first_before(users, nick, j);
    }
}

/// Where nicks are kept apart, a user that has a nick is the one that
/// lookups by that nick find.
pub proof fn lemma_nicked_at(users: Seq<UserView>, i: int)
    requires
        nicks_apart(users),
        0 <= i < users.len(),
        users[i].nick is Some,
    ensures
        has_nick(users, users[i].effective_nick()),
        nick_index(users, users[i].effective_nick()) == i,
{
    assert(is_first_under(users, users[i].effective_nick(), i));
    lemma_nick_at(users, users[i].effective_nick(), i);
}

/// In a well-formed registry an id decides its user's place.
pub proof fn lemma_id_at(users: Seq<UserView>, id: Seq<char>, i: int)
    requires
        users_wf(users),
        0 <= i < users.len(),
        users[i].id == id,
    ensures
        has_id(users, id),
        id_index(users, id) == i,
{
}

/// Nicks stay apart where every user keeps its id and its nick.
pub proof fn lemma_names_kept(before: Seq<UserView>, after: Seq<UserView>)
    requires
        nicks_apart(before),
        after.len() == before.len(),
        forall|a: int|
            0 <= a < before.len() ==> (#[trigger] after[a]).id == before[a].id && after[a].nick
                == before[a].nick,
    ensures
        nicks_apart(after),
{
    assert forall|j: int, k: int| 0 <= j < k < after.len() && (#[trigger] after[k]).nick is Some implies (
    #[trigger] after[j]).effective_nick() != after[k].effective_nick() by {
        assert(before[j].effective_nick() != before[k].effective_nick());
    }
}

/// The registry of connected users, in the order in which they connected.
pub struct UserList {
    users: Vec<User>,
}

impl View for UserList {
    type V = Seq<UserView>;

    closed spec fn view(&self) -> Seq<UserView> {
        Seq::new(self.users@.len(), |i: int| self.users@[i]@)
    }
}

impl Default for UserList {
    fn default() -> (list: UserList)
        ensures
            list@ == Seq::<UserView>::empty(),
            list.wf(),
    {
        UserList::new()
    }
}

impl UserList {
    /// The registry's invariant.
    pub open spec fn wf(&self) -> bool {
        users_wf(self@)
    }

    /// An empty registry.
    pub fn new() -> (list: UserList)
        ensures
            list@ == Seq::<UserView>::empty(),
            list.wf(),
    {
        let list = UserList { users: Vec::new() };
        assert(list@ =~= Seq::<UserView>::empty());
        list
    }

    /// The users, in the order in which they connected.
    pub fn get_users(&self) -> (users: &Vec<User>)
        ensures
            users@.len() == self@.len(),
            forall|i: int| 0 <= i < users@.len() ==> (#[trigger] users@[i])@ == self@[i],
    {
        &self.users
    }

    /// How many users are connected.
    pub fn len(&self) -> (n: usize)
        ensures
            n == self@.len(),
    {
        self.users.len()
    }

    /// The user at place `i`.
    pub fn get(&self, i: usize) -> (user: &User)
        requires
            i < self@.len(),
        ensures
            user@ == self@[i as int],
    {
        &self.users[i]
    }

    /// The place of the user found under `nick`.
    pub fn find_by_nick(&self, nick: &str) -> (found: Option<usize>)
        requires
            self.wf(),
        ensures
            found is Some == has_nick(self@, nick@),
            found is Some ==> found->0 == nick_index(self@, nick@) && found->0 < self@.len(),
            found is Some ==> is_first_under(self@, nick@, found->0 as int),
    {
        let wanted = nick.to_owned();
        let mut i: usize = 0;
        while i < self.users.len()
            invariant
                self.wf(),
                wanted@ == nick@,
                i <= self.users@.len(),
                self.users@.len() == self@.len(),
                forall|j: int| 0 <= j < i ==> (#[trigger] self@[j]).effective_nick() != nick@,
            decreases self.users.len() - i,
        {
            let current = self.users[i].get_nick();
            if current.0 == wanted {
                proof {
                    lemma_nick_at(self@, nick@, i as int);
                }
                return Some(i);
            }
            i += 1;
        }
        None
    }

    /// The place of the user whose connection has the id `id`.
    pub fn find_by_id(&self, id: &str) -> (found: Option<usize>)
        requires
            self.wf(),
        ensures
            found is Some == has_id(self@, id@),
            found is Some ==> found->0 == id_index(self@, id@) && found->0 < self@.len(),
    {
        let wanted = id.to_owned();
        let mut i: usize = 0;
        while i < self.users.len()
            invariant
                self.wf(),
                wanted@ == id@,
                i <= self.users@.len(),
                self.users@.len() == self@.len(),
                forall|j: int| 0 <= j < i ==> (#[trigger] self@[j]).id != id@,
            decreases self.users.len() - i,
        {
            if self.users[i].id == wanted {
                proof {
                    lemma_id_at(self@, id@, i as int);
                }
                return Some(i);
            }
            i += 1;
        }
        None
    }

    /// Whether some user is found under `nick`.
    pub fn nick_in_use(&self, nick: &str) -> (r: bool)
        requires
            self.wf(),
        ensures
            r == has_nick(self@, nick@),
    {
        self.find_by_nick(nick).is_some()
    }

    /// The nick of the user whose connection has the id `id`, or the id itself
    /// while that user has no nick; `None` where no such user is connected.
    pub fn snapshot_nick_of(&self, id: &str) -> (nick: Option<Nick>)
        requires
            self.wf(),
        ensures
            nick is Some == has_id(self@, id@),
            nick is Some ==> nick->0@ == self@[id_index(self@, id@)].effective_nick(),
    {
        match self.find_by_id(id) {
            Some(i) => Some(self.users[i].get_nick()),
            None => None,
        }
    }

    /// Adds `user` at the end if its id is new, and says whether it did. A
    /// user enters the registry as it connects, without a nick; for a user
    /// that comes with one the caller answers that no user is found under it.
    pub fn add_user(&mut self, user: User) -> (added: bool)
        requires
            old(self).wf(),
            user.wf(),
            user@.nick is Some ==> !has_nick(old(self)@, user@.effective_nick()),
        ensures
            final(self).wf(),
            added == !has_id(old(self)@, user@.id),
            added ==> final(self)@ == old(self)@.push(user@),
            !added ==> final(self)@ == old(self)@,
    {
        let id = user.get_id();
        if self.find_by_id(id.as_str()).is_some() {
            return false;
        }
        let ghost before = self@;
        let ghost added = user@;
        self.users.push(user);
        assert(self@ =~= before.push(added));
        assert forall|i: int, j: int|
            0 <= i < self@.len() && 0 <= j < self@.len() && i != j implies (#[trigger] self@[i]).id
            != (#[trigger] self@[j]).id by {
            if i < before.len() {
                assert(self@[i] == before[i]);
            }
            if j < before.len() {
                assert(self@[j] == before[j]);
            }
        }
        assert forall|i: int| 0 <= i < self@.len() implies (#[trigger] self@[i]).joined.no_duplicates() by {
            if i < before.len() {
                assert(self@[i] == before[i]);
            }
        }
        assert forall|j: int, k: int|
            0 <= j < k < self@.len() && (#[trigger] self@[k]).nick is Some implies (
        #[trigger] self@[j]).effective_nick() != self@[k].effective_nick() by {
            assert(self@[j] == before[j]);
            if k < before.len() {
                assert(self@[k] == before[k]);
            }
        }
        true
    }

    /// Takes the user at place `i` out; those behind it move up.
    pub fn remove_at(&mut self, i: usize)
        requires
            old(self).wf(),
            i < old(self)@.len(),
        ensures
            final(self).wf(),
            final(self)@ == old(self)@.remove(i as int),
    {
        let ghost before = self@;
        self.users.remove(i);
        assert(self@ =~= before.remove(i as int));
        assert forall|a: int| 0 <= a < self@.len() implies (#[trigger] self@[a]) == before[if a
            < i {
            a
        } else {
            a + 1
        }] by {}
        assert forall|j: int, k: int|
            0 <= j < k < self@.len() && (#[trigger] self@[k]).nick is Some implies (
        #[trigger] self@[j]).effective_nick() != self@[k].effective_nick() by {
            let j0 = if j < i { j } else { j + 1 };
            let k0 = if k < i { k } else { k + 1 };
            assert(before[j0].effective_nick() != before[k0].effective_nick());
        }
    }

    /// Takes the user found under `nick` out, if there is one.
    pub fn remove_by_nick(&mut self, nick: &str)
        requires
            old(self).wf(),
        ensures
            final(self).wf(),
            final(self)@ == without_user(old(self)@, nick@),
    {
        match self.find_by_nick(nick) {
            Some(i) => self.remove_at(i),
            None => {},
        }
    }

    /// Gives the user at place `i` the nick `nick`, under which no user is
    /// found yet.
    pub fn set_nick_at(&mut self, i: usize, nick: String)
        requires
            old(self).wf(),
            i < old(self)@.len(),
            !has_nick(old(self)@, nick@),
        ensures
            final(self).wf(),
            final(self)@ == old(self)@.update(
                i as int,
                UserView { nick: Some(nick@), ..old(self)@[i as int] },
            ),
    {
        let ghost before = self@;
        let ghost name = nick@;
        self.users[i].set_nick(nick);
        assert(self@ =~= before.update(i as int, UserView { nick: Some(name), ..before[i as int] }));
        assert forall|a: int| 0 <= a < self@.len() implies (#[trigger] self@[a]).id == before[a].id
            && self@[a].joined == before[a].joined by {}
        assert forall|a: int, b: int|
            0 <= a < b < self@.len() && (#[trigger] self@[b]).nick is Some implies (
        #[trigger] self@[a]).effective_nick() != self@[b].effective_nick() by {
            assert(before[a].effective_nick() != name);
            assert(before[b].effective_nick() != name);
            if a != i && b != i {
                assert(before[a].effective_nick() != before[b].effective_nick());
            }
        }
    }

    /// Gives the user at place `i` the real name `real_name`.
    pub fn set_real_name_at(&mut self, i: usize, real_name: String)
        requires
            old(self).wf(),
            i < old(self)@.len(),
        ensures
            final(self).wf(),
            final(self)@ == old(self)@.update(
                i as int,
                UserView { real_name: Some(real_name@), ..old(self)@[i as int] },
            ),
    {
        let ghost before = self@;
        let ghost name = real_name@;
        self.users[i].set_real_name(real_name);
        assert(self@ =~= before.update(
            i as int,
            UserView { real_name: Some(name), ..before[i as int] },
        ));
        assert forall|a: int| 0 <= a < self@.len() implies (#[trigger] self@[a]).id == before[a].id
            && self@[a].nick == before[a].nick && self@[a].joined == before[a].joined by {}
        proof {
            lemma_names_kept(before, self@);
        }
    }

    /// Notes that the user at place `i` is in `channel`.
    pub fn join_at(&mut self, i: usize, channel: &str)
        requires
            old(self).wf(),
            i < old(self)@.len(),
        ensures
            final(self).wf(),
            final(self)@ == old(self)@.update(
                i as int,
                UserView {
                    joined: with_item(old(self)@[i as int].joined, channel@),
                    ..old(self)@[i as int]
                },
            ),
    {
        let ghost before = self@;
        self.users[i].join_channel(channel);
        assert(self@ =~= before.update(
            i as int,
            UserView { joined: with_item(before[i as int].joined, channel@), ..before[i as int] },
        ));
        proof {
            lemma_with_item(before[i as int].joined, channel@);
        }
        assert forall|a: int| 0 <= a < self@.len() implies (#[trigger] self@[a]).id == before[a].id
            && self@[a].nick == before[a].nick by {}
        proof {
            lemma_names_kept(before, self@);
        }
        assert forall|a: int| 0 <= a < self@.len() implies (#[trigger] self@[a]).joined.no_duplicates() by {
            if a != i {
                assert(self@[a] == before[a]);
            }
        }
    }

    /// Notes that the user at place `i` is no longer in `channel`.
    pub fn part_at(&mut self, i: usize, channel: &str)
        requires
            old(self).wf(),
            i < old(self)@.len(),
        ensures
            final(self).wf(),
            final(self)@ == old(self)@.update(
                i as int,
                UserView {
                    joined: without(old(self)@[i as int].joined, channel@),
                    ..old(self)@[i as int]
                },
            ),
    {
        let ghost before = self@;
        self.users[i].part_channel(channel);
        assert(self@ =~= before.update(
            i as int,
            UserView { joined: without(before[i as int].joined, channel@), ..before[i as int] },
        ));
        proof {
            lemma_without_no_duplicates(before[i as int].joined, channel@);
        }
        assert forall|a: int| 0 <= a < self@.len() implies (#[trigger] self@[a]).id == before[a].id
            && self@[a].nick == before[a].nick by {}
        proof {
            lemma_names_kept(before, self@);
        }
        assert forall|a: int| 0 <= a < self@.len() implies (#[trigger] self@[a]).joined.no_duplicates() by {
            if a != i {
                assert(self@[a] == before[a]);
            }
        }
    }
}

/// The registry without the user found under `nick`.
pub open spec fn without_user(users: Seq<UserView>, nick: Seq<char>) -> Seq<UserView> {
    if has_nick(users, nick) {
        users.remove(nick_index(users, nick))
    } else {
        users
    }
}

} // verus!
