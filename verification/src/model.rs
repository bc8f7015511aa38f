//! The mathematical model of the server's state and of what each command
//! does to it. Texts are sequences of characters; sessions and channels are
//! kept in the order in which they were created.

use crate::message::{
    ErrorType, MessageView, TargetView, decode, has_valid_names, is_channel_name, is_nickname,
};
use crate::reply::{error_text, join_text, part_text, pong_text, privmsg_text, quit_text, welcome_text};
use vstd::prelude::*;

verus! {

/// How far a session has come in registering.
#[derive(Clone, Copy, Debug, PartialEq, Eq, Structural)]
pub enum Stage {
    /// Neither nickname nor display name.
    Unregistered,
    /// A nickname, no display name yet.
    NickOnly,
    /// Both.
    Registered,
}

/// One connected client.
pub struct SessionView {
    pub id: Seq<char>,
    pub nick: Option<Seq<char>>,
    pub full_name: Option<Seq<char>>,
}

/// One channel and its members, by connection identity.
pub struct ChannelView {
    pub name: Seq<char>,
    pub members: Seq<Seq<char>>,
}

/// The whole state.
pub struct RegistryView {
    pub sessions: Seq<SessionView>,
    pub channels: Seq<ChannelView>,
}

/// One line for one connection.
pub struct DeliveryView {
    pub to: Seq<char>,
    pub text: Seq<char>,
}

/// The state after a command, and the lines that it causes, in order.
pub struct Outcome {
    pub next: RegistryView,
    pub out: Seq<DeliveryView>,
}

/// `k` is the first position of `s` whose item meets `f`.
pub open spec fn is_first_where<T>(s: Seq<T>, f: spec_fn(T) -> bool, k: int) -> bool {
    &&& 0 <= k < s.len()
    &&& f(s[k])
    &&& forall|j: int| 0 <= j < k ==> !f(#[trigger] s[j])
}

/// The first position of `s` whose item meets `f`; the length of `s` where
/// none does.
pub open spec fn first_where<T>(s: Seq<T>, f: spec_fn(T) -> bool) -> int {
    if exists|k: int| is_first_where(s, f, k) {
        choose|k: int| is_first_where(s, f, k)
    } else {
        s.len() as int
    }
}

/// A first position is the one that `first_where` names.
pub proof fn lemma_first_where_is<T>(s: Seq<T>, f: spec_fn(T) -> bool, k: int)
    requires
        is_first_where(s, f, k),
    ensures
        first_where(s, f) == k,
{
    let c = choose|c: int| is_first_where(s, f, c);
    assert(is_first_where(s, f, c));
    if c < k {
        assert(!f(s[c]));
    }
    if k < c {
        assert(!f(s[k]));
    }
}

/// An item that meets `f` has a first one at or before it.
pub proof fn lemma_first_exists<T>(s: Seq<T>, f: spec_fn(T) -> bool, j: int)
    requires
        0 <= j < s.len(),
        f(s[j]),
    ensures
        exists|k: int| is_first_where(s, f, k) && k <= j,
    decreases j,
{
    if forall|i: int| 0 <= i < j ==> !f(#[trigger] s[i]) {
        assert(is_first_where(s, f, j));
    } else {
        let i = choose|i: int| 0 <= i < j && f(#[trigger] s[i]);
        lemma_first_exists(s, f, i);
    }
}

/// What `first_where` gives: a position within the sequence or its length,
/// with an item that meets `f` there and none before.
pub proof fn lemma_first_where<T>(s: Seq<T>, f: spec_fn(T) -> bool)
    ensures
        0 <= first_where(s, f) <= s.len(),
        first_where(s, f) < s.len() ==> f(s[first_where(s, f)]),
        forall|j: int| 0 <= j < first_where(s, f) ==> !f(#[trigger] s[j]),
{
    if exists|k: int| is_first_where(s, f, k) {
        let c = choose|c: int| is_first_where(s, f, c);
        assert(is_first_where(s, f, c));
    } else {
        assert forall|j: int| 0 <= j < s.len() implies !f(#[trigger] s[j]) by {
            if f(s[j]) {
                lemma_first_exists(s, f, j);
            }
        }
    }
}

/// The sessions with identity `id`.
pub open spec fn by_id(id: Seq<char>) -> spec_fn(SessionView) -> bool {
    |s: SessionView| s.id == id
}

/// The sessions that hold the nickname `nick`.
pub open spec fn by_nick(nick: Seq<char>) -> spec_fn(SessionView) -> bool {
    |s: SessionView| s.nick == Some(nick)
}

/// The channels named `name`.
pub open spec fn by_name(name: Seq<char>) -> spec_fn(ChannelView) -> bool {
    |c: ChannelView| c.name == name
}

/// The texts equal to `t`.
pub open spec fn same_as(t: Seq<char>) -> spec_fn(Seq<char>) -> bool {
    |m: Seq<char>| m == t
}

/// Where `id` stands among `members`; their number where it does not.
pub open spec fn position(members: Seq<Seq<char>>, id: Seq<char>) -> int {
    first_where(members, same_as(id))
}

/// Whether `id` is one of `members`.
pub open spec fn is_member(members: Seq<Seq<char>>, id: Seq<char>) -> bool {
    position(members, id) < members.len()
}

/// `members` without `id`; the others keep their order.
pub open spec fn without(members: Seq<Seq<char>>, id: Seq<char>) -> Seq<Seq<char>> {
    if is_member(members, id) {
        members.remove(position(members, id))
    } else {
        members
    }
}

/// `members` with `id`: added at the end unless it is there already.
pub open spec fn with(members: Seq<Seq<char>>, id: Seq<char>) -> Seq<Seq<char>> {
    if is_member(members, id) {
        members
    } else {
        members.push(id)
    }
}

/// One copy of `text` for each member, in the members' order.
pub open spec fn fan_out(members: Seq<Seq<char>>, text: Seq<char>) -> Seq<DeliveryView> {
    Seq::new(members.len(), |k: int| DeliveryView { to: members[k], text })
}

/// Each channel without the member `id`.
pub open spec fn drop_member(channels: Seq<ChannelView>, id: Seq<char>) -> Seq<ChannelView> {
    Seq::new(
        channels.len(),
        |c: int| ChannelView { name: channels[c].name, members: without(channels[c].members, id) },
    )
}

/// What one channel's members hear when `id` leaves the server: nothing
/// unless `id` was a member, else one copy of `text` for each member that
/// remains.
pub open spec fn notices(channel: ChannelView, id: Seq<char>, text: Seq<char>) -> Seq<
    DeliveryView,
> {
    if is_member(channel.members, id) {
        fan_out(without(channel.members, id), text)
    } else {
        Seq::empty()
    }
}

/// What all channels hear when `id` leaves the server, channel by channel.
pub open spec fn quit_out(channels: Seq<ChannelView>, id: Seq<char>, text: Seq<char>) -> Seq<
    DeliveryView,
>
    decreases channels.len(),
{
    if channels.len() == 0 {
        Seq::empty()
    } else {
        quit_out(channels.drop_last(), id, text) + notices(channels.last(), id, text)
    }
}

/// The names of the channels, in order.
pub open spec fn channel_names(channels: Seq<ChannelView>) -> Seq<Seq<char>> {
    Seq::new(channels.len(), |c: int| channels[c].name)
}

impl SessionView {
    /// A session that has just connected.
    pub open spec fn fresh(id: Seq<char>) -> SessionView {
        SessionView { id, nick: None, full_name: None }
    }

    /// The stage that the two optional names give.
    pub open spec fn stage(self) -> Stage {
        if self.nick is None {
            Stage::Unregistered
        } else if self.full_name is None {
            Stage::NickOnly
        } else {
            Stage::Registered
        }
    }
}

impl RegistryView {
    /// The state of a server that nobody has connected to.
    pub open spec fn empty() -> RegistryView {
        RegistryView { sessions: Seq::empty(), channels: Seq::empty() }
    }

    /// Where the session `id` stands; the number of sessions where there is
    /// none.
    pub open spec fn session_index(self, id: Seq<char>) -> int {
        first_where(self.sessions, by_id(id))
    }

    /// Whether `id` is a live connection.
    pub open spec fn has_session(self, id: Seq<char>) -> bool {
        self.session_index(id) < self.sessions.len()
    }

    /// Where the session that holds `nick` stands; the number of sessions
    /// where nobody holds it.
    pub open spec fn nick_index(self, nick: Seq<char>) -> int {
        first_where(self.sessions, by_nick(nick))
    }

    /// Whether some session holds `nick`.
    pub open spec fn nick_taken(self, nick: Seq<char>) -> bool {
        self.nick_index(nick) < self.sessions.len()
    }

    /// Where the channel `name` stands; the number of channels where there
    /// is none.
    pub open spec fn channel_index(self, name: Seq<char>) -> int {
        first_where(self.channels, by_name(name))
    }

    /// Whether a channel `name` exists.
    pub open spec fn has_channel(self, name: Seq<char>) -> bool {
        self.channel_index(name) < self.channels.len()
    }

    /// Whether `id` is a session that has completed its registration.
    pub open spec fn is_registered(self, id: Seq<char>) -> bool {
        self.has_session(id) && self.sessions[self.session_index(id)].stage() == Stage::Registered
    }

    /// No two sessions share an identity.
    pub open spec fn distinct_ids(self) -> bool {
        forall|i: int, j: int|
            0 <= i < j < self.sessions.len() ==> (#[trigger] self.sessions[i]).id != (
            #[trigger] self.sessions[j]).id
    }

    /// No two sessions hold the same nickname.
    pub open spec fn distinct_nicks(self) -> bool {
        forall|i: int, j: int|
            0 <= i < self.sessions.len() && 0 <= j < self.sessions.len() && i != j && (
            #[trigger] self.sessions[i]).nick is Some ==> self.sessions[i].nick != (
            #[trigger] self.sessions[j]).nick
    }

    /// A display name comes only with a nickname.
    pub open spec fn names_follow_nicks(self) -> bool {
        forall|i: int|
            0 <= i < self.sessions.len() && (#[trigger] self.sessions[i]).full_name is Some
                ==> self.sessions[i].nick is Some
    }

    /// No two channels share a name.
    pub open spec fn distinct_channels(self) -> bool {
        forall|c: int, d: int|
            0 <= c < d < self.channels.len() ==> (#[trigger] self.channels[c]).name != (
            #[trigger] self.channels[d]).name
    }

    /// No channel lists a member twice.
    pub open spec fn distinct_members(self) -> bool {
        forall|c: int|
            0 <= c < self.channels.len() ==> (#[trigger] self.channels[c]).members.no_duplicates()
    }

    /// Every member of every channel is a registered session.
    pub open spec fn members_registered(self) -> bool {
        forall|c: int, m: int|
            0 <= c < self.channels.len() && 0 <= m < self.channels[c].members.len()
                ==> self.is_registered(#[trigger] self.channels[c].members[m])
    }

    /// Every nickname that is held is a nickname of the grammar.
    pub open spec fn valid_nicks(self) -> bool {
        forall|i: int|
            0 <= i < self.sessions.len() && (#[trigger] self.sessions[i]).nick is Some
                ==> is_nickname(self.sessions[i].nick->0)
    }

    /// Every channel's name is a channel name of the grammar: a word that
    /// begins with the sigil.
    pub open spec fn valid_channels(self) -> bool {
        forall|c: int|
            0 <= c < self.channels.len() ==> is_channel_name((#[trigger] self.channels[c]).name)
    }

    /// The state is consistent: no two sessions share an identity or a
    /// nickname, a display name comes only with a nickname, every nickname
    /// held is a nickname, no two channels share a name, every channel's
    /// name is a channel name, no channel lists a member twice, and every
    /// member is a registered session.
    pub open spec fn wf(self) -> bool {
        &&& self.distinct_ids()
        &&& self.distinct_nicks()
        &&& self.names_follow_nicks()
        &&& self.valid_nicks()
        &&& self.distinct_channels()
        &&& self.valid_channels()
        &&& self.distinct_members()
        &&& self.members_registered()
    }

    /// The state after `id` has connected: a fresh session, in the place of
    /// an earlier one of that identity if there was one, and in no channel.
    pub open spec fn announce(self, id: Seq<char>) -> RegistryView {
        let i = self.session_index(id);
        if i < self.sessions.len() {
            RegistryView {
                sessions: self.sessions.update(i, SessionView::fresh(id)),
                channels: drop_member(self.channels, id),
            }
        } else {
            RegistryView { sessions: self.sessions.push(SessionView::fresh(id)), channels: self.channels }
        }
    }

    /// The state without the session `id`, which also leaves every channel.
    pub open spec fn depart(self, id: Seq<char>) -> RegistryView {
        let i = self.session_index(id);
        if i < self.sessions.len() {
            RegistryView { sessions: self.sessions.remove(i), channels: drop_member(self.channels, id) }
        } else {
            self
        }
    }

    /// Nothing changes and nothing is written.
    pub open spec fn ignored(self) -> Outcome {
        Outcome { next: self, out: Seq::empty() }
    }

    /// Nothing changes and `id` gets one line.
    pub open spec fn reply_to(self, id: Seq<char>, text: Seq<char>) -> Outcome {
        Outcome { next: self, out: seq![DeliveryView { to: id, text }] }
    }

    /// `NICK` from the unregistered session at `i`: refused where the
    /// nickname is taken, else granted without a reply.
    pub open spec fn take_nick(self, i: int, nick: Seq<char>) -> Outcome {
        let s = self.sessions[i];
        if self.nick_taken(nick) {
            self.reply_to(s.id, error_text(ErrorType::NickCollision))
        } else {
            Outcome {
                next: RegistryView {
                    sessions: self.sessions.update(
                        i,
                        SessionView { id: s.id, nick: Some(nick), full_name: s.full_name },
                    ),
                    channels: self.channels,
                },
                out: Seq::empty(),
            }
        }
    }

    /// `USER` from the session at `i`, which holds a nickname: the display
    /// name is set and the session is welcomed.
    pub open spec fn set_name(self, i: int, real_name: Seq<char>) -> Outcome {
        let s = self.sessions[i];
        Outcome {
            next: RegistryView {
                sessions: self.sessions.update(
                    i,
                    SessionView { id: s.id, nick: s.nick, full_name: Some(real_name) },
                ),
                channels: self.channels,
            },
            out: seq![DeliveryView { to: s.id, text: welcome_text(s.nick->0, real_name) }],
        }
    }

    /// `PRIVMSG` from the registered session at `i`: to every member of an
    /// existing channel, the sender included where it is one, or to the one
    /// session that holds the nickname; a refusal to the sender where the
    /// target does not exist.
    pub open spec fn privmsg(self, i: int, target: TargetView, text: Seq<char>) -> Outcome {
        let s = self.sessions[i];
        let line = privmsg_text(s.nick->0, target, text);
        match target {
            TargetView::Channel(name) => {
                if self.has_channel(name) {
                    Outcome {
                        next: self,
                        out: fan_out(self.channels[self.channel_index(name)].members, line),
                    }
                } else {
                    self.reply_to(s.id, error_text(ErrorType::NoSuchChannel))
                }
            },
            TargetView::User(nick) => {
                if self.nick_taken(nick) {
                    self.reply_to(self.sessions[self.nick_index(nick)].id, line)
                } else {
                    self.reply_to(s.id, error_text(ErrorType::NoSuchNick))
                }
            },
        }
    }

    /// The channels after the session `id` has joined `name`.
    pub open spec fn joined(self, id: Seq<char>, name: Seq<char>) -> Seq<ChannelView> {
        let c = self.channel_index(name);
        if c < self.channels.len() {
            self.channels.update(c, ChannelView { name, members: with(self.channels[c].members, id) })
        } else {
            self.channels.push(ChannelView { name, members: seq![id] })
        }
    }

    /// `JOIN` from the registered session at `i`: the session becomes a
    /// member, the channel is created where it did not exist, and every
    /// member, the joiner included, is told. A member that joins again is
    /// not listed twice, and the notice goes out again.
    pub open spec fn join(self, i: int, name: Seq<char>) -> Outcome {
        let s = self.sessions[i];
        let channels = self.joined(s.id, name);
        Outcome {
            next: RegistryView { sessions: self.sessions, channels },
            out: fan_out(channels[self.channel_index(name)].members, join_text(s.nick->0, name)),
        }
    }

    /// `PART` from the registered session at `i`: a refusal where the channel
    /// does not exist, nothing where the session is no member, else the
    /// session leaves and the members that remain are told.
    pub open spec fn part(self, i: int, name: Seq<char>) -> Outcome {
        let s = self.sessions[i];
        let c = self.channel_index(name);
        if !self.has_channel(name) {
            self.reply_to(s.id, error_text(ErrorType::NoSuchChannel))
        } else if !is_member(self.channels[c].members, s.id) {
            self.ignored()
        } else {
            let remaining = without(self.channels[c].members, s.id);
            Outcome {
                next: RegistryView {
                    sessions: self.sessions,
                    channels: self.channels.update(c, ChannelView { name, members: remaining }),
                },
                out: fan_out(remaining, part_text(s.nick->0, name)),
            }
        }
    }

    /// `QUIT` from the registered session at `i`: in each channel that the
    /// session belongs to, the members that remain are told; then the session
    /// is gone.
    pub open spec fn quit(self, i: int, reason: Option<Seq<char>>) -> Outcome {
        let s = self.sessions[i];
        Outcome {
            next: self.depart(s.id),
            out: quit_out(self.channels, s.id, quit_text(s.nick->0, reason)),
        }
    }

    /// What a decoded command from `id` does. A command from an identity
    /// that is no session, one whose names are not names of the grammar, and
    /// one that the session's stage does not accept, changes nothing and is
    /// not answered.
    pub open spec fn apply(self, id: Seq<char>, msg: MessageView) -> Outcome {
        let i = self.session_index(id);
        if !self.has_session(id) || !has_valid_names(msg) {
            self.ignored()
        } else {
            match self.sessions[i].stage() {
                Stage::Unregistered => match msg {
                    MessageView::Nick(nick) => self.take_nick(i, nick),
                    MessageView::Quit(_) => Outcome { next: self.depart(id), out: Seq::empty() },
                    _ => self.ignored(),
                },
                Stage::NickOnly => match msg {
                    MessageView::User(real_name) => self.set_name(i, real_name),
                    MessageView::Quit(_) => Outcome { next: self.depart(id), out: Seq::empty() },
                    _ => self.ignored(),
                },
                Stage::Registered => match msg {
                    MessageView::PrivMsg(target, text) => self.privmsg(i, target, text),
                    MessageView::Ping(token) => self.reply_to(id, pong_text(token)),
                    MessageView::Join(name) => self.join(i, name),
                    MessageView::Part(name) => self.part(i, name),
                    MessageView::Quit(reason) => self.quit(i, reason),
                    _ => self.ignored(),
                },
            }
        }
    }

    /// What one line from `id` does: a line that does not decode is answered
    /// with the refusal and changes nothing; any other is applied.
    pub open spec fn command(self, id: Seq<char>, line: Seq<char>) -> Outcome {
        if !self.has_session(id) {
            self.ignored()
        } else {
            match decode(line) {
                Ok(msg) => self.apply(id, msg),
                Err(e) => self.reply_to(id, error_text(e)),
            }
        }
    }
}

} // verus!
