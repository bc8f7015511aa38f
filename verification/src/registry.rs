//! The session registry: who is connected, how far each has registered, and
//! who is in which channel. It is the one owner of that state, and every
//! command goes through it.

use crate::laws::{lemma_announce_wf, lemma_apply_wf, lemma_command_wf};
use crate::message::{ErrorType, Message, Target, check_names, option_view, parse_message};
use crate::model::{
    ChannelView, DeliveryView, RegistryView, SessionView, Stage, by_id, by_name, by_nick, channel_names,
    drop_member, fan_out, is_first_where, lemma_first_where,
    lemma_first_where_is, notices, position, quit_out, same_as, without,
};
use crate::reply::{error_line, join_line, part_line, pong_line, privmsg_line, quit_line, welcome_line};
use crate::text::views;
use vstd::prelude::*;
use vstd::string::*;

verus! {

/// One line addressed to one connection, without its line terminator.
#[derive(Clone, Debug, PartialEq, Eq)]
pub struct Delivery {
    /// The identity of the connection to write to.
    pub to: String,
    /// The line.
    pub text: String,
}

impl View for Delivery {
    type V = DeliveryView;

    open spec fn view(&self) -> DeliveryView {
        DeliveryView { to: self.to@, text: self.text@ }
    }
}

/// The view of each delivery, in order.
pub open spec fn deliveries(v: Seq<Delivery>) -> Seq<DeliveryView> {
    Seq::new(v.len(), |i: int| v[i]@)
}

struct Session {
    id: String,
    nick: Option<String>,
    full_name: Option<String>,
}

struct Channel {
    name: String,
    members: Vec<String>,
}

/// The server's state.
pub struct Registry {
    sessions: Vec<Session>,
    channels: Vec<Channel>,
}

impl View for Session {
    type V = SessionView;

    closed spec fn view(&self) -> SessionView {
        SessionView {
            id: self.id@,
            nick: option_view(self.nick),
            full_name: option_view(self.full_name),
        }
    }
}

impl View for Channel {
    type V = ChannelView;

    closed spec fn view(&self) -> ChannelView {
        ChannelView { name: self.name@, members: views(self.members@) }
    }
}

spec fn session_views(s: Seq<Session>) -> Seq<SessionView> {
    Seq::new(s.len(), |i: int| s[i]@)
}

spec fn channel_views(c: Seq<Channel>) -> Seq<ChannelView> {
    Seq::new(c.len(), |i: int| c[i]@)
}

impl View for Registry {
    type V = RegistryView;

    closed spec fn view(&self) -> RegistryView {
        RegistryView {
            sessions: session_views(self.sessions@),
            channels: channel_views(self.channels@),
        }
    }
}

/// Where `id` stands among `members`; their number where it does not.
fn find_member(members: &Vec<String>, id: &String) -> (k: usize)
    ensures
        k == position(views(members@), id@),
        k <= members.len(),
{
    let ghost v = views(members@);
    let mut k: usize = 0;
    while k < members.len()
        invariant
            k <= members.len(),
            v == views(members@),
            forall|j: int| 0 <= j < k ==> !same_as(id@)(#[trigger] v[j]),
        decreases members.len() - k,
    {
        if members[k] == *id {
            proof {
                assert(is_first_where(v, same_as(id@), k as int));
                lemma_first_where_is(v, same_as(id@), k as int);
            }
            return k;
        }
        k += 1;
    }
    proof {
        lemma_first_where(v, same_as(id@));
    }
    k
}

/// Appends one copy of `text` for each of `members`, in their order.
fn fan_out_to(members: &Vec<String>, text: &String, out: &mut Vec<Delivery>)
    ensures
        deliveries(final(out)@) == deliveries(old(out)@) + fan_out(views(members@), text@),
{
    let ghost before = deliveries(out@);
    let ghost v = views(members@);
    let mut k: usize = 0;
    assert(deliveries(out@) =~= before + fan_out(v.take(0), text@));
    while k < members.len()
        invariant
            k <= members.len(),
            v == views(members@),
            deliveries(out@) == before + fan_out(v.take(k as int), text@),
        decreases members.len() - k,
    {
        let ghost prior = deliveries(out@);
        out.push(Delivery { to: members[k].clone(), text: text.clone() });
        k += 1;
        assert(deliveries(out@) =~= prior.push(DeliveryView { to: v[k - 1], text: text@ }));
        assert(fan_out(v.take(k as int), text@) =~= fan_out(v.take(k - 1), text@).push(
            DeliveryView { to: v[k - 1], text: text@ },
        ));
        assert(deliveries(out@) =~= before + fan_out(v.take(k as int), text@));
    }
    assert(v.take(members.len() as int) =~= v);
}

impl Registry {
    /// The state is consistent, as the model says.
    pub open spec fn wf(&self) -> bool {
        self@.wf()
    }

    /// A registry without sessions or channels.
    pub fn new() -> (r: Registry)
        ensures
            r@ == RegistryView::empty(),
            r.wf(),
    {
        let r = Registry { sessions: Vec::new(), channels: Vec::new() };
        assert(r@.sessions =~= Seq::empty());
        assert(r@.channels =~= Seq::empty());
        r
    }

    /// Where the session `id` stands; the number of sessions where there is
    /// none.
    fn find_session(&self, id: &String) -> (i: usize)
        ensures
            i == self@.session_index(id@),
            i <= self.sessions.len(),
            self.sessions.len() == self@.sessions.len(),
    {
        let ghost v = self@.sessions;
        let mut i: usize = 0;
        while i < self.sessions.len()
            invariant
                i <= self.sessions.len(),
                v == self@.sessions,
                v.len() == self.sessions.len(),
                forall|j: int| 0 <= j < i ==> !by_id(id@)(#[trigger] v[j]),
            decreases self.sessions.len() - i,
        {
            if self.sessions[i].id == *id {
                proof {
                    assert(is_first_where(v, by_id(id@), i as int));
                    lemma_first_where_is(v, by_id(id@), i as int);
                }
                return i;
            }
            i += 1;
        }
        proof {
            lemma_first_where(v, by_id(id@));
        }
        i
    }

    /// Where the session that holds `nick` stands; the number of sessions
    /// where nobody holds it.
    fn find_nick(&self, nick: &String) -> (i: usize)
        ensures
            i == self@.nick_index(nick@),
            i <= self.sessions.len(),
            self.sessions.len() == self@.sessions.len(),
    {
        let ghost v = self@.sessions;
        let mut i: usize = 0;
        while i < self.sessions.len()
            invariant
                i <= self.sessions.len(),
                v == self@.sessions,
                v.len() == self.sessions.len(),
                forall|j: int| 0 <= j < i ==> !by_nick(nick@)(#[trigger] v[j]),
            decreases self.sessions.len() - i,
        {
            let held = match &self.sessions[i].nick {
                Some(n) => *n == *nick,
                None => false,
            };
            if held {
                proof {
                    assert(is_first_where(v, by_nick(nick@), i as int));
                    lemma_first_where_is(v, by_nick(nick@), i as int);
                }
                return i;
            }
            i += 1;
        }
        proof {
            lemma_first_where(v, by_nick(nick@));
        }
        i
    }

    /// Where the channel `name` stands; the number of channels where there
    /// is none.
    fn find_channel(&self, name: &String) -> (c: usize)
        ensures
            c == self@.channel_index(name@),
            c <= self.channels.len(),
            self.channels.len() == self@.channels.len(),
    {
        let ghost v = self@.channels;
        let mut c: usize = 0;
        while c < self.channels.len()
            invariant
                c <= self.channels.len(),
                v == self@.channels,
                v.len() == self.channels.len(),
                forall|j: int| 0 <= j < c ==> !by_name(name@)(#[trigger] v[j]),
            decreases self.channels.len() - c,
        {
            if self.channels[c].name == *name {
                proof {
                    assert(is_first_where(v, by_name(name@), c as int));
                    lemma_first_where_is(v, by_name(name@), c as int);
                }
                return c;
            }
            c += 1;
        }
        proof {
            lemma_first_where(v, by_name(name@));
        }
        c
    }

    /// Takes `id` out of every channel and collects, channel by channel, one
    /// copy of `text` for each member that remains in a channel that `id`
    /// was in.
    fn leave_all(&mut self, id: &String, text: &String) -> (out: Vec<Delivery>)
        ensures
            final(self)@.sessions == old(self)@.sessions,
            final(self)@.channels == drop_member(old(self)@.channels, id@),
            deliveries(out@) == quit_out(old(self)@.channels, id@, text@),
    {
        let ghost before = self@.channels;
        let mut out: Vec<Delivery> = Vec::new();
        let mut c: usize = 0;
        assert(before.take(0) =~= Seq::<ChannelView>::empty());
        assert(deliveries(out@) =~= Seq::<DeliveryView>::empty());
        while c < self.channels.len()
            invariant
                c <= self.channels.len(),
                self.channels.len() == before.len(),
                self@.sessions == old(self)@.sessions,
                before == old(self)@.channels,
                forall|j: int| 0 <= j < c ==> (#[trigger] self@.channels[j]) == drop_member(before, id@)[j],
                forall|j: int| c <= j < before.len() ==> (#[trigger] self@.channels[j]) == before[j],
                deliveries(out@) == quit_out(before.take(c as int), id@, text@),
            decreases self.channels.len() - c,
        {
            let ghost sofar = self@.channels;
            let ghost members = views(self.channels[c as int].members@);
            assert(sofar[c as int] == before[c as int]);
            assert(members == before[c as int].members);
            let k = find_member(&self.channels[c].members, id);
            let ghost heard = deliveries(out@);
            if k < self.channels[c].members.len() {
                self.channels[c].members.remove(k);
                assert(views(self.channels[c as int].members@) =~= members.remove(k as int));
                fan_out_to(&self.channels[c].members, text, &mut out);
            } else {
                assert(deliveries(out@) =~= heard + Seq::<DeliveryView>::empty());
            }
            assert(deliveries(out@) == heard + notices(before[c as int], id@, text@));
            assert(self@.channels[c as int] == drop_member(before, id@)[c as int]);
            assert forall|j: int| 0 <= j < before.len() && j != c implies (
            #[trigger] self@.channels[j]) == sofar[j] by {}
            c += 1;
            assert(before.take(c as int).drop_last() =~= before.take(c - 1));
            assert(before.take(c as int).last() == before[c - 1]);
        }
        assert(before.take(before.len() as int) =~= before);
        assert(self@.channels =~= drop_member(before, id@));
        out
    }

    /// Removes the session at `i`, whose identity is `id`, from the sessions
    /// and from every channel.
    fn depart(&mut self, i: usize, id: &String)
        requires
            i == old(self)@.session_index(id@),
            i < old(self)@.sessions.len(),
        ensures
            final(self)@ == old(self)@.depart(id@),
    {
        let empty = String::new();
        let _ = self.leave_all(id, &empty);
        self.sessions.remove(i);
        assert(self@.sessions =~= old(self)@.sessions.remove(i as int));
    }

    /// `NICK` from the session at `i`.
    fn take_nick(&mut self, i: usize, nick: String) -> (out: Vec<Delivery>)
        requires
            i < old(self)@.sessions.len(),
        ensures
            final(self)@ == old(self)@.take_nick(i as int, nick@).next,
            deliveries(out@) == old(self)@.take_nick(i as int, nick@).out,
    {
        let mut out: Vec<Delivery> = Vec::new();
        let j = self.find_nick(&nick);
        if j < self.sessions.len() {
            out.push(
                Delivery { to: self.sessions[i].id.clone(), text: error_line(ErrorType::NickCollision) },
            );
            assert(deliveries(out@) =~= old(self)@.take_nick(i as int, nick@).out);
        } else {
            let ghost wanted = nick@;
            self.sessions[i].nick = Some(nick);
            assert(self@.sessions =~= old(self)@.take_nick(i as int, wanted).next.sessions);
            assert(self@.channels =~= old(self)@.channels);
            assert(deliveries(out@) =~= Seq::<DeliveryView>::empty());
        }
        out
    }

    /// `USER` from the session at `i`, which holds `nick`.
    fn set_name(&mut self, i: usize, nick: &String, real_name: String) -> (out: Vec<Delivery>)
        requires
            i < old(self)@.sessions.len(),
            old(self)@.sessions[i as int].nick == Some(nick@),
        ensures
            final(self)@ == old(self)@.set_name(i as int, real_name@).next,
            deliveries(out@) == old(self)@.set_name(i as int, real_name@).out,
    {
        let mut out: Vec<Delivery> = Vec::new();
        out.push(Delivery { to: self.sessions[i].id.clone(), text: welcome_line(nick, &real_name) });
        let ghost given = real_name@;
        self.sessions[i].full_name = Some(real_name);
        assert(self@.sessions =~= old(self)@.set_name(i as int, given).next.sessions);
        assert(self@.channels =~= old(self)@.channels);
        assert(deliveries(out@) =~= old(self)@.set_name(i as int, given).out);
        out
    }

    /// `PRIVMSG` from the session at `i`, which holds `nick`.
    fn privmsg(&self, i: usize, nick: &String, target: Target, text: String) -> (out: Vec<Delivery>)
        requires
            i < self@.sessions.len(),
            self@.sessions[i as int].nick == Some(nick@),
        ensures
            deliveries(out@) == self@.privmsg(i as int, target@, text@).out,
            self@ == self@.privmsg(i as int, target@, text@).next,
    {
        let mut out: Vec<Delivery> = Vec::new();
        let line = privmsg_line(nick, &target, &text);
        match &target {
            Target::Channel(name) => {
                let c = self.find_channel(name);
                if c < self.channels.len() {
                    assert(deliveries(out@) =~= Seq::<DeliveryView>::empty());
                    fan_out_to(&self.channels[c].members, &line, &mut out);
                    assert(deliveries(out@) =~= fan_out(self@.channels[c as int].members, line@));
                } else {
                    out.push(
                        Delivery {
                            to: self.sessions[i].id.clone(),
                            text: error_line(ErrorType::NoSuchChannel),
                        },
                    );
                    assert(deliveries(out@) =~= self@.privmsg(i as int, target@, text@).out);
                }
            },
            Target::User(wanted) => {
                let j = self.find_nick(wanted);
                if j < self.sessions.len() {
                    out.push(Delivery { to: self.sessions[j].id.clone(), text: line });
                } else {
                    out.push(
                        Delivery {
                            to: self.sessions[i].id.clone(),
                            text: error_line(ErrorType::NoSuchNick),
                        },
                    );
                }
                assert(deliveries(out@) =~= self@.privmsg(i as int, target@, text@).out);
            },
        }
        out
    }

    /// `JOIN` from the session at `i`, which holds `nick`.
    fn join(&mut self, i: usize, nick: &String, name: String) -> (out: Vec<Delivery>)
        requires
            i < old(self)@.sessions.len(),
            old(self)@.sessions[i as int].nick == Some(nick@),
        ensures
            final(self)@ == old(self)@.join(i as int, name@).next,
            deliveries(out@) == old(self)@.join(i as int, name@).out,
    {
        let ghost wanted = name@;
        let ghost id = self@.sessions[i as int].id;
        let ghost before = self@.channels;
        let mut out: Vec<Delivery> = Vec::new();
        let line = join_line(nick, &name);
        let c = self.find_channel(&name);
        proof {
            lemma_first_where(before, by_name(wanted));
        }
        if c < self.channels.len() {
            let ghost members = views(self.channels[c as int].members@);
            assert(members == before[c as int].members);
            let k = find_member(&self.channels[c].members, &self.sessions[i].id);
            if k >= self.channels[c].members.len() {
                let who = self.sessions[i].id.clone();
                self.channels[c].members.push(who);
                assert(views(self.channels[c as int].members@) =~= members.push(id));
            }
            assert(self@.channels =~= old(self)@.joined(id, wanted));
        } else {
            let mut members: Vec<String> = Vec::new();
            members.push(self.sessions[i].id.clone());
            assert(views(members@) =~= seq![id]);
            self.channels.push(Channel { name, members });
            assert(self@.channels =~= old(self)@.joined(id, wanted));
        }
        assert(self@.sessions =~= old(self)@.sessions);
        assert(deliveries(out@) =~= Seq::<DeliveryView>::empty());
        fan_out_to(&self.channels[c].members, &line, &mut out);
        assert(deliveries(out@) =~= fan_out(self@.channels[c as int].members, line@));
        out
    }

    /// `PART` from the session at `i`, which holds `nick`.
    fn part(&mut self, i: usize, nick: &String, name: String) -> (out: Vec<Delivery>)
        requires
            i < old(self)@.sessions.len(),
            old(self)@.sessions[i as int].nick == Some(nick@),
        ensures
            final(self)@ == old(self)@.part(i as int, name@).next,
            deliveries(out@) == old(self)@.part(i as int, name@).out,
    {
        let ghost id = self@.sessions[i as int].id;
        let ghost before = self@.channels;
        let mut out: Vec<Delivery> = Vec::new();
        let c = self.find_channel(&name);
        proof {
            lemma_first_where(before, by_name(name@));
        }
        if c >= self.channels.len() {
            out.push(
                Delivery { to: self.sessions[i].id.clone(), text: error_line(ErrorType::NoSuchChannel) },
            );
            assert(deliveries(out@) =~= old(self)@.part(i as int, name@).out);
            return out;
        }
        let ghost members = views(self.channels[c as int].members@);
        assert(members == before[c as int].members);
        let k = find_member(&self.channels[c].members, &self.sessions[i].id);
        if k >= self.channels[c].members.len() {
            assert(deliveries(out@) =~= Seq::<DeliveryView>::empty());
            return out;
        }
        let line = part_line(nick, &name);
        self.channels[c].members.remove(k);
        assert(views(self.channels[c as int].members@) =~= members.remove(k as int));
        assert(self@.channels =~= old(self)@.part(i as int, name@).next.channels);
        assert(self@.sessions =~= old(self)@.sessions);
        assert(deliveries(out@) =~= Seq::<DeliveryView>::empty());
        fan_out_to(&self.channels[c].members, &line, &mut out);
        assert(deliveries(out@) =~= fan_out(without(members, id), line@));
        out
    }

    /// `QUIT` from the registered session at `i`, which holds `nick`.
    fn quit(&mut self, i: usize, id: &String, nick: &String, reason: Option<String>) -> (out: Vec<
        Delivery,
    >)
        requires
            i == old(self)@.session_index(id@),
            i < old(self)@.sessions.len(),
            old(self)@.sessions[i as int].id == id@,
            old(self)@.sessions[i as int].nick == Some(nick@),
        ensures
            final(self)@ == old(self)@.quit(i as int, option_view(reason)).next,
            deliveries(out@) == old(self)@.quit(i as int, option_view(reason)).out,
    {
        let line = quit_line(nick, &reason);
        let out = self.leave_all(id, &line);
        self.sessions.remove(i);
        assert(self@.sessions =~= old(self)@.sessions.remove(i as int));
        out
    }

    /// Whether `id` is a live connection.
    pub fn has_session(&self, id: &str) -> (r: bool)
        ensures
            r == self@.has_session(id@),
    {
        let id = String::from_str(id);
        self.find_session(&id) < self.sessions.len()
    }

    /// The names of the channels, in the order in which they were created.
    pub fn channel_names(&self) -> (names: Vec<String>)
        ensures
            views(names@) == channel_names(self@.channels),
    {
        let mut names: Vec<String> = Vec::new();
        let mut c: usize = 0;
        while c < self.channels.len()
            invariant
                c <= self.channels.len(),
                names.len() == c,
                self.channels.len() == self@.channels.len(),
                forall|j: int| 0 <= j < c ==> (#[trigger] names[j])@ == self@.channels[j].name,
            decreases self.channels.len() - c,
        {
            assert(self@.channels[c as int].name == self.channels[c as int].name@);
            names.push(self.channels[c].name.clone());
            c += 1;
        }
        assert(views(names@) =~= channel_names(self@.channels));
        names
    }

    /// How far the session `id` has registered; `None` where `id` is no
    /// session.
    pub fn stage_of(&self, id: &str) -> (r: Option<Stage>)
        ensures
            r == if self@.has_session(id@) {
                Some(self@.sessions[self@.session_index(id@)].stage())
            } else {
                None
            },
    {
        let id = String::from_str(id);
        let i = self.find_session(&id);
        if i >= self.sessions.len() {
            None
        } else if self.sessions[i].nick.is_none() {
            Some(Stage::Unregistered)
        } else if self.sessions[i].full_name.is_none() {
            Some(Stage::NickOnly)
        } else {
            Some(Stage::Registered)
        }
    }

    /// The nickname that the session `id` holds; `None` where it holds none
    /// or is no session.
    pub fn nick_of(&self, id: &str) -> (r: Option<String>)
        ensures
            option_view(r) == if self@.has_session(id@) {
                self@.sessions[self@.session_index(id@)].nick
            } else {
                None
            },
    {
        let id = String::from_str(id);
        let i = self.find_session(&id);
        if i >= self.sessions.len() {
            None
        } else {
            match &self.sessions[i].nick {
                Some(nick) => Some(nick.clone()),
                None => None,
            }
        }
    }

    /// The members of the channel `name`, by identity, in the order in which
    /// they joined; `None` where there is no such channel.
    pub fn members_of(&self, name: &str) -> (r: Option<Vec<String>>)
        ensures
            r is Some == self@.has_channel(name@),
            r is Some ==> views(r->0@) == self@.channels[self@.channel_index(name@)].members,
    {
        let name = String::from_str(name);
        let c = self.find_channel(&name);
        if c >= self.channels.len() {
            return None;
        }
        let mut members: Vec<String> = Vec::new();
        let mut m: usize = 0;
        while m < self.channels[c].members.len()
            invariant
                c < self.channels.len(),
                m <= self.channels[c as int].members.len(),
                members.len() == m,
                forall|j: int| 0 <= j < m ==> (#[trigger] members[j])@ == self.channels[c as int].members[j]@,
            decreases self.channels[c as int].members.len() - m,
        {
            members.push(self.channels[c].members[m].clone());
            m += 1;
        }
        assert(views(members@) =~= self@.channels[c as int].members);
        Some(members)
    }

    /// The number of live connections.
    pub fn session_count(&self) -> (n: usize)
        ensures
            n == self@.sessions.len(),
    {
        self.sessions.len()
    }

    /// Registers a connection that has just been accepted: a fresh session
    /// under `id`, in no channel. An earlier session of the same identity is
    /// replaced.
    pub fn announce(&mut self, id: &str)
        requires
            old(self).wf(),
        ensures
            final(self).wf(),
            final(self)@ == old(self)@.announce(id@),
    {
        let id = String::from_str(id);
        let i = self.find_session(&id);
        proof {
            lemma_announce_wf(self@, id@);
        }
        if i < self.sessions.len() {
            let empty = String::new();
            let _ = self.leave_all(&id, &empty);
            self.sessions[i].nick = None;
            self.sessions[i].full_name = None;
            proof {
                lemma_first_where(old(self)@.sessions, by_id(id@));
            }
            assert(self@.sessions =~= old(self)@.announce(id@).sessions);
        } else {
            self.sessions.push(Session { id, nick: None, full_name: None });
            assert(self@.sessions =~= old(self)@.announce(id@).sessions);
            assert(self@.channels =~= old(self)@.channels);
        }
    }

    /// Carries out one decoded command from the connection `id` and returns
    /// the lines to write, in order.
    pub fn apply(&mut self, id: &str, msg: Message) -> (out: Vec<Delivery>)
        requires
            old(self).wf(),
        ensures
            final(self).wf(),
            final(self)@ == old(self)@.apply(id@, msg@).next,
            deliveries(out@) == old(self)@.apply(id@, msg@).out,
    {
        let id = String::from_str(id);
        let i = self.find_session(&id);
        proof {
            lemma_apply_wf(self@, id@, msg@);
            lemma_first_where(self@.sessions, by_id(id@));
        }
        if i >= self.sessions.len() || !check_names(&msg) {
            let out: Vec<Delivery> = Vec::new();
            assert(deliveries(out@) =~= Seq::<DeliveryView>::empty());
            return out;
        }
        let held: Option<String> = match &self.sessions[i].nick {
            Some(n) => Some(n.clone()),
            None => None,
        };
        let named: bool = self.sessions[i].full_name.is_some();
        match held {
            None => match msg {
                Message::Nick(nick) => self.take_nick(i, nick),
                Message::Quit(_) => {
                    self.depart(i, &id);
                    let out: Vec<Delivery> = Vec::new();
                    assert(deliveries(out@) =~= Seq::<DeliveryView>::empty());
                    out
                },
                _ => {
                    let out: Vec<Delivery> = Vec::new();
                    assert(deliveries(out@) =~= Seq::<DeliveryView>::empty());
                    out
                },
            },
            Some(nick) => if !named {
                match msg {
                    Message::User(real_name) => self.set_name(i, &nick, real_name),
                    Message::Quit(_) => {
                        self.depart(i, &id);
                        let out: Vec<Delivery> = Vec::new();
                        assert(deliveries(out@) =~= Seq::<DeliveryView>::empty());
                        out
                    },
                    _ => {
                        let out: Vec<Delivery> = Vec::new();
                        assert(deliveries(out@) =~= Seq::<DeliveryView>::empty());
                        out
                    },
                }
            } else {
                match msg {
                    Message::PrivMsg(target, text) => self.privmsg(i, &nick, target, text),
                    Message::Ping(token) => {
                        let mut out: Vec<Delivery> = Vec::new();
                        out.push(Delivery { to: id, text: pong_line(&token) });
                        assert(deliveries(out@) =~= old(self)@.apply(id@, msg@).out);
                        out
                    },
                    Message::Join(name) => self.join(i, &nick, name),
                    Message::Part(name) => self.part(i, &nick, name),
                    Message::Quit(reason) => self.quit(i, &id, &nick, reason),
                    _ => {
                        let out: Vec<Delivery> = Vec::new();
                        assert(deliveries(out@) =~= Seq::<DeliveryView>::empty());
                        out
                    },
                }
            },
        }
    }

    /// Carries out one line from the connection `id`, given without its
    /// line terminator, and returns the lines to write, in order.
    pub fn command(&mut self, id: &str, line: &str) -> (out: Vec<Delivery>)
        requires
            old(self).wf(),
        ensures
            final(self).wf(),
            final(self)@ == old(self)@.command(id@, line@).next,
            deliveries(out@) == old(self)@.command(id@, line@).out,
    {
        let who = String::from_str(id);
        let i = self.find_session(&who);
        proof {
            lemma_command_wf(self@, id@, line@);
        }
        if i >= self.sessions.len() {
            let out: Vec<Delivery> = Vec::new();
            assert(deliveries(out@) =~= Seq::<DeliveryView>::empty());
            return out;
        }
        match parse_message(line) {
            Ok(msg) => self.apply(id, msg),
            Err(e) => {
                let mut out: Vec<Delivery> = Vec::new();
                out.push(Delivery { to: who, text: error_line(e) });
                assert(deliveries(out@) =~= old(self)@.command(id@, line@).out);
                out
            },
        }
    }
}

} // verus!
