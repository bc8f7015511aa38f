//! What holds of the model whatever the clients send: the state stays
//! consistent, and each command touches only what it is meant to touch.

use crate::message::{
    ErrorType, MessageView, TargetView, decode, first_space, has_valid_names, head,
    is_channel_name, is_nickname,
    is_word, lemma_first_space,
    tail, target_of, unprefixed,
};
use crate::plugin::reminder_command;
use crate::model::{
    ChannelView, DeliveryView, RegistryView, Stage, by_id, by_name, by_nick,
    drop_member, fan_out, first_where, is_first_where, is_member, lemma_first_exists,
    lemma_first_where, lemma_first_where_is, notices, position, quit_out, same_as, with, without,
};
use crate::reply::error_text;
use vstd::prelude::*;
use vstd::string::*;

verus! {

/// With distinct identities, a session is found where it stands.
pub proof fn lemma_session_index(r: RegistryView, i: int)
    requires
        r.distinct_ids(),
        0 <= i < r.sessions.len(),
    ensures
        r.session_index(r.sessions[i].id) == i,
{
    assert(is_first_where(r.sessions, by_id(r.sessions[i].id), i));
    lemma_first_where_is(r.sessions, by_id(r.sessions[i].id), i);
}

/// With distinct identities, a session that stands registered is registered
/// under its identity.
pub proof fn lemma_registered_at(r: RegistryView, i: int)
    requires
        r.distinct_ids(),
        0 <= i < r.sessions.len(),
        r.sessions[i].stage() == Stage::Registered,
    ensures
        r.is_registered(r.sessions[i].id),
{
    lemma_session_index(r, i);
}

/// Taking a member out keeps the others, in order and without repeats, and
/// leaves no trace of the one taken out.
pub proof fn lemma_without(members: Seq<Seq<char>>, id: Seq<char>)
    requires
        members.no_duplicates(),
    ensures
        without(members, id).no_duplicates(),
        !is_member(without(members, id), id),
        forall|x: int|
            0 <= x < without(members, id).len() ==> (#[trigger] without(members, id)[x]) != id
                && members.contains(without(members, id)[x]),
        forall|y: int|
            0 <= y < members.len() && (#[trigger] members[y]) != id ==> without(
                members,
                id,
            ).contains(members[y]),
{
    let k = position(members, id);
    let rest = without(members, id);
    lemma_first_where(members, same_as(id));
    if k < members.len() {
        assert(members[k] == id);
        assert forall|x: int| 0 <= x < rest.len() implies (#[trigger] rest[x]) != id
            && members.contains(rest[x]) by {
            if x < k {
                assert(rest[x] == members[x]);
            } else {
                assert(rest[x] == members[x + 1]);
            }
        }
        assert forall|x: int, y: int| 0 <= x < rest.len() && 0 <= y < rest.len() && x != y implies rest[x]
            != rest[y] by {
            let a = if x < k { x } else { x + 1 };
            let b = if y < k { y } else { y + 1 };
            assert(rest[x] == members[a]);
            assert(rest[y] == members[b]);
        }
        assert forall|y: int| 0 <= y < members.len() && (#[trigger] members[y]) != id implies rest.contains(
            members[y],
        ) by {
            if y < k {
                assert(rest[y] == members[y]);
            } else {
                assert(rest[y - 1] == members[y]);
            }
        }
    } else {
        assert forall|x: int| 0 <= x < rest.len() implies (#[trigger] rest[x]) != id
            && members.contains(rest[x]) by {
            assert(!same_as(id)(members[x]));
        }
    }
    lemma_first_where(rest, same_as(id));
    if position(rest, id) < rest.len() {
        assert(rest[position(rest, id)] == id);
    }
}

/// Adding a member keeps the list without repeats; it then holds the old
/// members and the new one, and nothing else.
pub proof fn lemma_with(members: Seq<Seq<char>>, id: Seq<char>)
    requires
        members.no_duplicates(),
    ensures
        with(members, id).no_duplicates(),
        is_member(with(members, id), id),
        forall|x: int|
            0 <= x < with(members, id).len() ==> (#[trigger] with(members, id)[x]) == id
                || members.contains(with(members, id)[x]),
{
    let k = position(members, id);
    let all = with(members, id);
    lemma_first_where(members, same_as(id));
    if k < members.len() {
    } else {
        assert forall|x: int, y: int| 0 <= x < all.len() && 0 <= y < all.len() && x != y implies all[x]
            != all[y] by {
            if x < members.len() {
                assert(!same_as(id)(members[x]));
            }
            if y < members.len() {
                assert(!same_as(id)(members[y]));
            }
        }
        assert(same_as(id)(all[members.len() as int]));
        lemma_first_exists(all, same_as(id), members.len() as int);
    }
    lemma_first_where(all, same_as(id));
}

/// A registered identity has its session where `session_index` says.
pub proof fn lemma_registered_witness(r: RegistryView, id: Seq<char>)
    requires
        r.is_registered(id),
    ensures
        0 <= r.session_index(id) < r.sessions.len(),
        r.sessions[r.session_index(id)].id == id,
        r.sessions[r.session_index(id)].stage() == Stage::Registered,
{
    lemma_first_where(r.sessions, by_id(id));
}

/// The members of `n` are registered in `n` where each of them was a member
/// registered in `r`, is not `gone`, and every session of `r` but the one at
/// `i` stands in `n` at its place or one earlier, unchanged or registered.
proof fn lemma_members_follow(r: RegistryView, n: RegistryView, i: int, gone: Seq<char>)
    requires
        r.wf(),
        n.distinct_ids(),
        0 <= i < r.sessions.len(),
        r.sessions[i].id == gone,
        n.sessions == r.sessions.remove(i) || (n.sessions.len() == r.sessions.len()
            && forall|j: int|
            0 <= j < r.sessions.len() && j != i ==> (#[trigger] n.sessions[j]) == r.sessions[j]),
        n.channels == drop_member(r.channels, gone),
    ensures
        n.members_registered(),
        n.distinct_members(),
        n.distinct_channels(),
{
    assert forall|c: int| 0 <= c < n.channels.len() implies (
    #[trigger] n.channels[c]).members.no_duplicates() by {
        assert(r.channels[c].members.no_duplicates());
        lemma_without(r.channels[c].members, gone);
    }
    assert forall|c: int, d: int| 0 <= c < d < n.channels.len() implies (#[trigger] n.channels[c]).name
        != (#[trigger] n.channels[d]).name by {
        assert(r.channels[c].name != r.channels[d].name);
    }
    assert forall|c: int, m: int|
        0 <= c < n.channels.len() && 0 <= m < n.channels[c].members.len() implies n.is_registered(
        #[trigger] n.channels[c].members[m],
    ) by {
        let w = n.channels[c].members[m];
        assert(r.channels[c].members.no_duplicates());
        lemma_without(r.channels[c].members, gone);
        assert(w == without(r.channels[c].members, gone)[m]);
        assert(r.channels[c].members.contains(w));
        let y = choose|y: int| 0 <= y < r.channels[c].members.len() && r.channels[c].members[y] == w;
        assert(r.is_registered(r.channels[c].members[y]));
        lemma_registered_witness(r, w);
        let j = r.session_index(w);
        assert(j != i);
        if n.sessions == r.sessions.remove(i) {
            let jn = if j < i { j } else { j - 1 };
            assert(n.sessions[jn] == r.sessions[j]);
            lemma_registered_at(n, jn);
        } else {
            assert(n.sessions[j] == r.sessions[j]);
            lemma_registered_at(n, j);
        }
    }
}

/// A connection that is announced leaves the state consistent.
pub proof fn lemma_announce_wf(r: RegistryView, id: Seq<char>)
    requires
        r.wf(),
    ensures
        r.announce(id).wf(),
{
    let n = r.announce(id);
    let i = r.session_index(id);
    lemma_first_where(r.sessions, by_id(id));
    if i < r.sessions.len() {
        assert forall|a: int, b: int| 0 <= a < b < n.sessions.len() implies (#[trigger] n.sessions[a]).id
            != (#[trigger] n.sessions[b]).id by {
            assert(n.sessions[a].id == r.sessions[a].id);
            assert(n.sessions[b].id == r.sessions[b].id);
        }
        assert forall|a: int, b: int|
            0 <= a < n.sessions.len() && 0 <= b < n.sessions.len() && a != b && (
            #[trigger] n.sessions[a]).nick is Some implies n.sessions[a].nick != (
        #[trigger] n.sessions[b]).nick by {
            assert(n.sessions[a] == r.sessions[a]);
            if b != i {
                assert(n.sessions[b] == r.sessions[b]);
            }
        }
        assert forall|a: int|
            0 <= a < n.sessions.len() && (#[trigger] n.sessions[a]).full_name is Some implies n.sessions[a].nick is Some by {
            assert(n.sessions[a] == r.sessions[a]);
        }
        lemma_members_follow(r, n, i, id);
    } else {
        assert forall|a: int, b: int| 0 <= a < b < n.sessions.len() implies (#[trigger] n.sessions[a]).id
            != (#[trigger] n.sessions[b]).id by {
            if b == r.sessions.len() {
                assert(!by_id(id)(r.sessions[a]));
            } else {
                assert(n.sessions[a] == r.sessions[a]);
                assert(n.sessions[b] == r.sessions[b]);
            }
        }
        assert forall|a: int, b: int|
            0 <= a < n.sessions.len() && 0 <= b < n.sessions.len() && a != b && (
            #[trigger] n.sessions[a]).nick is Some implies n.sessions[a].nick != (
        #[trigger] n.sessions[b]).nick by {
            assert(n.sessions[a] == r.sessions[a]);
            if b < r.sessions.len() {
                assert(n.sessions[b] == r.sessions[b]);
            }
        }
        assert forall|a: int|
            0 <= a < n.sessions.len() && (#[trigger] n.sessions[a]).full_name is Some implies n.sessions[a].nick is Some by {
            assert(n.sessions[a] == r.sessions[a]);
        }
        assert forall|c: int, m: int|
            0 <= c < n.channels.len() && 0 <= m < n.channels[c].members.len() implies n.is_registered(
            #[trigger] n.channels[c].members[m],
        ) by {
            let w = n.channels[c].members[m];
            assert(r.is_registered(r.channels[c].members[m]));
            lemma_registered_witness(r, w);
            let j = r.session_index(w);
            assert(n.sessions[j] == r.sessions[j]);
            lemma_registered_at(n, j);
        }
    }
}

/// A session that goes leaves the state consistent.
pub proof fn lemma_depart_wf(r: RegistryView, id: Seq<char>)
    requires
        r.wf(),
    ensures
        r.depart(id).wf(),
{
    let n = r.depart(id);
    let i = r.session_index(id);
    lemma_first_where(r.sessions, by_id(id));
    if i < r.sessions.len() {
        assert forall|a: int| 0 <= a < n.sessions.len() implies (#[trigger] n.sessions[a]) == r.sessions[if a
            < i {
            a
        } else {
            a + 1
        }] by {}
        assert forall|a: int, b: int| 0 <= a < b < n.sessions.len() implies (#[trigger] n.sessions[a]).id
            != (#[trigger] n.sessions[b]).id by {
            let x = if a < i { a } else { a + 1 };
            let y = if b < i { b } else { b + 1 };
            assert(r.sessions[x].id != r.sessions[y].id);
        }
        assert forall|a: int, b: int|
            0 <= a < n.sessions.len() && 0 <= b < n.sessions.len() && a != b && (
            #[trigger] n.sessions[a]).nick is Some implies n.sessions[a].nick != (
        #[trigger] n.sessions[b]).nick by {
            let x = if a < i { a } else { a + 1 };
            let y = if b < i { b } else { b + 1 };
            assert(r.sessions[x].nick != r.sessions[y].nick);
        }
        assert forall|a: int|
            0 <= a < n.sessions.len() && (#[trigger] n.sessions[a]).full_name is Some implies n.sessions[a].nick is Some by {
            let x = if a < i { a } else { a + 1 };
            assert(r.sessions[x].nick is Some);
        }
        lemma_members_follow(r, n, i, id);
    }
}

/// The members of `n` are registered in `n` where each of them is
/// registered in `r`, and `n` has the sessions of `r`, each at its place,
/// under its identity, and registered if it was.
proof fn lemma_members_stay(r: RegistryView, n: RegistryView)
    requires
        n.distinct_ids(),
        n.sessions.len() == r.sessions.len(),
        forall|j: int|
            0 <= j < r.sessions.len() ==> (#[trigger] n.sessions[j]).id == r.sessions[j].id && (
            r.sessions[j].stage() == Stage::Registered ==> n.sessions[j].stage()
                == Stage::Registered),
        forall|c: int, m: int|
            0 <= c < n.channels.len() && 0 <= m < n.channels[c].members.len() ==> r.is_registered(
                #[trigger] n.channels[c].members[m],
            ),
    ensures
        n.members_registered(),
{
    assert forall|c: int, m: int|
        0 <= c < n.channels.len() && 0 <= m < n.channels[c].members.len() implies n.is_registered(
        #[trigger] n.channels[c].members[m],
    ) by {
        let w = n.channels[c].members[m];
        lemma_registered_witness(r, w);
        let j = r.session_index(w);
        assert(n.sessions[j].id == r.sessions[j].id);
        lemma_registered_at(n, j);
    }
}

/// A nickname that is granted or refused leaves the state consistent.
pub proof fn lemma_take_nick_wf(r: RegistryView, i: int, nick: Seq<char>)
    requires
        r.wf(),
        0 <= i < r.sessions.len(),
        is_nickname(nick),
    ensures
        r.take_nick(i, nick).next.wf(),
{
    let n = r.take_nick(i, nick).next;
    lemma_first_where(r.sessions, by_nick(nick));
    if !r.nick_taken(nick) {
        assert forall|a: int, b: int| 0 <= a < b < n.sessions.len() implies (#[trigger] n.sessions[a]).id
            != (#[trigger] n.sessions[b]).id by {
            assert(n.sessions[a].id == r.sessions[a].id);
            assert(n.sessions[b].id == r.sessions[b].id);
        }
        assert forall|a: int, b: int|
            0 <= a < n.sessions.len() && 0 <= b < n.sessions.len() && a != b && (
            #[trigger] n.sessions[a]).nick is Some implies n.sessions[a].nick != (
        #[trigger] n.sessions[b]).nick by {
            if a == i {
                assert(!by_nick(nick)(r.sessions[b]));
                assert(n.sessions[b] == r.sessions[b]);
            } else if b == i {
                assert(!by_nick(nick)(r.sessions[a]));
                assert(n.sessions[a] == r.sessions[a]);
            } else {
                assert(n.sessions[a] == r.sessions[a]);
                assert(n.sessions[b] == r.sessions[b]);
            }
        }
        assert forall|a: int|
            0 <= a < n.sessions.len() && (#[trigger] n.sessions[a]).full_name is Some implies n.sessions[a].nick is Some by {
            if a != i {
                assert(n.sessions[a] == r.sessions[a]);
            }
        }
        assert forall|j: int| 0 <= j < r.sessions.len() implies (#[trigger] n.sessions[j]).id
            == r.sessions[j].id && (r.sessions[j].stage() == Stage::Registered ==> n.sessions[j].stage()
            == Stage::Registered) by {}
        assert forall|c: int, m: int|
            0 <= c < n.channels.len() && 0 <= m < n.channels[c].members.len() implies r.is_registered(
            #[trigger] n.channels[c].members[m],
        ) by {
            assert(r.is_registered(r.channels[c].members[m]));
        }
        lemma_members_stay(r, n);
    }
}

/// A display name that is set leaves the state consistent.
pub proof fn lemma_set_name_wf(r: RegistryView, i: int, real_name: Seq<char>)
    requires
        r.wf(),
        0 <= i < r.sessions.len(),
        r.sessions[i].nick is Some,
    ensures
        r.set_name(i, real_name).next.wf(),
{
    let n = r.set_name(i, real_name).next;
    assert forall|a: int, b: int| 0 <= a < b < n.sessions.len() implies (#[trigger] n.sessions[a]).id
        != (#[trigger] n.sessions[b]).id by {
        assert(n.sessions[a].id == r.sessions[a].id);
        assert(n.sessions[b].id == r.sessions[b].id);
    }
    assert forall|a: int, b: int|
        0 <= a < n.sessions.len() && 0 <= b < n.sessions.len() && a != b && (
        #[trigger] n.sessions[a]).nick is Some implies n.sessions[a].nick != (
    #[trigger] n.sessions[b]).nick by {
        assert(n.sessions[a].nick == r.sessions[a].nick);
        assert(n.sessions[b].nick == r.sessions[b].nick);
    }
    assert forall|a: int|
        0 <= a < n.sessions.len() && (#[trigger] n.sessions[a]).full_name is Some implies n.sessions[a].nick is Some by {
        if a != i {
            assert(n.sessions[a] == r.sessions[a]);
        }
    }
    assert forall|j: int| 0 <= j < r.sessions.len() implies (#[trigger] n.sessions[j]).id
        == r.sessions[j].id && (r.sessions[j].stage() == Stage::Registered ==> n.sessions[j].stage()
        == Stage::Registered) by {}
    assert forall|c: int, m: int|
        0 <= c < n.channels.len() && 0 <= m < n.channels[c].members.len() implies r.is_registered(
        #[trigger] n.channels[c].members[m],
    ) by {
        assert(r.is_registered(r.channels[c].members[m]));
    }
    lemma_members_stay(r, n);
}

/// A join by a registered session leaves the state consistent.
pub proof fn lemma_join_wf(r: RegistryView, i: int, name: Seq<char>)
    requires
        r.wf(),
        0 <= i < r.sessions.len(),
        r.sessions[i].stage() == Stage::Registered,
        is_channel_name(name),
    ensures
        r.join(i, name).next.wf(),
{
    let n = r.join(i, name).next;
    let id = r.sessions[i].id;
    let c = r.channel_index(name);
    lemma_first_where(r.channels, by_name(name));
    lemma_registered_at(r, i);
    if c < r.channels.len() {
        assert(r.channels[c].members.no_duplicates());
        lemma_with(r.channels[c].members, id);
    }
    assert forall|a: int, b: int| 0 <= a < b < n.channels.len() implies (#[trigger] n.channels[a]).name
        != (#[trigger] n.channels[b]).name by {
        if c < r.channels.len() {
            assert(n.channels[a].name == r.channels[a].name);
            assert(n.channels[b].name == r.channels[b].name);
        } else if b == r.channels.len() {
            assert(!by_name(name)(r.channels[a]));
        } else {
            assert(n.channels[a] == r.channels[a]);
            assert(n.channels[b] == r.channels[b]);
        }
    }
    assert forall|a: int| 0 <= a < n.channels.len() implies (
    #[trigger] n.channels[a]).members.no_duplicates() by {
        if a != c {
            assert(n.channels[a] == r.channels[a]);
        }
    }
    assert forall|a: int, m: int|
        0 <= a < n.channels.len() && 0 <= m < n.channels[a].members.len() implies r.is_registered(
        #[trigger] n.channels[a].members[m],
    ) by {
        let w = n.channels[a].members[m];
        if a != c {
            assert(r.is_registered(r.channels[a].members[m]));
        } else if c < r.channels.len() && w != id {
            assert(r.channels[c].members.contains(w));
            let y = choose|y: int| 0 <= y < r.channels[c].members.len() && r.channels[c].members[y] == w;
            assert(r.is_registered(r.channels[c].members[y]));
        }
    }
    lemma_members_stay(r, n);
}

/// A part leaves the state consistent.
pub proof fn lemma_part_wf(r: RegistryView, i: int, name: Seq<char>)
    requires
        r.wf(),
        0 <= i < r.sessions.len(),
    ensures
        r.part(i, name).next.wf(),
{
    let n = r.part(i, name).next;
    let id = r.sessions[i].id;
    let c = r.channel_index(name);
    lemma_first_where(r.channels, by_name(name));
    if r.has_channel(name) && is_member(r.channels[c].members, id) {
        assert(r.channels[c].members.no_duplicates());
        lemma_without(r.channels[c].members, id);
        assert forall|a: int, b: int| 0 <= a < b < n.channels.len() implies (
        #[trigger] n.channels[a]).name != (#[trigger] n.channels[b]).name by {
            assert(n.channels[a].name == r.channels[a].name);
            assert(n.channels[b].name == r.channels[b].name);
        }
        assert forall|a: int| 0 <= a < n.channels.len() implies (
        #[trigger] n.channels[a]).members.no_duplicates() by {
            if a != c {
                assert(n.channels[a] == r.channels[a]);
            }
        }
        assert forall|a: int, m: int|
            0 <= a < n.channels.len() && 0 <= m < n.channels[a].members.len() implies r.is_registered(
            #[trigger] n.channels[a].members[m],
        ) by {
            let w = n.channels[a].members[m];
            if a != c {
                assert(r.is_registered(r.channels[a].members[m]));
            } else {
                assert(r.channels[c].members.contains(w));
                let y = choose|y: int|
                    0 <= y < r.channels[c].members.len() && r.channels[c].members[y] == w;
                assert(r.is_registered(r.channels[c].members[y]));
            }
        }
        lemma_members_stay(r, n);
    }
}

/// Whatever a session sends, decoded, the state stays consistent.
pub proof fn lemma_apply_wf(r: RegistryView, id: Seq<char>, msg: MessageView)
    requires
        r.wf(),
    ensures
        r.apply(id, msg).next.wf(),
{
    let i = r.session_index(id);
    lemma_first_where(r.sessions, by_id(id));
    if r.has_session(id) && has_valid_names(msg) {
        assert(r.sessions[i].id == id);
        lemma_depart_wf(r, id);
        match r.sessions[i].stage() {
            Stage::Unregistered => match msg {
                MessageView::Nick(nick) => lemma_take_nick_wf(r, i, nick),
                _ => {},
            },
            Stage::NickOnly => match msg {
                MessageView::User(real_name) => lemma_set_name_wf(r, i, real_name),
                _ => {},
            },
            Stage::Registered => match msg {
                MessageView::Join(name) => lemma_join_wf(r, i, name),
                MessageView::Part(name) => lemma_part_wf(r, i, name),
                _ => {},
            },
        }
    }
}

/// Whatever line a session sends, the state stays consistent.
pub proof fn lemma_command_wf(r: RegistryView, id: Seq<char>, line: Seq<char>)
    requires
        r.wf(),
    ensures
        r.command(id, line).next.wf(),
{
    match crate::message::decode(line) {
        Ok(msg) => lemma_apply_wf(r, id, msg),
        Err(_) => {},
    }
}

/// A colliding `NICK` changes nothing, leaves the requester without a
/// nickname, and is answered to the requester alone.
pub proof fn law_nick_collision(r: RegistryView, id: Seq<char>, nick: Seq<char>, holder: int)
    requires
        r.wf(),
        r.has_session(id),
        r.sessions[r.session_index(id)].stage() == Stage::Unregistered,
        0 <= holder < r.sessions.len(),
        r.sessions[holder].nick == Some(nick),
    ensures
        r.apply(id, MessageView::Nick(nick)).next == r,
        r.apply(id, MessageView::Nick(nick)).next.sessions[r.session_index(id)].nick is None,
        r.apply(id, MessageView::Nick(nick)).out == seq![
            DeliveryView { to: id, text: error_text(ErrorType::NickCollision) },
        ],
{
    lemma_first_where(r.sessions, by_id(id));
    assert(by_nick(nick)(r.sessions[holder]));
    lemma_first_exists(r.sessions, by_nick(nick), holder);
    lemma_first_where(r.sessions, by_nick(nick));
}

/// A `NICK` for a nickname that nobody holds is granted without a reply, and
/// the requester then holds it.
pub proof fn law_nick_granted(r: RegistryView, id: Seq<char>, nick: Seq<char>)
    requires
        r.wf(),
        r.has_session(id),
        r.sessions[r.session_index(id)].stage() == Stage::Unregistered,
        is_nickname(nick),
        forall|j: int| 0 <= j < r.sessions.len() ==> (#[trigger] r.sessions[j]).nick != Some(nick),
    ensures
        r.apply(id, MessageView::Nick(nick)).out == Seq::<DeliveryView>::empty(),
        r.apply(id, MessageView::Nick(nick)).next.sessions[r.session_index(id)].nick == Some(nick),
        r.apply(id, MessageView::Nick(nick)).next.sessions[r.session_index(id)].stage()
            == Stage::NickOnly,
{
    lemma_first_where(r.sessions, by_id(id));
    lemma_first_where(r.sessions, by_nick(nick));
    if r.nick_taken(nick) {
        assert(by_nick(nick)(r.sessions[r.nick_index(nick)]));
    }
}

/// `USER` is taken only from a session that holds a nickname and has no
/// display name yet: there it completes the registration and is answered
/// with one welcome; from any other session it changes nothing and is not
/// answered.
pub proof fn law_user_only_after_nick(r: RegistryView, id: Seq<char>, real_name: Seq<char>)
    requires
        r.wf(),
        r.has_session(id),
    ensures
        r.sessions[r.session_index(id)].stage() != Stage::NickOnly ==> r.apply(
            id,
            MessageView::User(real_name),
        ) == r.ignored(),
        r.sessions[r.session_index(id)].stage() == Stage::NickOnly ==> {
            let after = r.apply(id, MessageView::User(real_name));
            &&& after.next.sessions[r.session_index(id)].stage() == Stage::Registered
            &&& after.next.sessions[r.session_index(id)].full_name == Some(real_name)
            &&& after.out.len() == 1
            &&& after.out[0].to == id
            &&& after.out[0].text == crate::reply::welcome_text(
                r.sessions[r.session_index(id)].nick->0,
                real_name,
            )
        },
{
    lemma_first_where(r.sessions, by_id(id));
}

/// Before its registration is complete, a session's `PRIVMSG`, `PING`,
/// `JOIN` and `PART` change nothing and are not answered.
pub proof fn law_commands_need_registration(r: RegistryView, id: Seq<char>, msg: MessageView)
    requires
        r.wf(),
        r.has_session(id),
        r.sessions[r.session_index(id)].stage() != Stage::Registered,
        msg is PrivMsg || msg is Ping || msg is Join || msg is Part,
    ensures
        r.apply(id, msg) == r.ignored(),
{
}

/// The channel `name` is found at the same place after a join as the one
/// where the join put or found it.
proof fn lemma_joined_index(r: RegistryView, id: Seq<char>, name: Seq<char>)
    requires
        r.wf(),
    ensures
        first_where(r.joined(id, name), by_name(name)) == r.channel_index(name),
        r.joined(id, name).len() > r.channel_index(name),
{
    let c = r.channel_index(name);
    let after = r.joined(id, name);
    lemma_first_where(r.channels, by_name(name));
    assert forall|j: int| 0 <= j < c implies !by_name(name)(#[trigger] after[j]) by {
        assert(after[j] == r.channels[j]);
        assert(!by_name(name)(r.channels[j]));
    }
    assert(is_first_where(after, by_name(name), c));
    lemma_first_where_is(after, by_name(name), c);
}

/// Joining a channel twice lists the member once: the second `JOIN` leaves
/// the state as the first one made it, and the notice goes out again to the
/// same members.
pub proof fn law_join_twice(r: RegistryView, id: Seq<char>, name: Seq<char>)
    requires
        r.wf(),
        r.is_registered(id),
        is_channel_name(name),
    ensures
        ({
            let first = r.apply(id, MessageView::Join(name));
            let second = first.next.apply(id, MessageView::Join(name));
            &&& second.next == first.next
            &&& second.out == first.out
            &&& first.next.has_channel(name)
            &&& is_member(first.next.channels[first.next.channel_index(name)].members, id)
            &&& first.next.channels[first.next.channel_index(name)].members.no_duplicates()
        }),
{
    let i = r.session_index(id);
    lemma_first_where(r.sessions, by_id(id));
    let first = r.apply(id, MessageView::Join(name));
    assert(first == r.join(i, name));
    let n = first.next;
    lemma_join_wf(r, i, name);
    lemma_joined_index(r, id, name);
    let c = r.channel_index(name);
    assert(n.channel_index(name) == c);
    assert(n.sessions == r.sessions);
    lemma_first_where(r.channels, by_name(name));
    if c < r.channels.len() {
        assert(r.channels[c].members.no_duplicates());
        lemma_with(r.channels[c].members, id);
    } else {
        assert(same_as(id)(seq![id][0]));
        lemma_first_exists(seq![id], same_as(id), 0);
        lemma_first_where(seq![id], same_as(id));
    }
    let members = n.channels[c].members;
    assert(is_member(members, id));
    assert(with(members, id) == members);
    assert(n.channels[c].name == name);
    assert(n.joined(id, name) =~= n.channels);
    let second = n.apply(id, MessageView::Join(name));
    assert(second == n.join(i, name));
}

/// `PART` takes exactly the requester out of the named channel: every other
/// member stays, every other channel and every session is as it was, and
/// the members that remain are told only if the requester was a member.
pub proof fn law_part_removes_requester(r: RegistryView, id: Seq<char>, name: Seq<char>)
    requires
        r.wf(),
        r.is_registered(id),
        r.has_channel(name),
    ensures
        ({
            let c = r.channel_index(name);
            let before = r.channels[c].members;
            let after = r.apply(id, MessageView::Part(name));
            &&& after.next.sessions == r.sessions
            &&& after.next.channels.len() == r.channels.len()
            &&& forall|d: int|
                0 <= d < r.channels.len() && d != c ==> (#[trigger] after.next.channels[d])
                    == r.channels[d]
            &&& after.next.channels[c].name == name
            &&& after.next.channels[c].members == without(before, id)
            &&& !is_member(after.next.channels[c].members, id)
            &&& forall|m: int|
                0 <= m < before.len() && (#[trigger] before[m]) != id
                    ==> after.next.channels[c].members.contains(before[m])
            &&& is_member(before, id) ==> after.out == fan_out(
                without(before, id),
                crate::reply::part_text(r.sessions[r.session_index(id)].nick->0, name),
            )
            &&& !is_member(before, id) ==> after == r.ignored()
        }),
{
    let i = r.session_index(id);
    let c = r.channel_index(name);
    lemma_first_where(r.sessions, by_id(id));
    lemma_first_where(r.channels, by_name(name));
    assert(r.channels[c].members.no_duplicates());
    lemma_without(r.channels[c].members, id);
    assert(r.apply(id, MessageView::Part(name)) == r.part(i, name));
}

/// What all channels hear of a quit is never addressed to the one that
/// quits, and is always the one text.
pub proof fn lemma_quit_out(channels: Seq<ChannelView>, id: Seq<char>, text: Seq<char>)
    requires
        forall|c: int| 0 <= c < channels.len() ==> (#[trigger] channels[c]).members.no_duplicates(),
    ensures
        forall|k: int|
            0 <= k < quit_out(channels, id, text).len() ==> (#[trigger] quit_out(
                channels,
                id,
                text,
            )[k]).to != id && quit_out(channels, id, text)[k].text == text,
    decreases channels.len(),
{
    if channels.len() > 0 {
        let head = channels.drop_last();
        assert forall|c: int| 0 <= c < head.len() implies (#[trigger] head[c]).members.no_duplicates() by {
            assert(head[c] == channels[c]);
        }
        lemma_quit_out(head, id, text);
        assert(channels.last() == channels[channels.len() - 1]);
        lemma_without(channels.last().members, id);
        let a = quit_out(head, id, text);
        let b = notices(channels.last(), id, text);
        assert forall|k: int| 0 <= k < (a + b).len() implies (#[trigger] (a + b)[k]).to != id && (a
            + b)[k].text == text by {
            if k >= a.len() {
                assert((a + b)[k] == b[k - a.len()]);
                assert(b[k - a.len()].to == without(channels.last().members, id)[k - a.len()]);
            }
        }
    }
}

/// `QUIT` from a registered session tells, channel by channel, every member
/// that remains in a channel that the session was in, and nobody else; the
/// session is then gone: no session has its identity, no channel lists it,
/// nobody holds its nickname, and a private message to that nickname is
/// refused.
pub proof fn law_quit_leaves_everything(
    r: RegistryView,
    id: Seq<char>,
    reason: Option<Seq<char>>,
    other: Seq<char>,
    text: Seq<char>,
)
    requires
        r.wf(),
        r.is_registered(id),
    ensures
        ({
            let nick = r.sessions[r.session_index(id)].nick->0;
            let after = r.apply(id, MessageView::Quit(reason));
            &&& after.out == quit_out(r.channels, id, crate::reply::quit_text(nick, reason))
            &&& forall|k: int| 0 <= k < after.out.len() ==> (#[trigger] after.out[k]).to != id
            &&& after.next.wf()
            &&& !after.next.has_session(id)
            &&& !after.next.nick_taken(nick)
            &&& after.next.channels.len() == r.channels.len()
            &&& forall|c: int|
                0 <= c < r.channels.len() ==> !is_member(
                    (#[trigger] after.next.channels[c]).members,
                    id,
                ) && after.next.channels[c].members == without(r.channels[c].members, id)
            &&& after.next.is_registered(other) ==> after.next.apply(
                other,
                MessageView::PrivMsg(TargetView::User(nick), text),
            ) == after.next.reply_to(other, error_text(ErrorType::NoSuchNick))
        }),
{
    let i = r.session_index(id);
    lemma_first_where(r.sessions, by_id(id));
    let nick = r.sessions[i].nick->0;
    let after = r.apply(id, MessageView::Quit(reason));
    assert(after == r.quit(i, reason));
    let n = after.next;
    lemma_depart_wf(r, id);
    lemma_quit_out(r.channels, id, crate::reply::quit_text(nick, reason));
    assert forall|a: int| 0 <= a < n.sessions.len() implies (#[trigger] n.sessions[a]) == r.sessions[if a
        < i {
        a
    } else {
        a + 1
    }] by {}
    lemma_first_where(n.sessions, by_id(id));
    if n.has_session(id) {
        let a = n.session_index(id);
        let x = if a < i { a } else { a + 1 };
        assert(n.sessions[a] == r.sessions[x]);
        assert(r.sessions[x].id != r.sessions[i].id);
    }
    lemma_first_where(n.sessions, by_nick(nick));
    if n.nick_taken(nick) {
        let a = n.nick_index(nick);
        let x = if a < i { a } else { a + 1 };
        assert(n.sessions[a] == r.sessions[x]);
        assert(r.sessions[i].nick != r.sessions[x].nick);
    }
    assert forall|c: int| 0 <= c < r.channels.len() implies !is_member(
        (#[trigger] n.channels[c]).members,
        id,
    ) && n.channels[c].members == without(r.channels[c].members, id) by {
        assert(r.channels[c].members.no_duplicates());
        lemma_without(r.channels[c].members, id);
    }
    if n.is_registered(other) {
        lemma_first_where(n.sessions, by_id(other));
    }
}

/// The command that a reminder sends in is read as the private message that
/// the reminder stands for, so that it is carried out as any other private
/// message from the connection that asked: delivered where the nickname is
/// held, refused where it is not, and passed over where the connection that
/// asked is gone.
pub proof fn law_reminder_is_privmsg(
    r: RegistryView,
    origin: Seq<char>,
    nickname: Seq<char>,
    message: Seq<char>,
)
    requires
        is_word(nickname),
        message.len() > 0,
    ensures
        decode(reminder_command(nickname, message)) == Ok::<MessageView, ErrorType>(
            MessageView::PrivMsg(target_of(nickname), message),
        ),
        r.command(origin, reminder_command(nickname, message)) == r.apply(
            origin,
            MessageView::PrivMsg(target_of(nickname), message),
        ),
{
    reveal_strlit("PRIVMSG ");
    reveal_strlit("PRIVMSG");
    reveal_strlit(" :");
    reveal_strlit("NICK");
    reveal_strlit("USER");
    let line = reminder_command(nickname, message);
    let keyword = "PRIVMSG "@;
    assert(line.len() == 8 + nickname.len() + 2 + message.len());
    assert forall|j: int| 0 <= j < 8 implies line[j] == keyword[j] by {}
    lemma_first_space(line);
    let k = first_space(line);
    assert(line[7] == ' ');
    if k < 7 {
        assert(line[k] == keyword[k]);
    }
    assert(k == 7);
    assert(head(line) =~= "PRIVMSG"@);
    let args = tail(line);
    assert(args =~= nickname + " :"@ + message);
    lemma_first_space(args);
    let n = first_space(args);
    assert(args[nickname.len() as int] == ' ');
    if n < nickname.len() {
        assert(args[n] == nickname[n]);
        assert(nickname.contains(' '));
    }
    assert(n == nickname.len());
    assert(head(args) =~= nickname);
    assert(tail(args) =~= seq![':'] + message);
    assert(unprefixed(tail(args)) =~= message);
}

} // verus!
