//! Server-side extensions. An extension is named by a line of text, decoded
//! into a `Plugin`, and turned into one unit of work for the dispatcher:
//! either a line to write at once or a command to send in later.

use crate::model::{DeliveryView, RegistryView, channel_names};
use crate::message::reads_as;
use crate::registry::{Delivery, Registry};
use crate::text::{parse_decimal, parse_u64, split, split_on, views};
use vstd::prelude::*;
use vstd::string::*;

verus! {

/// The extensions that the server knows.
#[derive(Clone, Debug, PartialEq, Eq)]
pub enum Plugin {
    /// A reminder: after so many seconds, the second text is sent as a
    /// private message to the nickname given first.
    Remainder(u64, String, String),
    /// A list of all channels by name.
    ListingChannels,
}

/// What a `Plugin` holds, as sequences of characters.
pub enum PluginView {
    Remainder(u64, Seq<char>, Seq<char>),
    ListingChannels,
}

impl View for Plugin {
    type V = PluginView;

    open spec fn view(&self) -> PluginView {
        match self {
            Plugin::Remainder(seconds, nickname, message) => PluginView::Remainder(
                *seconds,
                nickname@,
                message@,
            ),
            Plugin::ListingChannels => PluginView::ListingChannels,
        }
    }
}

/// A command to hand to the dispatcher later, as if `origin` had sent it.
#[derive(Clone, Debug, PartialEq, Eq)]
pub struct Reminder {
    /// How long to wait, in whole seconds.
    pub delay_secs: u64,
    /// The identity of the connection that asked.
    pub origin: String,
    /// The line to send in.
    pub command: String,
}

/// What a `Reminder` holds, as sequences of characters.
pub struct ReminderView {
    pub delay_secs: u64,
    pub origin: Seq<char>,
    pub command: Seq<char>,
}

impl View for Reminder {
    type V = ReminderView;

    open spec fn view(&self) -> ReminderView {
        ReminderView { delay_secs: self.delay_secs, origin: self.origin@, command: self.command@ }
    }
}

/// One unit of work that an extension asks of the dispatcher.
#[derive(Clone, Debug, PartialEq, Eq)]
pub enum Action {
    /// Write this line now.
    Write(Delivery),
    /// Wait, away from the dispatcher, then send this command in.
    Schedule(Reminder),
}

/// What an `Action` holds, as sequences of characters.
pub enum ActionView {
    Write(DeliveryView),
    Schedule(ReminderView),
}

impl View for Action {
    type V = ActionView;

    open spec fn view(&self) -> ActionView {
        match self {
            Action::Write(delivery) => ActionView::Write(delivery@),
            Action::Schedule(reminder) => ActionView::Schedule(reminder@),
        }
    }
}

/// What decoding an extension gives, taken by its view.
pub open spec fn plugin_view(p: Option<Plugin>) -> Option<PluginView> {
    match p {
        Some(plugin) => Some(plugin@),
        None => None,
    }
}

/// The extension that a text names. `LISTING` alone asks for the channel
/// list. A reminder is `REMINDER $<seconds> $<nickname> $<message>`: cut at
/// each ` $`, the text gives exactly four pieces, the first of them the
/// keyword `REMINDER` and the second a number of seconds. Anything else
/// names no extension.
pub open spec fn decode_plugin(command: Seq<char>) -> Option<PluginView> {
    let parts = split(command, " $"@);
    if command == "LISTING"@ {
        Some(PluginView::ListingChannels)
    } else if parts.len() == 4 && parts[0] == "REMINDER"@ {
        match parse_decimal(parts[1]) {
            Some(seconds) => Some(PluginView::Remainder(seconds, parts[2], parts[3])),
            None => None,
        }
    } else {
        None
    }
}

/// Decodes the text of an extension.
pub fn parse_plugin(command: String) -> (r: Option<Plugin>)
    ensures
        plugin_view(r) == decode_plugin(command@),
{
    if reads_as(&command, "LISTING") {
        return Some(Plugin::ListingChannels);
    }
    let parts = split_on(command.as_str(), " $");
    if parts.len() != 4 {
        return None;
    }
    assert(views(parts@)[0] == parts[0]@);
    assert(views(parts@)[1] == parts[1]@);
    assert(views(parts@)[2] == parts[2]@);
    assert(views(parts@)[3] == parts[3]@);
    if !reads_as(&parts[0], "REMINDER") {
        return None;
    }
    match parse_u64(parts[1].as_str()) {
        Some(seconds) => Some(Plugin::Remainder(seconds, parts[2].clone(), parts[3].clone())),
        None => None,
    }
}

/// The command that a reminder sends in when its time has come.
pub open spec fn reminder_command(nickname: Seq<char>, message: Seq<char>) -> Seq<char> {
    "PRIVMSG "@ + nickname + " :"@ + message
}

/// The texts of `names`, with `separator` between each two.
pub open spec fn joined(names: Seq<Seq<char>>, separator: Seq<char>) -> Seq<char>
    decreases names.len(),
{
    if names.len() == 0 {
        Seq::empty()
    } else if names.len() == 1 {
        names[0]
    } else {
        joined(names.drop_last(), separator) + separator + names.last()
    }
}

/// The line that lists the channels.
pub open spec fn listing_text(names: Seq<Seq<char>>) -> Seq<char> {
    "Available channels are ["@ + joined(names, ", "@) + "]"@
}

/// The work that an extension asks for, given the state and the connection
/// that asked.
pub open spec fn plugin_work(r: RegistryView, ip: Seq<char>, plugin: PluginView) -> ActionView {
    match plugin {
        PluginView::Remainder(seconds, nickname, message) => ActionView::Schedule(
            ReminderView {
                delay_secs: seconds,
                origin: ip,
                command: reminder_command(nickname, message),
            },
        ),
        PluginView::ListingChannels => ActionView::Write(
            DeliveryView { to: ip, text: listing_text(channel_names(r.channels)) },
        ),
    }
}

/// Joins `names` with `separator` between each two.
pub fn join_names(names: &Vec<String>, separator: &str) -> (r: String)
    ensures
        r@ == joined(views(names@), separator@),
{
    let mut r = String::new();
    let mut i: usize = 0;
    let ghost v = views(names@);
    assert(joined(v.take(0), separator@) =~= Seq::<char>::empty());
    while i < names.len()
        invariant
            i <= names.len(),
            v == views(names@),
            r@ == joined(v.take(i as int), separator@),
        decreases names.len() - i,
    {
        if i > 0 {
            r.append(separator);
        }
        r.append(names[i].as_str());
        i += 1;
        assert(v.take(i as int).drop_last() =~= v.take(i - 1));
        assert(v.take(i as int).last() == names[i - 1]@);
        assert(v.take(1)[0] == v[0]);
        assert(r@ =~= joined(v.take(i as int), separator@));
    }
    assert(v.take(names.len() as int) =~= v);
    r
}

/// The channel list for the connection `ip`: one line with the names of all
/// channels, drained ones too, in the order in which they were created.
pub fn listing(ip: String, registry: &Registry) -> (d: Delivery)
    ensures
        d@ == (DeliveryView { to: ip@, text: listing_text(channel_names(registry@.channels)) }),
{
    let names = registry.channel_names();
    let mut text = String::from_str("Available channels are [");
    let list = join_names(&names, ", ");
    text.append(list.as_str());
    text.append("]");
    Delivery { to: ip, text }
}

/// The reminder that the connection `ip` asked for: after `duration`
/// seconds, a private message to `nickname` is sent in under the identity
/// `ip`, and takes the way of any other private message.
pub fn reminder(duration: u64, nickname: String, message: String, ip: String) -> (r: Reminder)
    ensures
        r@ == (ReminderView {
            delay_secs: duration,
            origin: ip@,
            command: reminder_command(nickname@, message@),
        }),
{
    let mut command = String::from_str("PRIVMSG ");
    command.append(nickname.as_str());
    command.append(" :");
    command.append(message.as_str());
    Reminder { delay_secs: duration, origin: ip, command }
}

/// Turns a decoded extension into the one unit of work that the dispatcher
/// carries out for the connection `ip`. Nothing here waits: a reminder is
/// handed back to be timed elsewhere.
pub fn create_plugin(plugin: Plugin, ip: String, registry: &Registry) -> (work: Action)
    ensures
        work@ == plugin_work(registry@, ip@, plugin@),
{
    match plugin {
        Plugin::Remainder(duration, nickname, message) => Action::Schedule(
            reminder(duration, nickname, message, ip),
        ),
        Plugin::ListingChannels => Action::Write(listing(ip, registry)),
    }
}

} // verus!
