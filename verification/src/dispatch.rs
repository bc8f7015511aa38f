//! The dispatcher's step: one event in, the next state and the work to carry
//! out. Events are taken one at a time, in the order in which they arrive.

use crate::laws::{lemma_announce_wf, lemma_command_wf};
use crate::model::{DeliveryView, RegistryView};
use crate::plugin::{Action, ActionView, Plugin, PluginView, create_plugin, plugin_work};
use crate::registry::{Delivery, Registry, deliveries};
use vstd::prelude::*;
use vstd::string::*;

verus! {

/// What the dispatcher is told. Each event names the connection that it
/// comes from.
#[derive(Clone, Debug, PartialEq, Eq)]
pub enum Event {
    /// A connection was accepted.
    Announce(String),
    /// A connection sent a line.
    Command(String, String),
    /// A connection asked for an extension.
    Plugin(String, Plugin),
}

/// What an `Event` holds, as sequences of characters.
pub enum EventView {
    Announce(Seq<char>),
    Command(Seq<char>, Seq<char>),
    Plugin(Seq<char>, PluginView),
}

impl View for Event {
    type V = EventView;

    open spec fn view(&self) -> EventView {
        match self {
            Event::Announce(id) => EventView::Announce(id@),
            Event::Command(id, line) => EventView::Command(id@, line@),
            Event::Plugin(id, plugin) => EventView::Plugin(id@, plugin@),
        }
    }
}

/// The state after an event, and the work that it causes, in order.
pub struct Step {
    pub next: RegistryView,
    pub actions: Seq<ActionView>,
}

/// The view of each action, in order.
pub open spec fn actions_view(v: Seq<Action>) -> Seq<ActionView> {
    Seq::new(v.len(), |i: int| v[i]@)
}

/// Each line as a piece of work of its own.
pub open spec fn writes(out: Seq<DeliveryView>) -> Seq<ActionView> {
    Seq::new(out.len(), |i: int| ActionView::Write(out[i]))
}

/// What one event does. An announcement registers the connection and causes
/// no work. A line is carried out as a command; its lines are the work. An
/// extension changes nothing and causes one piece of work; from an identity
/// that is no session it causes none.
pub open spec fn step(r: RegistryView, event: EventView) -> Step {
    match event {
        EventView::Announce(id) => Step { next: r.announce(id), actions: Seq::empty() },
        EventView::Command(id, line) => Step {
            next: r.command(id, line).next,
            actions: writes(r.command(id, line).out),
        },
        EventView::Plugin(id, plugin) => if r.has_session(id) {
            Step { next: r, actions: seq![plugin_work(r, id, plugin)] }
        } else {
            Step { next: r, actions: Seq::empty() }
        },
    }
}

/// Whatever the event, the state stays consistent.
pub proof fn lemma_step_wf(r: RegistryView, event: EventView)
    requires
        r.wf(),
    ensures
        step(r, event).next.wf(),
{
    match event {
        EventView::Announce(id) => lemma_announce_wf(r, id),
        EventView::Command(id, line) => lemma_command_wf(r, id, line),
        EventView::Plugin(_, _) => {},
    }
}

/// The state after a run of events, taken in order from the state `r`.
pub open spec fn run(r: RegistryView, events: Seq<EventView>) -> RegistryView
    decreases events.len(),
{
    if events.len() == 0 {
        r
    } else {
        step(run(r, events.drop_last()), events.last()).next
    }
}

/// Whatever events arrive, in whatever order, a server that started empty
/// is in a consistent state.
pub proof fn law_always_consistent(events: Seq<EventView>)
    ensures
        run(RegistryView::empty(), events).wf(),
    decreases events.len(),
{
    if events.len() > 0 {
        law_always_consistent(events.drop_last());
        lemma_step_wf(run(RegistryView::empty(), events.drop_last()), events.last());
    }
}

/// Whatever events arrive, no two sessions hold the same nickname, and every
/// member of every channel is a registered session.
pub proof fn law_one_holder_per_nick(events: Seq<EventView>, i: int, j: int)
    requires
        0 <= i < run(RegistryView::empty(), events).sessions.len(),
        0 <= j < run(RegistryView::empty(), events).sessions.len(),
        i != j,
        run(RegistryView::empty(), events).sessions[i].nick is Some,
    ensures
        run(RegistryView::empty(), events).sessions[i].nick != run(
            RegistryView::empty(),
            events,
        ).sessions[j].nick,
        run(RegistryView::empty(), events).members_registered(),
{
    law_always_consistent(events);
}

/// The event that stands for a connection that can no longer be written
/// to: the connection is taken for gone, as if it had sent `QUIT`.
pub fn write_failed(id: String) -> (event: Event)
    ensures
        event@ == EventView::Command(id@, "QUIT"@),
{
    Event::Command(id, String::from_str("QUIT"))
}

/// Wraps each line as a piece of work.
fn as_writes(out: Vec<Delivery>) -> (actions: Vec<Action>)
    ensures
        actions_view(actions@) == writes(deliveries(out@)),
{
    let mut actions: Vec<Action> = Vec::new();
    let mut i: usize = 0;
    while i < out.len()
        invariant
            i <= out.len(),
            actions.len() == i,
            forall|j: int| 0 <= j < i ==> (#[trigger] actions[j])@ == ActionView::Write(out[j]@),
        decreases out.len() - i,
    {
        actions.push(Action::Write(Delivery { to: out[i].to.clone(), text: out[i].text.clone() }));
        i += 1;
    }
    assert(actions_view(actions@) =~= writes(deliveries(out@)));
    actions
}

/// Carries out one event against the registry and returns the work that it
/// causes, in order. Nothing here waits or writes: the caller does both.
pub fn handle(registry: &mut Registry, event: Event) -> (actions: Vec<Action>)
    requires
        old(registry).wf(),
    ensures
        final(registry).wf(),
        final(registry)@ == step(old(registry)@, event@).next,
        actions_view(actions@) == step(old(registry)@, event@).actions,
{
    match event {
        Event::Announce(id) => {
            registry.announce(id.as_str());
            let actions: Vec<Action> = Vec::new();
            assert(actions_view(actions@) =~= Seq::<ActionView>::empty());
            actions
        },
        Event::Command(id, line) => {
            let out = registry.command(id.as_str(), line.as_str());
            as_writes(out)
        },
        Event::Plugin(id, plugin) => {
            let mut actions: Vec<Action> = Vec::new();
            if registry.has_session(id.as_str()) {
                let ghost asked = plugin@;
                actions.push(create_plugin(plugin, id, registry));
                assert(actions_view(actions@) =~= seq![plugin_work(registry@, id@, asked)]);
            } else {
                assert(actions_view(actions@) =~= Seq::<ActionView>::empty());
            }
            actions
        },
    }
}

} // verus!
