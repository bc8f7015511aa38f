use iris::dispatch::{handle, write_failed, Event};
use iris::plugin::{create_plugin, listing, parse_plugin, reminder, Action, Plugin, Reminder};
use iris::reader::{reader_step, Read, ReaderStep};
use iris::registry::{Delivery, Registry};

fn s(text: &str) -> String {
    text.to_string()
}

fn line(to: &str, text: &str) -> Delivery {
    Delivery { to: s(to), text: s(text) }
}

fn registered(registry: &mut Registry, id: &str, nick: &str) {
    registry.announce(id);
    registry.command(id, &format!("NICK {}", nick));
    registry.command(id, &format!("USER x x x {}", nick));
}

#[test]
fn listing_is_decoded() {
    assert_eq!(parse_plugin(s("LISTING")), Some(Plugin::ListingChannels));
}

#[test]
fn reminder_is_decoded() {
    assert_eq!(
        parse_plugin(s("REMINDER $1 $bob $hello")),
        Some(Plugin::Remainder(1, s("bob"), s("hello")))
    );
    assert_eq!(
        parse_plugin(s("REMINDER $+90 $bob $see you at five")),
        Some(Plugin::Remainder(90, s("bob"), s("see you at five")))
    );
}

#[test]
fn reminder_needs_its_exact_keyword() {
    assert_eq!(parse_plugin(s("REMINDERS later $2 $a $b")), None);
    assert_eq!(parse_plugin(s("REMINDERX $1 $bob $hi")), None);
    assert_eq!(parse_plugin(s("REMINDER  $1 $bob $hi")), None);
    assert_eq!(parse_plugin(s("REMINDER$1 $bob $hi $x")), None);
    assert_eq!(parse_plugin(s("reminder $1 $bob $hi")), None);
    assert_eq!(parse_plugin(s(" $1 $bob $hi")), None);
}

#[test]
fn reminder_needs_exactly_three_parameters() {
    assert_eq!(parse_plugin(s("REMINDER")), None);
    assert_eq!(parse_plugin(s("REMINDER $1")), None);
    assert_eq!(parse_plugin(s("REMINDER $1 $bob")), None);
    assert_eq!(parse_plugin(s("REMINDER $1 $bob $hello $more")), None);
}

#[test]
fn reminder_needs_a_whole_number_of_seconds() {
    assert_eq!(parse_plugin(s("REMINDER $soon $bob $hello")), None);
    assert_eq!(parse_plugin(s("REMINDER $-1 $bob $hello")), None);
    assert_eq!(parse_plugin(s("REMINDER $1.5 $bob $hello")), None);
    assert_eq!(parse_plugin(s("REMINDER $ $bob $hello")), None);
    assert_eq!(parse_plugin(s("REMINDER $18446744073709551616 $bob $hello")), None);
}

#[test]
fn other_texts_name_no_extension() {
    assert_eq!(parse_plugin(s("")), None);
    assert_eq!(parse_plugin(s("LISTING ")), None);
    assert_eq!(parse_plugin(s("listing")), None);
    assert_eq!(parse_plugin(s("WEATHER $1 $bob $hello")), None);
    assert_eq!(parse_plugin(s(" REMINDER $1 $bob $hello")), None);
}

#[test]
fn reminder_builds_the_command_to_send_in() {
    assert_eq!(
        reminder(3, s("bob"), s("hello"), s("10.0.0.1:7")),
        Reminder { delay_secs: 3, origin: s("10.0.0.1:7"), command: s("PRIVMSG bob :hello") }
    );
}

#[test]
fn listing_names_the_channels_in_order() {
    let mut registry = Registry::new();
    assert_eq!(listing(s("a"), &registry), line("a", "Available channels are []"));
    registered(&mut registry, "a", "alice");
    registry.command("a", "JOIN #one");
    assert_eq!(listing(s("a"), &registry), line("a", "Available channels are [#one]"));
    registry.command("a", "JOIN #two");
    registry.command("a", "JOIN #three");
    assert_eq!(
        listing(s("a"), &registry),
        line("a", "Available channels are [#one, #two, #three]")
    );
}

#[test]
fn listing_keeps_drained_channels() {
    let mut registry = Registry::new();
    registered(&mut registry, "a", "alice");
    registry.command("a", "JOIN #one");
    registry.command("a", "PART #one");
    assert_eq!(listing(s("a"), &registry), line("a", "Available channels are [#one]"));
}

#[test]
fn create_plugin_gives_one_piece_of_work() {
    let mut registry = Registry::new();
    registered(&mut registry, "a", "alice");
    registry.command("a", "JOIN #one");
    assert_eq!(
        create_plugin(Plugin::ListingChannels, s("a"), &registry),
        Action::Write(line("a", "Available channels are [#one]"))
    );
    assert_eq!(
        create_plugin(Plugin::Remainder(1, s("bob"), s("hello")), s("a"), &registry),
        Action::Schedule(Reminder {
            delay_secs: 1,
            origin: s("a"),
            command: s("PRIVMSG bob :hello")
        })
    );
}

#[test]
fn extensions_run_at_any_stage_but_not_for_strangers() {
    let mut registry = Registry::new();
    assert_eq!(handle(&mut registry, Event::Plugin(s("a"), Plugin::ListingChannels)), vec![]);
    assert_eq!(handle(&mut registry, Event::Announce(s("a"))), vec![]);
    assert_eq!(
        handle(&mut registry, Event::Plugin(s("a"), Plugin::ListingChannels)),
        vec![Action::Write(line("a", "Available channels are []"))]
    );
}

#[test]
fn handle_wraps_each_line_of_a_command() {
    let mut registry = Registry::new();
    handle(&mut registry, Event::Announce(s("a")));
    handle(&mut registry, Event::Announce(s("b")));
    handle(&mut registry, Event::Command(s("a"), s("NICK alice")));
    handle(&mut registry, Event::Command(s("b"), s("NICK bob")));
    assert_eq!(
        handle(&mut registry, Event::Command(s("a"), s("USER x x x Alice"))),
        vec![Action::Write(line("a", ":iris-server 001 alice :Hi Alice, welcome to IRC"))]
    );
    handle(&mut registry, Event::Command(s("b"), s("USER x x x Bob")));
    handle(&mut registry, Event::Command(s("a"), s("JOIN #t")));
    assert_eq!(
        handle(&mut registry, Event::Command(s("b"), s("JOIN #t"))),
        vec![
            Action::Write(line("a", ":bob JOIN #t")),
            Action::Write(line("b", ":bob JOIN #t"))
        ]
    );
}

#[test]
fn a_reminder_takes_the_way_of_a_private_message() {
    let mut registry = Registry::new();
    registered(&mut registry, "a", "alice");
    registered(&mut registry, "b", "bob");
    let step = reader_step("a", Read::Line(s("PLUGIN REMINDER $1 $bob $hello")));
    assert!(!step.done);
    let event = step.forward.unwrap();
    assert_eq!(event, Event::Plugin(s("a"), Plugin::Remainder(1, s("bob"), s("hello"))));
    let work = handle(&mut registry, event);
    let due = Reminder { delay_secs: 1, origin: s("a"), command: s("PRIVMSG bob :hello") };
    assert_eq!(work, vec![Action::Schedule(due.clone())]);
    let later = handle(&mut registry, Event::Command(due.origin, due.command));
    assert_eq!(later, vec![Action::Write(line("b", ":alice PRIVMSG bob :hello"))]);
    assert_eq!(later, handle(&mut registry, Event::Command(s("a"), s("PRIVMSG bob :hello"))));
}

#[test]
fn a_reminder_for_someone_who_left_is_refused() {
    let mut registry = Registry::new();
    registered(&mut registry, "a", "alice");
    registered(&mut registry, "b", "bob");
    let due = reminder(1, s("bob"), s("hello"), s("a"));
    registry.command("b", "QUIT");
    assert_eq!(
        handle(&mut registry, Event::Command(due.origin, due.command)),
        vec![Action::Write(line("a", ":iris-server 401 :No such nick"))]
    );
}

#[test]
fn a_reminder_from_someone_who_left_does_nothing() {
    let mut registry = Registry::new();
    registered(&mut registry, "a", "alice");
    registered(&mut registry, "b", "bob");
    let due = reminder(1, s("bob"), s("hello"), s("a"));
    registry.command("a", "QUIT");
    assert_eq!(handle(&mut registry, Event::Command(due.origin, due.command)), vec![]);
    assert_eq!(registry.session_count(), 1);
}

#[test]
fn reader_forwards_quit_and_stops() {
    assert_eq!(
        reader_step("a", Read::Line(s("QUIT"))),
        ReaderStep { forward: Some(Event::Command(s("a"), s("QUIT"))), done: true }
    );
    assert_eq!(
        reader_step("a", Read::Line(s("QUIT :bye"))),
        ReaderStep { forward: Some(Event::Command(s("a"), s("QUIT :bye"))), done: true }
    );
}

#[test]
fn reader_takes_a_longer_word_for_a_command() {
    assert_eq!(
        reader_step("a", Read::Line(s("QUITE"))),
        ReaderStep { forward: Some(Event::Command(s("a"), s("QUITE"))), done: false }
    );
}

#[test]
fn reader_forwards_commands_and_reads_on() {
    assert_eq!(
        reader_step("a", Read::Line(s("NICK alice"))),
        ReaderStep { forward: Some(Event::Command(s("a"), s("NICK alice"))), done: false }
    );
    assert_eq!(
        reader_step("a", Read::Line(s(""))),
        ReaderStep { forward: Some(Event::Command(s("a"), s(""))), done: false }
    );
}

#[test]
fn reader_decodes_extensions() {
    assert_eq!(
        reader_step("a", Read::Line(s("PLUGIN LISTING"))),
        ReaderStep { forward: Some(Event::Plugin(s("a"), Plugin::ListingChannels)), done: false }
    );
    assert_eq!(
        reader_step("a", Read::Line(s("PLUGIN REMINDER $0 $bob $now"))),
        ReaderStep {
            forward: Some(Event::Plugin(s("a"), Plugin::Remainder(0, s("bob"), s("now")))),
            done: false
        }
    );
}

#[test]
fn reader_drops_unknown_extensions() {
    let dropped = ReaderStep { forward: None, done: false };
    assert_eq!(reader_step("a", Read::Line(s("PLUGIN WEATHER"))), dropped);
    assert_eq!(reader_step("a", Read::Line(s("PLUGIN "))), dropped);
    assert_eq!(reader_step("a", Read::Line(s("PLUGIN PLUGIN LISTING"))), dropped);
    assert_eq!(reader_step("a", Read::Line(s("PLUGIN  LISTING"))), dropped);
    assert_eq!(reader_step("a", Read::Line(s("PLUGIN REMINDER $x $bob $hi"))), dropped);
    assert_eq!(reader_step("a", Read::Line(s("PLUGIN REMINDERX $1 $bob $hi"))), dropped);
}

#[test]
fn reader_takes_a_line_without_the_keyword_and_a_space_for_a_command() {
    assert_eq!(
        reader_step("a", Read::Line(s("PLUGINLISTING"))),
        ReaderStep { forward: Some(Event::Command(s("a"), s("PLUGINLISTING"))), done: false }
    );
    assert_eq!(
        reader_step("a", Read::Line(s("PLUGIN"))),
        ReaderStep { forward: Some(Event::Command(s("a"), s("PLUGIN"))), done: false }
    );
    assert_eq!(
        reader_step("a", Read::Line(s("xPLUGIN LISTING"))),
        ReaderStep { forward: Some(Event::Command(s("a"), s("xPLUGIN LISTING"))), done: false }
    );
    let mut registry = Registry::new();
    registry.announce("a");
    assert_eq!(
        handle(&mut registry, Event::Command(s("a"), s("PLUGINLISTING"))),
        vec![Action::Write(line("a", ":iris-server 421 :Malformed command"))]
    );
}

#[test]
fn a_failed_write_counts_as_a_quit() {
    assert_eq!(write_failed(s("b")), Event::Command(s("b"), s("QUIT")));
    let mut registry = Registry::new();
    registered(&mut registry, "a", "alice");
    registered(&mut registry, "b", "bob");
    registry.command("a", "JOIN #t");
    registry.command("b", "JOIN #t");
    assert_eq!(
        handle(&mut registry, write_failed(s("b"))),
        vec![Action::Write(line("a", ":bob QUIT :bob"))]
    );
    assert!(!registry.has_session("b"));
    assert_eq!(registry.members_of("#t"), Some(vec![s("a")]));
}

#[test]
fn reader_turns_a_lost_connection_into_a_quit() {
    assert_eq!(
        reader_step("a", Read::Lost),
        ReaderStep { forward: Some(Event::Command(s("a"), s("QUIT"))), done: true }
    );
}

#[test]
fn reader_passes_over_other_faults() {
    assert_eq!(reader_step("a", Read::Faulty), ReaderStep { forward: None, done: false });
}
