use iris::dispatch::{handle, Event};
use iris::model::Stage;
use iris::plugin::Action;
use iris::reader::{reader_step, Read};
use iris::registry::{Delivery, Registry};

fn s(text: &str) -> String {
    text.to_string()
}

fn line(to: &str, text: &str) -> Delivery {
    Delivery { to: s(to), text: s(text) }
}

fn registered(registry: &mut Registry, id: &str, nick: &str) {
    registry.announce(id);
    assert_eq!(registry.command(id, &format!("NICK {}", nick)), vec![]);
    assert_eq!(registry.command(id, &format!("USER x x x {}", nick)).len(), 1);
}

#[test]
fn a_new_registry_is_empty() {
    let registry = Registry::new();
    assert_eq!(registry.session_count(), 0);
    assert_eq!(registry.channel_names(), Vec::<String>::new());
    assert_eq!(registry.stage_of("a"), None);
    assert_eq!(registry.nick_of("a"), None);
    assert_eq!(registry.members_of("#t"), None);
}

#[test]
fn stages_follow_nick_then_user() {
    let mut registry = Registry::new();
    registry.announce("a");
    assert_eq!(registry.stage_of("a"), Some(Stage::Unregistered));
    registry.command("a", "NICK alice");
    assert_eq!(registry.stage_of("a"), Some(Stage::NickOnly));
    assert_eq!(registry.nick_of("a"), Some(s("alice")));
    registry.command("a", "USER x x x Alice");
    assert_eq!(registry.stage_of("a"), Some(Stage::Registered));
}

#[test]
fn a_colliding_nick_is_refused_to_the_requester_alone() {
    let mut registry = Registry::new();
    registered(&mut registry, "a", "alice");
    registry.announce("b");
    assert_eq!(
        registry.command("b", "NICK alice"),
        vec![line("b", ":iris-server 436 :Nickname collision")]
    );
    assert_eq!(registry.nick_of("b"), None);
    assert_eq!(registry.stage_of("b"), Some(Stage::Unregistered));
    assert_eq!(registry.nick_of("a"), Some(s("alice")));
}

#[test]
fn a_nick_held_by_a_half_registered_session_collides_too() {
    let mut registry = Registry::new();
    registry.announce("a");
    registry.announce("b");
    assert_eq!(registry.command("a", "NICK alice"), vec![]);
    assert_eq!(
        registry.command("b", "NICK alice"),
        vec![line("b", ":iris-server 436 :Nickname collision")]
    );
    assert_eq!(registry.command("b", "NICK bob"), vec![]);
    assert_eq!(registry.nick_of("b"), Some(s("bob")));
}

#[test]
fn a_nick_is_free_again_after_its_holder_quits() {
    let mut registry = Registry::new();
    registered(&mut registry, "a", "alice");
    registry.command("a", "QUIT");
    registry.announce("b");
    assert_eq!(registry.command("b", "NICK alice"), vec![]);
    assert_eq!(registry.nick_of("b"), Some(s("alice")));
}

#[test]
fn user_before_nick_is_ignored() {
    let mut registry = Registry::new();
    registry.announce("a");
    assert_eq!(registry.command("a", "USER x x x Alice"), vec![]);
    assert_eq!(registry.stage_of("a"), Some(Stage::Unregistered));
}

#[test]
fn a_second_nick_or_user_is_ignored() {
    let mut registry = Registry::new();
    registry.announce("a");
    registry.command("a", "NICK alice");
    assert_eq!(registry.command("a", "NICK alba"), vec![]);
    assert_eq!(registry.nick_of("a"), Some(s("alice")));
    registry.command("a", "USER x x x Alice");
    assert_eq!(registry.command("a", "USER x x x Other"), vec![]);
    assert_eq!(registry.command("a", "NICK alba"), vec![]);
    assert_eq!(registry.nick_of("a"), Some(s("alice")));
    assert_eq!(registry.stage_of("a"), Some(Stage::Registered));
}

#[test]
fn commands_before_registration_are_ignored_in_silence() {
    let mut registry = Registry::new();
    registered(&mut registry, "b", "bob");
    registry.command("b", "JOIN #t");
    registry.announce("a");
    for stage in 0..2 {
        if stage == 1 {
            registry.command("a", "NICK alice");
        }
        assert_eq!(registry.command("a", "PRIVMSG bob :hi"), vec![]);
        assert_eq!(registry.command("a", "PRIVMSG #t :hi"), vec![]);
        assert_eq!(registry.command("a", "PING :tok"), vec![]);
        assert_eq!(registry.command("a", "JOIN #t"), vec![]);
        assert_eq!(registry.command("a", "PART #t"), vec![]);
        assert_eq!(registry.members_of("#t"), Some(vec![s("b")]));
    }
}

#[test]
fn a_malformed_line_is_answered_at_every_stage() {
    let mut registry = Registry::new();
    registry.announce("a");
    let refusal = vec![line("a", ":iris-server 421 :Malformed command")];
    assert_eq!(registry.command("a", "HELLO"), refusal);
    registry.command("a", "NICK alice");
    assert_eq!(registry.command("a", "JOIN nowhere"), refusal);
    registry.command("a", "USER x x x Alice");
    assert_eq!(registry.command("a", "PRIVMSG"), refusal);
    assert_eq!(registry.stage_of("a"), Some(Stage::Registered));
}

#[test]
fn a_line_from_a_stranger_does_nothing() {
    let mut registry = Registry::new();
    assert_eq!(registry.command("a", "NICK alice"), vec![]);
    assert_eq!(registry.command("a", "HELLO"), vec![]);
    assert_eq!(registry.session_count(), 0);
}

#[test]
fn registration_gives_a_single_welcome() {
    let mut registry = Registry::new();
    registry.announce("a");
    assert_eq!(registry.command("a", "NICK alice"), vec![]);
    assert_eq!(
        registry.command("a", "USER x x x Alice"),
        vec![line("a", ":iris-server 001 alice :Hi Alice, welcome to IRC")]
    );
}

#[test]
fn joining_twice_lists_the_member_once_and_tells_again() {
    let mut registry = Registry::new();
    registered(&mut registry, "a", "alice");
    registered(&mut registry, "b", "bob");
    registry.command("a", "JOIN #t");
    let first = registry.command("b", "JOIN #t");
    assert_eq!(first, vec![line("a", ":bob JOIN #t"), line("b", ":bob JOIN #t")]);
    let second = registry.command("b", "JOIN #t");
    assert_eq!(second, first);
    assert_eq!(registry.members_of("#t"), Some(vec![s("a"), s("b")]));
    assert_eq!(registry.channel_names(), vec![s("#t")]);
}

#[test]
fn the_second_joiner_is_told_to_both_members() {
    let mut registry = Registry::new();
    registered(&mut registry, "a", "alice");
    registered(&mut registry, "b", "bob");
    assert_eq!(registry.command("a", "JOIN #t"), vec![line("a", ":alice JOIN #t")]);
    assert_eq!(
        registry.command("b", "JOIN #t"),
        vec![line("a", ":bob JOIN #t"), line("b", ":bob JOIN #t")]
    );
}

#[test]
fn part_takes_out_the_requester_and_tells_the_rest() {
    let mut registry = Registry::new();
    registered(&mut registry, "a", "alice");
    registered(&mut registry, "b", "bob");
    registered(&mut registry, "c", "carol");
    registry.command("a", "JOIN #t");
    registry.command("b", "JOIN #t");
    registry.command("c", "JOIN #t");
    registry.command("b", "JOIN #u");
    assert_eq!(
        registry.command("b", "PART #t"),
        vec![line("a", ":bob PART #t"), line("c", ":bob PART #t")]
    );
    assert_eq!(registry.members_of("#t"), Some(vec![s("a"), s("c")]));
    assert_eq!(registry.members_of("#u"), Some(vec![s("b")]));
}

#[test]
fn part_by_a_non_member_is_silent() {
    let mut registry = Registry::new();
    registered(&mut registry, "a", "alice");
    registered(&mut registry, "b", "bob");
    registry.command("a", "JOIN #t");
    assert_eq!(registry.command("b", "PART #t"), vec![]);
    assert_eq!(registry.members_of("#t"), Some(vec![s("a")]));
}

#[test]
fn part_from_an_unknown_channel_is_refused() {
    let mut registry = Registry::new();
    registered(&mut registry, "a", "alice");
    assert_eq!(
        registry.command("a", "PART #t"),
        vec![line("a", ":iris-server 403 :No such channel")]
    );
    assert_eq!(registry.members_of("#t"), None);
}

#[test]
fn privmsg_to_an_unknown_channel_is_refused_to_the_sender_alone() {
    let mut registry = Registry::new();
    registered(&mut registry, "a", "alice");
    registered(&mut registry, "b", "bob");
    assert_eq!(
        registry.command("a", "PRIVMSG #t :hi"),
        vec![line("a", ":iris-server 403 :No such channel")]
    );
}

#[test]
fn privmsg_to_a_channel_reaches_its_members_only() {
    let mut registry = Registry::new();
    registered(&mut registry, "a", "alice");
    registered(&mut registry, "b", "bob");
    registry.command("b", "JOIN #t");
    assert_eq!(registry.command("a", "PRIVMSG #t :hi"), vec![line("b", ":alice PRIVMSG #t :hi")]);
    registry.command("b", "PART #t");
    assert_eq!(registry.command("a", "PRIVMSG #t :hi"), vec![]);
}

#[test]
fn privmsg_to_an_unknown_nick_is_refused() {
    let mut registry = Registry::new();
    registered(&mut registry, "a", "alice");
    assert_eq!(
        registry.command("a", "PRIVMSG bob :hi"),
        vec![line("a", ":iris-server 401 :No such nick")]
    );
}

#[test]
fn privmsg_reaches_a_half_registered_nick() {
    let mut registry = Registry::new();
    registered(&mut registry, "a", "alice");
    registry.announce("b");
    registry.command("b", "NICK bob");
    assert_eq!(registry.command("a", "PRIVMSG bob :hi"), vec![line("b", ":alice PRIVMSG bob :hi")]);
}

#[test]
fn quit_tells_each_channel_once_and_the_session_is_gone() {
    let mut registry = Registry::new();
    registered(&mut registry, "a", "alice");
    registered(&mut registry, "b", "bob");
    registered(&mut registry, "c", "carol");
    registry.command("a", "JOIN #one");
    registry.command("b", "JOIN #one");
    registry.command("c", "JOIN #two");
    registry.command("a", "JOIN #two");
    registry.command("b", "JOIN #three");
    assert_eq!(
        registry.command("a", "QUIT :good night"),
        vec![line("b", ":alice QUIT :good night"), line("c", ":alice QUIT :good night")]
    );
    assert!(!registry.has_session("a"));
    assert_eq!(registry.members_of("#one"), Some(vec![s("b")]));
    assert_eq!(registry.members_of("#two"), Some(vec![s("c")]));
    assert_eq!(registry.members_of("#three"), Some(vec![s("b")]));
    assert_eq!(
        registry.command("b", "PRIVMSG alice :still there?"),
        vec![line("b", ":iris-server 401 :No such nick")]
    );
    assert_eq!(registry.command("a", "PING :tok"), vec![]);
}

#[test]
fn quit_tells_a_member_of_two_shared_channels_twice() {
    let mut registry = Registry::new();
    registered(&mut registry, "a", "alice");
    registered(&mut registry, "b", "bob");
    registry.command("a", "JOIN #one");
    registry.command("b", "JOIN #one");
    registry.command("a", "JOIN #two");
    registry.command("b", "JOIN #two");
    assert_eq!(
        registry.command("a", "QUIT"),
        vec![line("b", ":alice QUIT :alice"), line("b", ":alice QUIT :alice")]
    );
}

#[test]
fn quit_outside_any_channel_tells_nobody() {
    let mut registry = Registry::new();
    registered(&mut registry, "a", "alice");
    registered(&mut registry, "b", "bob");
    registry.command("b", "JOIN #t");
    assert_eq!(registry.command("a", "QUIT :bye"), vec![]);
    assert_eq!(registry.session_count(), 1);
}

#[test]
fn quit_before_registration_tells_nobody() {
    let mut registry = Registry::new();
    registry.announce("a");
    assert_eq!(registry.command("a", "QUIT"), vec![]);
    assert_eq!(registry.session_count(), 0);
    registry.announce("a");
    registry.command("a", "NICK alice");
    assert_eq!(registry.command("a", "QUIT :bye"), vec![]);
    assert_eq!(registry.session_count(), 0);
}

#[test]
fn a_dropped_connection_leaves_both_its_channels() {
    let mut registry = Registry::new();
    registered(&mut registry, "a", "alice");
    registered(&mut registry, "b", "bob");
    registered(&mut registry, "c", "carol");
    registry.command("a", "JOIN #one");
    registry.command("b", "JOIN #one");
    registry.command("a", "JOIN #two");
    registry.command("c", "JOIN #two");
    let step = reader_step("a", Read::Lost);
    assert!(step.done);
    let work = handle(&mut registry, step.forward.unwrap());
    assert_eq!(
        work,
        vec![
            Action::Write(line("b", ":alice QUIT :alice")),
            Action::Write(line("c", ":alice QUIT :alice"))
        ]
    );
    assert_eq!(registry.members_of("#one"), Some(vec![s("b")]));
    assert_eq!(registry.members_of("#two"), Some(vec![s("c")]));
    assert!(!registry.has_session("a"));
}

#[test]
fn announcing_an_identity_again_starts_it_afresh() {
    let mut registry = Registry::new();
    registered(&mut registry, "a", "alice");
    registered(&mut registry, "b", "bob");
    registry.command("a", "JOIN #t");
    registry.command("b", "JOIN #t");
    assert_eq!(handle(&mut registry, Event::Announce(s("a"))), vec![]);
    assert_eq!(registry.session_count(), 2);
    assert_eq!(registry.stage_of("a"), Some(Stage::Unregistered));
    assert_eq!(registry.members_of("#t"), Some(vec![s("b")]));
    assert_eq!(registry.command("a", "NICK alice"), vec![]);
}

#[test]
fn channel_names_are_case_sensitive() {
    let mut registry = Registry::new();
    registered(&mut registry, "a", "alice");
    registry.command("a", "JOIN #Room");
    assert_eq!(
        registry.command("a", "PRIVMSG #room :hi"),
        vec![line("a", ":iris-server 403 :No such channel")]
    );
    assert_eq!(registry.channel_names(), vec![s("#Room")]);
}
