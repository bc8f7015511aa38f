use iris::message::{
    check_channel_name, check_names, check_nickname, check_word, head_tail, reads_as, strip_colon,
    target_from,
    Message, Target,
};
use iris::plugin::join_names;
use iris::reader::{begins_with, extension_text};
use iris::registry::{Delivery, Registry};

fn s(text: &str) -> String {
    text.to_string()
}

#[test]
fn head_and_tail_part_at_the_first_space() {
    assert_eq!(head_tail("JOIN #t"), (s("JOIN"), s("#t")));
    assert_eq!(head_tail("a b c"), (s("a"), s("b c")));
    assert_eq!(head_tail("QUIT"), (s("QUIT"), s("")));
    assert_eq!(head_tail("QUIT "), (s("QUIT"), s("")));
    assert_eq!(head_tail(" x"), (s(""), s("x")));
    assert_eq!(head_tail(""), (s(""), s("")));
}

#[test]
fn one_leading_colon_is_stripped() {
    assert_eq!(strip_colon(":hi"), "hi");
    assert_eq!(strip_colon("::hi"), ":hi");
    assert_eq!(strip_colon("hi:"), "hi:");
    assert_eq!(strip_colon(":"), "");
    assert_eq!(strip_colon(""), "");
}

#[test]
fn words_names_and_nicknames_are_told_apart() {
    assert!(check_word("alice"));
    assert!(!check_word(""));
    assert!(!check_word("a b"));
    assert!(check_channel_name("#t"));
    assert!(check_channel_name("#"));
    assert!(!check_channel_name("t"));
    assert!(!check_channel_name("#a b"));
    assert!(check_nickname("alice"));
    assert!(!check_nickname("#alice"));
    assert!(!check_nickname(":alice"));
    assert!(!check_nickname(""));
}

#[test]
fn a_target_is_a_channel_by_its_sigil() {
    assert_eq!(target_from(s("#t")), Target::Channel(s("#t")));
    assert_eq!(target_from(s("bob")), Target::User(s("bob")));
    assert_eq!(target_from(s("")), Target::User(s("")));
}

#[test]
fn literals_are_compared_whole() {
    assert!(reads_as(&s("QUIT"), "QUIT"));
    assert!(!reads_as(&s("QUIT "), "QUIT"));
    assert!(!reads_as(&s("quit"), "QUIT"));
    assert!(begins_with("PLUGIN LISTING", "PLUGIN"));
    assert!(begins_with("PLUGIN", "PLUGIN"));
    assert!(!begins_with("PLUGI", "PLUGIN"));
    assert!(!begins_with(" PLUGIN", "PLUGIN"));
    assert!(begins_with("anything", ""));
}

#[test]
fn extension_text_is_what_follows_the_keyword() {
    assert_eq!(extension_text("PLUGIN LISTING"), Some(s("LISTING")));
    assert_eq!(
        extension_text("PLUGIN REMINDER $1 $bob $hi"),
        Some(s("REMINDER $1 $bob $hi"))
    );
    assert_eq!(extension_text("PLUGIN "), Some(s("")));
    assert_eq!(extension_text("PLUGIN a PLUGIN b"), Some(s("a PLUGIN b")));
    assert_eq!(extension_text("PLUGIN"), None);
    assert_eq!(extension_text("PLUGINLISTING"), None);
    assert_eq!(extension_text("xPLUGIN LISTING"), None);
    assert_eq!(extension_text("plugin LISTING"), None);
    assert_eq!(extension_text(""), None);
}

#[test]
fn names_outside_the_grammar_are_told() {
    assert!(check_names(&Message::Nick(s("alice"))));
    assert!(!check_names(&Message::Nick(s("#alice"))));
    assert!(!check_names(&Message::Nick(s("al ice"))));
    assert!(check_names(&Message::Join(s("#t"))));
    assert!(!check_names(&Message::Join(s("t"))));
    assert!(!check_names(&Message::Part(s(""))));
    assert!(check_names(&Message::PrivMsg(Target::Channel(s("#t")), s("hi"))));
    assert!(!check_names(&Message::PrivMsg(Target::Channel(s("t")), s("hi"))));
    assert!(check_names(&Message::PrivMsg(Target::User(s(":bob")), s("hi"))));
    assert!(!check_names(&Message::PrivMsg(Target::User(s("#t")), s("hi"))));
    assert!(!check_names(&Message::PrivMsg(Target::User(s("")), s("hi"))));
    assert!(check_names(&Message::User(s("any name"))));
    assert!(check_names(&Message::Quit(None)));
}

#[test]
fn apply_passes_over_names_outside_the_grammar() {
    let mut registry = Registry::new();
    registry.announce("a");
    assert_eq!(registry.apply("a", Message::Nick(s("al ice"))), vec![]);
    assert_eq!(registry.apply("a", Message::Nick(s("#alice"))), vec![]);
    assert_eq!(registry.nick_of("a"), None);
    assert_eq!(registry.apply("a", Message::Nick(s("alice"))), vec![]);
    registry.apply("a", Message::User(s("Alice")));
    assert_eq!(registry.apply("a", Message::Join(s("room"))), vec![]);
    assert_eq!(registry.apply("a", Message::Join(s("#two words"))), vec![]);
    assert_eq!(registry.apply("a", Message::Join(s(""))), vec![]);
    assert_eq!(registry.channel_names(), Vec::<String>::new());
    assert_eq!(registry.apply("a", Message::Part(s("room"))), vec![]);
    assert_eq!(
        registry.apply("a", Message::PrivMsg(Target::Channel(s("room")), s("hi"))),
        vec![]
    );
    assert_eq!(registry.apply("a", Message::PrivMsg(Target::User(s("#t")), s("hi"))), vec![]);
}

#[test]
fn names_are_joined_with_the_separator_between() {
    assert_eq!(join_names(&vec![], ", "), "");
    assert_eq!(join_names(&vec![s("#a")], ", "), "#a");
    assert_eq!(join_names(&vec![s("#a"), s("#b"), s("#c")], ", "), "#a, #b, #c");
    assert_eq!(join_names(&vec![s(""), s("")], "-"), "-");
}

#[test]
fn apply_takes_a_decoded_command() {
    let mut registry = Registry::new();
    registry.announce("a");
    assert_eq!(registry.apply("a", Message::Nick(s("alice"))), vec![]);
    assert_eq!(
        registry.apply("a", Message::User(s("Alice"))),
        vec![Delivery {
            to: s("a"),
            text: s(":iris-server 001 alice :Hi Alice, welcome to IRC")
        }]
    );
    assert_eq!(
        registry.apply("a", Message::Ping(s("tok"))),
        vec![Delivery { to: s("a"), text: s("PONG :tok") }]
    );
    assert_eq!(
        registry.apply("a", Message::Join(s("#t"))),
        vec![Delivery { to: s("a"), text: s(":alice JOIN #t") }]
    );
    assert_eq!(
        registry.apply("a", Message::PrivMsg(Target::Channel(s("#t")), s("hi"))),
        vec![Delivery { to: s("a"), text: s(":alice PRIVMSG #t :hi") }]
    );
    assert_eq!(registry.apply("a", Message::Part(s("#t"))), vec![]);
    assert_eq!(registry.apply("a", Message::Quit(Some(s("bye")))), vec![]);
    assert_eq!(registry.apply("a", Message::Ping(s("tok"))), vec![]);
    assert_eq!(registry.session_count(), 0);
}
