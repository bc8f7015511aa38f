//! The command grammar: one line of text in, one typed command or a refusal
//! out.

use crate::text::{find, find_from, lemma_find_char, substring, to_chars};
use vstd::prelude::*;
use vstd::string::*;

verus! {

/// Why a request was refused.
#[derive(Clone, Copy, Debug, PartialEq, Eq, Structural)]
pub enum ErrorType {
    /// The nickname asked for is held by another session.
    NickCollision,
    /// No session holds the nickname addressed.
    NoSuchNick,
    /// No channel has the name addressed.
    NoSuchChannel,
    /// The line is not a command of the grammar.
    Malformed,
}

/// Whom a private message is for.
#[derive(Clone, Debug, PartialEq, Eq)]
pub enum Target {
    /// Every member of the named channel.
    Channel(String),
    /// The session that holds the nickname.
    User(String),
}

/// A command, decoded.
#[derive(Clone, Debug, PartialEq, Eq)]
pub enum Message {
    /// Ask for a nickname.
    Nick(String),
    /// Give the display name and complete the registration.
    User(String),
    /// Send a text to a channel or to a nickname.
    PrivMsg(Target, String),
    /// Ask for an echo of the token.
    Ping(String),
    /// Enter a channel.
    Join(String),
    /// Leave a channel.
    Part(String),
    /// Leave the server, with or without a reason.
    Quit(Option<String>),
}

/// What a `Target` holds, as sequences of characters.
pub enum TargetView {
    Channel(Seq<char>),
    User(Seq<char>),
}

/// What a `Message` holds, as sequences of characters.
pub enum MessageView {
    Nick(Seq<char>),
    User(Seq<char>),
    PrivMsg(TargetView, Seq<char>),
    Ping(Seq<char>),
    Join(Seq<char>),
    Part(Seq<char>),
    Quit(Option<Seq<char>>),
}

impl View for Target {
    type V = TargetView;

    open spec fn view(&self) -> TargetView {
        match self {
            Target::Channel(name) => TargetView::Channel(name@),
            Target::User(nick) => TargetView::User(nick@),
        }
    }
}

/// The characters of an optional string.
pub open spec fn option_view(s: Option<String>) -> Option<Seq<char>> {
    match s {
        Some(t) => Some(t@),
        None => None,
    }
}

impl View for Message {
    type V = MessageView;

    open spec fn view(&self) -> MessageView {
        match self {
            Message::Nick(nick) => MessageView::Nick(nick@),
            Message::User(real_name) => MessageView::User(real_name@),
            Message::PrivMsg(target, text) => MessageView::PrivMsg(target@, text@),
            Message::Ping(token) => MessageView::Ping(token@),
            Message::Join(channel) => MessageView::Join(channel@),
            Message::Part(channel) => MessageView::Part(channel@),
            Message::Quit(reason) => MessageView::Quit(option_view(*reason)),
        }
    }
}

/// What decoding gives, with the command taken by its view.
pub open spec fn decoded_view(r: Result<Message, ErrorType>) -> Result<MessageView, ErrorType> {
    match r {
        Ok(m) => Ok(m@),
        Err(e) => Err(e),
    }
}

/// Where the first space stands in `s`; the length of `s` where it has none.
pub open spec fn first_space(s: Seq<char>) -> int {
    find_from(s, seq![' '], 0)
}

/// The first space is a space, and no space stands before it.
pub proof fn lemma_first_space(s: Seq<char>)
    ensures
        0 <= first_space(s) <= s.len(),
        first_space(s) < s.len() ==> s[first_space(s)] == ' ',
        forall|j: int| 0 <= j < first_space(s) ==> #[trigger] s[j] != ' ',
        first_space(s) == s.len() <==> !s.contains(' '),
{
    lemma_find_char(s, ' ');
    if first_space(s) < s.len() {
        assert(s.contains(' '));
    }
}

/// The text before the first space; the whole text where it has no space.
pub open spec fn head(s: Seq<char>) -> Seq<char> {
    s.take(first_space(s))
}

/// The text after the first space; empty where there is no space.
pub open spec fn tail(s: Seq<char>) -> Seq<char> {
    let k = first_space(s);
    if k < s.len() {
        s.skip(k + 1)
    } else {
        Seq::empty()
    }
}

/// The text without one leading colon.
pub open spec fn unprefixed(s: Seq<char>) -> Seq<char> {
    if s.len() > 0 && s[0] == ':' {
        s.skip(1)
    } else {
        s
    }
}

/// A non-empty text without a space.
pub open spec fn is_word(s: Seq<char>) -> bool {
    s.len() > 0 && !s.contains(' ')
}

/// A channel name: a word that begins with the sigil `#`.
pub open spec fn is_channel_name(s: Seq<char>) -> bool {
    is_word(s) && s[0] == '#'
}

/// A nickname: a word that begins with neither `#` nor `:`.
pub open spec fn is_nickname(s: Seq<char>) -> bool {
    is_word(s) && s[0] != '#' && s[0] != ':'
}

/// The names that a command carries are names of the grammar: a nickname
/// asked for is a nickname, a channel joined or left is a channel name, and
/// the target of a private message is a word, taken for a channel exactly
/// where it begins with `#`.
pub open spec fn has_valid_names(msg: MessageView) -> bool {
    match msg {
        MessageView::Nick(nick) => is_nickname(nick),
        MessageView::PrivMsg(TargetView::Channel(name), _) => is_channel_name(name),
        MessageView::PrivMsg(TargetView::User(nick), _) => is_word(nick) && nick[0] != '#',
        MessageView::Join(name) => is_channel_name(name),
        MessageView::Part(name) => is_channel_name(name),
        _ => true,
    }
}

/// The target that a word names: a channel where it begins with `#`.
pub open spec fn target_of(s: Seq<char>) -> TargetView {
    if s.len() > 0 && s[0] == '#' {
        TargetView::Channel(s)
    } else {
        TargetView::User(s)
    }
}

/// The display name of a `USER` command: what follows three non-empty words,
/// without one leading colon.
pub open spec fn real_name_of(args: Seq<char>) -> Seq<char> {
    unprefixed(tail(tail(tail(args))))
}

/// The three words before the display name are all there.
pub open spec fn has_three_words(args: Seq<char>) -> bool {
    head(args).len() > 0 && head(tail(args)).len() > 0 && head(tail(tail(args))).len() > 0
}

/// The command that a line denotes. The keyword is the text before the first
/// space and is case-sensitive; the arguments are what follows that space.
pub open spec fn decode(line: Seq<char>) -> Result<MessageView, ErrorType> {
    let keyword = head(line);
    let args = tail(line);
    if keyword == "NICK"@ {
        if is_nickname(args) {
            Ok(MessageView::Nick(args))
        } else {
            Err(ErrorType::Malformed)
        }
    } else if keyword == "USER"@ {
        if has_three_words(args) && real_name_of(args).len() > 0 {
            Ok(MessageView::User(real_name_of(args)))
        } else {
            Err(ErrorType::Malformed)
        }
    } else if keyword == "PRIVMSG"@ {
        if head(args).len() > 0 && unprefixed(tail(args)).len() > 0 {
            Ok(MessageView::PrivMsg(target_of(head(args)), unprefixed(tail(args))))
        } else {
            Err(ErrorType::Malformed)
        }
    } else if keyword == "PING"@ {
        if unprefixed(args).len() > 0 {
            Ok(MessageView::Ping(unprefixed(args)))
        } else {
            Err(ErrorType::Malformed)
        }
    } else if keyword == "JOIN"@ {
        if is_channel_name(args) {
            Ok(MessageView::Join(args))
        } else {
            Err(ErrorType::Malformed)
        }
    } else if keyword == "PART"@ {
        if is_channel_name(args) {
            Ok(MessageView::Part(args))
        } else {
            Err(ErrorType::Malformed)
        }
    } else if keyword == "QUIT"@ {
        if unprefixed(args).len() > 0 {
            Ok(MessageView::Quit(Some(unprefixed(args))))
        } else {
            Ok(MessageView::Quit(None))
        }
    } else {
        Err(ErrorType::Malformed)
    }
}

/// Whether `s` reads exactly as the literal `lit`.
pub fn reads_as(s: &String, lit: &str) -> (r: bool)
    ensures
        r == (s@ == lit@),
{
    let other = String::from_str(lit);
    *s == other
}

/// The text before the first space and the text after it.
pub fn head_tail(s: &str) -> (r: (String, String))
    ensures
        r.0@ == head(s@),
        r.1@ == tail(s@),
{
    let chars = to_chars(s);
    let space = to_chars(" ");
    proof {
        reveal_strlit(" ");
        assert(space@ =~= seq![' ']);
    }
    let k = find(&chars, &space, 0);
    let first = substring(s, 0, k);
    if k < chars.len() {
        let rest = substring(s, k + 1, chars.len());
        assert(s@.subrange(k + 1, s@.len() as int) =~= s@.skip(k + 1));
        (first, rest)
    } else {
        (first, String::new())
    }
}

/// The text without one leading colon.
pub fn strip_colon(s: &str) -> (r: String)
    ensures
        r@ == unprefixed(s@),
{
    let n = s.unicode_len();
    if n > 0 && s.get_char(0) == ':' {
        let r = substring(s, 1, n);
        assert(s@.subrange(1, s@.len() as int) =~= s@.skip(1));
        r
    } else {
        let r = substring(s, 0, n);
        assert(s@.subrange(0, s@.len() as int) =~= s@);
        r
    }
}

/// Whether the text is non-empty and holds no space.
pub fn check_word(s: &str) -> (r: bool)
    ensures
        r == is_word(s@),
{
    let chars = to_chars(s);
    let space = to_chars(" ");
    proof {
        reveal_strlit(" ");
        assert(space@ =~= seq![' ']);
        lemma_first_space(s@);
    }
    chars.len() > 0 && find(&chars, &space, 0) == chars.len()
}

/// Whether the text is a channel name.
pub fn check_channel_name(s: &str) -> (r: bool)
    ensures
        r == is_channel_name(s@),
{
    check_word(s) && s.get_char(0) == '#'
}

/// Whether the text is a nickname.
pub fn check_nickname(s: &str) -> (r: bool)
    ensures
        r == is_nickname(s@),
{
    check_word(s) && s.get_char(0) != '#' && s.get_char(0) != ':'
}

/// Whether the names that a command carries are names of the grammar.
pub fn check_names(msg: &Message) -> (r: bool)
    ensures
        r == has_valid_names(msg@),
{
    match msg {
        Message::Nick(nick) => check_nickname(nick.as_str()),
        Message::PrivMsg(Target::Channel(name), _) => check_channel_name(name.as_str()),
        Message::PrivMsg(Target::User(nick), _) => check_word(nick.as_str())
            && nick.as_str().get_char(0) != '#',
        Message::Join(name) => check_channel_name(name.as_str()),
        Message::Part(name) => check_channel_name(name.as_str()),
        _ => true,
    }
}

/// A line that decodes gives a command whose names are names of the
/// grammar.
pub proof fn lemma_decoded_names(line: Seq<char>)
    ensures
        decode(line) is Ok ==> has_valid_names(decode(line)->Ok_0),
{
    let args = tail(line);
    lemma_first_space(args);
    let target = head(args);
    if target.len() > 0 && target.contains(' ') {
        let j = choose|j: int| 0 <= j < target.len() && target[j] == ' ';
        assert(args[j] == ' ');
    }
}

/// The target that a non-empty word names.
pub fn target_from(word: String) -> (r: Target)
    ensures
        r@ == target_of(word@),
{
    if word.as_str().unicode_len() > 0 && word.as_str().get_char(0) == '#' {
        Target::Channel(word)
    } else {
        Target::User(word)
    }
}

/// Decodes one line, given without its line terminator.
pub fn parse_message(line: &str) -> (r: Result<Message, ErrorType>)
    ensures
        decoded_view(r) == decode(line@),
{
    let (keyword, args) = head_tail(line);
    if reads_as(&keyword, "NICK") {
        if check_nickname(args.as_str()) {
            Ok(Message::Nick(args))
        } else {
            Err(ErrorType::Malformed)
        }
    } else if reads_as(&keyword, "USER") {
        let (first, after_first) = head_tail(args.as_str());
        let (second, after_second) = head_tail(after_first.as_str());
        let (third, after_third) = head_tail(after_second.as_str());
        let real_name = strip_colon(after_third.as_str());
        if first.as_str().unicode_len() > 0 && second.as_str().unicode_len() > 0
            && third.as_str().unicode_len() > 0 && real_name.as_str().unicode_len() > 0 {
            Ok(Message::User(real_name))
        } else {
            Err(ErrorType::Malformed)
        }
    } else if reads_as(&keyword, "PRIVMSG") {
        let (target, rest) = head_tail(args.as_str());
        let text = strip_colon(rest.as_str());
        if target.as_str().unicode_len() > 0 && text.as_str().unicode_len() > 0 {
            Ok(Message::PrivMsg(target_from(target), text))
        } else {
            Err(ErrorType::Malformed)
        }
    } else if reads_as(&keyword, "PING") {
        let token = strip_colon(args.as_str());
        if token.as_str().unicode_len() > 0 {
            Ok(Message::Ping(token))
        } else {
            Err(ErrorType::Malformed)
        }
    } else if reads_as(&keyword, "JOIN") {
        if check_channel_name(args.as_str()) {
            Ok(Message::Join(args))
        } else {
            Err(ErrorType::Malformed)
        }
    } else if reads_as(&keyword, "PART") {
        if check_channel_name(args.as_str()) {
            Ok(Message::Part(args))
        } else {
            Err(ErrorType::Malformed)
        }
    } else if reads_as(&keyword, "QUIT") {
        let reason = strip_colon(args.as_str());
        if reason.as_str().unicode_len() > 0 {
            Ok(Message::Quit(Some(reason)))
        } else {
            Ok(Message::Quit(None))
        }
    } else {
        Err(ErrorType::Malformed)
    }
}

} // verus!
