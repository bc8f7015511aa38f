//! The lines that the server writes: notifications attributed to a sender,
//! the welcome, the pong and the refusals. Each is given without its line
//! terminator.

use crate::message::{ErrorType, Target, TargetView};
use vstd::prelude::*;
use vstd::string::*;

verus! {

/// The welcome that completes a registration.
pub open spec fn welcome_text(nick: Seq<char>, real_name: Seq<char>) -> Seq<char> {
    ":iris-server 001 "@ + nick + " :Hi "@ + real_name + ", welcome to IRC"@
}

/// The name that a target is addressed by.
pub open spec fn target_text(target: TargetView) -> Seq<char> {
    match target {
        TargetView::Channel(name) => name,
        TargetView::User(nick) => nick,
    }
}

/// A private message as its receivers see it.
pub open spec fn privmsg_text(sender: Seq<char>, target: TargetView, text: Seq<char>) -> Seq<
    char,
> {
    ":"@ + sender + " PRIVMSG "@ + target_text(target) + " :"@ + text
}

/// The answer to a ping.
pub open spec fn pong_text(token: Seq<char>) -> Seq<char> {
    "PONG :"@ + token
}

/// The notice that `sender` entered `channel`.
pub open spec fn join_text(sender: Seq<char>, channel: Seq<char>) -> Seq<char> {
    ":"@ + sender + " JOIN "@ + channel
}

/// The notice that `sender` left `channel`.
pub open spec fn part_text(sender: Seq<char>, channel: Seq<char>) -> Seq<char> {
    ":"@ + sender + " PART "@ + channel
}

/// The reason that a quit notice carries: the one given, else the sender's
/// nickname.
pub open spec fn quit_reason(sender: Seq<char>, reason: Option<Seq<char>>) -> Seq<char> {
    match reason {
        Some(r) => r,
        None => sender,
    }
}

/// The notice that `sender` left the server.
pub open spec fn quit_text(sender: Seq<char>, reason: Option<Seq<char>>) -> Seq<char> {
    ":"@ + sender + " QUIT :"@ + quit_reason(sender, reason)
}

/// The line that reports a refusal.
pub open spec fn error_text(e: ErrorType) -> Seq<char> {
    match e {
        ErrorType::NickCollision => ":iris-server 436 :Nickname collision"@,
        ErrorType::NoSuchNick => ":iris-server 401 :No such nick"@,
        ErrorType::NoSuchChannel => ":iris-server 403 :No such channel"@,
        ErrorType::Malformed => ":iris-server 421 :Malformed command"@,
    }
}

/// Renders the welcome.
pub fn welcome_line(nick: &String, real_name: &String) -> (r: String)
    ensures
        r@ == welcome_text(nick@, real_name@),
{
    let mut r = String::from_str(":iris-server 001 ");
    r.append(nick.as_str());
    r.append(" :Hi ");
    r.append(real_name.as_str());
    r.append(", welcome to IRC");
    r
}

/// Renders a private message.
pub fn privmsg_line(sender: &String, target: &Target, text: &String) -> (r: String)
    ensures
        r@ == privmsg_text(sender@, target@, text@),
{
    let mut r = String::from_str(":");
    r.append(sender.as_str());
    r.append(" PRIVMSG ");
    match target {
        Target::Channel(name) => r.append(name.as_str()),
        Target::User(nick) => r.append(nick.as_str()),
    }
    r.append(" :");
    r.append(text.as_str());
    r
}

/// Renders the answer to a ping.
pub fn pong_line(token: &String) -> (r: String)
    ensures
        r@ == pong_text(token@),
{
    let mut r = String::from_str("PONG :");
    r.append(token.as_str());
    r
}

/// Renders a join notice.
pub fn join_line(sender: &String, channel: &String) -> (r: String)
    ensures
        r@ == join_text(sender@, channel@),
{
    let mut r = String::from_str(":");
    r.append(sender.as_str());
    r.append(" JOIN ");
    r.append(channel.as_str());
    r
}

/// Renders a part notice.
pub fn part_line(sender: &String, channel: &String) -> (r: String)
    ensures
        r@ == part_text(sender@, channel@),
{
    let mut r = String::from_str(":");
    r.append(sender.as_str());
    r.append(" PART ");
    r.append(channel.as_str());
    r
}

/// Renders a quit notice.
pub fn quit_line(sender: &String, reason: &Option<String>) -> (r: String)
    ensures
        r@ == quit_text(sender@, crate::message::option_view(*reason)),
{
    let mut r = String::from_str(":");
    r.append(sender.as_str());
    r.append(" QUIT :");
    match reason {
        Some(text) => r.append(text.as_str()),
        None => r.append(sender.as_str()),
    }
    r
}

/// Renders a refusal.
pub fn error_line(e: ErrorType) -> (r: String)
    ensures
        r@ == error_text(e),
{
    match e {
        ErrorType::NickCollision => String::from_str(":iris-server 436 :Nickname collision"),
        ErrorType::NoSuchNick => String::from_str(":iris-server 401 :No such nick"),
        ErrorType::NoSuchChannel => String::from_str(":iris-server 403 :No such channel"),
        ErrorType::Malformed => String::from_str(":iris-server 421 :Malformed command"),
    }
}

} // verus!
