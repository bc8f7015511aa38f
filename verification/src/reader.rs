//! What the task that reads one connection does with each thing it reads:
//! which event, if any, goes to the dispatcher, and whether to read on.

use crate::dispatch::{Event, EventView};
use crate::message::{option_view, reads_as};
use crate::plugin::{Plugin, decode_plugin, parse_plugin};
use crate::text::{matches_at, starts_with, substring, to_chars};
use vstd::prelude::*;
use vstd::string::*;

verus! {

/// What one attempt to read gave.
#[derive(Clone, Debug, PartialEq, Eq)]
pub enum Read {
    /// One line, without its line terminator.
    Line(String),
    /// The connection was lost or closed.
    Lost,
    /// Any other fault of the transport.
    Faulty,
}

/// What a `Read` holds, as sequences of characters.
pub enum ReadView {
    Line(Seq<char>),
    Lost,
    Faulty,
}

impl View for Read {
    type V = ReadView;

    open spec fn view(&self) -> ReadView {
        match self {
            Read::Line(line) => ReadView::Line(line@),
            Read::Lost => ReadView::Lost,
            Read::Faulty => ReadView::Faulty,
        }
    }
}

/// What the reader does next.
#[derive(Clone, Debug, PartialEq, Eq)]
pub struct ReaderStep {
    /// The event to hand to the dispatcher, if any.
    pub forward: Option<Event>,
    /// Whether the task ends here.
    pub done: bool,
}

/// What a `ReaderStep` holds, as sequences of characters.
pub struct ReaderStepView {
    pub forward: Option<EventView>,
    pub done: bool,
}

impl View for ReaderStep {
    type V = ReaderStepView;

    open spec fn view(&self) -> ReaderStepView {
        ReaderStepView {
            forward: match self.forward {
                Some(event) => Some(event@),
                None => None,
            },
            done: self.done,
        }
    }
}

/// The text of the extension that a line asks for: what follows the keyword
/// `PLUGIN` and one space. A line that does not begin so asks for none.
pub open spec fn plugin_text(line: Seq<char>) -> Option<Seq<char>> {
    if starts_with(line, "PLUGIN "@) {
        Some(line.skip("PLUGIN "@.len() as int))
    } else {
        None
    }
}

/// Whether a line is a quit command: `QUIT` alone or followed by a space.
pub open spec fn is_quit(line: Seq<char>) -> bool {
    line == "QUIT"@ || starts_with(line, "QUIT "@)
}

/// What the reader of the connection `id` does with one read. A quit
/// command is forwarded and ends the task. A line that asks for an extension
/// is forwarded as that extension where its text names one, and dropped
/// where it names none. Any other line is forwarded as a command. A lost
/// connection counts as a quit. Any other fault is passed over.
pub open spec fn read_step(id: Seq<char>, read: ReadView) -> ReaderStepView {
    match read {
        ReadView::Line(line) => {
            if is_quit(line) {
                ReaderStepView { forward: Some(EventView::Command(id, line)), done: true }
            } else {
                match plugin_text(line) {
                    Some(text) => match decode_plugin(text) {
                        Some(plugin) => ReaderStepView {
                            forward: Some(EventView::Plugin(id, plugin)),
                            done: false,
                        },
                        None => ReaderStepView { forward: None, done: false },
                    },
                    None => ReaderStepView {
                        forward: Some(EventView::Command(id, line)),
                        done: false,
                    },
                }
            }
        },
        ReadView::Lost => ReaderStepView {
            forward: Some(EventView::Command(id, "QUIT"@)),
            done: true,
        },
        ReadView::Faulty => ReaderStepView { forward: None, done: false },
    }
}

/// Whether `line` begins with the literal `prefix`.
pub fn begins_with(line: &str, prefix: &str) -> (r: bool)
    ensures
        r == starts_with(line@, prefix@),
{
    let chars = to_chars(line);
    let pattern = to_chars(prefix);
    matches_at(&chars, &pattern, 0)
}

/// The text of the extension that a line asks for, if it asks for one.
pub fn extension_text(line: &str) -> (r: Option<String>)
    ensures
        option_view(r) == plugin_text(line@),
{
    let chars = to_chars(line);
    let keyword = to_chars("PLUGIN ");
    if matches_at(&chars, &keyword, 0) {
        let text = substring(line, keyword.len(), chars.len());
        assert(line@.subrange(keyword.len() as int, line@.len() as int) =~= line@.skip(
            keyword.len() as int,
        ));
        Some(text)
    } else {
        None
    }
}

/// Decides what to do with one read from the connection `id`.
pub fn reader_step(id: &str, read: Read) -> (r: ReaderStep)
    ensures
        r@ == read_step(id@, read@),
{
    let id = String::from_str(id);
    match read {
        Read::Line(line) => {
            if reads_as(&line, "QUIT") || begins_with(line.as_str(), "QUIT ") {
                ReaderStep { forward: Some(Event::Command(id, line)), done: true }
            } else {
                match extension_text(line.as_str()) {
                    Some(text) => match parse_plugin(text) {
                        Some(plugin) => ReaderStep {
                            forward: Some(Event::Plugin(id, plugin)),
                            done: false,
                        },
                        None => ReaderStep { forward: None, done: false },
                    },
                    None => ReaderStep { forward: Some(Event::Command(id, line)), done: false },
                }
            }
        },
        Read::Lost => ReaderStep {
            forward: Some(Event::Command(id, String::from_str("QUIT"))),
            done: true,
        },
        Read::Faulty => ReaderStep { forward: None, done: false },
    }
}

} // verus!
