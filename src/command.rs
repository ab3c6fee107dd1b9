//! Locations, which decide on which lines a command acts, and commands,
//! which pair a location with a transformer.
use vstd::prelude::*;
use crate::pattern::{Pattern, regex_finds};
use crate::reader::Line;
use crate::transformers::{Delete, Print, Quit, Substitute, Transformer, TransformerException};

verus! {

/// Where a command applies.
#[derive(Debug)]
pub enum CommandLocation {
    /// Every line.
    Global,
    /// Lines in which the pattern matches somewhere.
    Regex(Pattern),
    /// The line with this number.
    LineNumber(usize),
    /// The last line of the stream.
    LastLine,
    /// From a line where `start` matches to the next line where `end`
    /// matches, both included.
    Range(CommandLocationRange),
}

/// The state of a range location: its two ends, and whether it is open.
#[derive(Debug)]
pub struct CommandLocationRange {
    pub is_active: bool,
    pub start: Box<CommandLocation>,
    pub end: Box<CommandLocation>,
}

impl CommandLocationRange {
    /// A closed range from `start` to `end`.
    pub fn new(start: CommandLocation, end: CommandLocation) -> (r: CommandLocationRange)
        ensures
            !r.is_active,
            *r.start == start,
            *r.end == end,
    {
        CommandLocationRange { is_active: false, start: Box::new(start), end: Box::new(end) }
    }
}

/// What `loc` answers for the line numbered `n` with text `text` that is the
/// last line exactly when `last`, and the location's state afterwards.
pub open spec fn location_step(loc: CommandLocation, n: usize, text: Seq<char>, last: bool) -> (bool, CommandLocation)
    decreases loc,
{
    match loc {
        CommandLocation::Global => (true, loc),
        CommandLocation::Regex(p) => (regex_finds(p@, text), loc),
        CommandLocation::LineNumber(k) => (n == k, loc),
        CommandLocation::LastLine => (last, loc),
        CommandLocation::Range(r) => {
            if r.is_active {
                let (closes, end) = location_step(*r.end, n, text, last);
                (true, CommandLocation::Range(CommandLocationRange { is_active: !closes, start: r.start, end: Box::new(end) }))
            } else {
                let (opens, start) = location_step(*r.start, n, text, last);
                (opens, CommandLocation::Range(CommandLocationRange { is_active: opens, start: Box::new(start), end: r.end }))
            }
        },
    }
}

impl CommandLocation {
    /// Whether the location covers `line`; a range updates its state.
    pub fn matches(&mut self, line: &Line) -> (r: bool)
        ensures
            (r, *final(self)) == location_step(*old(self), line.line_number, line.text@, line.is_last_line),
        decreases *old(self),
    {
        match self {
            CommandLocation::Global => true,
            CommandLocation::Regex(p) => p.is_match(line.text.as_str()),
            CommandLocation::LineNumber(k) => line.line_number == *k,
            CommandLocation::LastLine => line.is_last_line,
            CommandLocation::Range(range) => {
                if range.is_active {
                    if range.end.matches(line) {
                        range.is_active = false;
                    }
                    true
                } else if range.start.matches(line) {
                    range.is_active = true;
                    true
                } else {
                    false
                }
            },
        }
    }
}

/// The transformer a command runs, one variant per kind of edit.
#[derive(Debug)]
pub enum TransformerKind {
    Delete(Delete),
    Print(Print),
    Substitute(Substitute),
    Quit(Quit),
}

impl Transformer for TransformerKind {
    open spec fn transformed(&self, text: Seq<char>) -> Seq<char> {
        match self {
            TransformerKind::Delete(t) => t.transformed(text),
            TransformerKind::Print(t) => t.transformed(text),
            TransformerKind::Substitute(t) => t.transformed(text),
            TransformerKind::Quit(t) => t.transformed(text),
        }
    }

    open spec fn emitted(&self, text: Seq<char>) -> Seq<char> {
        match self {
            TransformerKind::Delete(t) => t.emitted(text),
            TransformerKind::Print(t) => t.emitted(text),
            TransformerKind::Substitute(t) => t.emitted(text),
            TransformerKind::Quit(t) => t.emitted(text),
        }
    }

    open spec fn quits(&self) -> bool {
        match self {
            TransformerKind::Delete(t) => t.quits(),
            TransformerKind::Print(t) => t.quits(),
            TransformerKind::Substitute(t) => t.quits(),
            TransformerKind::Quit(t) => t.quits(),
        }
    }

    fn apply(&self, text: &mut String, writer: &mut String) -> (r: Result<(), TransformerException>) {
        match self {
            TransformerKind::Delete(t) => t.apply(text, writer),
            TransformerKind::Print(t) => t.apply(text, writer),
            TransformerKind::Substitute(t) => t.apply(text, writer),
            TransformerKind::Quit(t) => t.apply(text, writer),
        }
    }
}

/// A location and the transformer that runs on the lines it covers.
#[derive(Debug)]
pub struct Command {
    pub location: CommandLocation,
    pub transformer: TransformerKind,
}

impl Command {
    pub fn new(location: CommandLocation, transformer: TransformerKind) -> (r: Command)
        ensures
            r.location == location,
            r.transformer == transformer,
    {
        Command { location, transformer }
    }

    /// Whether the command acts on `line`; a range location updates its state.
    pub fn to_be_applied(&mut self, line: &Line) -> (r: bool)
        ensures
            (r, final(self).location) == location_step(old(self).location, line.line_number, line.text@, line.is_last_line),
            final(self).transformer == old(self).transformer,
    {
        self.location.matches(line)
    }

    /// Runs the command's transformer on `text`.
    pub fn apply(&self, text: &mut String, writer: &mut String) -> (r: Result<(), TransformerException>)
        ensures
            final(text)@ == self.transformer.transformed(old(text)@),
            final(writer)@ == old(writer)@ + self.transformer.emitted(old(text)@),
            r is Err <==> self.transformer.quits(),
    {
        self.transformer.apply(text, writer)
    }
}

/// On a stream whose line numbers strictly increase, a line-number location
/// matches at most one line: the one that carries its number.
pub proof fn lemma_line_number_matches_once(k: usize, lines: Seq<(usize, Seq<char>, bool)>)
    requires
        forall|i: int, j: int| 0 <= i < j < lines.len() ==> lines[i].0 < lines[j].0,
    ensures
        forall|i: int| 0 <= i < lines.len() ==> (#[trigger] location_step(CommandLocation::LineNumber(k), lines[i].0, lines[i].1, lines[i].2).0 <==> lines[i].0 == k),
        forall|i: int, j: int|
            0 <= i < lines.len() && 0 <= j < lines.len()
                && #[trigger] location_step(CommandLocation::LineNumber(k), lines[i].0, lines[i].1, lines[i].2).0
                && #[trigger] location_step(CommandLocation::LineNumber(k), lines[j].0, lines[j].1, lines[j].2).0
            ==> i == j,
{
    assert forall|i: int, j: int|
        0 <= i < lines.len() && 0 <= j < lines.len()
            && #[trigger] location_step(CommandLocation::LineNumber(k), lines[i].0, lines[i].1, lines[i].2).0
            && #[trigger] location_step(CommandLocation::LineNumber(k), lines[j].0, lines[j].1, lines[j].2).0
        implies i == j by {
        if i < j {
            assert(lines[i].0 < lines[j].0);
        } else if j < i {
            assert(lines[j].0 < lines[i].0);
        }
    }
}

} // verus!
