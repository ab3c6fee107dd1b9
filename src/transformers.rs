//! The edits a command performs on a line once its location matches.
use vstd::prelude::*;
use crate::pattern::{Pattern, regex_finds, regex_replace_first, regex_replace_all};

verus! {

/// The signal a transformer raises to end the run.
#[derive(Debug, PartialEq, Eq, Structural)]
pub enum TransformerException {
    Quit,
}

/// An edit applied to the text of the current line; it may also write to a
/// side output, and it may ask the run to stop.
pub trait Transformer {
    /// The line text after the edit ran on `text`.
    spec fn transformed(&self, text: Seq<char>) -> Seq<char>;

    /// What the edit writes to the side output when run on `text`.
    spec fn emitted(&self, text: Seq<char>) -> Seq<char>;

    /// Whether the edit ends the run.
    spec fn quits(&self) -> bool;

    fn apply(&self, text: &mut String, writer: &mut String) -> (r: Result<(), TransformerException>)
        ensures
            final(text)@ == self.transformed(old(text)@),
            final(writer)@ == old(writer)@ + self.emitted(old(text)@),
            r is Err <==> self.quits(),
    ;
}

/// Empties the line.
#[derive(Debug)]
pub struct Delete;

impl Transformer for Delete {
    open spec fn transformed(&self, text: Seq<char>) -> Seq<char> {
        Seq::empty()
    }

    open spec fn emitted(&self, text: Seq<char>) -> Seq<char> {
        Seq::empty()
    }

    open spec fn quits(&self) -> bool {
        false
    }

    fn apply(&self, text: &mut String, writer: &mut String) -> (r: Result<(), TransformerException>) {
        *text = String::new();
        proof {
            assert(writer@ + Seq::<char>::empty() =~= writer@);
        }
        Ok(())
    }
}

/// Replaces the first match of `find` in the line, or every match when
/// `global` is set, by `replace`.
#[derive(Debug)]
pub struct Substitute {
    find: Pattern,
    replace: String,
    global: bool,
}

impl Substitute {
    pub fn new(find: Pattern, replace: String, global: bool) -> (r: Substitute)
        ensures
            r.find() == find@,
            r.replacement() == replace@,
            r.is_global() == global,
    {
        Substitute { find, replace, global }
    }

    /// `text` after the substitution: a text without a match stays as it is.
    pub fn substituted(&self, text: &str) -> (r: String)
        ensures
            r@ == self.transformed(text@),
            !regex_finds(self.find(), text@) ==> r@ == text@,
    {
        if self.global {
            self.find.replace_all(text, self.replace.as_str())
        } else {
            self.find.replace_first(text, self.replace.as_str())
        }
    }

    /// The source text of the pattern searched for.
    pub closed spec fn find(&self) -> Seq<char> {
        self.find@
    }

    /// The replacement template.
    pub closed spec fn replacement(&self) -> Seq<char> {
        self.replace@
    }

    /// Whether every match is replaced rather than only the first.
    pub closed spec fn is_global(&self) -> bool {
        self.global
    }
}

impl Transformer for Substitute {
    open spec fn transformed(&self, text: Seq<char>) -> Seq<char> {
        if self.is_global() {
            regex_replace_all(self.find(), text, self.replacement())
        } else {
            regex_replace_first(self.find(), text, self.replacement())
        }
    }

    open spec fn emitted(&self, text: Seq<char>) -> Seq<char> {
        Seq::empty()
    }

    open spec fn quits(&self) -> bool {
        false
    }

    fn apply(&self, text: &mut String, writer: &mut String) -> (r: Result<(), TransformerException>) {
        *text = self.substituted(text.as_str());
        proof {
            assert(writer@ + Seq::<char>::empty() =~= writer@);
        }
        Ok(())
    }
}

/// Ends the run, leaving the line as it is.
#[derive(Debug)]
pub struct Quit;

impl Transformer for Quit {
    open spec fn transformed(&self, text: Seq<char>) -> Seq<char> {
        text
    }

    open spec fn emitted(&self, text: Seq<char>) -> Seq<char> {
        Seq::empty()
    }

    open spec fn quits(&self) -> bool {
        true
    }

    fn apply(&self, text: &mut String, writer: &mut String) -> (r: Result<(), TransformerException>) {
        proof {
            assert(writer@ + Seq::<char>::empty() =~= writer@);
        }
        Err(TransformerException::Quit)
    }
}

/// Writes the line to the side output, leaving it as it is.
#[derive(Debug)]
pub struct Print;

impl Transformer for Print {
    open spec fn transformed(&self, text: Seq<char>) -> Seq<char> {
        text
    }

    open spec fn emitted(&self, text: Seq<char>) -> Seq<char> {
        text
    }

    open spec fn quits(&self) -> bool {
        false
    }

    fn apply(&self, text: &mut String, writer: &mut String) -> (r: Result<(), TransformerException>) {
        writer.append(text.as_str());
        Ok(())
    }
}

/// Deleting empties the line and writes nothing.
pub proof fn lemma_delete_empties(text: Seq<char>)
    ensures
        Delete.transformed(text) == Seq::<char>::empty(),
        Delete.emitted(text) == Seq::<char>::empty(),
        !Delete.quits(),
{
}

/// Printing keeps the line and writes exactly the line.
pub proof fn lemma_print_echoes(text: Seq<char>)
    ensures
        Print.transformed(text) == text,
        Print.emitted(text) == text,
        !Print.quits(),
{
}

/// Quitting always ends the run, keeps the line and writes nothing.
pub proof fn lemma_quit_stops(text: Seq<char>)
    ensures
        Quit.transformed(text) == text,
        Quit.emitted(text) == Seq::<char>::empty(),
        Quit.quits(),
{
}

} // verus!
