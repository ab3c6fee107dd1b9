//! The execution loop: every command of the script, in order, on every line.
use vstd::prelude::*;
use crate::command::{Command, location_step};
use crate::reader::{GeneralReader, Line, with_newline};
use crate::transformers::{Transformer, TransformerException};

verus! {

/// The line text, the side output so far and whether a quit was raised,
/// after the first `i` commands of `cmds` ran on the line numbered `n` with
/// text `text`, which is the last line exactly when `last`.
pub open spec fn after_commands(cmds: Seq<Command>, i: nat, n: usize, text: Seq<char>, last: bool) -> (Seq<char>, Seq<char>, bool)
    decreases i,
{
    if i == 0 {
        (text, Seq::empty(), false)
    } else {
        let (t, e, q) = after_commands(cmds, (i - 1) as nat, n, text, last);
        let c = cmds[i - 1];
        if q || !location_step(c.location, n, t, last).0 {
            (t, e, q)
        } else {
            (c.transformer.transformed(t), e + c.transformer.emitted(t), c.transformer.quits())
        }
    }
}

/// Command `c` after it was evaluated on a line with text `text`: its
/// location has moved on, its transformer is unchanged.
pub open spec fn command_after(c: Command, n: usize, text: Seq<char>, last: bool) -> Command {
    Command { location: location_step(c.location, n, text, last).1, transformer: c.transformer }
}

/// Command `j` of `cmds` once the whole script ran on a line: commands after
/// a quit are not evaluated.
pub open spec fn command_after_line(cmds: Seq<Command>, j: int, n: usize, text: Seq<char>, last: bool) -> Command {
    let (t, e, q) = after_commands(cmds, j as nat, n, text, last);
    if q {
        cmds[j]
    } else {
        command_after(cmds[j], n, t, last)
    }
}

proof fn lemma_quit_is_final(cmds: Seq<Command>, i: nat, j: nat, n: usize, text: Seq<char>, last: bool)
    requires
        i <= j,
        after_commands(cmds, i, n, text, last).2,
    ensures
        after_commands(cmds, j, n, text, last) == after_commands(cmds, i, n, text, last),
    decreases j - i,
{
    if i < j {
        lemma_quit_is_final(cmds, i, (j - 1) as nat, n, text, last);
    }
}

/// Runs every command on `line` in order. A command whose location covers the
/// line runs its transformer; a quit stops the evaluation at once and is
/// handed back.
pub fn apply_commands(line: &mut Line, commands: &mut Vec<Command>, writer: &mut String) -> (r: Result<(), TransformerException>)
    ensures
        ({
            let (t, e, q) = after_commands(old(commands)@, old(commands)@.len(), old(line).line_number, old(line).text@, old(line).is_last_line);
            &&& final(line).text@ == t
            &&& final(writer)@ == old(writer)@ + e
            &&& (r is Err <==> q)
        }),
        final(line).line_number == old(line).line_number,
        final(line).is_last_line == old(line).is_last_line,
        final(commands)@.len() == old(commands)@.len(),
        forall|j: int| 0 <= j < old(commands)@.len() ==> #[trigger] final(commands)@[j] == command_after_line(
            old(commands)@, j, old(line).line_number, old(line).text@, old(line).is_last_line),
{
    let ghost cmds0 = commands@;
    let ghost text0 = line.text@;
    let ghost out0 = writer@;
    let ghost n = line.line_number;
    let ghost last = line.is_last_line;
    let len = commands.len();
    let mut i: usize = 0;
    let mut result: Result<(), TransformerException> = Ok(());
    while i < len
        invariant
            i <= len == commands@.len() == cmds0.len(),
            line.line_number == n,
            line.is_last_line == last,
            ({
                let (t, e, q) = after_commands(cmds0, i as nat, n, text0, last);
                &&& line.text@ == t
                &&& writer@ == out0 + e
                &&& (result is Err <==> q)
                &&& (q ==> i == len)
            }),
            forall|j: int| 0 <= j < i ==> #[trigger] commands@[j] == command_after_line(cmds0, j, n, text0, last),
            forall|j: int| i <= j < len ==> #[trigger] commands@[j] == cmds0[j],
        decreases len - i,
    {
        let applies = commands[i].to_be_applied(line);
        i = i + 1;
        if applies {
            result = commands[i - 1].apply(&mut line.text, writer);
            proof {
                assert(writer@ =~= out0 + after_commands(cmds0, i as nat, n, text0, last).1);
            }
            if result.is_err() {
                proof {
                    lemma_quit_is_final(cmds0, i as nat, len as nat, n, text0, last);
                    assert forall|j: int| i <= j < len implies #[trigger] commands@[j] == command_after_line(cmds0, j, n, text0, last) by {
                        lemma_quit_is_final(cmds0, i as nat, j as nat, n, text0, last);
                    }
                }
                i = len;
            }
        }
    }
    result
}

/// The compiled script and the output mode of a run.
#[derive(Debug)]
pub struct Settings {
    pub commands: Vec<Command>,
    pub quiet: bool,
}

/// What one line adds to the output, and whether the run goes on after it:
/// the side output of the commands, then the surviving text unless the run
/// is quiet or a quit was raised.
pub open spec fn line_output(cmds: Seq<Command>, n: usize, text: Seq<char>, last: bool, quiet: bool) -> (Seq<char>, bool) {
    let (t, e, q) = after_commands(cmds, cmds.len(), n, text, last);
    (if q || quiet { e } else { e + t }, !q)
}

/// The script once it ran on a line (the locations' state moved on).
pub open spec fn commands_after_line(cmds: Seq<Command>, n: usize, text: Seq<char>, last: bool) -> Seq<Command> {
    Seq::new(cmds.len(), |j: int| command_after_line(cmds, j, n, text, last))
}

impl Settings {
    pub fn new(commands: Vec<Command>, quiet: bool) -> (r: Settings)
        ensures
            r.commands == commands,
            r.quiet == quiet,
    {
        Settings { commands, quiet }
    }

    /// Runs the script on `line` and writes what the line yields; false when
    /// a quit ended the run.
    pub fn process_line(&mut self, line: Line, writer: &mut String) -> (r: bool)
        ensures
            ({
                let (o, go_on) = line_output(old(self).commands@, line.line_number, line.text@, line.is_last_line, old(self).quiet);
                &&& final(writer)@ == old(writer)@ + o
                &&& r == go_on
            }),
            final(self).commands@ == commands_after_line(old(self).commands@, line.line_number, line.text@, line.is_last_line),
            final(self).quiet == old(self).quiet,
    {
        let ghost text0 = line.text@;
        let mut line = line;
        let ghost out0 = writer@;
        let res = apply_commands(&mut line, &mut self.commands, writer);
        proof {
            assert(self.commands@ =~= commands_after_line(old(self).commands@, line.line_number, text0, line.is_last_line));
        }
        if res.is_err() {
            false
        } else {
            if !self.quiet {
                writer.append(line.text.as_str());
                proof {
                    assert(writer@ =~= out0 + (writer@.subrange(out0.len() as int, writer@.len() as int)));
                }
            }
            true
        }
    }
}

/// Line `k` of a source held as the texts of its lines: numbered from 1,
/// ended by a newline, and last when no line follows.
pub open spec fn source_line(src: Seq<Seq<char>>, k: int) -> (usize, Seq<char>, bool) {
    ((k + 1) as usize, with_newline(src[k]), k == src.len() - 1)
}

/// The script, the output and whether a quit was raised, once the first `k`
/// lines of `src` went through a run that starts with script `cmds`.
pub open spec fn after_lines(cmds: Seq<Command>, src: Seq<Seq<char>>, k: nat, quiet: bool) -> (Seq<Command>, Seq<char>, bool)
    decreases k,
{
    if k == 0 {
        (cmds, Seq::empty(), false)
    } else {
        let (c, o, stopped) = after_lines(cmds, src, (k - 1) as nat, quiet);
        if stopped {
            (c, o, stopped)
        } else {
            let (n, t, last) = source_line(src, k - 1);
            let (out, go_on) = line_output(c, n, t, last, quiet);
            (commands_after_line(c, n, t, last), o + out, !go_on)
        }
    }
}

/// Runs the script over every line of `source`, in order, writing what each
/// line yields, and stops after a quit.
pub fn run(source: Vec<String>, settings: &mut Settings, writer: &mut String)
    requires
        source@.len() < usize::MAX,
    ensures
        ({
            let src = source@.map_values(|s: String| s@);
            let (c, o, stopped) = after_lines(old(settings).commands@, src, src.len(), old(settings).quiet);
            &&& final(writer)@ == old(writer)@ + o
            &&& final(settings).commands@ == c
        }),
        final(settings).quiet == old(settings).quiet,
{
    let ghost src = source@.map_values(|s: String| s@);
    let ghost cmds0 = settings.commands@;
    let ghost out0 = writer@;
    let ghost quiet = settings.quiet;
    let mut numbering = GeneralReader::new();
    let len = source.len();
    let mut i: usize = 0;
    let mut go_on = true;
    while i < len && go_on
        invariant
            len == source@.len() == src.len(),
            len < usize::MAX,
            i <= len,
            numbering.count() == i,
            settings.quiet == quiet,
            forall|j: int| 0 <= j < len ==> #[trigger] src[j] == source@[j]@,
            ({
                let (c, o, stopped) = after_lines(cmds0, src, i as nat, quiet);
                &&& writer@ == out0 + o
                &&& settings.commands@ == c
                &&& go_on == !stopped
            }),
        decreases len - i + (if go_on { 1int } else { 0int }),
    {
        let (n, text) = numbering.next_line(source[i].clone());
        let line = Line::new(n, text, i + 1 == len);
        go_on = settings.process_line(line, writer);
        proof {
            assert(writer@ =~= out0 + after_lines(cmds0, src, (i + 1) as nat, quiet).1);
        }
        i = i + 1;
    }
    proof {
        if !go_on {
            lemma_stop_is_final(cmds0, src, i as nat, len as nat, quiet);
        }
    }
}

/// Once a quit ended the run, later lines change neither the output nor the
/// state of the script.
pub proof fn lemma_stop_is_final(cmds: Seq<Command>, src: Seq<Seq<char>>, i: nat, j: nat, quiet: bool)
    requires
        i <= j,
        after_lines(cmds, src, i, quiet).2,
    ensures
        after_lines(cmds, src, j, quiet) == after_lines(cmds, src, i, quiet),
    decreases j - i,
{
    if i < j {
        lemma_stop_is_final(cmds, src, i, (j - 1) as nat, quiet);
    }
}

} // verus!
