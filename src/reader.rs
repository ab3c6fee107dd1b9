//! Lines as the editor sees them, and the one-line lookahead that tells
//! whether a line is the last of its stream.
use vstd::prelude::*;
use crate::command::{CommandLocation, location_step};

verus! {

/// One input line: its 1-based number, its text (trailing newline
/// included where the source had one), and whether it ends the stream.
#[derive(Debug)]
pub struct Line {
    pub line_number: usize,
    pub text: String,
    pub is_last_line: bool,
}

impl Line {
    pub fn new(line_number: usize, text: String, is_last_line: bool) -> (r: Line)
        ensures
            r.line_number == line_number,
            r.text@ == text@,
            r.is_last_line == is_last_line,
    {
        Line { line_number, text, is_last_line }
    }
}

/// `s` ended by a newline: unchanged where it already ends with one.
pub open spec fn with_newline(s: Seq<char>) -> Seq<char> {
    if s.len() > 0 && s.last() == '\n' {
        s
    } else {
        s.push('\n')
    }
}

/// Numbers the lines of a source from 1 and ends each with a newline.
#[derive(Debug)]
pub struct GeneralReader {
    curr_line: usize,
}

impl GeneralReader {
    pub fn new() -> (r: GeneralReader)
        ensures
            r.count() == 0,
    {
        GeneralReader { curr_line: 0 }
    }

    /// How many lines were numbered so far.
    pub closed spec fn count(&self) -> nat {
        self.curr_line as nat
    }

    /// How many lines were numbered so far.
    pub fn line_count(&self) -> (r: usize)
        ensures
            r == self.count(),
    {
        self.curr_line
    }

    /// The next line of the source, numbered and ended by a newline.
    pub fn next_line(&mut self, item: String) -> (r: (usize, String))
        requires
            old(self).count() < usize::MAX,
        ensures
            final(self).count() == old(self).count() + 1,
            r.0 == final(self).count(),
            r.1@ == with_newline(item@),
    {
        let mut line = item;
        let len = line.as_str().unicode_len();
        if len == 0 || line.as_str().get_char(len - 1) != '\n' {
            line.append("\n");
            proof {
                reveal_strlit("\n");
            }
        }
        self.curr_line = self.curr_line + 1;
        (self.curr_line, line)
    }
}

/// Numbers the lines read from standard input from 1.
#[derive(Debug)]
pub struct StdinReader {
    curr_line: usize,
}

impl StdinReader {
    pub fn new() -> (r: StdinReader)
        ensures
            r.count() == 0,
    {
        StdinReader { curr_line: 0 }
    }

    /// How many lines were read so far.
    pub closed spec fn count(&self) -> nat {
        self.curr_line as nat
    }

    /// How many lines were read so far.
    pub fn line_count(&self) -> (r: usize)
        ensures
            r == self.count(),
    {
        self.curr_line
    }

    /// Numbers what one read returned: an empty read is the end of input.
    pub fn next_line(&mut self, buffer: String) -> (r: Option<(usize, String)>)
        requires
            old(self).count() < usize::MAX,
        ensures
            buffer@.len() == 0 ==> r is None && final(self).count() == old(self).count(),
            buffer@.len() > 0 ==> final(self).count() == old(self).count() + 1 && r == Some(
                (final(self).count() as usize, buffer),
            ),
    {
        if buffer.as_str().unicode_len() == 0 {
            return None;
        }
        self.curr_line = self.curr_line + 1;
        Some((self.curr_line, buffer))
    }
}

/// The lookahead of a reader: before the first pull, or the line pulled
/// last, `None` once the source is exhausted.
#[derive(Debug)]
pub enum Buffer {
    FirstLine,
    Continue(Option<(usize, String)>),
}

impl Buffer {
    /// The line held, if any.
    pub fn get_inner(&self) -> (r: Option<&(usize, String)>)
        ensures
            match self {
                Buffer::Continue(Some(inner)) => r == Some(inner),
                _ => r is None,
            },
    {
        match self {
            Buffer::FirstLine => None,
            Buffer::Continue(Some(inner)) => Some(inner),
            Buffer::Continue(None) => None,
        }
    }

    /// The line held, if any, taken out.
    pub fn into_inner(self) -> (r: Option<(usize, String)>)
        ensures
            r == match self {
                Buffer::FirstLine => None,
                Buffer::Continue(inner) => inner,
            },
    {
        match self {
            Buffer::FirstLine => None,
            Buffer::Continue(inner) => inner,
        }
    }
}

/// A pulled item as a plain value.
pub open spec fn item_view(item: Option<(usize, String)>) -> Option<(usize, Seq<char>)> {
    match item {
        Some((n, t)) => Some((n, t@)),
        None => None,
    }
}

/// A produced line as a plain value: number, text, last-line flag.
pub open spec fn line_view(line: Option<Line>) -> Option<(usize, Seq<char>, bool)> {
    match line {
        Some(l) => Some((l.line_number, l.text@, l.is_last_line)),
        None => None,
    }
}

/// One step of the lookahead. The state is `None` before the first pull,
/// then the item held back (`None` once the source ran out). Handing it the
/// next pulled item gives the new state and the line that became complete:
/// the held item, which is last exactly when nothing came after it.
pub open spec fn feed_step(
    state: Option<Option<(usize, Seq<char>)>>,
    pulled: Option<(usize, Seq<char>)>,
) -> (Option<Option<(usize, Seq<char>)>>, Option<(usize, Seq<char>, bool)>) {
    match state {
        None => (Some(pulled), None),
        Some(None) => (Some(None), None),
        Some(Some((n, t))) => (Some(pulled), Some((n, t, pulled is None))),
    }
}

/// The state after handing every pull of `pulls` in order, from `state`,
/// and the lines produced on the way.
pub open spec fn feed_all(
    state: Option<Option<(usize, Seq<char>)>>,
    pulls: Seq<Option<(usize, Seq<char>)>>,
) -> (Option<Option<(usize, Seq<char>)>>, Seq<(usize, Seq<char>, bool)>)
    decreases pulls.len(),
{
    if pulls.len() == 0 {
        (state, Seq::empty())
    } else {
        let (s, lines) = feed_all(state, pulls.drop_last());
        let (s2, produced) = feed_step(s, pulls.last());
        match produced {
            Some(l) => (s2, lines.push(l)),
            None => (s2, lines),
        }
    }
}

/// What a finite source hands out: its items, then the end.
pub open spec fn stream_of(items: Seq<(usize, Seq<char>)>) -> Seq<Option<(usize, Seq<char>)>> {
    items.map_values(|x: (usize, Seq<char>)| Some(x)).push(None)
}

/// Turns a source of numbered lines into `Line`s that know whether they
/// are the last one, by holding one line back.
#[derive(Debug)]
pub struct Reader {
    buffer: Buffer,
}

impl Reader {
    pub fn new() -> (r: Reader)
        ensures
            r.state() is None,
    {
        Reader { buffer: Buffer::FirstLine }
    }

    /// The lookahead state (see `feed_step`).
    pub closed spec fn state(&self) -> Option<Option<(usize, Seq<char>)>> {
        match self.buffer {
            Buffer::FirstLine => None,
            Buffer::Continue(inner) => Some(item_view(inner)),
        }
    }

    /// Whether the source ran out and every line was handed out.
    pub fn is_exhausted(&self) -> (r: bool)
        ensures
            r == (self.state() == Some(None::<(usize, Seq<char>)>)),
    {
        match &self.buffer {
            Buffer::Continue(None) => true,
            _ => false,
        }
    }

    /// Takes the next item pulled from the source (`None` at its end) and
    /// hands out the line that became complete, if any.
    pub fn next(&mut self, pulled: Option<(usize, String)>) -> (r: Option<Line>)
        ensures
            (final(self).state(), line_view(r)) == feed_step(old(self).state(), item_view(pulled)),
    {
        let is_last_line = pulled.is_none();
        let mut prev = Buffer::Continue(pulled);
        std::mem::swap(&mut self.buffer, &mut prev);
        match prev {
            Buffer::FirstLine => None,
            Buffer::Continue(None) => {
                self.buffer = Buffer::Continue(None);
                None
            },
            Buffer::Continue(Some((line_number, text))) => Some(Line { line_number, text, is_last_line }),
        }
    }
}

proof fn lemma_feed_prefix(items: Seq<(usize, Seq<char>)>, k: nat)
    requires
        1 <= k <= items.len(),
    ensures
        feed_all(None, stream_of(items).take(k as int)) == (
            Some(Some(items[k - 1])),
            Seq::new((k - 1) as nat, |j: int| (items[j].0, items[j].1, false)),
        ),
    decreases k,
{
    let s = stream_of(items);
    let pulls = s.take(k as int);
    assert(pulls.drop_last() =~= s.take(k - 1));
    assert(pulls.last() == Some(items[k - 1]));
    if k > 1 {
        lemma_feed_prefix(items, (k - 1) as nat);
        assert(s.take(k - 1).len() > 0);
        assert(Seq::new((k - 2) as nat, |j: int| (items[j].0, items[j].1, false)).push(
            (items[k - 2].0, items[k - 2].1, false),
        ) =~= Seq::new((k - 1) as nat, |j: int| (items[j].0, items[j].1, false)));
    } else {
        assert(s.take(0).len() == 0);
        assert(feed_all(None, s.take(0)) == (None::<Option<(usize, Seq<char>)>>, Seq::<(usize, Seq<char>, bool)>::empty()));
        assert(Seq::new(0, |j: int| (items[j].0, items[j].1, false)) =~= Seq::<(usize, Seq<char>, bool)>::empty());
    }
    assert(pulls.len() > 0);
}

/// On a finite source, the reader hands out every item once, in order, and
/// marks as the last line exactly the final one; so a last-line location
/// matches that line and no other.
pub proof fn lemma_last_line_only_at_end(items: Seq<(usize, Seq<char>)>)
    ensures
        feed_all(None, stream_of(items)).1 == Seq::new(
            items.len(),
            |k: int| (items[k].0, items[k].1, k == items.len() - 1),
        ),
        forall|k: int| 0 <= k < items.len() ==> ((#[trigger] feed_all(None, stream_of(items)).1[k]).2 <==> k == items.len() - 1),
        forall|k: int| 0 <= k < items.len() ==> (location_step(
            CommandLocation::LastLine,
            #[trigger] feed_all(None, stream_of(items)).1[k].0,
            feed_all(None, stream_of(items)).1[k].1,
            feed_all(None, stream_of(items)).1[k].2,
        ).0 <==> k == items.len() - 1),
{
    let s = stream_of(items);
    let m = items.len();
    let expected = Seq::new(m, |k: int| (items[k].0, items[k].1, k == m - 1));
    assert(s.len() > 0);
    assert(s.drop_last() =~= s.take(m as int));
    assert(s.last() is None);
    if m == 0 {
        assert(s.take(0).len() == 0);
        assert(feed_all(None, s.take(0)) == (None::<Option<(usize, Seq<char>)>>, Seq::<(usize, Seq<char>, bool)>::empty()));
        assert(feed_all(None, s).1 =~= expected);
    } else {
        lemma_feed_prefix(items, m);
        assert(Seq::new((m - 1) as nat, |j: int| (items[j].0, items[j].1, false)).push(
            (items[m - 1].0, items[m - 1].1, true),
        ) =~= expected);
    }
    assert forall|k: int| 0 <= k < items.len() implies ((#[trigger] feed_all(None, stream_of(items)).1[k]).2 <==> k == items.len() - 1) by {
        assert(expected[k].2 == (k == m - 1));
    }
}

} // verus!
