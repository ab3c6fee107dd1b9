//! The script language: its grammar as spec functions over the characters
//! of the script, and the compiler that turns a script into commands.
//!
//! ```text
//! script     := command (sep command)*
//! command    := location? letter
//! location   := single_loc (',' single_loc)?
//! single_loc := '$' | digits | '/' regex '/'
//! letter     := 'q' | 'p' | 'd' | 's' '/' find '/' replace '/' 'g'?
//! sep        := whitespace* ';'? whitespace*
//! ```
use vstd::prelude::*;
use crate::command::{Command, CommandLocation, CommandLocationRange, TransformerKind};
use crate::pattern::{Pattern, regex_compiles};
use crate::transformers::{Delete, Print, Quit, Substitute};

verus! {

/// Why a script was refused.
#[derive(Debug, PartialEq, Eq, Structural)]
pub enum ParseError {
    /// No command letter where one is due, or one that is not `q`, `p`, `d`, `s`.
    UnknownCommand,
    /// A location that is cut short: `/` without its closing `/`, a `,`
    /// without a second location, or a line number too large.
    MalformedLocation,
    /// An `s` not followed by `/find/replace/`.
    MalformedSubstitute,
    /// A regular expression that does not compile.
    InvalidRegex,
}

/// A location as plain values.
pub enum LocationShape {
    Global,
    Regex(Seq<char>),
    LineNumber(nat),
    LastLine,
    Range(bool, Box<LocationShape>, Box<LocationShape>),
}

/// A transformer as plain values; a substitution keeps its pattern, its
/// replacement and whether it is global.
pub enum TransformerShape {
    Delete,
    Print,
    Substitute(Seq<char>, Seq<char>, bool),
    Quit,
}

pub open spec fn location_shape(loc: CommandLocation) -> LocationShape
    decreases loc,
{
    match loc {
        CommandLocation::Global => LocationShape::Global,
        CommandLocation::Regex(p) => LocationShape::Regex(p@),
        CommandLocation::LineNumber(n) => LocationShape::LineNumber(n as nat),
        CommandLocation::LastLine => LocationShape::LastLine,
        CommandLocation::Range(r) => LocationShape::Range(
            r.is_active,
            Box::new(location_shape(*r.start)),
            Box::new(location_shape(*r.end)),
        ),
    }
}

pub open spec fn transformer_shape(t: TransformerKind) -> TransformerShape {
    match t {
        TransformerKind::Delete(_) => TransformerShape::Delete,
        TransformerKind::Print(_) => TransformerShape::Print,
        TransformerKind::Substitute(s) => TransformerShape::Substitute(s.find(), s.replacement(), s.is_global()),
        TransformerKind::Quit(_) => TransformerShape::Quit,
    }
}

pub open spec fn command_shape(c: Command) -> (LocationShape, TransformerShape) {
    (location_shape(c.location), transformer_shape(c.transformer))
}

pub open spec fn is_digit(c: char) -> bool {
    '0' <= c <= '9'
}

pub open spec fn digit_value(c: char) -> nat {
    (c as u32 - '0' as u32) as nat
}

/// The characters with the Unicode White_Space property.
pub open spec fn is_space(c: char) -> bool {
    ('\u{9}' <= c <= '\u{d}') || c == ' ' || c == '\u{85}' || c == '\u{a0}' || c == '\u{1680}'
        || ('\u{2000}' <= c <= '\u{200a}') || c == '\u{2028}' || c == '\u{2029}' || c == '\u{202f}'
        || c == '\u{205f}' || c == '\u{3000}'
}

/// The first position from `i` on that does not hold a digit.
pub open spec fn digits_end(s: Seq<char>, i: int) -> int
    decreases s.len() - i,
{
    if 0 <= i < s.len() && is_digit(s[i]) {
        digits_end(s, i + 1)
    } else {
        i
    }
}

/// The number written by the digits `s[i..j]`.
pub open spec fn digits_value(s: Seq<char>, i: int, j: int) -> nat
    decreases j - i,
{
    if j <= i {
        0
    } else {
        digits_value(s, i, j - 1) * 10 + digit_value(s[j - 1])
    }
}

/// The first position from `i` on that holds a `/`, or the end.
pub open spec fn slash_from(s: Seq<char>, i: int) -> int
    decreases s.len() - i,
{
    if 0 <= i < s.len() && s[i] != '/' {
        slash_from(s, i + 1)
    } else {
        i
    }
}

/// The first position from `i` on that holds no whitespace.
pub open spec fn space_end(s: Seq<char>, i: int) -> int
    decreases s.len() - i,
{
    if 0 <= i < s.len() && is_space(s[i]) {
        space_end(s, i + 1)
    } else {
        i
    }
}

/// Where the next command starts after the separator that follows `i`.
pub open spec fn separator_end(s: Seq<char>, i: int) -> int {
    let a = space_end(s, i);
    space_end(s, if a < s.len() && s[a] == ';' { a + 1 } else { a })
}

proof fn lemma_digits_end(s: Seq<char>, i: int)
    requires
        0 <= i <= s.len(),
    ensures
        i <= digits_end(s, i) <= s.len(),
        forall|k: int| i <= k < digits_end(s, i) ==> is_digit(#[trigger] s[k]),
    decreases s.len() - i,
{
    if i < s.len() && is_digit(s[i]) {
        lemma_digits_end(s, i + 1);
    }
}

proof fn lemma_slash_from(s: Seq<char>, i: int)
    requires
        0 <= i <= s.len(),
    ensures
        i <= slash_from(s, i) <= s.len(),
        slash_from(s, i) < s.len() ==> s[slash_from(s, i)] == '/',
    decreases s.len() - i,
{
    if i < s.len() && s[i] != '/' {
        lemma_slash_from(s, i + 1);
    }
}

proof fn lemma_space_end(s: Seq<char>, i: int)
    requires
        0 <= i <= s.len(),
    ensures
        i <= space_end(s, i) <= s.len(),
    decreases s.len() - i,
{
    if i < s.len() && is_space(s[i]) {
        lemma_space_end(s, i + 1);
    }
}

pub proof fn lemma_separator_end(s: Seq<char>, i: int)
    requires
        0 <= i <= s.len(),
    ensures
        i <= separator_end(s, i) <= s.len(),
{
    lemma_space_end(s, i);
    let a = space_end(s, i);
    lemma_space_end(s, if a < s.len() && s[a] == ';' { a + 1 } else { a });
}

/// The single location that starts at `i`, with the position after it;
/// `None` where none starts there.
pub open spec fn single_location_at(s: Seq<char>, i: int) -> Result<Option<(LocationShape, int)>, ParseError> {
    if i < 0 || i >= s.len() {
        Ok(None)
    } else if s[i] == '$' {
        Ok(Some((LocationShape::LastLine, i + 1)))
    } else if s[i] == '/' {
        let j = slash_from(s, i + 1);
        if j >= s.len() {
            Err(ParseError::MalformedLocation)
        } else if !regex_compiles(s.subrange(i + 1, j)) {
            Err(ParseError::InvalidRegex)
        } else {
            Ok(Some((LocationShape::Regex(s.subrange(i + 1, j)), j + 1)))
        }
    } else if is_digit(s[i]) {
        let j = digits_end(s, i);
        if digits_value(s, i, j) > usize::MAX {
            Err(ParseError::MalformedLocation)
        } else {
            Ok(Some((LocationShape::LineNumber(digits_value(s, i, j)), j)))
        }
    } else {
        Ok(None)
    }
}

/// The location that starts at `i` (every line where none is written),
/// with the position after it. Two single locations joined by `,` make a
/// range, closed at first.
pub open spec fn location_at(s: Seq<char>, i: int) -> Result<(LocationShape, int), ParseError> {
    match single_location_at(s, i) {
        Err(e) => Err(e),
        Ok(None) => Ok((LocationShape::Global, i)),
        Ok(Some((start, j))) => {
            if j < s.len() && s[j] == ',' {
                match single_location_at(s, j + 1) {
                    Err(e) => Err(e),
                    Ok(None) => Err(ParseError::MalformedLocation),
                    Ok(Some((end, k))) => Ok((LocationShape::Range(false, Box::new(start), Box::new(end)), k)),
                }
            } else {
                Ok((start, j))
            }
        },
    }
}

/// The `/find/replace/` group, and an optional `g`, that follows an `s`
/// ending at `i`.
pub open spec fn substitute_at(s: Seq<char>, i: int) -> Result<(TransformerShape, int), ParseError> {
    let f = slash_from(s, i + 1);
    let r = slash_from(s, f + 1);
    if i >= s.len() || s[i] != '/' || f >= s.len() || r >= s.len() {
        Err(ParseError::MalformedSubstitute)
    } else if !regex_compiles(s.subrange(i + 1, f)) {
        Err(ParseError::InvalidRegex)
    } else {
        let global = r + 1 < s.len() && s[r + 1] == 'g';
        Ok((
            TransformerShape::Substitute(s.subrange(i + 1, f), s.subrange(f + 1, r), global),
            if global { r + 2 } else { r + 1 },
        ))
    }
}

/// The command that starts at `i`, with the position after it.
pub open spec fn command_at(s: Seq<char>, i: int) -> Result<((LocationShape, TransformerShape), int), ParseError> {
    match location_at(s, i) {
        Err(e) => Err(e),
        Ok((loc, j)) => {
            if j >= s.len() {
                Err(ParseError::UnknownCommand)
            } else if s[j] == 'q' {
                Ok(((loc, TransformerShape::Quit), j + 1))
            } else if s[j] == 'p' {
                Ok(((loc, TransformerShape::Print), j + 1))
            } else if s[j] == 'd' {
                Ok(((loc, TransformerShape::Delete), j + 1))
            } else if s[j] == 's' {
                match substitute_at(s, j + 1) {
                    Err(e) => Err(e),
                    Ok((t, k)) => Ok(((loc, t), k)),
                }
            } else {
                Err(ParseError::UnknownCommand)
            }
        },
    }
}

proof fn lemma_single_location_at(s: Seq<char>, i: int)
    requires
        0 <= i <= s.len(),
    ensures
        single_location_at(s, i) matches Ok(Some((_, j))) ==> i < j <= s.len(),
{
    if i < s.len() {
        if s[i] == '/' {
            lemma_slash_from(s, i + 1);
        } else if is_digit(s[i]) {
            lemma_digits_end(s, i + 1);
        }
    }
}

pub proof fn lemma_command_at(s: Seq<char>, i: int)
    requires
        0 <= i <= s.len(),
    ensures
        command_at(s, i) matches Ok((_, j)) ==> i < j <= s.len(),
{
    lemma_single_location_at(s, i);
    if let Ok(Some((_, j))) = single_location_at(s, i) {
        if j < s.len() && s[j] == ',' {
            lemma_single_location_at(s, j + 1);
        }
    }
    if let Ok((_, j)) = location_at(s, i) {
        if j + 1 < s.len() && s[j] == 's' {
            lemma_slash_from(s, j + 2);
            let f = slash_from(s, j + 2);
            if f < s.len() {
                lemma_slash_from(s, f + 1);
            }
        }
    }
}

/// The commands of the script from position `i` on, or the first error.
pub open spec fn script_from(s: Seq<char>, i: int) -> Result<Seq<(LocationShape, TransformerShape)>, ParseError>
    decreases s.len() - i,
{
    if i < 0 || i >= s.len() {
        Ok(Seq::empty())
    } else {
        match command_at(s, i) {
            Err(e) => Err(e),
            Ok((c, j)) => {
                proof {
                    lemma_command_at(s, i);
                    lemma_separator_end(s, j);
                }
                match script_from(s, separator_end(s, j)) {
                    Err(e) => Err(e),
                    Ok(rest) => Ok(seq![c] + rest),
                }
            },
        }
    }
}

/// The commands of the whole script `s`, or the first error in it.
pub open spec fn script(s: Seq<char>) -> Result<Seq<(LocationShape, TransformerShape)>, ParseError> {
    script_from(s, 0)
}

fn is_ascii_digit(c: char) -> (r: bool)
    ensures
        r == is_digit(c),
{
    '0' <= c && c <= '9'
}

fn is_whitespace(c: char) -> (r: bool)
    ensures
        r == is_space(c),
{
    ('\u{9}' <= c && c <= '\u{d}') || c == ' ' || c == '\u{85}' || c == '\u{a0}' || c == '\u{1680}'
        || ('\u{2000}' <= c && c <= '\u{200a}') || c == '\u{2028}' || c == '\u{2029}' || c == '\u{202f}'
        || c == '\u{205f}' || c == '\u{3000}'
}

fn find_slash(s: &str, n: usize, from: usize) -> (j: usize)
    requires
        n == s@.len(),
        from <= n,
    ensures
        j == slash_from(s@, from as int),
{
    let mut j = from;
    while j < n && s.get_char(j) != '/'
        invariant
            n == s@.len(),
            from <= j <= n,
            slash_from(s@, from as int) == slash_from(s@, j as int),
        decreases n - j,
    {
        j = j + 1;
    }
    j
}

fn skip_whitespace(s: &str, n: usize, from: usize) -> (j: usize)
    requires
        n == s@.len(),
        from <= n,
    ensures
        j == space_end(s@, from as int),
{
    let mut j = from;
    while j < n && is_whitespace(s.get_char(j))
        invariant
            n == s@.len(),
            from <= j <= n,
            space_end(s@, from as int) == space_end(s@, j as int),
        decreases n - j,
    {
        j = j + 1;
    }
    j
}

fn skip_separator(s: &str, n: usize, from: usize) -> (j: usize)
    requires
        n == s@.len(),
        from <= n,
    ensures
        j == separator_end(s@, from as int),
{
    proof {
        lemma_space_end(s@, from as int);
    }
    let a = skip_whitespace(s, n, from);
    if a < n && s.get_char(a) == ';' {
        skip_whitespace(s, n, a + 1)
    } else {
        skip_whitespace(s, n, a)
    }
}

fn parse_line_number(s: &str, n: usize, i: usize) -> (r: (Option<usize>, usize))
    requires
        n == s@.len(),
        i <= n,
    ensures
        r.1 == digits_end(s@, i as int),
        r.0 matches Some(v) ==> v == digits_value(s@, i as int, r.1 as int),
        r.0 is None ==> digits_value(s@, i as int, r.1 as int) > usize::MAX,
{
    let mut k = i;
    let mut value: usize = 0;
    let mut overflow = false;
    while k < n && is_ascii_digit(s.get_char(k))
        invariant
            n == s@.len(),
            i <= k <= n,
            digits_end(s@, i as int) == digits_end(s@, k as int),
            !overflow ==> value == digits_value(s@, i as int, k as int),
            overflow ==> digits_value(s@, i as int, k as int) > usize::MAX,
        decreases n - k,
    {
        let c = s.get_char(k);
        let d = (c as u32 - '0' as u32) as usize;
        assert(d == digit_value(s@[k as int]));
        let ghost before = digits_value(s@, i as int, k as int);
        if !overflow {
            match value.checked_mul(10) {
                Some(v) => match v.checked_add(d) {
                    Some(w) => {
                        value = w;
                    },
                    None => {
                        overflow = true;
                    },
                },
                None => {
                    overflow = true;
                    assert(before * 10 + d > usize::MAX) by (nonlinear_arith)
                        requires
                            before * 10 > usize::MAX,
                            d >= 0;
                },
            }
        } else {
            assert(before * 10 + d > usize::MAX) by (nonlinear_arith)
                requires
                    before > usize::MAX,
                    d >= 0;
        }
        k = k + 1;
    }
    if overflow {
        (None, k)
    } else {
        (Some(value), k)
    }
}

fn parse_single_location(s: &str, n: usize, i: usize) -> (r: Result<Option<(CommandLocation, usize)>, ParseError>)
    requires
        n == s@.len(),
        i <= n,
    ensures
        match r {
            Ok(Some((loc, j))) => single_location_at(s@, i as int) == Ok::<_, ParseError>(
                Some((location_shape(loc), j as int)),
            ),
            Ok(None) => single_location_at(s@, i as int) == Ok::<Option<(LocationShape, int)>, ParseError>(None),
            Err(e) => single_location_at(s@, i as int) == Err::<Option<(LocationShape, int)>, ParseError>(e),
        },
{
    if i == n {
        return Ok(None);
    }
    let c = s.get_char(i);
    if c == '$' {
        Ok(Some((CommandLocation::LastLine, i + 1)))
    } else if c == '/' {
        let j = find_slash(s, n, i + 1);
        if j >= n {
            return Err(ParseError::MalformedLocation);
        }
        proof {
            lemma_slash_from(s@, i + 1);
        }
        match Pattern::new(s.substring_char(i + 1, j)) {
            Some(p) => Ok(Some((CommandLocation::Regex(p), j + 1))),
            None => Err(ParseError::InvalidRegex),
        }
    } else if is_ascii_digit(c) {
        let (value, j) = parse_line_number(s, n, i);
        match value {
            Some(v) => Ok(Some((CommandLocation::LineNumber(v), j))),
            None => Err(ParseError::MalformedLocation),
        }
    } else {
        Ok(None)
    }
}

fn parse_location(s: &str, n: usize, i: usize) -> (r: Result<(CommandLocation, usize), ParseError>)
    requires
        n == s@.len(),
        i <= n,
    ensures
        match r {
            Ok((loc, j)) => location_at(s@, i as int) == Ok::<_, ParseError>((location_shape(loc), j as int)),
            Err(e) => location_at(s@, i as int) == Err::<(LocationShape, int), ParseError>(e),
        },
{
    proof {
        lemma_single_location_at(s@, i as int);
    }
    match parse_single_location(s, n, i) {
        Err(e) => Err(e),
        Ok(None) => Ok((CommandLocation::Global, i)),
        Ok(Some((start, j))) => {
            if j < n && s.get_char(j) == ',' {
                match parse_single_location(s, n, j + 1) {
                    Err(e) => Err(e),
                    Ok(None) => Err(ParseError::MalformedLocation),
                    Ok(Some((end, k))) => {
                        let range = CommandLocationRange::new(start, end);
                        Ok((CommandLocation::Range(range), k))
                    },
                }
            } else {
                Ok((start, j))
            }
        },
    }
}

fn parse_substitute(s: &str, n: usize, i: usize) -> (r: Result<(Substitute, usize), ParseError>)
    requires
        n == s@.len(),
        i <= n,
    ensures
        match r {
            Ok((t, j)) => substitute_at(s@, i as int) == Ok::<_, ParseError>(
                (TransformerShape::Substitute(t.find(), t.replacement(), t.is_global()), j as int),
            ),
            Err(e) => substitute_at(s@, i as int) == Err::<(TransformerShape, int), ParseError>(e),
        },
{
    if i >= n || s.get_char(i) != '/' {
        return Err(ParseError::MalformedSubstitute);
    }
    let f = find_slash(s, n, i + 1);
    proof {
        lemma_slash_from(s@, i + 1);
    }
    if f >= n {
        return Err(ParseError::MalformedSubstitute);
    }
    let r = find_slash(s, n, f + 1);
    proof {
        lemma_slash_from(s@, f + 1);
    }
    if r >= n {
        return Err(ParseError::MalformedSubstitute);
    }
    let find = match Pattern::new(s.substring_char(i + 1, f)) {
        Some(p) => p,
        None => {
            return Err(ParseError::InvalidRegex);
        },
    };
    let replace = String::from_str(s.substring_char(f + 1, r));
    let global = r + 1 < n && s.get_char(r + 1) == 'g';
    let end = if global { r + 2 } else { r + 1 };
    Ok((Substitute::new(find, replace, global), end))
}

fn parse_command(s: &str, n: usize, i: usize) -> (r: Result<(Command, usize), ParseError>)
    requires
        n == s@.len(),
        i <= n,
    ensures
        match r {
            Ok((c, j)) => command_at(s@, i as int) == Ok::<_, ParseError>((command_shape(c), j as int)),
            Err(e) => command_at(s@, i as int) == Err::<((LocationShape, TransformerShape), int), ParseError>(e),
        },
{
    proof {
        lemma_command_at(s@, i as int);
        lemma_single_location_at(s@, i as int);
        if let Ok(Some((_, j))) = single_location_at(s@, i as int) {
            if j < s@.len() && s@[j] == ',' {
                lemma_single_location_at(s@, j + 1);
            }
        }
    }
    let (location, j) = match parse_location(s, n, i) {
        Ok(parsed) => parsed,
        Err(e) => {
            return Err(e);
        },
    };
    if j >= n {
        return Err(ParseError::UnknownCommand);
    }
    let letter = s.get_char(j);
    let transformer = if letter == 'q' {
        TransformerKind::Quit(Quit)
    } else if letter == 'p' {
        TransformerKind::Print(Print)
    } else if letter == 'd' {
        TransformerKind::Delete(Delete)
    } else if letter == 's' {
        match parse_substitute(s, n, j + 1) {
            Ok((t, k)) => {
                return Ok((Command::new(location, TransformerKind::Substitute(t)), k));
            },
            Err(e) => {
                return Err(e);
            },
        }
    } else {
        return Err(ParseError::UnknownCommand);
    };
    Ok((Command::new(location, transformer), j + 1))
}

/// The result of the commands `prefix`, already compiled, followed by the
/// compilation of the rest.
pub open spec fn after_prefix(
    prefix: Seq<(LocationShape, TransformerShape)>,
    rest: Result<Seq<(LocationShape, TransformerShape)>, ParseError>,
) -> Result<Seq<(LocationShape, TransformerShape)>, ParseError> {
    match rest {
        Ok(cmds) => Ok(prefix + cmds),
        Err(e) => Err(e),
    }
}

/// Compiles a script into its commands, in order; every range starts closed.
/// Fails with the first error in the script.
pub fn parse_commands(command_args: &str) -> (r: Result<Vec<Command>, ParseError>)
    ensures
        match r {
            Ok(cmds) => script(command_args@) == Ok::<_, ParseError>(cmds@.map_values(|c: Command| command_shape(c))),
            Err(e) => script(command_args@) == Err::<Seq<(LocationShape, TransformerShape)>, ParseError>(e),
        },
{
    let ghost s = command_args@;
    let n = command_args.unicode_len();
    let mut results: Vec<Command> = Vec::new();
    let mut i: usize = 0;
    proof {
        assert(results@.map_values(|c: Command| command_shape(c)) + script_from(s, 0)->Ok_0 =~= script_from(s, 0)->Ok_0);
    }
    while i < n
        invariant
            n == s.len(),
            s == command_args@,
            i <= n,
            script(s) == after_prefix(results@.map_values(|c: Command| command_shape(c)), script_from(s, i as int)),
        decreases n - i,
    {
        proof {
            lemma_command_at(s, i as int);
        }
        let (command, j) = match parse_command(command_args, n, i) {
            Ok(parsed) => parsed,
            Err(e) => {
                return Err(e);
            },
        };
        proof {
            lemma_separator_end(s, j as int);
        }
        let next = skip_separator(command_args, n, j);
        let ghost prefix = results@.map_values(|c: Command| command_shape(c));
        results.push(command);
        proof {
            assert(results@.map_values(|c: Command| command_shape(c)) =~= prefix.push(command_shape(command)));
            if let Ok(rest) = script_from(s, next as int) {
                assert(prefix + (seq![command_shape(command)] + rest) =~= prefix.push(command_shape(command)) + rest);
            }
        }
        i = next;
    }
    proof {
        assert(results@.map_values(|c: Command| command_shape(c)) + Seq::empty() =~= results@.map_values(|c: Command| command_shape(c)));
    }
    Ok(results)
}

} // verus!
