//! Compiled regular expressions, kept together with the text they were
//! compiled from so that contracts can speak of the pattern.
use vstd::prelude::*;

verus! {

#[verifier::external_type_specification]
#[verifier::external_body]
pub struct ExRegex(regex::Regex);

#[verifier::external_type_specification]
#[verifier::external_body]
pub struct ExRegexError(regex::Error);

/// Whether `pattern` is accepted by the regex compiler.
pub uninterp spec fn regex_compiles(pattern: Seq<char>) -> bool;

/// Whether the regex written as `pattern` matches somewhere in `text`.
pub uninterp spec fn regex_finds(pattern: Seq<char>, text: Seq<char>) -> bool;

/// `text` with the leftmost match of `pattern` replaced by the expansion of `rep`.
pub uninterp spec fn regex_replace_first(pattern: Seq<char>, text: Seq<char>, rep: Seq<char>) -> Seq<char>;

/// `text` with every non-overlapping match of `pattern` replaced by the expansion of `rep`.
pub uninterp spec fn regex_replace_all(pattern: Seq<char>, text: Seq<char>, rep: Seq<char>) -> Seq<char>;

/// A compiled regular expression together with its source text.
#[derive(Debug)]
pub struct Pattern {
    source: String,
    compiled: regex::Regex,
}

impl View for Pattern {
    type V = Seq<char>;

    closed spec fn view(&self) -> Seq<char> {
        self.source@
    }
}

/// Relies on regex::Regex::new: it succeeds exactly on the patterns it accepts.
#[verifier::external_body]
fn regex_new(source: &str) -> (r: Result<Pattern, regex::Error>)
    ensures
        r is Ok <==> regex_compiles(source@),
        r matches Ok(p) ==> p@ == source@,
{
    regex::Regex::new(source).map(|compiled| Pattern { source: source.to_string(), compiled })
}

/// Relies on regex::Regex::is_match: whether there is a match anywhere in the haystack.
#[verifier::external_body]
fn regex_is_match(p: &Pattern, text: &str) -> (r: bool)
    ensures
        r == regex_finds(p@, text@),
{
    p.compiled.is_match(text)
}

/// Relies on regex::Regex::replace: the leftmost match is replaced, and a
/// haystack without a match comes back unchanged.
#[verifier::external_body]
fn regex_replace(p: &Pattern, text: &str, rep: &str) -> (r: String)
    ensures
        r@ == regex_replace_first(p@, text@, rep@),
        !regex_finds(p@, text@) ==> r@ == text@,
{
    p.compiled.replace(text, rep).to_string()
}

/// Relies on regex::Regex::replace_all: every non-overlapping match is
/// replaced, and a haystack without a match comes back unchanged.
#[verifier::external_body]
fn regex_replace_all_matches(p: &Pattern, text: &str, rep: &str) -> (r: String)
    ensures
        r@ == regex_replace_all(p@, text@, rep@),
        !regex_finds(p@, text@) ==> r@ == text@,
{
    p.compiled.replace_all(text, rep).to_string()
}

impl Pattern {
    /// Compiles `source`; `None` where the regex compiler refuses it.
    pub fn new(source: &str) -> (r: Option<Pattern>)
        ensures
            r is Some <==> regex_compiles(source@),
            r matches Some(p) ==> p@ == source@,
    {
        match regex_new(source) {
            Ok(p) => Some(p),
            Err(_) => None,
        }
    }

    /// The text the pattern was compiled from.
    pub fn as_str(&self) -> (r: &str)
        ensures
            r@ == self@,
    {
        self.source.as_str()
    }

    /// Whether the pattern matches somewhere in `text`.
    pub fn is_match(&self, text: &str) -> (r: bool)
        ensures
            r == regex_finds(self@, text@),
    {
        regex_is_match(self, text)
    }

    /// `text` with its first match replaced by `rep`.
    pub fn replace_first(&self, text: &str, rep: &str) -> (r: String)
        ensures
            r@ == regex_replace_first(self@, text@, rep@),
            !regex_finds(self@, text@) ==> r@ == text@,
    {
        regex_replace(self, text, rep)
    }

    /// `text` with all its non-overlapping matches replaced by `rep`.
    pub fn replace_all(&self, text: &str, rep: &str) -> (r: String)
        ensures
            r@ == regex_replace_all(self@, text@, rep@),
            !regex_finds(self@, text@) ==> r@ == text@,
    {
        regex_replace_all_matches(self, text, rep)
    }
}

} // verus!
