//! Detection of a logical source identifier in the lines of a log file.

use crate::text::line_views;
use regex::Regex;
use vstd::prelude::*;

verus! {

/// `regex::Regex`, a compiled regular expression: carried, never looked
/// into.
#[verifier::external_type_specification]
#[verifier::external_body]
pub struct ExRegex(regex::Regex);

/// `regex::Error`, the reason why an expression did not compile: carried,
/// never looked into.
#[verifier::external_type_specification]
#[verifier::external_body]
pub struct ExRegexError(regex::Error);

/// Whether the `regex` crate accepts `source` as a regular expression under
/// its default settings (`Regex::new` succeeds).
pub uninterp spec fn pattern_compiles(source: Seq<char>) -> bool;

/// What the first capture group of the regular expression `source` holds
/// for the leftmost match in `line`: nothing if the expression does not match
/// the line, has no first group, or matched without that group taking part.
pub uninterp spec fn first_group(source: Seq<char>, line: Seq<char>) -> Option<Seq<char>>;

/// A compiled identifier pattern together with the expression it was
/// compiled from.
pub struct IdPattern {
    source: String,
    compiled: Regex,
}

/// The pattern could not be compiled.
#[derive(Clone, Copy, Debug, PartialEq, Eq)]
pub struct InvalidPattern;

/// Calls `regex::Regex::new`, which compiles `source` with the crate's
/// default settings and fails on a syntax error or an oversized program;
/// whether it succeeds depends on `source` alone. The compiled expression is
/// kept next to a copy of its source.
#[verifier::external_body]
fn compile(source: &str) -> (compiled: Result<IdPattern, regex::Error>)
    ensures
        compiled is Ok <==> pattern_compiles(source@),
        compiled matches Ok(pattern) ==> pattern.source() == source@,
{
    match Regex::new(source) {
        Ok(compiled) => Ok(IdPattern { source: source.to_string(), compiled }),
        Err(failure) => Err(failure),
    }
}

/// Calls `Regex::captures` on `line`, then `Captures::get(1)` and
/// `Match::as_str`: the text of the first capture group in the leftmost
/// match, copied out. `get` answers an index without a group, and a group
/// that took no part in the match, with nothing. The expression searched
/// with is the one compiled from `pattern.source()`: `compile` is the only
/// place where an `IdPattern` is made.
#[verifier::external_body]
fn capture_group(pattern: &IdPattern, line: &str) -> (captured: Option<String>)
    ensures
        captured matches Some(text) ==> first_group(pattern.source(), line@) == Some(text@),
        captured is None ==> first_group(pattern.source(), line@) is None,
{
    pattern.compiled.captures(line).and_then(|groups| groups.get(1)).map(
        |found| found.as_str().to_string(),
    )
}

impl IdPattern {
    /// The regular expression this pattern was compiled from.
    pub closed spec fn source(&self) -> Seq<char> {
        self.source@
    }

    /// Compiles `source` into a pattern.
    pub fn new(source: &str) -> (made: Result<IdPattern, InvalidPattern>)
        ensures
            made is Ok <==> pattern_compiles(source@),
            made matches Ok(pattern) ==> pattern.source() == source@,
    {
        match compile(source) {
            Ok(pattern) => Ok(pattern),
            Err(_) => Err(InvalidPattern),
        }
    }

    /// The expression this pattern was compiled from.
    pub fn as_str(&self) -> (source: &str)
        ensures
            source@ == self.source(),
    {
        self.source.as_str()
    }
}

/// The identifier of a file with the given lines: the capture of the first
/// line, in file order, in which the expression `source` captures anything.
pub open spec fn first_capture(lines: Seq<Seq<char>>, source: Seq<char>) -> Option<Seq<char>>
    decreases lines.len(),
{
    if lines.len() == 0 {
        None
    } else if first_group(source, lines[0]) is Some {
        first_group(source, lines[0])
    } else {
        first_capture(lines.skip(1), source)
    }
}

/// Scans `lines` in order and returns the first capture found; later lines
/// are not looked at once one has matched.
pub fn extract_id(lines: &Vec<String>, pattern: &IdPattern) -> (id: Option<String>)
    ensures
        id matches Some(text) ==> first_capture(line_views(lines@), pattern.source()) == Some(
            text@,
        ),
        id is None ==> first_capture(line_views(lines@), pattern.source()) is None,
{
    let ghost all = line_views(lines@);
    let mut i: usize = 0;
    assert(all.skip(0) == all);
    while i < lines.len()
        invariant
            i <= lines.len(),
            all == line_views(lines@),
            first_capture(all, pattern.source()) == first_capture(
                all.skip(i as int),
                pattern.source(),
            ),
        decreases lines.len() - i,
    {
        assert(all.skip(i as int)[0] == lines@[i as int]@);
        assert(all.skip(i as int).skip(1) == all.skip(i + 1));
        match capture_group(pattern, lines[i].as_str()) {
            Some(text) => {
                return Some(text);
            },
            None => {},
        }
        i += 1;
    }
    None
}

} // verus!
