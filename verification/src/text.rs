//! Character-level text helpers: conversion between strings and character
//! vectors, and naive substring replacement.

use vstd::prelude::*;

verus! {

/// The texts of `lines`, in order.
pub open spec fn line_views(lines: Seq<String>) -> Seq<Seq<char>> {
    lines.map_values(|line: String| line@)
}

/// The characters of `text`, in order.
pub fn chars_of(text: &str) -> (out: Vec<char>)
    ensures
        out@ == text@,
{
    let mut out: Vec<char> = Vec::new();
    for c in it: text.chars()
        invariant
            out@ == it.seq().take(it.index() as int),
            it.seq() == text@,
    {
        out.push(c);
    }
    out
}

/// `String::push` of the standard library: appends one character to the end
/// of the string and leaves what was there before in place.
#[verifier::external_body]
fn push_char(target: &mut String, c: char)
    ensures
        final(target)@ == old(target)@.push(c),
{
    target.push(c)
}

/// The string made of `chars`, in order.
pub fn string_of(chars: &Vec<char>) -> (out: String)
    ensures
        out@ == chars@,
{
    let mut out = String::new();
    let mut i: usize = 0;
    while i < chars.len()
        invariant
            i <= chars.len(),
            out@ == chars@.take(i as int),
        decreases chars.len() - i,
    {
        push_char(&mut out, chars[i]);
        i += 1;
    }
    out
}

/// Whether `pattern` occurs in `text` starting at index `at`.
pub open spec fn occurs_at(text: Seq<char>, pattern: Seq<char>, at: int) -> bool {
    &&& 0 <= at
    &&& at + pattern.len() <= text.len()
    &&& text.subrange(at, at + pattern.len()) == pattern
}

/// `text` with every occurrence of `pattern` replaced by `replacement`.
///
/// Occurrences are found from left to right and do not overlap: after a
/// match the scan resumes behind it, and what was inserted is not scanned
/// again. An empty pattern matches before every character and at the end.
pub open spec fn replace_all(
    text: Seq<char>,
    pattern: Seq<char>,
    replacement: Seq<char>,
) -> Seq<char>
    decreases text.len(),
{
    if text.len() == 0 {
        if pattern.len() == 0 {
            replacement
        } else {
            text
        }
    } else if pattern.len() == 0 {
        replacement + seq![text[0]] + replace_all(text.skip(1), pattern, replacement)
    } else if occurs_at(text, pattern, 0) {
        replacement + replace_all(text.skip(pattern.len() as int), pattern, replacement)
    } else {
        seq![text[0]] + replace_all(text.skip(1), pattern, replacement)
    }
}

/// Text in which the pattern does not occur is left as it is.
pub proof fn lemma_replace_absent(text: Seq<char>, pattern: Seq<char>, replacement: Seq<char>)
    requires
        pattern.len() > 0,
        forall|at: int| !occurs_at(text, pattern, at),
    ensures
        replace_all(text, pattern, replacement) == text,
    decreases text.len(),
{
    if text.len() > 0 {
        let rest = text.skip(1);
        assert forall|at: int| !occurs_at(rest, pattern, at) by {
            if occurs_at(rest, pattern, at) {
                assert(rest.subrange(at, at + pattern.len()) == text.subrange(
                    at + 1,
                    at + 1 + pattern.len(),
                ));
                assert(occurs_at(text, pattern, at + 1));
            }
        }
        lemma_replace_absent(rest, pattern, replacement);
        assert(seq![text[0]] + rest == text);
    }
}

/// Where the pattern occurs exactly once, the replacement stands in its
/// place and the text before and behind it is unchanged.
pub proof fn lemma_replace_once(
    before: Seq<char>,
    pattern: Seq<char>,
    after: Seq<char>,
    replacement: Seq<char>,
)
    requires
        pattern.len() > 0,
        forall|at: int| occurs_at(before + pattern + after, pattern, at) ==> at == before.len(),
    ensures
        replace_all(before + pattern + after, pattern, replacement) == before + replacement
            + after,
    decreases before.len(),
{
    let whole = before + pattern + after;
    if before.len() == 0 {
        assert(whole.subrange(0, pattern.len() as int) == pattern);
        assert(whole.skip(pattern.len() as int) == after);
        assert forall|at: int| !occurs_at(after, pattern, at) by {
            if occurs_at(after, pattern, at) {
                assert(after.subrange(at, at + pattern.len()) == whole.subrange(
                    at + pattern.len(),
                    at + pattern.len() + pattern.len(),
                ));
                assert(occurs_at(whole, pattern, at + pattern.len()));
            }
        }
        lemma_replace_absent(after, pattern, replacement);
        assert(before + replacement + after == replacement + after);
    } else {
        let shorter = before.skip(1);
        let rest = whole.skip(1);
        assert(rest == shorter + pattern + after);
        assert forall|at: int| occurs_at(rest, pattern, at) implies at == shorter.len() by {
            assert(rest.subrange(at, at + pattern.len()) == whole.subrange(
                at + 1,
                at + 1 + pattern.len(),
            ));
            assert(occurs_at(whole, pattern, at + 1));
        }
        assert(!occurs_at(whole, pattern, 0));
        lemma_replace_once(shorter, pattern, after, replacement);
        assert(seq![whole[0]] + (shorter + replacement + after) == before + replacement + after);
    }
}

/// Whether `pattern` occurs in `text` at index `at`, decided by comparing
/// character by character.
fn matches_at(text: &Vec<char>, pattern: &Vec<char>, at: usize) -> (found: bool)
    requires
        at <= text.len(),
    ensures
        found == occurs_at(text@, pattern@, at as int),
{
    if pattern.len() > text.len() - at {
        return false;
    }
    let mut k: usize = 0;
    while k < pattern.len()
        invariant
            k <= pattern.len(),
            at + pattern.len() <= text.len(),
            forall|j: int| 0 <= j < k ==> text@[at + j] == pattern@[j],
        decreases pattern.len() - k,
    {
        if text[at + k] != pattern[k] {
            assert(text@.subrange(at as int, at + pattern.len())[k as int] != pattern@[k as int]);
            return false;
        }
        k += 1;
    }
    assert(text@.subrange(at as int, at + pattern.len()) =~= pattern@);
    true
}

/// Appends the characters of `tail` to `target`.
fn extend_chars(target: &mut Vec<char>, tail: &Vec<char>)
    ensures
        final(target)@ == old(target)@ + tail@,
{
    let mut k: usize = 0;
    while k < tail.len()
        invariant
            k <= tail.len(),
            target@ == old(target)@ + tail@.take(k as int),
        decreases tail.len() - k,
    {
        target.push(tail[k]);
        k += 1;
    }
}

/// Replaces every occurrence of `pattern` in `text` by `replacement`.
pub fn replace_chars(text: &Vec<char>, pattern: &Vec<char>, replacement: &Vec<char>) -> (out: Vec<
    char,
>)
    ensures
        out@ == replace_all(text@, pattern@, replacement@),
{
    let mut out: Vec<char> = Vec::new();
    let mut i: usize = 0;
    assert(text@.skip(0) == text@);
    assert(out@ + replace_all(text@, pattern@, replacement@) == replace_all(
        text@,
        pattern@,
        replacement@,
    ));
    while i < text.len()
        invariant
            i <= text.len(),
            replace_all(text@, pattern@, replacement@) == out@ + replace_all(
                text@.skip(i as int),
                pattern@,
                replacement@,
            ),
        decreases text.len() - i,
    {
        let ghost rest = text@.skip(i as int);
        if pattern.len() == 0 {
            extend_chars(&mut out, replacement);
            out.push(text[i]);
            assert(rest.skip(1) == text@.skip(i + 1));
            i += 1;
        } else if matches_at(text, pattern, i) {
            assert(rest.subrange(0, pattern@.len() as int) == text@.subrange(
                i as int,
                i + pattern@.len(),
            ));
            assert(rest.skip(pattern@.len() as int) == text@.skip(i + pattern@.len()));
            extend_chars(&mut out, replacement);
            i += pattern.len();
        } else {
            assert(!occurs_at(rest, pattern@, 0)) by {
                if i + pattern@.len() <= text@.len() {
                    assert(rest.subrange(0, pattern@.len() as int) == text@.subrange(
                        i as int,
                        i + pattern@.len(),
                    ));
                }
            }
            out.push(text[i]);
            assert(rest.skip(1) == text@.skip(i + 1));
            i += 1;
        }
    }
    assert(text@.skip(i as int).len() == 0);
    if pattern.len() == 0 {
        extend_chars(&mut out, replacement);
    }
    out
}

/// Replaces every occurrence of `pattern` in `text` by `replacement`.
pub fn replace(text: &str, pattern: &str, replacement: &str) -> (out: String)
    ensures
        out@ == replace_all(text@, pattern@, replacement@),
{
    let replaced = replace_chars(&chars_of(text), &chars_of(pattern), &chars_of(replacement));
    string_of(&replaced)
}

} // verus!
