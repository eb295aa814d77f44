//! The two-part wildcard matcher.
//!
//! A pattern is cut at its single wildcard into a prefix and a suffix, and a
//! text matches when it begins with the one and ends with the other. Nothing
//! is asked of what lies between, the two may overlap in the text, and path
//! separators get no special treatment. A pattern with more than one cut
//! point is not treated as a wildcard pattern at all: it matches only the
//! text equal to it. This is deliberately less than shell globbing.

use crate::text::{
    chars_of, contains, ends_with, find, first_occurrence, lemma_first_occurrence_unique, occurs_at,
    same, starts_with,
};
use vstd::prelude::*;
use vstd::slice::slice_subrange;

verus! {

/// The wildcard `**`.
pub open spec fn double_star() -> Seq<char> {
    seq!['*', '*']
}

/// The wildcard `*`.
pub open spec fn single_star() -> Seq<char> {
    seq!['*']
}

/// The two parts of `pattern` around `mark`, where `mark` cuts it exactly
/// once: it stands in `pattern`, and not again behind its leftmost
/// occurrence.
pub open spec fn cut_once(pattern: Seq<char>, mark: Seq<char>) -> Option<(Seq<char>, Seq<char>)> {
    if contains(pattern, mark) {
        let at = first_occurrence(pattern, mark);
        let rest = pattern.subrange(at + mark.len(), pattern.len() as int);
        if contains(rest, mark) {
            None
        } else {
            Some((pattern.subrange(0, at), rest))
        }
    } else {
        None
    }
}

/// `text` begins with `prefix` and ends with `suffix`.
pub open spec fn fits_around(text: Seq<char>, prefix: Seq<char>, suffix: Seq<char>) -> bool {
    prefix.is_prefix_of(text) && suffix.is_suffix_of(text)
}

/// Whether `pattern` matches `text`:
/// - `**` alone matches every text;
/// - a pattern that `**` cuts exactly once matches the texts that begin with
///   what stands before it and end with what stands behind it;
/// - otherwise a pattern that `*` cuts exactly once matches in the same way;
/// - every other pattern matches only itself.
pub open spec fn glob_matches(text: Seq<char>, pattern: Seq<char>) -> bool {
    if pattern == double_star() {
        true
    } else {
        match cut_once(pattern, double_star()) {
            Some((prefix, suffix)) => fits_around(text, prefix, suffix),
            None => match cut_once(pattern, single_star()) {
                Some((prefix, suffix)) => fits_around(text, prefix, suffix),
                None => text == pattern,
            },
        }
    }
}

/// A pattern without a `*` is no wildcard pattern: it matches only the text
/// equal to it.
pub proof fn lemma_literal_pattern(text: Seq<char>, pattern: Seq<char>)
    requires
        !pattern.contains('*'),
    ensures
        glob_matches(text, pattern) == (text == pattern),
{
    assert forall|at: int| !occurs_at(pattern, single_star(), at) by {
        if occurs_at(pattern, single_star(), at) {
            assert(pattern.subrange(at, at + 1)[0] == '*');
        }
    }
}

/// The pattern `*` matches every text, and so does `**`.
pub proof fn lemma_star_matches_all(text: Seq<char>)
    ensures
        glob_matches(text, single_star()),
        glob_matches(text, double_star()),
{
    let star = single_star();
    assert(occurs_at(star, star, 0)) by {
        assert(star.subrange(0, 1) == star);
    }
    lemma_first_occurrence_unique(star, star, 0);
}

/// Where `mark` cuts `pattern` exactly once: the position at which the part
/// before it ends and the position at which the part behind it begins.
pub fn cut_points(pattern: &[char], mark: &[char]) -> (r: Option<(usize, usize)>)
    ensures
        match cut_once(pattern@, mark@) {
            Some((prefix, suffix)) => r matches Some((end, start)) && end <= start
                <= pattern.len() && prefix == pattern@.subrange(0, end as int) && suffix
                == pattern@.subrange(start as int, pattern.len() as int),
            None => r is None,
        },
{
    match find(pattern, mark) {
        None => None,
        Some(at) => {
            let length: usize = pattern.len();
            let start: usize = at + mark.len();
            let rest = slice_subrange(pattern, start, length);
            match find(rest, mark) {
                Some(_) => None,
                None => Some((at, start)),
            }
        },
    }
}

/// Whether `pattern` matches `text`, both given as characters.
pub fn glob_match(text: &[char], pattern: &[char]) -> (r: bool)
    ensures
        r == glob_matches(text@, pattern@),
{
    let two: [char; 2] = ['*', '*'];
    let one: [char; 1] = ['*'];
    assert(one@ == single_star());
    if same(pattern, two.as_slice()) {
        return true;
    }
    let cut = match cut_points(pattern, two.as_slice()) {
        Some(points) => Some(points),
        None => cut_points(pattern, one.as_slice()),
    };
    match cut {
        Some((end, start)) => {
            let prefix = slice_subrange(pattern, 0, end);
            let suffix = slice_subrange(pattern, start, pattern.len());
            starts_with(text, prefix) && ends_with(text, suffix)
        },
        None => same(text, pattern),
    }
}

/// Whether the wildcard pattern `pattern` matches `text`.
pub fn simple_glob_match(text: &str, pattern: &str) -> (r: bool)
    ensures
        r == glob_matches(text@, pattern@),
{
    let text_chars = chars_of(text);
    let pattern_chars = chars_of(pattern);
    glob_match(text_chars.as_slice(), pattern_chars.as_slice())
}

} // verus!
