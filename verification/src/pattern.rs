//! Exclusion patterns: how a raw pattern is read, and which entries a
//! pattern matches.
//!
//! Patterns come from two sources. One given on the command line is a
//! wildcard pattern where it holds a `*`, and a plain substring otherwise.
//! One read from an ignore file is a rule that may be anchored by a leading
//! `/` and limited to directories by a trailing `/`. There is no negation:
//! a rule that begins with `!` is a name that begins with `!`.

use crate::entry::{candidate_of, Candidate, CandidateView, Entry, EntryView};
use crate::glob::{glob_match, glob_matches, lemma_literal_pattern};
use crate::text::{
    chars_of, contains, has, joined, occurs_at, same, slice, split, split_on, string_of, texts, trim,
    trimmed,
};
use vstd::prelude::*;

verus! {

/// Where a raw pattern came from, which decides how it is read.
#[derive(Debug, Clone, Copy, PartialEq, Eq)]
pub enum PatternSource {
    /// Given by the user as an exclusion pattern.
    Explicit,
    /// A line of an ignore file.
    Gitignore,
}

/// One exclusion rule, ready for matching.
#[derive(Debug, PartialEq, Eq)]
pub enum CompiledPattern {
    /// A wildcard pattern, matched by the two-part matcher.
    Glob(String),
    /// A text that matches the paths it stands in.
    Substring(String),
    /// A rule of an ignore file: its text without the marks, whether it was
    /// anchored by a leading `/`, and whether a trailing `/` limits it to
    /// directories.
    GitignoreRule { text: String, anchored: bool, directory_only: bool },
}

/// What a [`CompiledPattern`] holds, as mathematical values.
pub enum PatternView {
    Glob(Seq<char>),
    Substring(Seq<char>),
    GitignoreRule { text: Seq<char>, anchored: bool, directory_only: bool },
}

impl View for CompiledPattern {
    type V = PatternView;

    open spec fn view(&self) -> PatternView {
        match self {
            CompiledPattern::Glob(text) => PatternView::Glob(text@),
            CompiledPattern::Substring(text) => PatternView::Substring(text@),
            CompiledPattern::GitignoreRule { text, anchored, directory_only } => {
                PatternView::GitignoreRule {
                    text: text@,
                    anchored: *anchored,
                    directory_only: *directory_only,
                }
            },
        }
    }
}

impl Clone for CompiledPattern {
    fn clone(&self) -> (copy: CompiledPattern)
        ensures
            copy@ == self@,
    {
        match self {
            CompiledPattern::Glob(text) => CompiledPattern::Glob(text.clone()),
            CompiledPattern::Substring(text) => CompiledPattern::Substring(text.clone()),
            CompiledPattern::GitignoreRule { text, anchored, directory_only } => {
                CompiledPattern::GitignoreRule {
                    text: text.clone(),
                    anchored: *anchored,
                    directory_only: *directory_only,
                }
            },
        }
    }
}

/// The views of a list of patterns, in order.
pub open spec fn pattern_views(patterns: Seq<CompiledPattern>) -> Seq<PatternView> {
    patterns.map_values(|p: CompiledPattern| p@)
}

/// `text` as a path component behind a separator: `/` and then `text`.
pub open spec fn below_slash(text: Seq<char>) -> Seq<char> {
    seq!['/'] + text
}

/// Which candidates a rule of an ignore file matches.
/// - Anchored: the file name equals the text (of a directory, where the rule
///   is limited to directories). Only the last path component is looked at.
/// - Limited to directories: a directory whose name equals the text, or
///   whose path holds the text behind a `/`.
/// - With a `/` inside: the path holds the text.
/// - A bare name: the file name equals the text, or the path holds the text
///   behind a `/`, or the text holds a `*` and matches the file name as a
///   wildcard pattern.
pub open spec fn rule_matches(
    text: Seq<char>,
    anchored: bool,
    directory_only: bool,
    candidate: CandidateView,
) -> bool {
    if anchored {
        (directory_only ==> candidate.is_dir) && candidate.name == text
    } else if directory_only {
        candidate.is_dir && (candidate.name == text || contains(
            candidate.path,
            below_slash(text),
        ))
    } else if text.contains('/') {
        contains(candidate.path, text)
    } else {
        ||| candidate.name == text
        ||| contains(candidate.path, below_slash(text))
        ||| (text.contains('*') && glob_matches(candidate.name, text))
    }
}

/// Which candidates a pattern matches.
/// - A substring: the bare path or the path with its slash holds it.
/// - A wildcard pattern: it matches the bare path or the path with its
///   slash as a wildcard pattern, or one of the two holds the pattern as it
///   is written.
/// - A rule of an ignore file: as `rule_matches` says.
pub open spec fn matches_candidate(pattern: PatternView, candidate: CandidateView) -> bool {
    match pattern {
        PatternView::Glob(text) => {
            ||| glob_matches(candidate.path, text)
            ||| glob_matches(candidate.slashed, text)
            ||| contains(candidate.path, text)
            ||| contains(candidate.slashed, text)
        },
        PatternView::Substring(text) => {
            ||| contains(candidate.path, text)
            ||| contains(candidate.slashed, text)
        },
        PatternView::GitignoreRule { text, anchored, directory_only } => rule_matches(
            text,
            anchored,
            directory_only,
            candidate,
        ),
    }
}

/// Whether `pattern` matches `entry`.
pub open spec fn pattern_matches(pattern: PatternView, entry: EntryView) -> bool {
    matches_candidate(pattern, candidate_of(entry))
}

/// Whether some pattern of the list matches `entry`.
pub open spec fn any_matches(patterns: Seq<PatternView>, entry: EntryView) -> bool {
    exists|k: int| 0 <= k < patterns.len() && pattern_matches(#[trigger] patterns[k], entry)
}

/// Reading a pattern without a `*` as a wildcard pattern changes nothing:
/// it matches what it matches as a substring.
pub proof fn lemma_literal_glob_is_substring(text: Seq<char>, candidate: CandidateView)
    requires
        !text.contains('*'),
    ensures
        matches_candidate(PatternView::Glob(text), candidate) == matches_candidate(
            PatternView::Substring(text),
            candidate,
        ),
{
    lemma_literal_pattern(candidate.path, text);
    lemma_literal_pattern(candidate.slashed, text);
    if candidate.path == text {
        assert(occurs_at(candidate.path, text, 0)) by {
            assert(candidate.path.subrange(0, text.len() as int) == text);
        }
    }
    if candidate.slashed == text {
        assert(occurs_at(candidate.slashed, text, 0)) by {
            assert(candidate.slashed.subrange(0, text.len() as int) == text);
        }
    }
}

/// How a pattern given by the user is read: as a wildcard pattern where it
/// holds a `*`, as a substring otherwise.
pub open spec fn explicit_pattern(raw: Seq<char>) -> PatternView {
    if raw.contains('*') {
        PatternView::Glob(raw)
    } else {
        PatternView::Substring(raw)
    }
}

/// How a rule of an ignore file is read: a leading `/` anchors it, and a
/// trailing `/` on what follows limits it to directories; the text is what
/// is left without the two marks.
pub open spec fn gitignore_rule(raw: Seq<char>) -> PatternView {
    let anchored = raw.len() > 0 && raw.first() == '/';
    let body = if anchored {
        raw.drop_first()
    } else {
        raw
    };
    let directory_only = body.len() > 0 && body.last() == '/';
    let text = if directory_only {
        body.drop_last()
    } else {
        body
    };
    PatternView::GitignoreRule { text, anchored, directory_only }
}

/// Whether a line of an ignore file, blanks at its ends removed, states a
/// rule: it is not empty and not a comment.
pub open spec fn is_rule_line(line: Seq<char>) -> bool {
    line.len() > 0 && line.first() != '#'
}

/// The pattern that a raw text yields, if it yields one. A pattern from the
/// user always does. A line of an ignore file yields none where it is blank
/// or a comment.
pub open spec fn compiled(raw: Seq<char>, source: PatternSource) -> Option<PatternView> {
    match source {
        PatternSource::Explicit => Some(explicit_pattern(raw)),
        PatternSource::Gitignore => {
            let line = trim(raw);
            if is_rule_line(line) {
                Some(gitignore_rule(line))
            } else {
                None
            }
        },
    }
}

/// Whether `c` occurs in `text`.
pub fn holds_char(text: &[char], c: char) -> (r: bool)
    ensures
        r == text@.contains(c),
{
    let mut i: usize = 0;
    while i < text.len()
        invariant
            i <= text.len(),
            forall|k: int| 0 <= k < i ==> text@[k] != c,
        decreases text.len() - i,
    {
        if text[i] == c {
            return true;
        }
        i += 1;
    }
    false
}

/// Reads a pattern given by the user.
pub fn compile_explicit(raw: &[char]) -> (pattern: CompiledPattern)
    ensures
        pattern@ == explicit_pattern(raw@),
{
    if holds_char(raw, '*') {
        CompiledPattern::Glob(string_of(raw))
    } else {
        CompiledPattern::Substring(string_of(raw))
    }
}

/// Reads a rule of an ignore file.
pub fn compile_rule(raw: &[char]) -> (pattern: CompiledPattern)
    ensures
        pattern@ == gitignore_rule(raw@),
{
    let anchored = raw.len() > 0 && raw[0] == '/';
    let from: usize = if anchored {
        1
    } else {
        0
    };
    let directory_only = raw.len() > from && raw[raw.len() - 1] == '/';
    let to: usize = if directory_only {
        raw.len() - 1
    } else {
        raw.len()
    };
    let text = slice(raw, from, to);
    proof {
        let body = if anchored {
            raw@.drop_first()
        } else {
            raw@
        };
        assert(body == raw@.subrange(from as int, raw.len() as int));
        if directory_only {
            assert(body.drop_last() == raw@.subrange(from as int, to as int));
        }
    }
    CompiledPattern::GitignoreRule { text: string_of(text.as_slice()), anchored, directory_only }
}

/// Compiles a raw pattern. This never fails: a text that yields no pattern
/// gives `None`, and the caller skips it.
pub fn compile(raw: &str, source: PatternSource) -> (pattern: Option<CompiledPattern>)
    ensures
        match compiled(raw@, source) {
            Some(view) => pattern matches Some(p) && p@ == view,
            None => pattern is None,
        },
{
    let chars = chars_of(raw);
    match source {
        PatternSource::Explicit => Some(compile_explicit(chars.as_slice())),
        PatternSource::Gitignore => {
            let line = trimmed(chars.as_slice());
            if line.len() > 0 && line[0] != '#' {
                Some(compile_rule(line.as_slice()))
            } else {
                None
            }
        },
    }
}

/// Whether `pattern` matches the candidate.
pub fn matches_prepared(pattern: &CompiledPattern, candidate: &Candidate) -> (r: bool)
    ensures
        r == matches_candidate(pattern@, candidate@),
{
    match pattern {
        CompiledPattern::Glob(text) => {
            let text = chars_of(text.as_str());
            glob_match(candidate.path.as_slice(), text.as_slice()) || glob_match(
                candidate.slashed.as_slice(),
                text.as_slice(),
            ) || has(candidate.path.as_slice(), text.as_slice()) || has(
                candidate.slashed.as_slice(),
                text.as_slice(),
            )
        },
        CompiledPattern::Substring(text) => {
            let text = chars_of(text.as_str());
            has(candidate.path.as_slice(), text.as_slice()) || has(
                candidate.slashed.as_slice(),
                text.as_slice(),
            )
        },
        CompiledPattern::GitignoreRule { text, anchored, directory_only } => {
            let text = chars_of(text.as_str());
            let name = candidate.name.as_slice();
            let path = candidate.path.as_slice();
            if *anchored {
                (!*directory_only || candidate.is_dir) && same(name, text.as_slice())
            } else {
                let slash: [char; 1] = ['/'];
                assert(slash@ == seq!['/']);
                let below = joined(slash.as_slice(), text.as_slice());
                if *directory_only {
                    candidate.is_dir && (same(name, text.as_slice()) || has(
                        path,
                        below.as_slice(),
                    ))
                } else if holds_char(text.as_slice(), '/') {
                    has(path, text.as_slice())
                } else {
                    same(name, text.as_slice()) || has(path, below.as_slice()) || (holds_char(
                        text.as_slice(),
                        '*',
                    ) && glob_match(name, text.as_slice()))
                }
            }
        },
    }
}

/// Whether `pattern` matches `entry`.
pub fn matches(pattern: &CompiledPattern, entry: &Entry) -> (r: bool)
    ensures
        r == pattern_matches(pattern@, entry@),
{
    let candidate = Candidate::of(entry);
    matches_prepared(pattern, &candidate)
}

/// Whether some pattern of the list matches the candidate.
pub fn any_prepared(patterns: &[CompiledPattern], candidate: &Candidate) -> (r: bool)
    ensures
        r == exists|k: int|
            0 <= k < patterns.len() && matches_candidate((#[trigger] patterns@[k])@, candidate@),
{
    let mut i: usize = 0;
    while i < patterns.len()
        invariant
            i <= patterns.len(),
            forall|k: int| 0 <= k < i ==> !matches_candidate((#[trigger] patterns@[k])@, candidate@),
        decreases patterns.len() - i,
    {
        if matches_prepared(&patterns[i], candidate) {
            return true;
        }
        i += 1;
    }
    false
}

/// Whether the ignore-file rule `pattern`, read as it stands, matches
/// `entry`.
pub fn matches_gitignore_pattern(entry: &Entry, pattern: &str) -> (r: bool)
    ensures
        r == pattern_matches(gitignore_rule(pattern@), entry@),
{
    let chars = chars_of(pattern);
    let rule = compile_rule(chars.as_slice());
    matches(&rule, entry)
}

/// The raw patterns that a separated list holds: the pieces between the
/// separators, every one of them, empty ones too. No list, no patterns.
pub open spec fn listed_patterns(list: Option<Seq<char>>, separator: char) -> Seq<Seq<char>> {
    match list {
        Some(text) => split_on(text, separator),
        None => Seq::<Seq<char>>::empty(),
    }
}

/// The text of an optional string.
pub open spec fn optional_text(text: Option<String>) -> Option<Seq<char>> {
    match text {
        Some(t) => Some(t@),
        None => None,
    }
}

/// Takes a list of raw patterns apart at `separator`.
pub fn split_patterns(list: &Option<String>, separator: char) -> (raw: Vec<String>)
    ensures
        texts(raw@) == listed_patterns(optional_text(*list), separator),
{
    match list {
        Some(text) => {
            let chars = chars_of(text.as_str());
            split(chars.as_slice(), separator)
        },
        None => {
            let raw: Vec<String> = Vec::new();
            raw
        },
    }
}

/// Takes apart the list of patterns to ignore, which separates them by `|`.
pub fn parse_exclude_patterns(patterns: &Option<String>) -> (raw: Vec<String>)
    ensures
        texts(raw@) == listed_patterns(optional_text(*patterns), '|'),
{
    split_patterns(patterns, '|')
}

/// The rules among the given lines: each line without the blanks at its
/// ends, where what is left is neither empty nor a comment.
pub open spec fn rule_lines(lines: Seq<Seq<char>>) -> Seq<Seq<char>> {
    lines.map_values(|line: Seq<char>| trim(line)).filter(|line: Seq<char>| is_rule_line(line))
}

/// The rules that the content of an ignore file states, in order: its lines
/// are what stands between line feeds.
pub open spec fn gitignore_rules(content: Seq<char>) -> Seq<Seq<char>> {
    rule_lines(split_on(content, '\n'))
}

/// One more line, one more rule or none.
pub proof fn lemma_rule_lines_push(lines: Seq<Seq<char>>, line: Seq<char>)
    ensures
        rule_lines(lines.push(line)) == if is_rule_line(trim(line)) {
            rule_lines(lines).push(trim(line))
        } else {
            rule_lines(lines)
        },
{
    let cut = |l: Seq<char>| trim(l);
    let trimmed_lines = lines.push(line).map_values(cut);
    assert(trimmed_lines.drop_last() == lines.map_values(cut));
    reveal(Seq::filter);
}

/// Reads the content of an ignore file: the rules it states, in order, each
/// without the blanks at its ends. Blank lines and comments state none.
pub fn parse_gitignore(content: &str) -> (rules: Vec<String>)
    ensures
        texts(rules@) == gitignore_rules(content@),
{
    let chars = chars_of(content);
    let lines = split(chars.as_slice(), '\n');
    let mut rules: Vec<String> = Vec::new();
    let mut i: usize = 0;
    while i < lines.len()
        invariant
            i <= lines.len(),
            texts(rules@) == rule_lines(texts(lines@).take(i as int)),
        decreases lines.len() - i,
    {
        let line = chars_of(lines[i].as_str());
        let rule = trimmed(line.as_slice());
        proof {
            let seen = texts(lines@).take(i as int);
            assert(texts(lines@).take(i + 1) == seen.push(lines@[i as int]@));
            lemma_rule_lines_push(seen, lines@[i as int]@);
        }
        if rule.len() > 0 && rule[0] != '#' {
            let text = string_of(rule.as_slice());
            rules.push(text);
        }
        i += 1;
    }
    proof {
        assert(texts(lines@).take(lines.len() as int) == texts(lines@));
    }
    rules
}

} // verus!
