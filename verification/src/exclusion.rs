//! The exclusion policy: one decision per entry from the hidden-file rule,
//! the rules of the ignore file and the patterns given by the user.

use crate::entry::{is_hidden, Candidate, Entry, EntryView};
use crate::pattern::{
    any_matches, any_prepared, compile, compiled, pattern_matches, pattern_views, CompiledPattern,
    PatternSource, PatternView,
};
use crate::text::texts;
use vstd::prelude::*;

verus! {

/// The rules by which entries are left out of a listing.
#[derive(Debug)]
pub struct ExclusionPolicy {
    /// Whether entries whose name begins with a dot are shown.
    pub show_hidden: bool,
    /// Whether entries that the ignore file names are shown all the same.
    pub include_gitignore: bool,
    /// The patterns given by the user.
    pub explicit: Vec<CompiledPattern>,
    /// The rules of the ignore file.
    pub gitignore: Vec<CompiledPattern>,
}

/// What an [`ExclusionPolicy`] holds, as mathematical values.
pub struct PolicyView {
    pub show_hidden: bool,
    pub include_gitignore: bool,
    pub explicit: Seq<PatternView>,
    pub gitignore: Seq<PatternView>,
}

impl View for ExclusionPolicy {
    type V = PolicyView;

    open spec fn view(&self) -> PolicyView {
        PolicyView {
            show_hidden: self.show_hidden,
            include_gitignore: self.include_gitignore,
            explicit: pattern_views(self.explicit@),
            gitignore: pattern_views(self.gitignore@),
        }
    }
}

/// Whether the policy leaves `entry` out. Any one of three rules is enough:
/// - the entry is hidden, and hidden entries are not shown;
/// - a rule of the ignore file matches it, and such entries are not shown;
/// - a pattern given by the user matches it.
/// No rule brings back an entry that another one leaves out.
pub open spec fn excluded(policy: PolicyView, entry: EntryView) -> bool {
    ||| (!policy.show_hidden && is_hidden(entry))
    ||| (!policy.include_gitignore && any_matches(policy.gitignore, entry))
    ||| any_matches(policy.explicit, entry)
}

/// The patterns that a list of raw texts yields, in order; a text that
/// yields none is passed over.
pub open spec fn compiled_all(raw: Seq<Seq<char>>, source: PatternSource) -> Seq<PatternView>
    decreases raw.len(),
{
    if raw.len() == 0 {
        Seq::<PatternView>::empty()
    } else {
        let before = compiled_all(raw.drop_last(), source);
        match compiled(raw.last(), source) {
            Some(pattern) => before.push(pattern),
            None => before,
        }
    }
}

/// The policy that raw patterns and the two switches make up.
pub open spec fn policy_of(
    exclude_patterns: Seq<Seq<char>>,
    gitignore_patterns: Seq<Seq<char>>,
    show_hidden: bool,
    include_gitignore: bool,
) -> PolicyView {
    PolicyView {
        show_hidden,
        include_gitignore,
        explicit: compiled_all(exclude_patterns, PatternSource::Explicit),
        gitignore: compiled_all(gitignore_patterns, PatternSource::Gitignore),
    }
}

/// Compiles a list of raw patterns, passing over those that yield none.
pub fn compile_all(raw: &[String], source: PatternSource) -> (patterns: Vec<CompiledPattern>)
    ensures
        pattern_views(patterns@) == compiled_all(texts(raw@), source),
{
    let mut patterns: Vec<CompiledPattern> = Vec::new();
    let mut i: usize = 0;
    while i < raw.len()
        invariant
            i <= raw.len(),
            pattern_views(patterns@) == compiled_all(texts(raw@).take(i as int), source),
        decreases raw.len() - i,
    {
        proof {
            let seen = texts(raw@).take(i + 1);
            assert(seen.drop_last() == texts(raw@).take(i as int));
        }
        match compile(raw[i].as_str(), source) {
            Some(pattern) => {
                patterns.push(pattern);
            },
            None => {},
        }
        i += 1;
    }
    proof {
        assert(texts(raw@).take(raw.len() as int) == texts(raw@));
    }
    patterns
}

impl ExclusionPolicy {
    /// The policy that raw patterns and the two switches make up.
    pub fn new(
        exclude_patterns: &[String],
        gitignore_patterns: &[String],
        show_hidden: bool,
        include_gitignore: bool,
    ) -> (policy: ExclusionPolicy)
        ensures
            policy@ == policy_of(
                texts(exclude_patterns@),
                texts(gitignore_patterns@),
                show_hidden,
                include_gitignore,
            ),
    {
        ExclusionPolicy {
            show_hidden,
            include_gitignore,
            explicit: compile_all(exclude_patterns, PatternSource::Explicit),
            gitignore: compile_all(gitignore_patterns, PatternSource::Gitignore),
        }
    }

    /// Whether the policy leaves `entry` out.
    pub fn excluded(&self, entry: &Entry) -> (r: bool)
        ensures
            r == excluded(self@, entry@),
    {
        let candidate = Candidate::of(entry);
        if !self.show_hidden && candidate.hidden() {
            return true;
        }
        proof {
            lemma_any_matches_views(self.gitignore@, entry@);
            lemma_any_matches_views(self.explicit@, entry@);
        }
        if !self.include_gitignore && any_prepared(self.gitignore.as_slice(), &candidate) {
            return true;
        }
        any_prepared(self.explicit.as_slice(), &candidate)
    }
}

/// A pattern of a list matches exactly where its view matches, in the list
/// of views.
pub proof fn lemma_any_matches_views(patterns: Seq<CompiledPattern>, entry: EntryView)
    ensures
        any_matches(pattern_views(patterns), entry) == exists|k: int|
            0 <= k < patterns.len() && pattern_matches((#[trigger] patterns[k])@, entry),
{
    let views = pattern_views(patterns);
    if exists|k: int| 0 <= k < patterns.len() && pattern_matches((#[trigger] patterns[k])@, entry) {
        let k = choose|k: int|
            0 <= k < patterns.len() && pattern_matches((#[trigger] patterns[k])@, entry);
        assert(pattern_matches(views[k], entry));
    }
}

/// Whether `entry` is left out of the listing, by the hidden-file rule
/// unless `include_hidden`, by a rule of `gitignore_patterns` unless
/// `include_gitignore`, or by one of `exclude_patterns`.
pub fn should_exclude(
    entry: &Entry,
    exclude_patterns: &[String],
    gitignore_patterns: &[String],
    include_hidden: bool,
    include_gitignore: bool,
) -> (r: bool)
    ensures
        r == excluded(
            policy_of(
                texts(exclude_patterns@),
                texts(gitignore_patterns@),
                include_hidden,
                include_gitignore,
            ),
            entry@,
        ),
{
    let policy = ExclusionPolicy::new(
        exclude_patterns,
        gitignore_patterns,
        include_hidden,
        include_gitignore,
    );
    policy.excluded(entry)
}

/// A hidden entry is left out whenever hidden entries are not shown,
/// whatever the patterns say.
pub proof fn lemma_hidden_is_excluded(policy: PolicyView, entry: EntryView)
    requires
        !policy.show_hidden,
        is_hidden(entry),
    ensures
        excluded(policy, entry),
{
}

/// Showing what the ignore file names switches its rules off and does
/// nothing else: the decision is the one of the same policy without any
/// such rule.
pub proof fn lemma_include_gitignore_drops_rules(policy: PolicyView, entry: EntryView)
    requires
        policy.include_gitignore,
    ensures
        excluded(policy, entry) == excluded(
            PolicyView { gitignore: Seq::<PatternView>::empty(), ..policy },
            entry,
        ),
{
}

/// Showing what the ignore file names changes the decision only for the
/// entries that one of its rules matches, and for those only towards
/// showing them.
pub proof fn lemma_include_gitignore_only_reveals(policy: PolicyView, entry: EntryView)
    ensures
        excluded(PolicyView { include_gitignore: true, ..policy }, entry) ==> excluded(
            PolicyView { include_gitignore: false, ..policy },
            entry,
        ),
        !any_matches(policy.gitignore, entry) ==> excluded(
            PolicyView { include_gitignore: true, ..policy },
            entry,
        ) == excluded(PolicyView { include_gitignore: false, ..policy }, entry),
{
}

} // verus!
