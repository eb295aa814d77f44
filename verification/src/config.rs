//! The options of one run.

use crate::exclusion::{policy_of, ExclusionPolicy};
use crate::render::Style;
use crate::text::texts;
use vstd::prelude::*;

verus! {

/// The options of one run, set once before the walk and read by it.
#[derive(Debug)]
pub struct Config {
    /// The directory whose tree is shown.
    pub root: String,
    /// How deep the walk goes: entries at this depth are shown and not opened.
    /// The children of the root lie at depth 0. `usize::MAX` stands for no bound.
    pub max_depth: usize,
    /// Show entries whose name begins with a dot.
    pub show_hidden: bool,
    /// Icons in place of the tags `[DIR]` and `[FILE]`.
    pub nerd_fonts: bool,
    /// Names in colour.
    pub color: bool,
    /// Show directories only.
    pub dirs_only: bool,
    /// Leave out the closing report.
    pub no_report: bool,
    /// The raw exclusion patterns.
    pub exclude_patterns: Vec<String>,
    /// Show what the ignore file names.
    pub include_gitignore: bool,
}

impl Config {
    /// The exclusion policy of this run, given the rules of the ignore file.
    pub fn policy(&self, gitignore_rules: &[String]) -> (policy: ExclusionPolicy)
        ensures
            policy@ == policy_of(
                texts(self.exclude_patterns@),
                texts(gitignore_rules@),
                self.show_hidden,
                self.include_gitignore,
            ),
    {
        ExclusionPolicy::new(
            self.exclude_patterns.as_slice(),
            gitignore_rules,
            self.show_hidden,
            self.include_gitignore,
        )
    }

    /// How this run draws its lines.
    pub fn style(&self) -> (style: Style)
        ensures
            style == (Style { nerd_fonts: self.nerd_fonts, color: self.color }),
    {
        Style { nerd_fonts: self.nerd_fonts, color: self.color }
    }
}

} // verus!
