//! A file system held in memory, and the drawing of a whole tree from it.

use crate::config::Config;
use crate::entry::{copy_entries, entry_views, Entry, EntryView};
use crate::invariants::walk;
use crate::render::{line_views, Line};
use crate::text::{chars_of, same};
use crate::tree::{answers, tree_lines, tree_requests, walk_draws_the_tree};
use crate::walker::{awaited_path, listing_view, path_view, settings_of, Settings, TreeWalker};
use vstd::prelude::*;

verus! {

/// The listings of some directories, by path. A directory that is not in
/// the snapshot cannot be listed.
pub struct Snapshot {
    directories: Vec<(String, Vec<Entry>)>,
}

/// The listings that a list of recorded directories gives, by path: of two
/// records of one path the later one counts.
pub open spec fn recorded(directories: Seq<(String, Vec<Entry>)>) -> Map<Seq<char>, Seq<EntryView>>
    decreases directories.len(),
{
    if directories.len() == 0 {
        Map::empty()
    } else {
        recorded(directories.drop_last()).insert(
            directories.last().0@,
            entry_views(directories.last().1@),
        )
    }
}

/// A map of listings as the file system that a walk is fed from: a path
/// outside the map cannot be listed.
pub open spec fn files_of(listings: Map<Seq<char>, Seq<EntryView>>) -> spec_fn(Seq<char>) -> Option<
    Seq<EntryView>,
> {
    |path: Seq<char>|
        if listings.contains_key(path) {
            Some(listings[path])
        } else {
            None
        }
}

impl View for Snapshot {
    type V = Map<Seq<char>, Seq<EntryView>>;

    closed spec fn view(&self) -> Map<Seq<char>, Seq<EntryView>> {
        recorded(self.directories@)
    }
}

impl Snapshot {
    /// A snapshot without any directory.
    pub fn new() -> (snapshot: Snapshot)
        ensures
            snapshot@ == Map::<Seq<char>, Seq<EntryView>>::empty(),
    {
        Snapshot { directories: Vec::new() }
    }

    /// Records the listing of the directory at `path`, in place of an
    /// earlier one of the same path.
    pub fn insert(&mut self, path: &str, listing: Vec<Entry>)
        ensures
            final(self)@ == old(self)@.insert(path@, entry_views(listing@)),
    {
        let ghost before = self.directories@;
        self.directories.push((path.to_owned(), listing));
        proof {
            assert(self.directories@.drop_last() == before);
        }
    }

    /// The listing of the directory at `path`, if the snapshot holds it.
    pub fn listing(&self, path: &str) -> (listing: Option<Vec<Entry>>)
        ensures
            listing_view(listing) == files_of(self@)(path@),
    {
        let wanted = chars_of(path);
        let mut i: usize = self.directories.len();
        proof {
            assert(self.directories@.take(i as int) == self.directories@);
        }
        while i > 0
            invariant
                i <= self.directories.len(),
                wanted@ == path@,
                files_of(recorded(self.directories@.take(i as int)))(path@) == files_of(self@)(
                    path@,
                ),
            decreases i,
        {
            i -= 1;
            let record = &self.directories[i];
            let recorded_path = chars_of(record.0.as_str());
            proof {
                let upto = self.directories@.take(i + 1);
                assert(upto.drop_last() == self.directories@.take(i as int));
            }
            if same(recorded_path.as_slice(), wanted.as_slice()) {
                let copy = copy_entries(record.1.as_slice());
                return Some(copy);
            }
        }
        None
    }
}

/// Once a walk is over, more answers change nothing.
pub proof fn lemma_walk_stays_over(
    settings: Settings,
    files: spec_fn(Seq<char>) -> Option<Seq<EntryView>>,
    root: Seq<char>,
    steps: nat,
    more: nat,
)
    requires
        walk(settings, root, answers(settings, files, root, steps)).0.awaiting is None,
    ensures
        walk(settings, root, answers(settings, files, root, steps + more)) == walk(
            settings,
            root,
            answers(settings, files, root, steps),
        ),
    decreases more,
{
    if more > 0 {
        lemma_walk_stays_over(settings, files, root, steps, (more - 1) as nat);
        let earlier = answers(settings, files, root, (steps + more - 1) as nat);
        let all = answers(settings, files, root, steps + more);
        assert(all.drop_last() == earlier);
    }
}

/// Draws the whole tree of `config.root` from a snapshot: every line, from
/// the line of the root to the closing report.
pub fn draw(config: &Config, gitignore_rules: &[String], snapshot: &Snapshot) -> (lines: Vec<Line>)
    ensures
        line_views(lines@) == tree_lines(
            settings_of(*config, gitignore_rules@),
            files_of(snapshot@),
            config.root@,
        ),
{
    let ghost settings = settings_of(*config, gitignore_rules@);
    let ghost files = files_of(snapshot@);
    let ghost root = config.root@;
    let ghost needed = tree_requests(settings, files, root);
    let (mut walker, step) = TreeWalker::start(config, gitignore_rules);
    let mut lines = step.lines;
    let mut request = step.request;
    let ghost mut steps: nat = 0;
    proof {
        walk_draws_the_tree(settings, files, root);
    }
    loop
        invariant_except_break
            steps <= needed,
        invariant
            needed == tree_requests(settings, files, root),
            files == files_of(snapshot@),
            walker.settings() == settings,
            walker.state() == walk(settings, root, answers(settings, files, root, steps)).0,
            line_views(lines@) == walk(settings, root, answers(settings, files, root, steps)).1,
            path_view(request) == awaited_path(walker.state()),
            walk(settings, root, answers(settings, files, root, needed)).0.awaiting is None,
        ensures
            steps <= needed,
            walker.state().awaiting is None,
        decreases needed - steps,
    {
        match request {
            None => {
                break ;
            },
            Some(path) => {
                let listing = snapshot.listing(path.as_str());
                let mut step = walker.feed(listing);
                lines.append(&mut step.lines);
                request = step.request;
                proof {
                    let earlier = answers(settings, files, root, steps);
                    let all = answers(settings, files, root, steps + 1);
                    assert(all.drop_last() == earlier);
                    steps = steps + 1;
                }
            },
        }
    }
    proof {
        lemma_walk_stays_over(settings, files, root, steps, (needed - steps) as nat);
    }
    lines
}

} // verus!
