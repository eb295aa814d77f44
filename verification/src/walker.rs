//! The walk: which lines a tree gives rise to, one listing at a time.
//!
//! The walker does not read directories. It asks for the listing of one
//! directory at a time and is fed what was found there; in return it hands
//! out the lines that can be drawn before the next listing is needed. Whoever
//! drives it reads the directory asked for, feeds the listing, prints the
//! lines, and goes on until nothing more is asked for.

use crate::config::Config;
use crate::counter::Counter;
use crate::entry::{entry_views, Entry, EntryView};
use crate::exclusion::{excluded, policy_of, ExclusionPolicy, PolicyView};
use crate::invariants::{lemma_fed, settled, state_sound};
use crate::render::{continuation, continuation_of, line_views, Line, LineView};
use crate::text::texts;
use vstd::prelude::*;
use vstd::string::StringExecFns;

verus! {

/// What stays the same during a walk.
pub struct Settings {
    pub max_depth: nat,
    pub dirs_only: bool,
    pub no_report: bool,
    pub policy: PolicyView,
}

/// The children of one directory that are shown, and how far their
/// rendering has come.
pub struct FrameView {
    /// The surviving children, in the order of the listing.
    pub entries: Seq<EntryView>,
    /// How many of them have been rendered.
    pub next: nat,
    /// The prefix of their lines.
    pub prefix: Seq<char>,
}

/// A directory whose listing is asked for.
pub struct RequestView {
    /// Its path.
    pub path: Seq<char>,
    /// The prefix of the lines of its children.
    pub prefix: Seq<char>,
}

/// The state of a walk between two listings.
pub struct WalkState {
    /// The directories that are open, the root first. The children of the
    /// directory at position `d` lie at depth `d`.
    pub frames: Seq<FrameView>,
    /// The directory whose listing is awaited; none once the walk is over.
    pub awaiting: Option<RequestView>,
    /// How many files have been rendered.
    pub files: nat,
    /// How many directories have been rendered.
    pub dirs: nat,
}

/// The settings of the walk that a configuration and the rules of the
/// ignore file ask for.
pub open spec fn settings_of(config: Config, gitignore_rules: Seq<String>) -> Settings {
    Settings {
        max_depth: config.max_depth as nat,
        dirs_only: config.dirs_only,
        no_report: config.no_report,
        policy: policy_of(
            texts(config.exclude_patterns@),
            texts(gitignore_rules),
            config.show_hidden,
            config.include_gitignore,
        ),
    }
}

/// Whether an entry of a listing is shown: the policy does not leave it out,
/// and it is a directory where only directories are shown.
pub open spec fn survives(settings: Settings, entry: EntryView) -> bool {
    !excluded(settings.policy, entry) && (settings.dirs_only ==> entry.is_dir)
}

/// The entries of a listing that are shown, in the order of the listing.
pub open spec fn surviving(settings: Settings, listing: Seq<EntryView>) -> Seq<EntryView> {
    listing.filter(|entry: EntryView| survives(settings, entry))
}

/// How many entries of the innermost open directory are still to render.
pub open spec fn left_on_top(frames: Seq<FrameView>) -> int {
    if frames.len() == 0 {
        0
    } else {
        frames.last().entries.len() - frames.last().next
    }
}

/// The lines that close a walk: the report of the counts, unless it is
/// switched off.
pub open spec fn closing_lines(settings: Settings, state: WalkState) -> Seq<LineView> {
    if settings.no_report {
        Seq::<LineView>::empty()
    } else {
        seq![LineView::Summary { directories: state.dirs, files: state.files }]
    }
}

/// The walk from `state` up to the next request for a listing, or to its
/// end: the state it arrives in, and the lines on the way.
///
/// With no directory open the walk is over and closes. A directory all of
/// whose children are rendered is closed. Otherwise the next child of the
/// innermost open directory is rendered and counted; it is the last of its
/// siblings where none follows it. Where it is a directory that lies above
/// the maximum depth, its listing is asked for, and its children will carry
/// its prefix and one continuation glyph more.
pub open spec fn advanced(settings: Settings, state: WalkState) -> (WalkState, Seq<LineView>)
    decreases state.frames.len(), left_on_top(state.frames),
{
    if state.frames.len() == 0 {
        (state, closing_lines(settings, state))
    } else {
        let top = state.frames.last();
        let below = state.frames.drop_last();
        if top.next >= top.entries.len() {
            advanced(settings, WalkState { frames: below, ..state })
        } else {
            let entry = top.entries[top.next as int];
            let last = top.next == top.entries.len() - 1;
            let depth = below.len();
            let line = LineView::Entry {
                prefix: top.prefix,
                last,
                directory: entry.is_dir,
                name: entry.name,
                depth,
            };
            let frames = below.push(FrameView { next: top.next + 1, ..top });
            let counted = if entry.is_dir {
                WalkState { frames, dirs: state.dirs + 1, ..state }
            } else {
                WalkState { frames, files: state.files + 1, ..state }
            };
            if entry.is_dir && depth < settings.max_depth {
                let request = RequestView {
                    path: entry.path,
                    prefix: top.prefix + continuation(last),
                };
                (WalkState { awaiting: Some(request), ..counted }, seq![line])
            } else {
                let (end, more) = advanced(settings, counted);
                (end, seq![line] + more)
            }
        }
    }
}

/// The beginning of a walk: the line of the root, no directory open, and the
/// listing of the root asked for, whose children carry no prefix.
pub open spec fn started(root: Seq<char>) -> (WalkState, Seq<LineView>) {
    (
        WalkState {
            frames: Seq::<FrameView>::empty(),
            awaiting: Some(RequestView { path: root, prefix: Seq::<char>::empty() }),
            files: 0,
            dirs: 0,
        },
        seq![LineView::Root],
    )
}

/// One step of a walk: the state after the awaited listing was fed, and the
/// lines that follow from it.
///
/// Where no listing is awaited, nothing happens. Where the directory could
/// not be listed (`None`), one line says so, the directory stays closed, and
/// the walk goes on with what was open. Otherwise the directory is opened
/// with its surviving entries, and the walk goes on inside it.
pub open spec fn fed(settings: Settings, state: WalkState, listing: Option<Seq<EntryView>>) -> (
    WalkState,
    Seq<LineView>,
) {
    match state.awaiting {
        None => (state, Seq::<LineView>::empty()),
        Some(request) => {
            let resumed = WalkState { awaiting: None, ..state };
            match listing {
                None => {
                    let (end, more) = advanced(settings, resumed);
                    (end, seq![LineView::Failure { path: request.path }] + more)
                },
                Some(entries) => {
                    let opened = FrameView {
                        entries: surviving(settings, entries),
                        next: 0,
                        prefix: request.prefix,
                    };
                    advanced(settings, WalkState { frames: state.frames.push(opened), ..resumed })
                },
            }
        },
    }
}

/// The path that a state asks the listing of, if it asks for one.
pub open spec fn awaited_path(state: WalkState) -> Option<Seq<char>> {
    match state.awaiting {
        Some(request) => Some(request.path),
        None => None,
    }
}

/// The children of one open directory.
pub struct Frame {
    entries: Vec<Entry>,
    next: usize,
    prefix: String,
}

impl View for Frame {
    type V = FrameView;

    closed spec fn view(&self) -> FrameView {
        FrameView { entries: entry_views(self.entries@), next: self.next as nat, prefix: self.prefix@ }
    }
}

/// A directory whose listing is asked for.
pub struct Request {
    path: String,
    prefix: String,
}

impl View for Request {
    type V = RequestView;

    closed spec fn view(&self) -> RequestView {
        RequestView { path: self.path@, prefix: self.prefix@ }
    }
}

/// The running counts of a walk.
#[derive(Debug, PartialEq, Eq)]
pub struct TraversalState {
    /// How many files have been rendered.
    pub files: Counter,
    /// How many directories have been rendered.
    pub directories: Counter,
}

/// What one step of a walk hands out.
#[derive(Debug)]
pub struct Step {
    /// The lines to print, in order.
    pub lines: Vec<Line>,
    /// The path of the directory to list next; none once the walk is over.
    pub request: Option<String>,
}

/// The text of an optional string.
pub open spec fn path_view(path: Option<String>) -> Option<Seq<char>> {
    match path {
        Some(p) => Some(p@),
        None => None,
    }
}

/// A listing as mathematical values.
pub open spec fn listing_view(listing: Option<Vec<Entry>>) -> Option<Seq<EntryView>> {
    match listing {
        Some(entries) => Some(entry_views(entries@)),
        None => None,
    }
}

/// A walk in progress.
pub struct TreeWalker {
    max_depth: usize,
    dirs_only: bool,
    no_report: bool,
    policy: ExclusionPolicy,
    frames: Vec<Frame>,
    awaiting: Option<Request>,
    counts: TraversalState,
}

impl TreeWalker {
    /// What stays the same during this walk.
    pub closed spec fn settings(&self) -> Settings {
        Settings {
            max_depth: self.max_depth as nat,
            dirs_only: self.dirs_only,
            no_report: self.no_report,
            policy: self.policy@,
        }
    }

    /// The state of this walk.
    pub closed spec fn state(&self) -> WalkState {
        WalkState {
            frames: self.frames@.map_values(|frame: Frame| frame@),
            awaiting: match self.awaiting {
                Some(request) => Some(request@),
                None => None,
            },
            files: self.counts.files@,
            dirs: self.counts.directories@,
        }
    }

    /// Begins the walk of `config.root`: hands out the line of the root and
    /// asks for the listing of the root.
    pub fn start(config: &Config, gitignore_rules: &[String]) -> (begun: (TreeWalker, Step))
        ensures
            begun.0.settings() == settings_of(*config, gitignore_rules@),
            begun.0.state() == started(config.root@).0,
            line_views(begun.1.lines@) == started(config.root@).1,
            path_view(begun.1.request) == Some(config.root@),
            state_sound(begun.0.settings(), begun.0.state()),
            settled(begun.0.state()),
    {
        let walker = TreeWalker {
            max_depth: config.max_depth,
            dirs_only: config.dirs_only,
            no_report: config.no_report,
            policy: config.policy(gitignore_rules),
            frames: Vec::new(),
            awaiting: Some(Request { path: config.root.clone(), prefix: String::new() }),
            counts: TraversalState { files: Counter::new(), directories: Counter::new() },
        };
        let mut lines: Vec<Line> = Vec::new();
        lines.push(Line::Root);
        proof {
            assert(walker.state().frames == Seq::<FrameView>::empty());
        }
        (walker, Step { lines, request: Some(config.root.clone()) })
    }

    /// The entries of a listing that are shown.
    fn survivors(&self, listing: &Vec<Entry>) -> (kept: Vec<Entry>)
        ensures
            entry_views(kept@) == surviving(self.settings(), entry_views(listing@)),
    {
        let mut kept: Vec<Entry> = Vec::new();
        let mut i: usize = 0;
        let ghost settings = self.settings();
        let ghost keep = |entry: EntryView| survives(settings, entry);
        while i < listing.len()
            invariant
                i <= listing.len(),
                settings == self.settings(),
                keep == |entry: EntryView| survives(settings, entry),
                entry_views(kept@) == entry_views(listing@).take(i as int).filter(keep),
            decreases listing.len() - i,
        {
            let entry = &listing[i];
            proof {
                let seen = entry_views(listing@).take(i + 1);
                assert(seen.drop_last() == entry_views(listing@).take(i as int));
                reveal(Seq::filter);
            }
            if !self.policy.excluded(entry) && (!self.dirs_only || entry.is_dir) {
                kept.push(entry.clone());
            }
            i += 1;
        }
        proof {
            assert(entry_views(listing@).take(listing.len() as int) == entry_views(listing@));
        }
        kept
    }

    /// Goes on up to the next request or to the end, adding the lines on the
    /// way to `lines`.
    fn advance(&mut self, lines: &mut Vec<Line>)
        ensures
            final(self).settings() == old(self).settings(),
            final(self).state() == advanced(old(self).settings(), old(self).state()).0,
            line_views(final(lines)@) == line_views(old(lines)@) + advanced(
                old(self).settings(),
                old(self).state(),
            ).1,
    {
        let ghost settings = self.settings();
        let ghost goal = advanced(settings, self.state());
        let ghost drawn = line_views(lines@);
        loop
            invariant_except_break
                advanced(settings, self.state()).0 == goal.0,
                line_views(lines@) + advanced(settings, self.state()).1 == drawn + goal.1,
            invariant
                self.settings() == settings,
            ensures
                self.settings() == settings,
                self.state() == goal.0,
                line_views(lines@) == drawn + goal.1,
            decreases self.frames.len(), left_on_top(self.state().frames),
        {
            let ghost here = self.state();
            match self.frames.pop() {
                None => {
                    if !self.no_report {
                        lines.push(
                            Line::Summary {
                                directories: self.counts.directories.clone(),
                                files: self.counts.files.clone(),
                            },
                        );
                    }
                    break ;
                },
                Some(top) => {
                    let ghost below = here.frames.drop_last();
                    proof {
                        assert(self.state().frames == below);
                    }
                    if top.next >= top.entries.len() {
                        continue ;
                    }
                    let depth: usize = self.frames.len();
                    let last = top.next == top.entries.len() - 1;
                    let entry = &top.entries[top.next];
                    let directory = entry.is_dir;
                    lines.push(
                        Line::Entry {
                            prefix: top.prefix.clone(),
                            last,
                            directory,
                            name: entry.name.clone(),
                            depth,
                        },
                    );
                    let descend = directory && depth < self.max_depth;
                    if descend {
                        let mut prefix = top.prefix.clone();
                        prefix.append(continuation_of(last));
                        self.awaiting = Some(Request { path: entry.path.clone(), prefix });
                    }
                    let ghost raised = FrameView { next: (top.next + 1) as nat, ..top@ };
                    let frame = Frame {
                        entries: top.entries,
                        next: top.next + 1,
                        prefix: top.prefix,
                    };
                    self.frames.push(frame);
                    if directory {
                        self.counts.directories.increment();
                    } else {
                        self.counts.files.increment();
                    }
                    proof {
                        assert(self.state().frames == below.push(raised));
                    }
                    if descend {
                        break ;
                    }
                },
            }
        }
    }

    /// Feeds the listing that was asked for: the entries found in the
    /// directory, or `None` where it could not be read. Hands out the lines
    /// that follow and the next directory to list. Once the walk is over a
    /// listing is ignored: the step is empty and nothing changes.
    pub fn feed(&mut self, listing: Option<Vec<Entry>>) -> (step: Step)
        ensures
            final(self).settings() == old(self).settings(),
            final(self).state() == fed(
                old(self).settings(),
                old(self).state(),
                listing_view(listing),
            ).0,
            line_views(step.lines@) == fed(
                old(self).settings(),
                old(self).state(),
                listing_view(listing),
            ).1,
            path_view(step.request) == awaited_path(final(self).state()),
            state_sound(old(self).settings(), old(self).state()) && settled(old(self).state())
                ==> state_sound(final(self).settings(), final(self).state()) && settled(
                final(self).state(),
            ),
    {
        proof {
            if state_sound(self.settings(), self.state()) && settled(self.state()) {
                lemma_fed(self.settings(), self.state(), listing_view(listing));
            }
        }
        let mut lines: Vec<Line> = Vec::new();
        let ghost before = self.state();
        match self.awaiting.take() {
            None => {
                return Step { lines, request: None };
            },
            Some(request) => {
                match listing {
                    None => {
                        lines.push(Line::Failure { path: request.path });
                    },
                    Some(entries) => {
                        let kept = self.survivors(&entries);
                        let frame = Frame { entries: kept, next: 0, prefix: request.prefix };
                        let ghost opened = frame@;
                        self.frames.push(frame);
                        proof {
                            assert(self.state().frames == before.frames.push(opened));
                        }
                    },
                }
                self.advance(&mut lines);
            },
        }
        let request = match &self.awaiting {
            Some(request) => Some(request.path.clone()),
            None => None,
        };
        Step { lines, request }
    }

    /// The running counts.
    pub fn counts(&self) -> (counts: &TraversalState)
        ensures
            counts.files@ == self.state().files,
            counts.directories@ == self.state().dirs,
    {
        &self.counts
    }

    /// How many directories are open: the depth at which the next entries
    /// will be rendered.
    pub fn depth(&self) -> (depth: usize)
        ensures
            depth == self.state().frames.len(),
    {
        self.frames.len()
    }
}

} // verus!
