//! What holds of every walk, whatever the listings that are fed.

use crate::entry::EntryView;
use crate::exclusion::PolicyView;
use crate::pattern::PatternView;
use crate::render::{continuation, LineView};
use crate::walker::{
    advanced, fed, left_on_top, started, survives, surviving, FrameView, Settings, WalkState,
};
use vstd::prelude::*;

verus! {

/// A whole walk: it begins at `root` and is fed the given listings one after
/// the other. Gives the state it arrives in and all lines handed out.
pub open spec fn walk(
    settings: Settings,
    root: Seq<char>,
    listings: Seq<Option<Seq<EntryView>>>,
) -> (WalkState, Seq<LineView>)
    decreases listings.len(),
{
    if listings.len() == 0 {
        started(root)
    } else {
        let (state, lines) = walk(settings, root, listings.drop_last());
        let (next, more) = fed(settings, state, listings.last());
        (next, lines + more)
    }
}

/// The line of a directory.
pub open spec fn is_directory_line(line: LineView) -> bool {
    line matches LineView::Entry { directory, .. } && directory
}

/// The line of a file.
pub open spec fn is_file_line(line: LineView) -> bool {
    line matches LineView::Entry { directory, .. } && !directory
}

/// The line of an entry that is the last of its siblings: the one drawn
/// with the corner glyph.
pub open spec fn is_corner_line(line: LineView) -> bool {
    line matches LineView::Entry { last, .. } && last
}

/// How many of the lines are lines of directories.
pub open spec fn directory_lines(lines: Seq<LineView>) -> nat {
    lines.filter(|line: LineView| is_directory_line(line)).len()
}

/// How many of the lines are lines of files.
pub open spec fn file_lines(lines: Seq<LineView>) -> nat {
    lines.filter(|line: LineView| is_file_line(line)).len()
}

/// How many of the lines are drawn with the corner glyph.
pub open spec fn corner_lines(lines: Seq<LineView>) -> nat {
    lines.filter(|line: LineView| is_corner_line(line)).len()
}

/// No closing report is among the lines.
pub open spec fn no_report_in(lines: Seq<LineView>) -> bool {
    forall|k: int| 0 <= k < lines.len() ==> !((#[trigger] lines[k]) is Summary)
}

/// A group of siblings that is not rendered to its end.
pub open spec fn is_open(frame: FrameView) -> bool {
    frame.next < frame.entries.len()
}

/// How many of the open directories have children still to render.
pub open spec fn open_groups(frames: Seq<FrameView>) -> nat {
    frames.filter(|frame: FrameView| is_open(frame)).len()
}

/// How many groups of siblings a walk has opened: the listings that were
/// awaited, could be read, and held an entry that is shown.
pub open spec fn groups_opened(
    settings: Settings,
    root: Seq<char>,
    listings: Seq<Option<Seq<EntryView>>>,
) -> nat
    decreases listings.len(),
{
    if listings.len() == 0 {
        0
    } else {
        let before = groups_opened(settings, root, listings.drop_last());
        let state = walk(settings, root, listings.drop_last()).0;
        if state.awaiting is Some && opens_group(settings, listings.last()) {
            before + 1
        } else {
            before
        }
    }
}

/// Whether a listing holds an entry that is shown.
pub open spec fn opens_group(settings: Settings, listing: Option<Seq<EntryView>>) -> bool {
    listing matches Some(entries) && surviving(settings, entries).len() > 0
}

/// What holds of every line of a walk:
/// - an entry lies no deeper than the maximum depth;
/// - its prefix is four characters for each level above it;
/// - it is not hidden, unless hidden entries are shown;
/// - it is a directory, where only directories are shown.
pub open spec fn line_sound(settings: Settings, line: LineView) -> bool {
    line matches LineView::Entry { prefix, last, directory, name, depth } ==> {
        &&& depth <= settings.max_depth
        &&& prefix.len() == 4 * depth
        &&& !settings.policy.show_hidden ==> !(name.len() > 0 && name[0] == '.')
        &&& settings.dirs_only ==> directory
    }
}

/// What holds of every open directory: the count of its rendered children
/// is within the group, every child of the group is one that is shown, and
/// the prefix is four characters for each level above.
pub open spec fn frame_sound(settings: Settings, frame: FrameView, depth: int) -> bool {
    &&& frame.next <= frame.entries.len()
    &&& frame.prefix.len() == 4 * depth
    &&& forall|k: int| 0 <= k < frame.entries.len() ==> survives(settings, #[trigger] frame.entries[k])
}

/// What holds of every state of a walk: each open directory is sound, no
/// more directories are open than the maximum depth allows, and a listing is
/// asked for only where its entries will lie within the maximum depth.
pub open spec fn state_sound(settings: Settings, state: WalkState) -> bool {
    &&& forall|d: int|
        0 <= d < state.frames.len() ==> frame_sound(settings, #[trigger] state.frames[d], d)
    &&& state.frames.len() <= settings.max_depth + 1
    &&& state.awaiting matches Some(request) ==> {
        &&& state.frames.len() <= settings.max_depth
        &&& request.prefix.len() == 4 * state.frames.len()
    }
}

/// All lines are sound.
pub open spec fn lines_sound(settings: Settings, lines: Seq<LineView>) -> bool {
    forall|k: int| 0 <= k < lines.len() ==> line_sound(settings, #[trigger] lines[k])
}

/// Every closing report among the lines states the given counts.
pub open spec fn reports_state(lines: Seq<LineView>, dirs: nat, files: nat) -> bool {
    forall|k: int|
        0 <= k < lines.len() ==> ((#[trigger] lines[k]) matches LineView::Summary {
            directories,
            files: reported,
        } ==> directories == dirs && reported == files)
}

/// The continuation glyphs are four characters wide.
pub proof fn lemma_continuation_width(last: bool)
    ensures
        continuation(last).len() == 4,
{
    reveal_strlit("    ");
    reveal_strlit("│   ");
}

/// Counting over one line and what follows it.
pub proof fn lemma_count_first(line: LineView, more: Seq<LineView>, pred: spec_fn(LineView) -> bool)
    ensures
        (seq![line] + more).filter(pred).len() == more.filter(pred).len() + if pred(line) {
            1nat
        } else {
            0nat
        },
{
    reveal_with_fuel(Seq::filter, 2);
}

/// The open groups among the frames below an added frame.
pub proof fn lemma_open_groups_push(below: Seq<FrameView>, top: FrameView)
    ensures
        open_groups(below.push(top)) == open_groups(below) + if is_open(top) {
            1nat
        } else {
            0nat
        },
{
    let all = below.push(top);
    assert(all.drop_last() == below);
    reveal(Seq::filter);
}

/// What one stretch of a walk, from a sound state in which no listing is
/// awaited up to the next request or to the end, keeps and adds.
pub proof fn lemma_advanced(settings: Settings, state: WalkState)
    requires
        state_sound(settings, state),
        state.awaiting is None,
    ensures
        ({
            let (end, lines) = advanced(settings, state);
            &&& state_sound(settings, end)
            &&& lines_sound(settings, lines)
            &&& end.dirs == state.dirs + directory_lines(lines)
            &&& end.files == state.files + file_lines(lines)
            &&& corner_lines(lines) + open_groups(end.frames) == open_groups(state.frames)
            &&& end.awaiting is None ==> end.frames.len() == 0
            &&& reports_state(lines, end.dirs, end.files)
            &&& end.awaiting is Some || settings.no_report ==> no_report_in(lines)
        }),
    decreases state.frames.len(), left_on_top(state.frames),
{
    let is_dir = |line: LineView| is_directory_line(line);
    let is_file = |line: LineView| is_file_line(line);
    let is_corner = |line: LineView| is_corner_line(line);
    if state.frames.len() == 0 {
        reveal_with_fuel(Seq::filter, 2);
    } else {
        let top = state.frames.last();
        let below = state.frames.drop_last();
        assert(state.frames == below.push(top));
        lemma_open_groups_push(below, top);
        if top.next >= top.entries.len() {
            let popped = WalkState { frames: below, ..state };
            lemma_advanced(settings, popped);
        } else {
            let entry = top.entries[top.next as int];
            let last = top.next == top.entries.len() - 1;
            let depth = below.len();
            let line = LineView::Entry {
                prefix: top.prefix,
                last,
                directory: entry.is_dir,
                name: entry.name,
                depth,
            };
            let raised = FrameView { next: top.next + 1, ..top };
            let frames = below.push(raised);
            lemma_open_groups_push(below, raised);
            let counted = if entry.is_dir {
                WalkState { frames, dirs: state.dirs + 1, ..state }
            } else {
                WalkState { frames, files: state.files + 1, ..state }
            };
            if entry.is_dir && depth < settings.max_depth {
                lemma_continuation_width(last);
                reveal_with_fuel(Seq::filter, 2);
            } else {
                lemma_advanced(settings, counted);
                let more = advanced(settings, counted).1;
                lemma_count_first(line, more, is_dir);
                lemma_count_first(line, more, is_file);
                lemma_count_first(line, more, is_corner);
            }
        }
    }
}

/// Where no line meets a condition, none is counted.
pub proof fn lemma_count_none(lines: Seq<LineView>, pred: spec_fn(LineView) -> bool)
    requires
        forall|k: int| 0 <= k < lines.len() ==> !pred(#[trigger] lines[k]),
    ensures
        lines.filter(pred).len() == 0,
    decreases lines.len(),
{
    reveal(Seq::filter);
    if lines.len() > 0 {
        let shorter = lines.drop_last();
        lemma_count_none(shorter, pred);
    }
}

/// A walk is over where it awaits no listing: then no directory is open.
pub open spec fn settled(state: WalkState) -> bool {
    state.awaiting is None ==> state.frames.len() == 0
}

/// What one step of a walk keeps and adds, from a sound state.
pub proof fn lemma_fed(settings: Settings, state: WalkState, listing: Option<Seq<EntryView>>)
    requires
        state_sound(settings, state),
        settled(state),
    ensures
        ({
            let (end, lines) = fed(settings, state, listing);
            &&& state_sound(settings, end)
            &&& settled(end)
            &&& lines_sound(settings, lines)
            &&& end.dirs == state.dirs + directory_lines(lines)
            &&& end.files == state.files + file_lines(lines)
            &&& corner_lines(lines) + open_groups(end.frames) == open_groups(state.frames)
                + if state.awaiting is Some && opens_group(settings, listing) {
                1nat
            } else {
                0nat
            }
            &&& reports_state(lines, end.dirs, end.files)
            &&& end.awaiting is Some || settings.no_report ==> no_report_in(lines)
            &&& state.awaiting is None ==> end == state && lines.len() == 0
        }),
{
    let is_dir = |line: LineView| is_directory_line(line);
    let is_file = |line: LineView| is_file_line(line);
    let is_corner = |line: LineView| is_corner_line(line);
    match state.awaiting {
        None => {},
        Some(request) => {
            let resumed = WalkState { awaiting: None, ..state };
            match listing {
                None => {
                    lemma_advanced(settings, resumed);
                    let more = advanced(settings, resumed).1;
                    let failure = LineView::Failure { path: request.path };
                    lemma_count_first(failure, more, is_dir);
                    lemma_count_first(failure, more, is_file);
                    lemma_count_first(failure, more, is_corner);
                },
                Some(entries) => {
                    let kept = surviving(settings, entries);
                    let opened = FrameView { entries: kept, next: 0, prefix: request.prefix };
                    let frames = state.frames.push(opened);
                    let entered = WalkState { frames, ..resumed };
                    lemma_open_groups_push(state.frames, opened);
                    lemma_advanced(settings, entered);
                },
            }
        },
    }
}

/// What holds at every point of every walk.
pub proof fn lemma_walk(settings: Settings, root: Seq<char>, listings: Seq<Option<Seq<EntryView>>>)
    ensures
        ({
            let (state, lines) = walk(settings, root, listings);
            &&& state_sound(settings, state)
            &&& settled(state)
            &&& lines_sound(settings, lines)
            &&& state.dirs == directory_lines(lines)
            &&& state.files == file_lines(lines)
            &&& corner_lines(lines) + open_groups(state.frames) == groups_opened(
                settings,
                root,
                listings,
            )
            &&& reports_state(lines, state.dirs, state.files)
            &&& state.awaiting is Some || settings.no_report ==> no_report_in(lines)
        }),
    decreases listings.len(),
{
    let (state, lines) = walk(settings, root, listings);
    let is_dir = |line: LineView| is_directory_line(line);
    let is_file = |line: LineView| is_file_line(line);
    let is_corner = |line: LineView| is_corner_line(line);
    if listings.len() == 0 {
        lemma_count_none(lines, is_dir);
        lemma_count_none(lines, is_file);
        lemma_count_none(lines, is_corner);
    } else {
        let earlier = listings.drop_last();
        let before = walk(settings, root, earlier).0;
        lemma_walk(settings, root, earlier);
        lemma_fed(settings, before, listings.last());
    }
}

/// The counts never go down on the way to the next request.
pub proof fn lemma_advanced_counts_grow(settings: Settings, state: WalkState)
    ensures
        advanced(settings, state).0.files >= state.files,
        advanced(settings, state).0.dirs >= state.dirs,
    decreases state.frames.len(), left_on_top(state.frames),
{
    if state.frames.len() > 0 {
        let top = state.frames.last();
        let below = state.frames.drop_last();
        if top.next >= top.entries.len() {
            lemma_advanced_counts_grow(settings, WalkState { frames: below, ..state });
        } else {
            let entry = top.entries[top.next as int];
            let frames = below.push(FrameView { next: top.next + 1, ..top });
            let counted = if entry.is_dir {
                WalkState { frames, dirs: state.dirs + 1, ..state }
            } else {
                WalkState { frames, files: state.files + 1, ..state }
            };
            if !(entry.is_dir && below.len() < settings.max_depth) {
                lemma_advanced_counts_grow(settings, counted);
            }
        }
    }
}

/// The counts never go down: no step of a walk, from whatever state and on
/// whatever listing, lowers the count of files or of directories.
pub proof fn counts_never_decrease(
    settings: Settings,
    state: WalkState,
    listing: Option<Seq<EntryView>>,
)
    ensures
        fed(settings, state, listing).0.files >= state.files,
        fed(settings, state, listing).0.dirs >= state.dirs,
{
    match state.awaiting {
        None => {},
        Some(request) => {
            let resumed = WalkState { awaiting: None, ..state };
            match listing {
                None => {
                    lemma_advanced_counts_grow(settings, resumed);
                },
                Some(entries) => {
                    let opened = FrameView {
                        entries: surviving(settings, entries),
                        next: 0,
                        prefix: request.prefix,
                    };
                    lemma_advanced_counts_grow(
                        settings,
                        WalkState { frames: state.frames.push(opened), ..resumed },
                    );
                },
            }
        },
    }
}

/// No entry is rendered below the maximum depth, and none at the maximum
/// depth is opened: a listing is asked for only where its entries will lie
/// within the maximum depth. The prefix of an entry is four characters for
/// each level above it.
pub proof fn walk_stays_within_depth(
    settings: Settings,
    root: Seq<char>,
    listings: Seq<Option<Seq<EntryView>>>,
)
    ensures
        ({
            let (state, lines) = walk(settings, root, listings);
            &&& forall|k: int|
                0 <= k < lines.len() ==> ((#[trigger] lines[k]) matches LineView::Entry {
                    prefix,
                    depth,
                    ..
                } ==> depth <= settings.max_depth && prefix.len() == 4 * depth)
            &&& state.frames.len() <= settings.max_depth + 1
            &&& state.awaiting is Some ==> state.frames.len() <= settings.max_depth
        }),
{
    lemma_walk(settings, root, listings);
}

/// The two counts are the numbers of directories and of files rendered so
/// far, whatever was listed and in whatever order, and a closing report
/// states just these.
pub proof fn walk_counts_what_it_renders(
    settings: Settings,
    root: Seq<char>,
    listings: Seq<Option<Seq<EntryView>>>,
)
    ensures
        ({
            let (state, lines) = walk(settings, root, listings);
            &&& state.dirs == directory_lines(lines)
            &&& state.files == file_lines(lines)
            &&& forall|k: int|
                0 <= k < lines.len() ==> ((#[trigger] lines[k]) matches LineView::Summary {
                    directories,
                    files,
                } ==> directories == directory_lines(lines) && files == file_lines(lines))
        }),
{
    lemma_walk(settings, root, listings);
}

/// Unless hidden entries are shown, no entry whose name begins with a dot
/// is rendered, whatever the patterns are.
pub proof fn walk_shows_no_hidden_entry(
    settings: Settings,
    root: Seq<char>,
    listings: Seq<Option<Seq<EntryView>>>,
)
    requires
        !settings.policy.show_hidden,
    ensures
        ({
            let lines = walk(settings, root, listings).1;
            forall|k: int|
                0 <= k < lines.len() ==> ((#[trigger] lines[k]) matches LineView::Entry {
                    name,
                    ..
                } ==> !(name.len() > 0 && name[0] == '.'))
        }),
{
    lemma_walk(settings, root, listings);
}

/// Where only directories are shown, no file is rendered, the count of
/// files stays at zero, and a closing report states zero files.
pub proof fn walk_of_directories_renders_no_file(
    settings: Settings,
    root: Seq<char>,
    listings: Seq<Option<Seq<EntryView>>>,
)
    requires
        settings.dirs_only,
    ensures
        ({
            let (state, lines) = walk(settings, root, listings);
            &&& forall|k: int| 0 <= k < lines.len() ==> !is_file_line(#[trigger] lines[k])
            &&& file_lines(lines) == 0
            &&& state.files == 0
            &&& forall|k: int|
                0 <= k < lines.len() ==> ((#[trigger] lines[k]) matches LineView::Summary {
                    files,
                    ..
                } ==> files == 0)
        }),
{
    lemma_walk(settings, root, listings);
    let lines = walk(settings, root, listings).1;
    lemma_count_none(lines, |line: LineView| is_file_line(line));
}

/// Each group of siblings is closed by one corner glyph: the lines drawn
/// with it and the groups that are still open are together as many as the
/// groups that were opened. Once the walk is over there are as many corner
/// glyphs as groups.
pub proof fn walk_draws_one_corner_per_group(
    settings: Settings,
    root: Seq<char>,
    listings: Seq<Option<Seq<EntryView>>>,
)
    ensures
        ({
            let (state, lines) = walk(settings, root, listings);
            &&& corner_lines(lines) + open_groups(state.frames) == groups_opened(
                settings,
                root,
                listings,
            )
            &&& state.awaiting is None ==> corner_lines(lines) == groups_opened(
                settings,
                root,
                listings,
            )
        }),
{
    lemma_walk(settings, root, listings);
}

/// Two settings under which every walk is the same: they agree on the
/// maximum depth, on the report, and on which entries are shown.
pub open spec fn walk_alike(one: Settings, other: Settings) -> bool {
    &&& one.max_depth == other.max_depth
    &&& one.no_report == other.no_report
    &&& forall|entry: EntryView| #[trigger] survives(one, entry) == survives(other, entry)
}

/// Settings that walk alike keep the same entries of a listing.
pub proof fn lemma_surviving_alike(one: Settings, other: Settings, listing: Seq<EntryView>)
    requires
        walk_alike(one, other),
    ensures
        surviving(one, listing) == surviving(other, listing),
    decreases listing.len(),
{
    reveal(Seq::filter);
    if listing.len() > 0 {
        lemma_surviving_alike(one, other, listing.drop_last());
    }
}

/// Settings that walk alike go the same way to the next request.
pub proof fn lemma_advanced_alike(one: Settings, other: Settings, state: WalkState)
    requires
        walk_alike(one, other),
    ensures
        advanced(one, state) == advanced(other, state),
    decreases state.frames.len(), left_on_top(state.frames),
{
    if state.frames.len() > 0 {
        let top = state.frames.last();
        let below = state.frames.drop_last();
        if top.next >= top.entries.len() {
            lemma_advanced_alike(one, other, WalkState { frames: below, ..state });
        } else {
            let entry = top.entries[top.next as int];
            let frames = below.push(FrameView { next: top.next + 1, ..top });
            let counted = if entry.is_dir {
                WalkState { frames, dirs: state.dirs + 1, ..state }
            } else {
                WalkState { frames, files: state.files + 1, ..state }
            };
            if !(entry.is_dir && below.len() < one.max_depth) {
                lemma_advanced_alike(one, other, counted);
            }
        }
    }
}

/// Settings that walk alike give the same walk on the same listings.
pub proof fn lemma_walk_alike(
    one: Settings,
    other: Settings,
    root: Seq<char>,
    listings: Seq<Option<Seq<EntryView>>>,
)
    requires
        walk_alike(one, other),
    ensures
        walk(one, root, listings) == walk(other, root, listings),
    decreases listings.len(),
{
    if listings.len() > 0 {
        lemma_walk_alike(one, other, root, listings.drop_last());
        let state = walk(one, root, listings.drop_last()).0;
        match state.awaiting {
            None => {},
            Some(request) => {
                let resumed = WalkState { awaiting: None, ..state };
                match listings.last() {
                    None => {
                        lemma_advanced_alike(one, other, resumed);
                    },
                    Some(entries) => {
                        lemma_surviving_alike(one, other, entries);
                        let opened = FrameView {
                            entries: surviving(one, entries),
                            next: 0,
                            prefix: request.prefix,
                        };
                        lemma_advanced_alike(
                            one,
                            other,
                            WalkState { frames: state.frames.push(opened), ..resumed },
                        );
                    },
                }
            },
        }
    }
}

/// Showing what the ignore file names gives the walk that there would be
/// without any rule of the ignore file, line for line.
pub proof fn walk_including_gitignore_ignores_rules(
    settings: Settings,
    root: Seq<char>,
    listings: Seq<Option<Seq<EntryView>>>,
)
    requires
        settings.policy.include_gitignore,
    ensures
        walk(settings, root, listings) == walk(
            Settings {
                policy: PolicyView { gitignore: Seq::<PatternView>::empty(), ..settings.policy },
                ..settings
            },
            root,
            listings,
        ),
{
    let bare = Settings {
        policy: PolicyView { gitignore: Seq::<PatternView>::empty(), ..settings.policy },
        ..settings
    };
    lemma_walk_alike(settings, bare, root, listings);
}

} // verus!
