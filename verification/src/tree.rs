//! The lines of a whole tree, stated in one piece, and the proof that a walk
//! which is fed from a file system draws exactly them.

use crate::entry::EntryView;
use crate::invariants::{
    directory_lines, file_lines, is_directory_line, is_file_line, lemma_count_first, lemma_walk,
    lines_sound, no_report_in, reports_state, walk,
};
use crate::render::{continuation, LineView};
use crate::walker::{advanced, fed, started, surviving, FrameView, Settings, WalkState};
use vstd::prelude::*;

verus! {

/// The lines of a group of siblings from its entry at position `from` on:
/// of each entry its own line, then, where it is a directory above the
/// maximum depth, the lines of what lies in it, then the lines of the
/// siblings that follow. `files` gives the listing of a path, or nothing for
/// a directory that cannot be read, of which one line tells.
pub open spec fn group_lines(
    settings: Settings,
    files: spec_fn(Seq<char>) -> Option<Seq<EntryView>>,
    group: Seq<EntryView>,
    from: nat,
    prefix: Seq<char>,
    depth: nat,
) -> Seq<LineView>
    decreases settings.max_depth - depth, group.len() - from,
{
    if from >= group.len() {
        Seq::<LineView>::empty()
    } else {
        let entry = group[from as int];
        let last = from == group.len() - 1;
        let line = LineView::Entry {
            prefix,
            last,
            directory: entry.is_dir,
            name: entry.name,
            depth,
        };
        let inside = if entry.is_dir && depth < settings.max_depth {
            match files(entry.path) {
                None => seq![LineView::Failure { path: entry.path }],
                Some(listing) => group_lines(
                    settings,
                    files,
                    surviving(settings, listing),
                    0,
                    prefix + continuation(last),
                    depth + 1,
                ),
            }
        } else {
            Seq::<LineView>::empty()
        };
        seq![line] + inside + group_lines(settings, files, group, from + 1, prefix, depth)
    }
}

/// How many listings are asked for while a group of siblings is drawn from
/// its entry at position `from` on.
pub open spec fn group_requests(
    settings: Settings,
    files: spec_fn(Seq<char>) -> Option<Seq<EntryView>>,
    group: Seq<EntryView>,
    from: nat,
    depth: nat,
) -> nat
    decreases settings.max_depth - depth, group.len() - from,
{
    if from >= group.len() {
        0
    } else {
        let entry = group[from as int];
        let inside = if entry.is_dir && depth < settings.max_depth {
            match files(entry.path) {
                None => 1nat,
                Some(listing) => 1 + group_requests(
                    settings,
                    files,
                    surviving(settings, listing),
                    0,
                    depth + 1,
                ),
            }
        } else {
            0nat
        };
        inside + group_requests(settings, files, group, from + 1, depth)
    }
}

/// The lines below the root: those of its surviving children, or the one
/// line that tells that the root cannot be read.
pub open spec fn root_lines(
    settings: Settings,
    files: spec_fn(Seq<char>) -> Option<Seq<EntryView>>,
    root: Seq<char>,
) -> Seq<LineView> {
    match files(root) {
        None => seq![LineView::Failure { path: root }],
        Some(listing) => group_lines(
            settings,
            files,
            surviving(settings, listing),
            0,
            Seq::<char>::empty(),
            0,
        ),
    }
}

/// All lines of the tree at `root`: the line of the root, the lines below
/// it, and the report of how many directories and files are among them,
/// unless it is switched off.
pub open spec fn tree_lines(
    settings: Settings,
    files: spec_fn(Seq<char>) -> Option<Seq<EntryView>>,
    root: Seq<char>,
) -> Seq<LineView> {
    let below = root_lines(settings, files, root);
    let report = if settings.no_report {
        Seq::<LineView>::empty()
    } else {
        seq![
            LineView::Summary { directories: directory_lines(below), files: file_lines(below) },
        ]
    };
    seq![LineView::Root] + below + report
}

/// How many listings the walk of the tree at `root` asks for.
pub open spec fn tree_requests(
    settings: Settings,
    files: spec_fn(Seq<char>) -> Option<Seq<EntryView>>,
    root: Seq<char>,
) -> nat {
    match files(root) {
        None => 1,
        Some(listing) => 1 + group_requests(settings, files, surviving(settings, listing), 0, 0),
    }
}

/// What the file system answers to the request of a state.
pub open spec fn answer(
    files: spec_fn(Seq<char>) -> Option<Seq<EntryView>>,
    state: WalkState,
) -> Option<Seq<EntryView>> {
    match state.awaiting {
        Some(request) => files(request.path),
        None => None,
    }
}

/// A walk from `state` through `steps` steps, each fed with what the file
/// system answers to the request before it.
pub open spec fn driven(
    settings: Settings,
    files: spec_fn(Seq<char>) -> Option<Seq<EntryView>>,
    state: WalkState,
    steps: nat,
) -> (WalkState, Seq<LineView>)
    decreases steps,
{
    if steps == 0 {
        (state, Seq::<LineView>::empty())
    } else {
        let (reached, lines) = driven(settings, files, state, (steps - 1) as nat);
        let (next, more) = fed(settings, reached, answer(files, reached));
        (next, lines + more)
    }
}

/// The listings that the file system answers to the first `steps` requests
/// of the walk at `root`.
pub open spec fn answers(
    settings: Settings,
    files: spec_fn(Seq<char>) -> Option<Seq<EntryView>>,
    root: Seq<char>,
    steps: nat,
) -> Seq<Option<Seq<EntryView>>>
    decreases steps,
{
    if steps == 0 {
        Seq::<Option<Seq<EntryView>>>::empty()
    } else {
        let earlier = answers(settings, files, root, (steps - 1) as nat);
        earlier.push(answer(files, walk(settings, root, earlier).0))
    }
}

/// Steps taken one after the other add up.
pub proof fn lemma_driven_add(
    settings: Settings,
    files: spec_fn(Seq<char>) -> Option<Seq<EntryView>>,
    state: WalkState,
    first: nat,
    second: nat,
)
    ensures
        ({
            let (middle, lines) = driven(settings, files, state, first);
            let (end, more) = driven(settings, files, middle, second);
            driven(settings, files, state, first + second) == (end, lines + more)
        }),
    decreases second,
{
    if second > 0 {
        let shorter = (second - 1) as nat;
        lemma_driven_add(settings, files, state, first, shorter);
    }
}

/// One step and then more steps.
pub proof fn lemma_driven_first(
    settings: Settings,
    files: spec_fn(Seq<char>) -> Option<Seq<EntryView>>,
    state: WalkState,
    steps: nat,
)
    ensures
        ({
            let (next, lines) = fed(settings, state, answer(files, state));
            let (end, more) = driven(settings, files, next, steps);
            driven(settings, files, state, 1 + steps) == (end, lines + more)
        }),
{
    lemma_driven_add(settings, files, state, 1, steps);
    assert(driven(settings, files, state, 0) == (state, Seq::<LineView>::empty()));
}

/// A walk that has a group of siblings open, its first `from` entries
/// drawn, and that is fed from the file system as often as the rest of the
/// group asks, draws the lines of the rest, counts them, closes the group,
/// and goes on as a walk does that has just closed it.
pub open spec fn draws_group(
    settings: Settings,
    files: spec_fn(Seq<char>) -> Option<Seq<EntryView>>,
    below: Seq<FrameView>,
    group: Seq<EntryView>,
    from: nat,
    prefix: Seq<char>,
    counted_files: nat,
    counted_dirs: nat,
) -> bool {
    let depth = below.len();
    let open = WalkState {
        frames: below.push(FrameView { entries: group, next: from, prefix }),
        awaiting: None,
        files: counted_files,
        dirs: counted_dirs,
    };
    let lines = group_lines(settings, files, group, from, prefix, depth);
    let closed = WalkState {
        frames: below,
        awaiting: None,
        files: counted_files + file_lines(lines),
        dirs: counted_dirs + directory_lines(lines),
    };
    let (asked, first) = advanced(settings, open);
    let (end, more) = driven(
        settings,
        files,
        asked,
        group_requests(settings, files, group, from, depth),
    );
    &&& end == advanced(settings, closed).0
    &&& first + more == lines + advanced(settings, closed).1
}

/// A group all of whose entries are drawn is closed.
proof fn lemma_group_done(
    settings: Settings,
    files: spec_fn(Seq<char>) -> Option<Seq<EntryView>>,
    below: Seq<FrameView>,
    group: Seq<EntryView>,
    from: nat,
    prefix: Seq<char>,
    counted_files: nat,
    counted_dirs: nat,
)
    requires
        from >= group.len(),
    ensures
        draws_group(settings, files, below, group, from, prefix, counted_files, counted_dirs),
{
    let frame = FrameView { entries: group, next: from, prefix };
    let open = WalkState {
        frames: below.push(frame),
        awaiting: None,
        files: counted_files,
        dirs: counted_dirs,
    };
    assert(open.frames.drop_last() == below);
}

/// An entry that is not opened: its line, then the rest of the group.
proof fn lemma_group_leaf(
    settings: Settings,
    files: spec_fn(Seq<char>) -> Option<Seq<EntryView>>,
    below: Seq<FrameView>,
    group: Seq<EntryView>,
    from: nat,
    prefix: Seq<char>,
    counted_files: nat,
    counted_dirs: nat,
)
    requires
        from < group.len(),
        !(group[from as int].is_dir && below.len() < settings.max_depth),
        draws_group(
            settings,
            files,
            below,
            group,
            from + 1,
            prefix,
            if group[from as int].is_dir {
                counted_files
            } else {
                counted_files + 1
            },
            if group[from as int].is_dir {
                counted_dirs + 1
            } else {
                counted_dirs
            },
        ),
    ensures
        draws_group(settings, files, below, group, from, prefix, counted_files, counted_dirs),
{
    let depth = below.len();
    let frame = FrameView { entries: group, next: from, prefix };
    let open = WalkState {
        frames: below.push(frame),
        awaiting: None,
        files: counted_files,
        dirs: counted_dirs,
    };
    let lines = group_lines(settings, files, group, from, prefix, depth);
    let requests = group_requests(settings, files, group, from, depth);
    let (asked, first) = advanced(settings, open);
    let more = driven(settings, files, asked, requests).1;
    assert(open.frames.drop_last() == below);
    let entry = group[from as int];
    let last = from == group.len() - 1;
    let line = LineView::Entry { prefix, last, directory: entry.is_dir, name: entry.name, depth };
    let raised = FrameView { next: from + 1, ..frame };
    let frames = below.push(raised);
    let rest = group_lines(settings, files, group, from + 1, prefix, depth);
    let counted = if entry.is_dir {
        WalkState { frames, dirs: counted_dirs + 1, ..open }
    } else {
        WalkState { frames, files: counted_files + 1, ..open }
    };
    let counted_lines = advanced(settings, counted).1;
    lemma_count_first(line, rest, |line: LineView| is_directory_line(line));
    lemma_count_first(line, rest, |line: LineView| is_file_line(line));
    let closed_rest = WalkState {
        frames: below,
        awaiting: None,
        files: counted.files + file_lines(rest),
        dirs: counted.dirs + directory_lines(rest),
    };
    let after = advanced(settings, closed_rest).1;
    assert(first + more == seq![line] + (counted_lines + more));
    assert(lines + after == seq![line] + (rest + after));
}

/// A directory that cannot be read: its line, the line that tells of the
/// failure, then the rest of the group.
proof fn lemma_group_unread(
    settings: Settings,
    files: spec_fn(Seq<char>) -> Option<Seq<EntryView>>,
    below: Seq<FrameView>,
    group: Seq<EntryView>,
    from: nat,
    prefix: Seq<char>,
    counted_files: nat,
    counted_dirs: nat,
)
    requires
        from < group.len(),
        group[from as int].is_dir,
        below.len() < settings.max_depth,
        files(group[from as int].path) is None,
        draws_group(settings, files, below, group, from + 1, prefix, counted_files, counted_dirs + 1),
    ensures
        draws_group(settings, files, below, group, from, prefix, counted_files, counted_dirs),
{
    let depth = below.len();
    let frame = FrameView { entries: group, next: from, prefix };
    let open = WalkState {
        frames: below.push(frame),
        awaiting: None,
        files: counted_files,
        dirs: counted_dirs,
    };
    let lines = group_lines(settings, files, group, from, prefix, depth);
    let requests = group_requests(settings, files, group, from, depth);
    let (asked, first) = advanced(settings, open);
    let more = driven(settings, files, asked, requests).1;
    assert(open.frames.drop_last() == below);
    let entry = group[from as int];
    let last = from == group.len() - 1;
    let line = LineView::Entry { prefix, last, directory: entry.is_dir, name: entry.name, depth };
    let rest = group_lines(settings, files, group, from + 1, prefix, depth);
    let rest_requests = group_requests(settings, files, group, from + 1, depth);
    let dirs = counted_dirs + 1;
    let resumed = WalkState { awaiting: None, ..asked };
    let failure = LineView::Failure { path: entry.path };
    let inside = seq![failure];
    lemma_driven_first(settings, files, asked, rest_requests);
    let (next, fed_lines) = fed(settings, asked, answer(files, asked));
    let resumed_lines = advanced(settings, resumed).1;
    let tail = driven(settings, files, next, rest_requests).1;
    let closed_rest = WalkState {
        frames: below,
        awaiting: None,
        files: counted_files + file_lines(rest),
        dirs: dirs + directory_lines(rest),
    };
    lemma_count_first(line, inside + rest, |line: LineView| is_directory_line(line));
    lemma_count_first(line, inside + rest, |line: LineView| is_file_line(line));
    lemma_count_first(failure, rest, |line: LineView| is_directory_line(line));
    lemma_count_first(failure, rest, |line: LineView| is_file_line(line));
    let after = advanced(settings, closed_rest).1;
    assert(first + more == seq![line] + (seq![failure] + (resumed_lines + tail)));
    assert(lines + after == seq![line] + (seq![failure] + (rest + after)));
}

/// A directory that is opened: its line, the lines of what lies in it, then
/// the rest of the group.
proof fn lemma_group_opened(
    settings: Settings,
    files: spec_fn(Seq<char>) -> Option<Seq<EntryView>>,
    below: Seq<FrameView>,
    group: Seq<EntryView>,
    from: nat,
    prefix: Seq<char>,
    counted_files: nat,
    counted_dirs: nat,
    listing: Seq<EntryView>,
)
    requires
        from < group.len(),
        group[from as int].is_dir,
        below.len() < settings.max_depth,
        files(group[from as int].path) == Some(listing),
        draws_group(
            settings,
            files,
            below.push(FrameView { entries: group, next: from + 1, prefix }),
            surviving(settings, listing),
            0,
            prefix + continuation(from == group.len() - 1),
            counted_files,
            counted_dirs + 1,
        ),
        ({
            let inside = group_lines(
                settings,
                files,
                surviving(settings, listing),
                0,
                prefix + continuation(from == group.len() - 1),
                below.len() + 1,
            );
            draws_group(
                settings,
                files,
                below,
                group,
                from + 1,
                prefix,
                counted_files + file_lines(inside),
                counted_dirs + 1 + directory_lines(inside),
            )
        }),
    ensures
        draws_group(settings, files, below, group, from, prefix, counted_files, counted_dirs),
{
    let depth = below.len();
    let frame = FrameView { entries: group, next: from, prefix };
    let open = WalkState {
        frames: below.push(frame),
        awaiting: None,
        files: counted_files,
        dirs: counted_dirs,
    };
    let lines = group_lines(settings, files, group, from, prefix, depth);
    let requests = group_requests(settings, files, group, from, depth);
    let (asked, first) = advanced(settings, open);
    let more = driven(settings, files, asked, requests).1;
    assert(open.frames.drop_last() == below);
    let entry = group[from as int];
    let last = from == group.len() - 1;
    let line = LineView::Entry { prefix, last, directory: entry.is_dir, name: entry.name, depth };
    let raised = FrameView { next: from + 1, ..frame };
    let frames = below.push(raised);
    let rest = group_lines(settings, files, group, from + 1, prefix, depth);
    let rest_requests = group_requests(settings, files, group, from + 1, depth);
    let dirs = counted_dirs + 1;
    let deeper = prefix + continuation(last);
    let kept = surviving(settings, listing);
    let inside = group_lines(settings, files, kept, 0, deeper, depth + 1);
    let inside_requests = group_requests(settings, files, kept, 0, depth + 1);
    lemma_driven_first(settings, files, asked, inside_requests + rest_requests);
    let (next, fed_lines) = fed(settings, asked, answer(files, asked));
    let back = WalkState {
        frames,
        awaiting: None,
        files: counted_files + file_lines(inside),
        dirs: dirs + directory_lines(inside),
    };
    lemma_driven_add(settings, files, next, inside_requests, rest_requests);
    let (middle, inner) = driven(settings, files, next, inside_requests);
    let tail = driven(settings, files, middle, rest_requests).1;
    let closed_rest = WalkState {
        frames: below,
        awaiting: None,
        files: counted_files + file_lines(inside) + file_lines(rest),
        dirs: dirs + directory_lines(inside) + directory_lines(rest),
    };
    lemma_count_first(line, inside + rest, |line: LineView| is_directory_line(line));
    lemma_count_first(line, inside + rest, |line: LineView| is_file_line(line));
    let after = advanced(settings, closed_rest).1;
    let back_lines = advanced(settings, back).1;
    assert(first + more == seq![line] + ((fed_lines + inner) + tail));
    assert(seq![line] + ((inside + back_lines) + tail) == seq![line] + (inside + (back_lines + tail)));
    assert(lines + after == seq![line] + (inside + (rest + after)));
}

/// Every group of siblings is drawn as `draws_group` says.
pub proof fn lemma_group(
    settings: Settings,
    files: spec_fn(Seq<char>) -> Option<Seq<EntryView>>,
    below: Seq<FrameView>,
    group: Seq<EntryView>,
    from: nat,
    prefix: Seq<char>,
    counted_files: nat,
    counted_dirs: nat,
)
    requires
        below.len() <= settings.max_depth,
    ensures
        draws_group(settings, files, below, group, from, prefix, counted_files, counted_dirs),
    decreases settings.max_depth - below.len(), group.len() - from,
{
    if from >= group.len() {
        lemma_group_done(settings, files, below, group, from, prefix, counted_files, counted_dirs);
    } else {
        let entry = group[from as int];
        let last = from == group.len() - 1;
        if entry.is_dir && below.len() < settings.max_depth {
            match files(entry.path) {
                None => {
                    lemma_group(
                        settings,
                        files,
                        below,
                        group,
                        from + 1,
                        prefix,
                        counted_files,
                        counted_dirs + 1,
                    );
                    lemma_group_unread(
                        settings,
                        files,
                        below,
                        group,
                        from,
                        prefix,
                        counted_files,
                        counted_dirs,
                    );
                },
                Some(listing) => {
                    let kept = surviving(settings, listing);
                    let deeper = prefix + continuation(last);
                    let frames = below.push(FrameView { entries: group, next: from + 1, prefix });
                    let inside = group_lines(settings, files, kept, 0, deeper, below.len() + 1);
                    lemma_group(
                        settings,
                        files,
                        frames,
                        kept,
                        0,
                        deeper,
                        counted_files,
                        counted_dirs + 1,
                    );
                    lemma_group(
                        settings,
                        files,
                        below,
                        group,
                        from + 1,
                        prefix,
                        counted_files + file_lines(inside),
                        counted_dirs + 1 + directory_lines(inside),
                    );
                    lemma_group_opened(
                        settings,
                        files,
                        below,
                        group,
                        from,
                        prefix,
                        counted_files,
                        counted_dirs,
                        listing,
                    );
                },
            }
        } else {
            lemma_group(
                settings,
                files,
                below,
                group,
                from + 1,
                prefix,
                if entry.is_dir {
                    counted_files
                } else {
                    counted_files + 1
                },
                if entry.is_dir {
                    counted_dirs + 1
                } else {
                    counted_dirs
                },
            );
            lemma_group_leaf(
                settings,
                files,
                below,
                group,
                from,
                prefix,
                counted_files,
                counted_dirs,
            );
        }
    }
}

/// The steps of a walk that is fed from the file system are the walk fed
/// with the answers of the file system.
pub proof fn lemma_walk_of_answers(
    settings: Settings,
    files: spec_fn(Seq<char>) -> Option<Seq<EntryView>>,
    root: Seq<char>,
    steps: nat,
)
    ensures
        ({
            let (end, lines) = driven(settings, files, started(root).0, steps);
            walk(settings, root, answers(settings, files, root, steps)) == (
                end,
                started(root).1 + lines,
            )
        }),
    decreases steps,
{
    if steps > 0 {
        let fewer = (steps - 1) as nat;
        lemma_walk_of_answers(settings, files, root, fewer);
        let earlier = answers(settings, files, root, fewer);
        let all = answers(settings, files, root, steps);
        assert(all.drop_last() == earlier);
    }
}

/// A walk that is fed from a file system draws the tree: after as many
/// steps as the tree asks for, the walk is over, no directory is open, and
/// the lines handed out are the lines of the tree, in order.
pub proof fn walk_draws_the_tree(
    settings: Settings,
    files: spec_fn(Seq<char>) -> Option<Seq<EntryView>>,
    root: Seq<char>,
)
    ensures
        ({
            let steps = tree_requests(settings, files, root);
            let (end, lines) = walk(settings, root, answers(settings, files, root, steps));
            &&& lines == tree_lines(settings, files, root)
            &&& end.awaiting is None
            &&& end.frames.len() == 0
        }),
{
    let steps = tree_requests(settings, files, root);
    let begin = started(root).0;
    let none = Seq::<FrameView>::empty();
    let is_dir = |line: LineView| is_directory_line(line);
    let is_file = |line: LineView| is_file_line(line);
    lemma_walk_of_answers(settings, files, root, steps);
    match files(root) {
        None => {
            lemma_driven_first(settings, files, begin, 0);
            let failure = LineView::Failure { path: root };
            lemma_count_first(failure, Seq::<LineView>::empty(), is_dir);
            lemma_count_first(failure, Seq::<LineView>::empty(), is_file);
        },
        Some(listing) => {
            let kept = surviving(settings, listing);
            let requests = group_requests(settings, files, kept, 0, 0);
            lemma_driven_first(settings, files, begin, requests);
            lemma_group(settings, files, none, kept, 0, Seq::<char>::empty(), 0, 0);
        },
    }
}

/// The lines of a tree keep what every walk keeps: no entry lies deeper
/// than the maximum depth, none is hidden unless hidden entries are shown,
/// none is a file where only directories are shown, and the closing report
/// states how many directories and files are among the lines.
pub proof fn tree_keeps_the_rules(
    settings: Settings,
    files: spec_fn(Seq<char>) -> Option<Seq<EntryView>>,
    root: Seq<char>,
)
    ensures
        ({
            let lines = tree_lines(settings, files, root);
            &&& lines_sound(settings, lines)
            &&& reports_state(lines, directory_lines(lines), file_lines(lines))
            &&& settings.no_report ==> no_report_in(lines)
        }),
{
    let steps = tree_requests(settings, files, root);
    walk_draws_the_tree(settings, files, root);
    lemma_walk(settings, root, answers(settings, files, root, steps));
}

} // verus!
