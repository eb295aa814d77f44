//! Rendering: the lines of the output and their text.

use crate::counter::{decimal, Counter};
use vstd::prelude::*;
use vstd::string::StringExecFns;

verus! {

/// How lines are drawn.
#[derive(Debug, Clone, Copy, PartialEq, Eq)]
pub struct Style {
    /// Icons in place of the tags `[DIR]` and `[FILE]`.
    pub nerd_fonts: bool,
    /// Names in colour: directories blue, files green.
    pub color: bool,
}

/// One line of the output.
#[derive(Debug, PartialEq, Eq)]
pub enum Line {
    /// The line that stands for the root of the tree.
    Root,
    /// One entry: the glyphs of the levels above it, whether it is the last
    /// of its siblings, its kind, its name, and how deep it lies (the
    /// children of the root lie at depth 0).
    Entry { prefix: String, last: bool, directory: bool, name: String, depth: usize },
    /// A directory that could not be listed.
    Failure { path: String },
    /// The closing report: how many directories and files were rendered.
    Summary { directories: Counter, files: Counter },
}

/// What a [`Line`] holds, as mathematical values.
pub enum LineView {
    Root,
    Entry { prefix: Seq<char>, last: bool, directory: bool, name: Seq<char>, depth: nat },
    Failure { path: Seq<char> },
    Summary { directories: nat, files: nat },
}

impl View for Line {
    type V = LineView;

    open spec fn view(&self) -> LineView {
        match self {
            Line::Root => LineView::Root,
            Line::Entry { prefix, last, directory, name, depth } => LineView::Entry {
                prefix: prefix@,
                last: *last,
                directory: *directory,
                name: name@,
                depth: *depth as nat,
            },
            Line::Failure { path } => LineView::Failure { path: path@ },
            Line::Summary { directories, files } => LineView::Summary {
                directories: directories@,
                files: files@,
            },
        }
    }
}

/// The views of a list of lines, in order.
pub open spec fn line_views(lines: Seq<Line>) -> Seq<LineView> {
    lines.map_values(|line: Line| line@)
}

/// The glyph that ties an entry to its parent: a corner for the last of its
/// siblings, a tee for the others.
pub open spec fn connector(last: bool) -> Seq<char> {
    if last {
        "└── "@
    } else {
        "├── "@
    }
}

/// What an entry adds to the prefix of its children: blanks below the last
/// of its siblings, a vertical bar below the others.
pub open spec fn continuation(last: bool) -> Seq<char> {
    if last {
        "    "@
    } else {
        "│   "@
    }
}

/// The mark of an entry's kind: a tag, or an icon.
pub open spec fn kind_mark(directory: bool, nerd_fonts: bool) -> Seq<char> {
    if directory {
        if nerd_fonts {
            "\u{f07b} "@
        } else {
            "[DIR] "@
        }
    } else {
        if nerd_fonts {
            "\u{f4a5} "@
        } else {
            "[FILE] "@
        }
    }
}

/// A name as it is shown: between the escape sequences of its colour, or
/// plain.
pub open spec fn shown_name(name: Seq<char>, directory: bool, color: bool) -> Seq<char> {
    if color {
        if directory {
            "\x1b[34m"@ + name + "\x1b[0m"@
        } else {
            "\x1b[32m"@ + name + "\x1b[0m"@
        }
    } else {
        name
    }
}

/// The text of a line.
pub open spec fn line_text(line: LineView, style: Style) -> Seq<char> {
    match line {
        LineView::Root => "."@,
        LineView::Entry { prefix, last, directory, name, depth } => prefix + connector(last)
            + kind_mark(directory, style.nerd_fonts) + shown_name(name, directory, style.color),
        LineView::Failure { path } => "Failed to read directory: "@ + path,
        LineView::Summary { directories, files } => "\n"@ + decimal(directories)
            + " directories, "@ + decimal(files) + " files"@,
    }
}

/// The glyph that ties an entry to its parent.
pub fn connector_of(last: bool) -> (glyph: &'static str)
    ensures
        glyph@ == connector(last),
{
    if last {
        "└── "
    } else {
        "├── "
    }
}

/// What an entry adds to the prefix of its children.
pub fn continuation_of(last: bool) -> (glyph: &'static str)
    ensures
        glyph@ == continuation(last),
{
    if last {
        "    "
    } else {
        "│   "
    }
}

/// The mark of an entry's kind.
pub fn kind_mark_of(directory: bool, nerd_fonts: bool) -> (mark: &'static str)
    ensures
        mark@ == kind_mark(directory, nerd_fonts),
{
    if directory {
        if nerd_fonts {
            "\u{f07b} "
        } else {
            "[DIR] "
        }
    } else {
        if nerd_fonts {
            "\u{f4a5} "
        } else {
            "[FILE] "
        }
    }
}

impl Line {
    /// The text of the line, as it is printed.
    pub fn text(&self, style: &Style) -> (text: String)
        ensures
            text@ == line_text(self@, *style),
    {
        match self {
            Line::Root => ".".to_owned(),
            Line::Entry { prefix, last, directory, name, depth } => {
                let mut text = prefix.clone();
                text.append(connector_of(*last));
                text.append(kind_mark_of(*directory, style.nerd_fonts));
                if style.color {
                    text.append(
                        if *directory {
                            "\x1b[34m"
                        } else {
                            "\x1b[32m"
                        },
                    );
                    text.append(name.as_str());
                    text.append("\x1b[0m");
                    proof {
                        let paint = if *directory {
                            "\x1b[34m"@
                        } else {
                            "\x1b[32m"@
                        };
                    }
                } else {
                    text.append(name.as_str());
                }
                text
            },
            Line::Failure { path } => {
                let mut text = "Failed to read directory: ".to_owned();
                text.append(path.as_str());
                text
            },
            Line::Summary { directories, files } => {
                let mut text = "\n".to_owned();
                text.append(directories.to_text().as_str());
                text.append(" directories, ");
                text.append(files.to_text().as_str());
                text.append(" files");
                text
            },
        }
    }
}

} // verus!
