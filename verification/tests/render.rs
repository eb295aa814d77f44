use dirtree::render::{connector_of, continuation_of, kind_mark_of};
use dirtree::{Counter, Line, Style};

const PLAIN: Style = Style { nerd_fonts: false, color: false };

fn counter(n: u32) -> Counter {
    let mut counter = Counter::new();
    for _ in 0..n {
        counter.increment();
    }
    counter
}

fn entry(prefix: &str, last: bool, directory: bool, name: &str, depth: usize) -> Line {
    Line::Entry { prefix: prefix.to_string(), last, directory, name: name.to_string(), depth }
}

#[test]
fn counter_starts_at_zero() {
    assert_eq!(Counter::new().to_text(), "0");
}

#[test]
fn counter_counts_in_decimal() {
    let mut counter = Counter::new();
    for expected in 1..=1234u32 {
        counter.increment();
        assert_eq!(counter.to_text(), expected.to_string());
    }
}

#[test]
fn counter_carries_over_nines() {
    assert_eq!(counter(9).to_text(), "9");
    assert_eq!(counter(10).to_text(), "10");
    assert_eq!(counter(99).to_text(), "99");
    assert_eq!(counter(100).to_text(), "100");
    assert_eq!(counter(1099).to_text(), "1099");
    assert_eq!(counter(1100).to_text(), "1100");
}

#[test]
fn counter_clone_keeps_the_count() {
    let first = counter(42);
    let mut copy = first.clone();
    assert_eq!(copy, first);
    copy.increment();
    assert_eq!(first.to_text(), "42");
    assert_eq!(copy.to_text(), "43");
}

#[test]
fn equal_counts_are_equal_counters() {
    assert_eq!(counter(10), counter(10));
    assert_ne!(counter(10), counter(1));
    assert_eq!(counter(0), Counter::new());
}

#[test]
fn glyphs() {
    assert_eq!(connector_of(true), "└── ");
    assert_eq!(connector_of(false), "├── ");
    assert_eq!(continuation_of(true), "    ");
    assert_eq!(continuation_of(false), "│   ");
    assert_eq!(kind_mark_of(true, false), "[DIR] ");
    assert_eq!(kind_mark_of(false, false), "[FILE] ");
    assert_eq!(kind_mark_of(true, true), "\u{f07b} ");
    assert_eq!(kind_mark_of(false, true), "\u{f4a5} ");
}

#[test]
fn continuation_glyphs_are_four_characters_wide() {
    assert_eq!(continuation_of(true).chars().count(), 4);
    assert_eq!(continuation_of(false).chars().count(), 4);
}

#[test]
fn root_line_is_a_dot() {
    assert_eq!(Line::Root.text(&PLAIN), ".");
}

#[test]
fn entry_line_plain() {
    assert_eq!(entry("", false, false, "a.txt", 0).text(&PLAIN), "├── [FILE] a.txt");
    assert_eq!(entry("", true, true, "b", 0).text(&PLAIN), "└── [DIR] b");
    assert_eq!(entry("│       ", true, false, "x", 2).text(&PLAIN), "│       └── [FILE] x");
}

#[test]
fn entry_line_with_icons() {
    let style = Style { nerd_fonts: true, color: false };
    assert_eq!(entry("", false, true, "src", 0).text(&style), "├── \u{f07b} src");
    assert_eq!(entry("    ", true, false, "main.rs", 1).text(&style), "    └── \u{f4a5} main.rs");
}

#[test]
fn entry_line_in_colour() {
    let style = Style { nerd_fonts: false, color: true };
    assert_eq!(entry("", false, true, "src", 0).text(&style), "├── [DIR] \x1b[34msrc\x1b[0m");
    assert_eq!(entry("", true, false, "a", 0).text(&style), "└── [FILE] \x1b[32ma\x1b[0m");
}

#[test]
fn entry_line_with_icons_in_colour() {
    let style = Style { nerd_fonts: true, color: true };
    assert_eq!(entry("│   ", false, true, "d", 1).text(&style), "│   ├── \u{f07b} \x1b[34md\x1b[0m");
}

#[test]
fn failure_line_names_the_path() {
    let line = Line::Failure { path: "./locked".to_string() };
    assert_eq!(line.text(&PLAIN), "Failed to read directory: ./locked");
}

#[test]
fn summary_line_reports_the_counts_after_a_blank_line() {
    let line = Line::Summary { directories: counter(1), files: counter(1) };
    assert_eq!(line.text(&PLAIN), "\n1 directories, 1 files");
    let line = Line::Summary { directories: counter(0), files: counter(12) };
    assert_eq!(line.text(&PLAIN), "\n0 directories, 12 files");
}
