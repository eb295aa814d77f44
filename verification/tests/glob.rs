use dirtree::glob::{cut_points, glob_match};
use dirtree::simple_glob_match;

fn chars(s: &str) -> Vec<char> {
    s.chars().collect()
}

#[test]
fn double_star_alone_matches_everything() {
    assert!(simple_glob_match("", "**"));
    assert!(simple_glob_match("a/b/c.txt", "**"));
}

#[test]
fn double_star_cuts_into_prefix_and_suffix() {
    assert!(simple_glob_match("src/deep/er/main.rs", "src/**/main.rs"));
    assert!(simple_glob_match("src//main.rs", "src/**/main.rs"));
    assert!(!simple_glob_match("lib/deep/main.rs", "src/**/main.rs"));
    assert!(!simple_glob_match("src/deep/main.rc", "src/**/main.rs"));
}

#[test]
fn double_star_does_not_respect_directory_boundaries() {
    assert!(simple_glob_match("srcX/Ymain.rs", "src**main.rs"));
}

#[test]
fn single_star_cuts_into_prefix_and_suffix() {
    assert!(simple_glob_match("a.log", "*.log"));
    assert!(!simple_glob_match("b.txt", "*.log"));
    assert!(simple_glob_match("test_x.rs", "test_*.rs"));
    assert!(simple_glob_match(".log", "*.log"));
    assert!(simple_glob_match("dir/a.log", "*.log"));
}

#[test]
fn prefix_and_suffix_may_overlap_in_the_text() {
    assert!(simple_glob_match("a", "a*a"));
    assert!(simple_glob_match("aba", "ab*ba"));
}

#[test]
fn more_than_one_cut_point_means_literal_comparison() {
    assert!(!simple_glob_match("abc", "a*b*c"));
    assert!(simple_glob_match("a*b*c", "a*b*c"));
    assert!(!simple_glob_match("a/b/c", "a**b**c"));
    assert!(simple_glob_match("a**b**c", "a**b**c"));
    assert!(!simple_glob_match("anything", "****"));
}

#[test]
fn three_stars_are_a_double_star_and_a_literal_star() {
    // cut at the leftmost `**`: nothing before it, `*` behind it
    assert!(simple_glob_match("x*", "***"));
    assert!(!simple_glob_match("x", "***"));
}

#[test]
fn double_star_cut_wins_over_single_star() {
    // `a**b*c` is cut once by `**`, into `a` and `b*c`
    assert!(simple_glob_match("a-and-b*c", "a**b*c"));
    assert!(!simple_glob_match("a-and-bxc", "a**b*c"));
}

#[test]
fn pattern_without_wildcard_matches_only_itself() {
    assert!(simple_glob_match("Cargo.lock", "Cargo.lock"));
    assert!(!simple_glob_match("Cargo.lock2", "Cargo.lock"));
    assert!(simple_glob_match("", ""));
    assert!(!simple_glob_match("a", ""));
}

#[test]
fn cut_points_finds_the_single_cut() {
    assert_eq!(cut_points(&chars("ab*cd"), &chars("*")), Some((2, 3)));
    assert_eq!(cut_points(&chars("ab**cd"), &chars("**")), Some((2, 4)));
    assert_eq!(cut_points(&chars("*"), &chars("*")), Some((0, 1)));
    assert_eq!(cut_points(&chars("abcd"), &chars("*")), None);
    assert_eq!(cut_points(&chars("a*b*c"), &chars("*")), None);
    assert_eq!(cut_points(&chars("***"), &chars("**")), Some((0, 2)));
    assert_eq!(cut_points(&chars("****"), &chars("**")), None);
}

#[test]
fn glob_match_on_characters_agrees_with_the_string_form() {
    for (text, pattern) in [("a.log", "*.log"), ("b.txt", "*.log"), ("x", "**"), ("ab", "a*b*")] {
        assert_eq!(glob_match(&chars(text), &chars(pattern)), simple_glob_match(text, pattern));
    }
}
