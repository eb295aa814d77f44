use dirtree::text::{
    blank, chars_of, ends_with, find, has, joined, matches_at, replaced, same, split, starts_with,
    string_of, trimmed,
};

fn chars(s: &str) -> Vec<char> {
    s.chars().collect()
}

#[test]
fn chars_of_gives_the_characters_in_order() {
    assert_eq!(chars_of("a│b"), vec!['a', '│', 'b']);
    assert_eq!(chars_of(""), Vec::<char>::new());
}

#[test]
fn string_of_builds_the_string_character_by_character() {
    assert_eq!(string_of(&['x', '/', 'é']), "x/é");
    assert_eq!(string_of(&[]), "");
}

#[test]
fn string_of_undoes_chars_of() {
    let text = "src/main.rs — ok";
    assert_eq!(string_of(&chars_of(text)), text);
}

#[test]
fn same_compares_by_content() {
    assert!(same(&chars("abc"), &chars("abc")));
    assert!(!same(&chars("abc"), &chars("abd")));
    assert!(!same(&chars("abc"), &chars("ab")));
    assert!(same(&[], &[]));
}

#[test]
fn matches_at_looks_at_one_position() {
    let hay = chars("target/debug");
    assert!(matches_at(&hay, &chars("debug"), 7));
    assert!(!matches_at(&hay, &chars("debug"), 6));
    assert!(!matches_at(&hay, &chars("debug"), 8));
    assert!(matches_at(&hay, &[], 12));
    assert!(!matches_at(&hay, &[], 13));
}

#[test]
fn starts_with_and_ends_with() {
    let hay = chars("a.log");
    assert!(starts_with(&hay, &chars("a.")));
    assert!(starts_with(&hay, &[]));
    assert!(!starts_with(&hay, &chars(".log")));
    assert!(ends_with(&hay, &chars(".log")));
    assert!(ends_with(&hay, &[]));
    assert!(!ends_with(&hay, &chars("a.")));
    assert!(!ends_with(&hay, &chars("xa.log")));
}

#[test]
fn find_gives_the_leftmost_occurrence() {
    assert_eq!(find(&chars("a**b**c"), &chars("**")), Some(1));
    assert_eq!(find(&chars("abc"), &chars("**")), None);
    assert_eq!(find(&chars("abc"), &[]), Some(0));
    assert_eq!(find(&[], &[]), Some(0));
    assert_eq!(find(&chars("ab"), &chars("abc")), None);
    assert_eq!(find(&chars("aab"), &chars("ab")), Some(1));
}

#[test]
fn has_is_substring_containment() {
    assert!(has(&chars("x/node_modules/y"), &chars("node_modules")));
    assert!(!has(&chars("x/node_module/y"), &chars("node_modules")));
    assert!(has(&chars("anything"), &[]));
}

#[test]
fn split_keeps_empty_pieces() {
    assert_eq!(split(&chars("a|b"), '|'), vec!["a", "b"]);
    assert_eq!(split(&chars(""), '|'), vec![""]);
    assert_eq!(split(&chars("|"), '|'), vec!["", ""]);
    assert_eq!(split(&chars("a||b|"), '|'), vec!["a", "", "b", ""]);
    assert_eq!(split(&chars("abc"), '|'), vec!["abc"]);
}

#[test]
fn split_pieces_join_back_to_the_text() {
    let text = "one,two,,three,";
    let pieces = split(&chars(text), ',');
    assert_eq!(pieces.len(), 5);
    assert!(pieces.iter().all(|piece| !piece.contains(',')));
    assert_eq!(pieces.join(","), text);
}

#[test]
fn blank_is_unicode_white_space() {
    for c in [' ', '\t', '\n', '\r', '\u{b}', '\u{c}', '\u{85}', '\u{a0}', '\u{1680}', '\u{2000}',
        '\u{200a}', '\u{2028}', '\u{2029}', '\u{202f}', '\u{205f}', '\u{3000}'] {
        assert!(blank(c), "{:?}", c);
    }
    for c in ['a', '#', '/', '\u{8}', '\u{e}', '\u{200b}', '\u{180e}', '\u{feff}'] {
        assert!(!blank(c), "{:?}", c);
    }
}

#[test]
fn blank_agrees_with_the_standard_library_on_every_character() {
    let mut code: u32 = 0;
    while code <= 0x10ffff {
        if let Some(c) = char::from_u32(code) {
            assert_eq!(blank(c), c.is_whitespace(), "U+{:04X}", code);
        }
        code += 1;
    }
}

#[test]
fn trimmed_removes_blanks_at_both_ends_only() {
    assert_eq!(trimmed(&chars("  a b \t\r")), chars("a b"));
    assert_eq!(trimmed(&chars("a")), chars("a"));
    assert_eq!(trimmed(&chars(" \t ")), chars(""));
    assert_eq!(trimmed(&chars("")), chars(""));
}

#[test]
fn trimmed_agrees_with_the_standard_library() {
    for text in ["  x  ", "\u{a0}y\u{3000}", "\r\nz\n", "", "   ", "a  b", "\u{200b} q"] {
        assert_eq!(string_of(&trimmed(&chars(text))), text.trim());
    }
}

#[test]
fn replaced_swaps_every_occurrence() {
    assert_eq!(replaced(&chars("a\\b\\c"), '\\', '/'), chars("a/b/c"));
    assert_eq!(replaced(&chars("abc"), '\\', '/'), chars("abc"));
}

#[test]
fn joined_puts_one_behind_the_other() {
    assert_eq!(joined(&chars("/"), &chars("build")), chars("/build"));
    assert_eq!(joined(&chars(""), &chars("")), chars(""));
}
