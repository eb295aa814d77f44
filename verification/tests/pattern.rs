use dirtree::pattern::{compile_explicit, compile_rule, holds_char, matches_prepared};
use dirtree::entry::Candidate;
use dirtree::{
    compile, matches_gitignore_pattern, parse_exclude_patterns, parse_gitignore, split_patterns,
    CompiledPattern, Entry, PatternSource,
};

fn file(path: &str, name: &str) -> Entry {
    Entry::new(path, name, false)
}

fn dir(path: &str, name: &str) -> Entry {
    Entry::new(path, name, true)
}

fn rule(text: &str, anchored: bool, directory_only: bool) -> CompiledPattern {
    CompiledPattern::GitignoreRule { text: text.to_string(), anchored, directory_only }
}

fn strings(items: &[&str]) -> Vec<String> {
    items.iter().map(|s| s.to_string()).collect()
}

#[test]
fn parse_exclude_patterns_splits_at_pipes() {
    assert_eq!(parse_exclude_patterns(&Some("target|*.log|.git".to_string())),
        strings(&["target", "*.log", ".git"]));
    assert_eq!(parse_exclude_patterns(&Some("single".to_string())), strings(&["single"]));
}

#[test]
fn parse_exclude_patterns_without_a_list_gives_none() {
    assert_eq!(parse_exclude_patterns(&None), Vec::<String>::new());
}

#[test]
fn parse_exclude_patterns_keeps_empty_pieces() {
    assert_eq!(parse_exclude_patterns(&Some(String::new())), strings(&[""]));
    assert_eq!(parse_exclude_patterns(&Some("a||b".to_string())), strings(&["a", "", "b"]));
}

#[test]
fn split_patterns_takes_any_separator() {
    assert_eq!(split_patterns(&Some("*.o,*.a".to_string()), ','), strings(&["*.o", "*.a"]));
    assert_eq!(split_patterns(&Some("a|b".to_string()), ','), strings(&["a|b"]));
    assert_eq!(split_patterns(&None, ','), Vec::<String>::new());
}

#[test]
fn parse_gitignore_skips_blank_lines_and_comments() {
    let content = "# build output\n/target/\n\n  *.log  \n   # indented comment\nnode_modules/\n";
    assert_eq!(parse_gitignore(content), strings(&["/target/", "*.log", "node_modules/"]));
}

#[test]
fn parse_gitignore_of_nothing_is_empty() {
    assert_eq!(parse_gitignore(""), Vec::<String>::new());
    assert_eq!(parse_gitignore("\n\n  \n"), Vec::<String>::new());
    assert_eq!(parse_gitignore("# only a comment"), Vec::<String>::new());
}

#[test]
fn parse_gitignore_reads_windows_line_ends() {
    assert_eq!(parse_gitignore("build/\r\n*.tmp\r\n"), strings(&["build/", "*.tmp"]));
}

#[test]
fn parse_gitignore_reads_a_last_line_without_line_end() {
    assert_eq!(parse_gitignore("a\nb"), strings(&["a", "b"]));
}

#[test]
fn parse_gitignore_keeps_negations_as_plain_rules() {
    assert_eq!(parse_gitignore("!keep.txt\n"), strings(&["!keep.txt"]));
}

#[test]
fn parse_gitignore_agrees_with_lines_and_trim() {
    let content = "a\r\n\r\n # c\n  b/ \n\u{a0}c\u{a0}\n#\nlast\r";
    let expected: Vec<String> = content
        .lines()
        .map(|line| line.trim())
        .filter(|line| !line.is_empty() && !line.starts_with('#'))
        .map(|line| line.to_string())
        .collect();
    assert_eq!(parse_gitignore(content), expected);
}

#[test]
fn compile_reads_explicit_patterns_as_glob_or_substring() {
    assert_eq!(compile("*.log", PatternSource::Explicit),
        Some(CompiledPattern::Glob("*.log".to_string())));
    assert_eq!(compile("target", PatternSource::Explicit),
        Some(CompiledPattern::Substring("target".to_string())));
    assert_eq!(compile("", PatternSource::Explicit),
        Some(CompiledPattern::Substring(String::new())));
    assert_eq!(compile(" x ", PatternSource::Explicit),
        Some(CompiledPattern::Substring(" x ".to_string())));
}

#[test]
fn compile_reads_gitignore_rules() {
    assert_eq!(compile("/target/", PatternSource::Gitignore), Some(rule("target", true, true)));
    assert_eq!(compile("/Cargo.lock", PatternSource::Gitignore),
        Some(rule("Cargo.lock", true, false)));
    assert_eq!(compile("build/", PatternSource::Gitignore), Some(rule("build", false, true)));
    assert_eq!(compile("docs/api", PatternSource::Gitignore), Some(rule("docs/api", false, false)));
    assert_eq!(compile("*.log", PatternSource::Gitignore), Some(rule("*.log", false, false)));
    assert_eq!(compile("  *.log\t", PatternSource::Gitignore), Some(rule("*.log", false, false)));
    assert_eq!(compile("/", PatternSource::Gitignore), Some(rule("", true, false)));
    assert_eq!(compile("//", PatternSource::Gitignore), Some(rule("", true, true)));
    assert_eq!(compile("!x", PatternSource::Gitignore), Some(rule("!x", false, false)));
}

#[test]
fn compile_yields_no_pattern_for_blank_lines_and_comments() {
    assert_eq!(compile("", PatternSource::Gitignore), None);
    assert_eq!(compile("   ", PatternSource::Gitignore), None);
    assert_eq!(compile("# comment", PatternSource::Gitignore), None);
    assert_eq!(compile("  #x", PatternSource::Gitignore), None);
}

#[test]
fn every_rule_of_parse_gitignore_compiles() {
    for line in parse_gitignore("# c\n/a/\n\nb\n c/d \n") {
        assert!(compile(&line, PatternSource::Gitignore).is_some());
    }
}

#[test]
fn compile_explicit_and_compile_rule_on_characters() {
    let raw: Vec<char> = "a*".chars().collect();
    assert_eq!(compile_explicit(&raw), CompiledPattern::Glob("a*".to_string()));
    let raw: Vec<char> = "/a/".chars().collect();
    assert_eq!(compile_rule(&raw), rule("a", true, true));
    let raw: Vec<char> = "# as it stands".chars().collect();
    assert_eq!(compile_rule(&raw), rule("# as it stands", false, false));
}

#[test]
fn holds_char_finds_a_character() {
    let text: Vec<char> = "a/b".chars().collect();
    assert!(holds_char(&text, '/'));
    assert!(!holds_char(&text, '*'));
    assert!(!holds_char(&[], '*'));
}

#[test]
fn anchored_rule_compares_the_file_name_only() {
    assert!(matches_gitignore_pattern(&file("./Cargo.lock", "Cargo.lock"), "/Cargo.lock"));
    assert!(matches_gitignore_pattern(&file("./sub/Cargo.lock", "Cargo.lock"), "/Cargo.lock"));
    assert!(!matches_gitignore_pattern(&file("./Cargo.lock.bak", "Cargo.lock.bak"), "/Cargo.lock"));
    assert!(matches_gitignore_pattern(&dir("./Cargo.lock", "Cargo.lock"), "/Cargo.lock"));
}

#[test]
fn anchored_directory_rule_needs_a_directory() {
    assert!(matches_gitignore_pattern(&dir("./target", "target"), "/target/"));
    assert!(!matches_gitignore_pattern(&file("./target", "target"), "/target/"));
    assert!(!matches_gitignore_pattern(&dir("./target2", "target2"), "/target/"));
}

#[test]
fn directory_rule_matches_directories_by_name_or_path() {
    assert!(matches_gitignore_pattern(&dir("./build", "build"), "build/"));
    assert!(!matches_gitignore_pattern(&file("./build", "build"), "build/"));
    assert!(matches_gitignore_pattern(&dir("./a/build/out", "out"), "build/"));
    assert!(matches_gitignore_pattern(&dir("./a/builder", "builder"), "build/"));
    assert!(!matches_gitignore_pattern(&dir("./rebuild", "rebuild"), "build/"));
    assert!(!matches_gitignore_pattern(&file("./a/build/out.o", "out.o"), "build/"));
}

#[test]
fn rule_with_inner_slash_is_a_substring_of_the_path() {
    assert!(matches_gitignore_pattern(&file("./docs/api/index.html", "index.html"), "docs/api"));
    assert!(matches_gitignore_pattern(&dir("./x/docs/api", "api"), "docs/api"));
    assert!(!matches_gitignore_pattern(&file("./docs/index.html", "index.html"), "docs/api"));
}

#[test]
fn bare_rule_matches_name_path_or_wildcard() {
    assert!(matches_gitignore_pattern(&file("./x/notes.txt", "notes.txt"), "notes.txt"));
    assert!(matches_gitignore_pattern(&file("./x/notes.txt.bak", "notes.txt.bak"), "notes.txt"));
    assert!(!matches_gitignore_pattern(&file("./x/my-notes.txt", "my-notes.txt"), "notes.txt"));
    assert!(matches_gitignore_pattern(&file("./a.log", "a.log"), "*.log"));
    assert!(matches_gitignore_pattern(&file("./deep/er/a.log", "a.log"), "*.log"));
    assert!(!matches_gitignore_pattern(&file("./a.log.txt", "a.log.txt"), "*.log"));
    assert!(matches_gitignore_pattern(&dir("./logs.log", "logs.log"), "*.log"));
}

#[test]
fn backslashes_count_as_slashes() {
    assert!(matches_gitignore_pattern(&file(".\\docs\\api\\i.html", "i.html"), "docs/api"));
    assert!(matches_gitignore_pattern(&dir("a\\build\\out", "out"), "build/"));
}

#[test]
fn leading_dot_slash_is_not_part_of_the_path() {
    // the path is matched as `src/x`, in which `./src` does not stand
    assert!(!matches_gitignore_pattern(&file("./src/x", "x"), "./src"));
    assert!(matches_gitignore_pattern(&file("./a/./src/x", "x"), "./src"));
    let pattern = compile("/src", PatternSource::Explicit).unwrap();
    assert!(!dirtree::pattern::matches(&pattern, &dir("./src", "src")));
    assert!(dirtree::pattern::matches(&pattern, &dir("./a/src", "src")));
}

#[test]
fn matches_gitignore_pattern_reads_the_rule_as_it_stands() {
    assert!(matches_gitignore_pattern(&file("./#x", "#x"), "#x"));
    assert!(!matches_gitignore_pattern(&file("./x", "x"), " x "));
}

#[test]
fn glob_pattern_matches_bare_or_slashed_path() {
    let pattern = compile("*.log", PatternSource::Explicit).unwrap();
    assert!(dirtree::pattern::matches(&pattern, &file("./a.log", "a.log")));
    assert!(!dirtree::pattern::matches(&pattern, &file("./b.txt", "b.txt")));
    let pattern = compile("build/*", PatternSource::Explicit).unwrap();
    assert!(dirtree::pattern::matches(&pattern, &file("./build/x", "x")));
    assert!(!dirtree::pattern::matches(&pattern, &file("./rebuild/x", "x")));
    let pattern = compile("*/", PatternSource::Explicit).unwrap();
    assert!(dirtree::pattern::matches(&pattern, &dir("./any", "any")));
    assert!(!dirtree::pattern::matches(&pattern, &file("./any", "any")));
}

#[test]
fn glob_pattern_also_matches_where_the_path_holds_it_literally() {
    let pattern = CompiledPattern::Glob("a*b*".to_string());
    assert!(dirtree::pattern::matches(&pattern, &file("./xa*b*y", "xa*b*y")));
    assert!(!dirtree::pattern::matches(&pattern, &file("./xaab", "xaab")));
    let pattern = CompiledPattern::Glob("a*b/".to_string());
    assert!(dirtree::pattern::matches(&pattern, &dir("./xa*b", "xa*b")));
    assert!(!dirtree::pattern::matches(&pattern, &file("./xa*b", "xa*b")));
}

#[test]
fn substring_pattern_matches_bare_or_slashed_path() {
    let pattern = compile("node_modules", PatternSource::Explicit).unwrap();
    assert!(dirtree::pattern::matches(&pattern, &dir("./node_modules", "node_modules")));
    assert!(dirtree::pattern::matches(&pattern, &file("./node_modules/x.js", "x.js")));
    assert!(!dirtree::pattern::matches(&pattern, &file("./src/x.js", "x.js")));
    let pattern = compile("build/", PatternSource::Explicit).unwrap();
    assert!(dirtree::pattern::matches(&pattern, &dir("./build", "build")));
    assert!(!dirtree::pattern::matches(&pattern, &file("./build", "build")));
    assert!(dirtree::pattern::matches(&pattern, &file("./build/a", "a")));
}

#[test]
fn empty_substring_matches_every_entry() {
    let pattern = compile("", PatternSource::Explicit).unwrap();
    assert!(dirtree::pattern::matches(&pattern, &file("./a", "a")));
    assert!(dirtree::pattern::matches(&pattern, &dir("", "")));
}

#[test]
fn matches_prepared_agrees_with_matches() {
    let entries = [file("./a.log", "a.log"), dir("./build", "build"), file(".\\x\\y", "y")];
    let patterns = [
        compile("*.log", PatternSource::Explicit).unwrap(),
        compile("build/", PatternSource::Gitignore).unwrap(),
        compile("x/y", PatternSource::Gitignore).unwrap(),
    ];
    for entry in &entries {
        let candidate = Candidate::of(entry);
        for pattern in &patterns {
            assert_eq!(matches_prepared(pattern, &candidate), dirtree::pattern::matches(pattern, entry));
        }
    }
}

#[test]
fn candidate_holds_the_normal_form() {
    let candidate = Candidate::of(&dir(".\\a\\b", "b"));
    assert_eq!(candidate.path.iter().collect::<String>(), "a/b");
    assert_eq!(candidate.slashed.iter().collect::<String>(), "a/b/");
    assert_eq!(candidate.name.iter().collect::<String>(), "b");
    assert!(candidate.is_dir);
    let candidate = Candidate::of(&file("././x", "x"));
    assert_eq!(candidate.path.iter().collect::<String>(), "./x");
    assert_eq!(candidate.slashed.iter().collect::<String>(), "./x");
    assert!(!candidate.hidden());
    assert!(Candidate::of(&file("./.env", ".env")).hidden());
    assert!(!Candidate::of(&file("./.x/env", "env")).hidden());
}
