use dirtree::{draw, Config, Entry, Line, Snapshot, Style, TreeWalker};

const PLAIN: Style = Style { nerd_fonts: false, color: false };

fn file(path: &str, name: &str) -> Entry {
    Entry::new(path, name, false)
}

fn dir(path: &str, name: &str) -> Entry {
    Entry::new(path, name, true)
}

fn config() -> Config {
    Config {
        root: ".".to_string(),
        max_depth: usize::MAX,
        show_hidden: false,
        nerd_fonts: false,
        color: false,
        dirs_only: false,
        no_report: false,
        exclude_patterns: Vec::new(),
        include_gitignore: false,
    }
}

fn project() -> Snapshot {
    let mut snapshot = Snapshot::new();
    snapshot.insert(".", vec![
        dir("./src", "src"),
        file("./a.log", "a.log"),
        dir("./build", "build"),
        file("./.env", ".env"),
        file("./b.txt", "b.txt"),
    ]);
    snapshot.insert("./src", vec![file("./src/main.rs", "main.rs"), dir("./src/util", "util")]);
    snapshot.insert("./src/util", vec![file("./src/util/mod.rs", "mod.rs")]);
    snapshot.insert("./build", vec![file("./build/out.o", "out.o")]);
    snapshot
}

fn texts(lines: &[Line]) -> Vec<String> {
    lines.iter().map(|line| line.text(&PLAIN)).collect()
}

#[test]
fn snapshot_gives_back_what_was_recorded() {
    let snapshot = project();
    assert_eq!(snapshot.listing("./build"), Some(vec![file("./build/out.o", "out.o")]));
    assert_eq!(snapshot.listing("./src").map(|listing| listing.len()), Some(2));
}

#[test]
fn snapshot_cannot_list_what_was_not_recorded() {
    assert_eq!(project().listing("./nowhere"), None);
    assert_eq!(Snapshot::new().listing("."), None);
}

#[test]
fn snapshot_keeps_the_later_of_two_records() {
    let mut snapshot = Snapshot::new();
    snapshot.insert("d", vec![file("d/old", "old")]);
    snapshot.insert("e", vec![]);
    snapshot.insert("d", vec![file("d/new", "new")]);
    assert_eq!(snapshot.listing("d"), Some(vec![file("d/new", "new")]));
    assert_eq!(snapshot.listing("e"), Some(vec![]));
}

#[test]
fn draw_gives_every_line_of_the_tree() {
    let lines = draw(&config(), &[], &project());
    assert_eq!(texts(&lines), vec![
        ".",
        "├── [DIR] src",
        "│   ├── [FILE] main.rs",
        "│   └── [DIR] util",
        "│       └── [FILE] mod.rs",
        "├── [FILE] a.log",
        "├── [DIR] build",
        "│   └── [FILE] out.o",
        "└── [FILE] b.txt",
        "\n3 directories, 5 files",
    ]);
}

#[test]
fn draw_of_the_small_tree() {
    let mut snapshot = Snapshot::new();
    snapshot.insert(".", vec![file("./a.txt", "a.txt"), dir("./b", "b"), file("./.hidden", ".hidden")]);
    snapshot.insert("./b", vec![]);
    let lines = draw(&config(), &[], &snapshot);
    assert_eq!(texts(&lines), vec![
        ".",
        "├── [FILE] a.txt",
        "└── [DIR] b",
        "\n1 directories, 1 files",
    ]);
}

#[test]
fn draw_with_depth_zero() {
    let mut cfg = config();
    cfg.max_depth = 0;
    let lines = draw(&cfg, &[], &project());
    assert_eq!(texts(&lines), vec![
        ".",
        "├── [DIR] src",
        "├── [FILE] a.log",
        "├── [DIR] build",
        "└── [FILE] b.txt",
        "\n2 directories, 2 files",
    ]);
}

#[test]
fn draw_with_an_exclude_pattern() {
    let mut snapshot = Snapshot::new();
    snapshot.insert(".", vec![file("./a.log", "a.log"), file("./b.txt", "b.txt")]);
    let mut cfg = config();
    cfg.exclude_patterns = vec!["*.log".to_string()];
    let lines = draw(&cfg, &[], &snapshot);
    assert_eq!(texts(&lines), vec![".", "└── [FILE] b.txt", "\n0 directories, 1 files"]);
}

#[test]
fn draw_tells_of_a_directory_that_is_not_there() {
    let mut snapshot = Snapshot::new();
    snapshot.insert(".", vec![dir("./gone", "gone"), file("./f", "f")]);
    let lines = draw(&config(), &[], &snapshot);
    assert_eq!(texts(&lines), vec![
        ".",
        "├── [DIR] gone",
        "Failed to read directory: ./gone",
        "└── [FILE] f",
        "\n1 directories, 1 files",
    ]);
    let lines = draw(&config(), &[], &Snapshot::new());
    assert_eq!(texts(&lines), vec![".", "Failed to read directory: .", "\n0 directories, 0 files"]);
}

#[test]
fn draw_ends_on_a_tree_that_holds_itself() {
    // a directory whose listing names the directory again: only the depth bounds the walk
    let mut snapshot = Snapshot::new();
    snapshot.insert("loop", vec![dir("loop", "again")]);
    let mut cfg = config();
    cfg.root = "loop".to_string();
    cfg.max_depth = 3;
    cfg.no_report = true;
    let lines = draw(&cfg, &[], &snapshot);
    assert_eq!(texts(&lines), vec![
        ".",
        "└── [DIR] again",
        "    └── [DIR] again",
        "        └── [DIR] again",
        "            └── [DIR] again",
    ]);
}

#[test]
fn draw_agrees_with_a_walk_fed_by_hand() {
    let snapshot = project();
    for max_depth in [0, 1, 2, usize::MAX] {
        for dirs_only in [false, true] {
            let mut cfg = config();
            cfg.max_depth = max_depth;
            cfg.dirs_only = dirs_only;
            cfg.exclude_patterns = vec!["*.o".to_string()];
            let rules = vec!["util/".to_string()];
            let (mut walker, mut step) = TreeWalker::start(&cfg, &rules);
            let mut by_hand = Vec::new();
            loop {
                by_hand.append(&mut step.lines);
                match step.request {
                    Some(path) => step = walker.feed(snapshot.listing(&path)),
                    None => break,
                }
            }
            assert_eq!(draw(&cfg, &rules, &snapshot), by_hand);
        }
    }
}
