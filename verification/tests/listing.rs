use dirtree::entry::{filter_entries, is_kept};
use dirtree::order::sort_entries;
use dirtree::{Entry, Opt, Pattern};

fn file(name: &str) -> Entry {
    Entry { path: format!("./{}", name), name: name.to_string(), is_dir: false }
}

fn dir(name: &str) -> Entry {
    Entry { path: format!("./{}", name), name: name.to_string(), is_dir: true }
}

fn names(entries: &Vec<Entry>) -> Vec<String> {
    let mut out = Vec::new();
    for e in entries.iter() {
        out.push(e.name.clone());
    }
    out
}

fn some(source: &str) -> Option<Pattern> {
    Some(Pattern::new(source).unwrap())
}

#[test]
fn by_default_only_hidden_entries_go() {
    let opt = Opt::default();
    let kept = filter_entries(&opt, vec![file("b"), file(".env"), dir(".git"), dir("src"), file("a")]);
    assert_eq!(names(&kept), vec!["b", "src", "a"]);
}

#[test]
fn all_files_keeps_hidden_entries() {
    let mut opt = Opt::default();
    opt.all_files = true;
    let kept = filter_entries(&opt, vec![file("b"), file(".env"), dir(".git")]);
    assert_eq!(names(&kept), vec!["b", ".env", ".git"]);
}

#[test]
fn only_dirs_drops_every_file() {
    let mut opt = Opt::default();
    opt.only_dirs = true;
    let kept = filter_entries(&opt, vec![file("a"), dir("b"), dir(".c"), file("d")]);
    assert_eq!(names(&kept), vec!["b"]);
}

#[test]
fn match_pattern_selects_files() {
    let mut opt = Opt::default();
    opt.match_pattern = some(r"\.rs$");
    let kept = filter_entries(&opt, vec![file("a.rs"), file("b.md"), file("c.rs")]);
    assert_eq!(names(&kept), vec!["a.rs", "c.rs"]);
}

#[test]
fn ignore_pattern_excludes_files() {
    let mut opt = Opt::default();
    opt.ignore_pattern = some(r"\.md$");
    let kept = filter_entries(&opt, vec![file("a.rs"), file("b.md"), file("c.rs")]);
    assert_eq!(names(&kept), vec!["a.rs", "c.rs"]);
}

#[test]
fn a_file_that_matches_both_patterns_is_excluded() {
    let mut opt = Opt::default();
    opt.match_pattern = some(r"\.rs$");
    opt.ignore_pattern = some("^test");
    assert!(!is_kept(&opt, &file("test_walk.rs")));
    assert!(is_kept(&opt, &file("walk.rs")));
    assert!(!is_kept(&opt, &file("test.md")));
    let kept = filter_entries(&opt, vec![file("test_walk.rs"), file("walk.rs"), file("notes.md")]);
    assert_eq!(names(&kept), vec!["walk.rs"]);
}

#[test]
fn a_directory_named_like_the_ignore_pattern_is_still_listed() {
    let mut opt = Opt::default();
    opt.ignore_pattern = some("target");
    assert!(is_kept(&opt, &dir("target")));
    assert!(!is_kept(&opt, &file("target")));
    let kept = filter_entries(&opt, vec![dir("target"), file("target.txt"), file("src.txt")]);
    assert_eq!(names(&kept), vec!["target", "src.txt"]);
}

#[test]
fn a_directory_that_misses_the_match_pattern_is_still_listed() {
    let mut opt = Opt::default();
    opt.match_pattern = some(r"\.rs$");
    assert!(is_kept(&opt, &dir("src")));
    assert!(!is_kept(&opt, &file("src")));
}

#[test]
fn a_hidden_directory_goes_whatever_the_patterns_say() {
    let mut opt = Opt::default();
    opt.match_pattern = some("git");
    assert!(!is_kept(&opt, &dir(".git")));
    opt.all_files = true;
    assert!(is_kept(&opt, &dir(".git")));
}

#[test]
fn filtering_keeps_the_order_of_the_listing() {
    let opt = Opt::default();
    let kept = filter_entries(&opt, vec![file("z"), file("a"), file(".x"), file("m")]);
    assert_eq!(names(&kept), vec!["z", "a", "m"]);
    assert_eq!(kept[0].path, "./z");
}

#[test]
fn filtering_an_empty_listing_gives_nothing() {
    let opt = Opt::default();
    assert!(filter_entries(&opt, Vec::new()).is_empty());
}

#[test]
fn sorting_is_ascending_by_name_with_kinds_interleaved() {
    let sorted = sort_entries(vec![file("d"), dir("c"), file("a"), dir("b")]);
    assert_eq!(names(&sorted), vec!["a", "b", "c", "d"]);
    assert!(!sorted[0].is_dir);
    assert!(sorted[1].is_dir);
    assert!(sorted[2].is_dir);
    assert!(!sorted[3].is_dir);
}

#[test]
fn sorting_goes_by_bytes() {
    let sorted = sort_entries(vec![file("b"), file("a"), file("B"), file("_"), file("10"), file("9"), file("\u{e9}")]);
    assert_eq!(names(&sorted), vec!["10", "9", "B", "_", "a", "b", "\u{e9}"]);
}

#[test]
fn sorting_keeps_entries_of_one_name_in_order() {
    let first = Entry { path: "first".to_string(), name: "same".to_string(), is_dir: false };
    let second = Entry { path: "second".to_string(), name: "same".to_string(), is_dir: true };
    let third = Entry { path: "third".to_string(), name: "same".to_string(), is_dir: false };
    let sorted = sort_entries(vec![file("z"), first, second, file("a"), third]);
    assert_eq!(names(&sorted), vec!["a", "same", "same", "same", "z"]);
    assert_eq!(sorted[1].path, "first");
    assert_eq!(sorted[2].path, "second");
    assert_eq!(sorted[3].path, "third");
}

#[test]
fn sorting_loses_and_adds_nothing() {
    let sorted = sort_entries(vec![file("c"), file("a"), file("c"), file("b"), file("a")]);
    assert_eq!(names(&sorted), vec!["a", "a", "b", "c", "c"]);
    assert!(sort_entries(Vec::new()).is_empty());
    assert_eq!(names(&sort_entries(vec![file("only")])), vec!["only"]);
}

#[test]
fn sorting_a_reversed_listing_turns_it_round() {
    let sorted = sort_entries(vec![file("e"), file("d"), file("c"), file("b"), file("a")]);
    assert_eq!(names(&sorted), vec!["a", "b", "c", "d", "e"]);
}
