//! Runs the library's verified walker over in-memory directory trees,
//! with the ignore oracle scripted as the set of paths it calls ignored.

use yagrep::config::SearchConfig;
use yagrep::ignore::IgnoreCache;
use yagrep::matcher::Matcher;
use yagrep::tree::{walk_tree, FsTree};

fn file(name: &str, content: &str) -> FsTree {
    FsTree::File { name: name.to_string(), content: content.to_string() }
}

fn dir(name: &str, entries: Vec<FsTree>) -> FsTree {
    FsTree::Dir { name: name.to_string(), entries }
}

fn run(
    tree: &Vec<FsTree>,
    pattern: &str,
    case_insensitive: bool,
    skip_hidden: bool,
    ignored: &[&str],
) -> Vec<String> {
    let config = SearchConfig {
        pattern: pattern.to_string(),
        case_insensitive,
        skip_hidden,
        use_ignore_rules: true,
        root_path: "/tree".to_string(),
    };
    let matcher = Matcher::compile(&config.pattern, config.case_insensitive).unwrap();
    let mut cache = IgnoreCache::new();
    let oracle: Vec<String> = ignored.iter().map(|s| s.to_string()).collect();
    let mut out = Vec::new();
    walk_tree(&config, &matcher, tree, "/tree", &mut cache, &oracle, &mut out);
    out
}

#[test]
fn scenario_hidden_file_stays_out_of_the_output() {
    let tree = vec![file("a.txt", "foo\n"), file(".secret", "foo\n")];
    let out = run(&tree, "foo", false, true, &[]);
    assert_eq!(out, vec!["/tree/a.txt".to_string(), "1: foo".to_string()]);
}

#[test]
fn hidden_directory_subtree_is_never_entered() {
    let tree = vec![
        dir(".hidden", vec![file("inside.txt", "foo\n")]),
        file("a.txt", "foo\n"),
    ];
    let out = run(&tree, "foo", false, true, &[]);
    assert_eq!(out, vec!["/tree/a.txt".to_string(), "1: foo".to_string()]);
}

#[test]
fn hidden_entries_appear_when_the_policy_is_off() {
    let tree = vec![file(".secret", "foo\n")];
    let out = run(&tree, "foo", false, false, &[]);
    assert_eq!(out, vec!["/tree/.secret".to_string(), "1: foo".to_string()]);
}

#[test]
fn ignored_directory_contributes_nothing() {
    let tree = vec![
        dir("build", vec![file("x.txt", "foo\n"), dir("sub", vec![file("y.txt", "foo\n")])]),
        file("a.txt", "foo\n"),
    ];
    let out = run(&tree, "foo", false, true, &["/tree/build"]);
    assert_eq!(out, vec!["/tree/a.txt".to_string(), "1: foo".to_string()]);
}

#[test]
fn matches_from_several_files_keep_per_file_headers() {
    let tree = vec![
        file("a.txt", "foo\nbar\n"),
        file("b.txt", "nothing here\n"),
        dir("sub", vec![file("c.txt", "foo too\n")]),
    ];
    let out = run(&tree, "foo", false, true, &[]);
    assert_eq!(out, vec![
        "/tree/a.txt".to_string(),
        "1: foo".to_string(),
        "/tree/sub/c.txt".to_string(),
        "1: foo too".to_string(),
    ]);
}

#[test]
fn other_entry_kinds_are_left_alone() {
    let tree = vec![
        FsTree::Other { name: "socket".to_string() },
        file("a.txt", "foo\n"),
    ];
    let out = run(&tree, "foo", false, true, &[]);
    assert_eq!(out, vec!["/tree/a.txt".to_string(), "1: foo".to_string()]);
}

#[test]
fn same_walk_twice_gives_identical_output() {
    let tree = vec![
        file("a.txt", "alpha\nbeta\n"),
        dir("sub", vec![file("b.txt", "beta\ngamma\n")]),
    ];
    let first = run(&tree, "beta", false, true, &[]);
    let second = run(&tree, "beta", false, true, &[]);
    assert_eq!(first, second);
}
