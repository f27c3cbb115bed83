use yagrep::config::SearchConfig;
use yagrep::ignore::{path_covers, IgnoreCache};
use yagrep::walk::{
    apply_ignore_answer, classify_entry, dispatch_target, entry_decision, oracle_verdict,
    EntryDecision, EntryKind, TargetDispatch,
};

fn config(skip_hidden: bool, use_ignore_rules: bool) -> SearchConfig {
    SearchConfig {
        pattern: "foo".to_string(),
        case_insensitive: false,
        skip_hidden,
        use_ignore_rules,
        root_path: "/tree".to_string(),
    }
}

#[test]
fn hidden_entries_are_skipped_by_default_policy() {
    let cache = IgnoreCache::new();
    let cfg = config(true, true);
    // a hidden file and a hidden directory alike
    assert_eq!(entry_decision(&cfg, &cache, "/tree/.secret", ".secret"), EntryDecision::Skip);
    assert_eq!(entry_decision(&cfg, &cache, "/tree/.git", ".git"), EntryDecision::Skip);
    // a visible entry is not skipped for its name
    assert_ne!(entry_decision(&cfg, &cache, "/tree/a.txt", "a.txt"), EntryDecision::Skip);
}

#[test]
fn hidden_entries_are_visited_when_policy_is_off() {
    let cache = IgnoreCache::new();
    let cfg = config(false, false);
    assert_eq!(entry_decision(&cfg, &cache, "/tree/.secret", ".secret"), EntryDecision::Process);
}

#[test]
fn ignore_rules_call_for_a_query_until_covered() {
    let mut cache = IgnoreCache::new();
    let cfg = config(true, true);
    assert_eq!(entry_decision(&cfg, &cache, "/tree/a", "a"), EntryDecision::QueryIgnore);

    // the oracle says the directory is ignored: recorded and skipped
    assert!(apply_ignore_answer(&mut cache, "/tree/a", true));

    // no further query for the directory or anything nested under it
    assert_eq!(entry_decision(&cfg, &cache, "/tree/a", "a"), EntryDecision::Skip);
    assert_eq!(entry_decision(&cfg, &cache, "/tree/a/b.txt", "b.txt"), EntryDecision::Skip);
    assert_eq!(entry_decision(&cfg, &cache, "/tree/a/b/c", "c"), EntryDecision::Skip);

    // a sibling still gets its own query
    assert_eq!(entry_decision(&cfg, &cache, "/tree/b", "b"), EntryDecision::QueryIgnore);
}

#[test]
fn oracle_query_count_stops_growing_under_a_recorded_path() {
    let mut cache = IgnoreCache::new();
    let cfg = config(true, true);
    let entries = [
        ("/tree/a", "a", true),
        ("/tree/a/x.txt", "x.txt", false),
        ("/tree/a/sub", "sub", false),
        ("/tree/a/sub/y.txt", "y.txt", false),
        ("/tree/b.txt", "b.txt", false),
    ];
    let mut queries = 0;
    for (path, base, ignored) in entries {
        if entry_decision(&cfg, &cache, path, base) == EntryDecision::QueryIgnore {
            queries += 1;
            apply_ignore_answer(&mut cache, path, ignored);
        }
    }
    // one query for /tree/a, none for its descendants, one for the sibling
    assert_eq!(queries, 2);
}

#[test]
fn not_ignored_answer_leaves_the_memo_alone() {
    let mut cache = IgnoreCache::new();
    let cfg = config(true, true);
    assert!(!apply_ignore_answer(&mut cache, "/tree/a", false));
    assert_eq!(entry_decision(&cfg, &cache, "/tree/a/b", "b"), EntryDecision::QueryIgnore);
}

#[test]
fn ignore_rules_off_means_no_query_at_all() {
    let mut cache = IgnoreCache::new();
    let cfg = config(true, false);
    assert_eq!(entry_decision(&cfg, &cache, "/tree/a", "a"), EntryDecision::Process);
    // even a recorded path is not consulted
    apply_ignore_answer(&mut cache, "/tree/a", true);
    assert_eq!(entry_decision(&cfg, &cache, "/tree/a/b", "b"), EntryDecision::Process);
}

#[test]
fn covering_uses_path_components_not_string_prefixes() {
    assert!(path_covers("/foo", "/foo"));
    assert!(path_covers("/foo", "/foo/bar"));
    assert!(!path_covers("/foo", "/foo2"));
    assert!(!path_covers("/foo", "/fo"));
    assert!(!path_covers("/foo", "/bar/foo"));

    let mut cache = IgnoreCache::new();
    cache.record("/foo");
    assert!(cache.is_covered("/foo/bar"));
    assert!(!cache.is_covered("/foo2"));
}

#[test]
fn oracle_failures_fail_open() {
    // no repository root: not ignored
    assert!(!oracle_verdict(false, Some(true)));
    // query failed or answered nothing: not ignored
    assert!(!oracle_verdict(true, None));
    assert!(!oracle_verdict(true, Some(false)));
    // only a positive answer under a found root counts
    assert!(oracle_verdict(true, Some(true)));
}

#[test]
fn entries_are_classified_as_the_walker_dispatches() {
    assert_eq!(classify_entry(true, false), EntryKind::File);
    assert_eq!(classify_entry(false, true), EntryKind::Directory);
    assert_eq!(classify_entry(false, false), EntryKind::Other);
}

#[test]
fn scenario_missing_target_is_reported_without_scanning() {
    assert_eq!(dispatch_target(false, false), TargetDispatch::NotFound);
    assert_eq!(dispatch_target(true, false), TargetDispatch::ScanFile);
    assert_eq!(dispatch_target(false, true), TargetDispatch::WalkDirectory);
}
