//! The traversal's decisions, one directory entry at a time.
//!
//! The caller enumerates a directory and, for each entry, asks
//! [`entry_decision`] what to do: skip it outright (hidden name, or
//! already covered by the ignore memo), ask the ignore oracle first, or
//! process it. An oracle answer is folded back in through
//! [`apply_ignore_answer`]; the oracle failing, or finding no repository,
//! counts as "not ignored" via [`oracle_verdict`]. What "process" means —
//! scan, recurse, or nothing — is [`classify_entry`]'s answer.

use vstd::prelude::*;

use crate::config::SearchConfig;
use crate::ignore::{
    lemma_record_covers_subtree, spec_covered, spec_path_covers, IgnoreCache,
};

verus! {

/// What to do with one directory entry, before any oracle query.
#[derive(PartialEq, Eq, Structural, Clone, Copy, Debug)]
pub enum EntryDecision {
    /// Leave the entry alone: no scan, no recursion, no query.
    Skip,
    /// Ask the ignore oracle about the entry, then decide.
    QueryIgnore,
    /// Scan or recurse into the entry, with no query.
    Process,
}

/// What one processed entry is, and so what the walker does with it.
#[derive(PartialEq, Eq, Structural, Clone, Copy, Debug)]
pub enum EntryKind {
    /// A regular file: scan it.
    File,
    /// A directory: recurse into it.
    Directory,
    /// Anything else: leave it alone.
    Other,
}

/// What to do with the run's target path.
#[derive(PartialEq, Eq, Structural, Clone, Copy, Debug)]
pub enum TargetDispatch {
    /// A regular file: scan just it.
    ScanFile,
    /// A directory: walk it.
    WalkDirectory,
    /// Neither: report that the target was not found.
    NotFound,
    /// Both at once: do nothing.
    NoAction,
}

/// Whether a base name makes its entry hidden: it begins with `'.'`.
pub open spec fn spec_hidden(base_name: Seq<char>) -> bool {
    base_name.len() > 0 && base_name[0] == '.'
}

/// The decision for one entry: hidden entries are skipped when the
/// hidden-file policy is on; with ignore rules on, an entry covered by
/// the memo is skipped and any other entry calls for an oracle query;
/// with ignore rules off the entry is processed at once.
pub open spec fn spec_entry_decision(
    skip_hidden: bool,
    use_ignore_rules: bool,
    cache: Seq<Seq<char>>,
    path: Seq<char>,
    base_name: Seq<char>,
) -> EntryDecision {
    if skip_hidden && spec_hidden(base_name) {
        EntryDecision::Skip
    } else if use_ignore_rules && spec_covered(cache, path) {
        EntryDecision::Skip
    } else if use_ignore_rules {
        EntryDecision::QueryIgnore
    } else {
        EntryDecision::Process
    }
}

/// Decides what to do with one entry, given its full path and base name.
pub fn entry_decision(
    config: &SearchConfig,
    cache: &IgnoreCache,
    path: &str,
    base_name: &str,
) -> (d: EntryDecision)
    ensures
        d == spec_entry_decision(
            config.skip_hidden,
            config.use_ignore_rules,
            cache@,
            path@,
            base_name@,
        ),
{
    proof {
        reveal_strlit(".");
    }
    if config.skip_hidden && base_name.unicode_len() > 0 && base_name.get_char(0) == '.' {
        return EntryDecision::Skip;
    }
    if config.use_ignore_rules {
        if cache.is_covered(path) {
            EntryDecision::Skip
        } else {
            EntryDecision::QueryIgnore
        }
    } else {
        EntryDecision::Process
    }
}

/// The fail-open reading of an oracle exchange: an entry counts as
/// ignored only when a repository root was found and the query answered
/// that it is; no root, no answer, or a failed query count as "not
/// ignored".
pub fn oracle_verdict(root_found: bool, answer: Option<bool>) -> (b: bool)
    ensures
        b == (root_found && answer == Some(true)),
{
    root_found && matches!(answer, Some(true))
}

/// Folds the oracle's verdict on one entry back into the memo: an
/// ignored entry is recorded and skipped, any other is kept and the memo
/// stays as it was.
pub fn apply_ignore_answer(cache: &mut IgnoreCache, path: &str, ignored: bool) -> (skip: bool)
    ensures
        skip == ignored,
        ignored ==> final(cache)@ == old(cache)@.push(path@),
        !ignored ==> final(cache)@ == old(cache)@,
{
    if ignored {
        cache.record(path);
        true
    } else {
        false
    }
}

/// Classifies one processed entry the way the walker dispatches it.
pub fn classify_entry(is_file: bool, is_dir: bool) -> (k: EntryKind)
    ensures
        k == EntryKind::File <==> is_file,
        k == EntryKind::Directory <==> (!is_file && is_dir),
        k == EntryKind::Other <==> (!is_file && !is_dir),
{
    if is_file {
        EntryKind::File
    } else if is_dir {
        EntryKind::Directory
    } else {
        EntryKind::Other
    }
}

/// Decides what a run does with its target: scan a regular file, walk a
/// directory, report a missing target, or nothing when the target claims
/// to be both at once.
pub fn dispatch_target(is_file: bool, is_dir: bool) -> (d: TargetDispatch)
    ensures
        d == TargetDispatch::ScanFile <==> (is_file && !is_dir),
        d == TargetDispatch::WalkDirectory <==> (!is_file && is_dir),
        d == TargetDispatch::NotFound <==> (!is_file && !is_dir),
        d == TargetDispatch::NoAction <==> (is_file && is_dir),
{
    if is_file && !is_dir {
        TargetDispatch::ScanFile
    } else if !is_file && is_dir {
        TargetDispatch::WalkDirectory
    } else if !is_file && !is_dir {
        TargetDispatch::NotFound
    } else {
        TargetDispatch::NoAction
    }
}

/// With the hidden-file policy on, a hidden entry is always skipped:
/// never scanned, never recursed into, never queried.
pub proof fn lemma_hidden_entry_skipped(
    use_ignore_rules: bool,
    cache: Seq<Seq<char>>,
    path: Seq<char>,
    base_name: Seq<char>,
)
    requires
        spec_hidden(base_name),
    ensures
        spec_entry_decision(true, use_ignore_rules, cache, path, base_name) == EntryDecision::Skip,
{
}

/// Once a path is recorded in the memo, every entry at or under it is
/// skipped outright — in particular, no further oracle query is made for
/// it.
pub proof fn lemma_ignored_subtree_needs_no_query(
    skip_hidden: bool,
    cache: Seq<Seq<char>>,
    p: Seq<char>,
    q: Seq<char>,
    base_name: Seq<char>,
)
    requires
        spec_path_covers(p, q),
    ensures
        spec_entry_decision(skip_hidden, true, cache.push(p), q, base_name)
            == EntryDecision::Skip,
{
    lemma_record_covers_subtree(cache, p, q);
}

} // verus!
