//! The traversal itself, over a directory tree held in memory.
//!
//! [`walk_tree`] runs the whole search over an [`FsTree`]: the same
//! per-entry decisions a caller makes over a real directory (hidden-file
//! policy, ignore memo, oracle query, scan or recurse), with the ignore
//! oracle modeled as the set of paths it would call ignored. Its effect
//! is pinned to [`spec_walk`], so the traversal's laws — a hidden subtree
//! contributes nothing, a recorded subtree is never queried again, equal
//! inputs give equal output — are proved here once and for all.

use vstd::prelude::*;

use crate::config::SearchConfig;
use crate::ignore::{
    lemma_covered_monotone, lemma_record_covers_subtree, spec_covered, spec_path_covers,
    IgnoreCache,
};
use crate::matcher::Matcher;
use crate::scan::{scan_file_text, spec_file_output};
use crate::text::str_eq;
use crate::walk::{
    apply_ignore_answer, entry_decision, spec_entry_decision, spec_hidden, EntryDecision,
};

verus! {

/// One directory entry of a modeled tree: a regular file with its text, a
/// directory with its entries, or anything else, which a walk leaves
/// alone.
pub enum FsTree {
    File { name: String, content: String },
    Dir { name: String, entries: Vec<FsTree> },
    Other { name: String },
}

/// The base name of a tree entry.
pub open spec fn spec_node_name(node: FsTree) -> Seq<char> {
    match node {
        FsTree::File { name, .. } => name@,
        FsTree::Dir { name, .. } => name@,
        FsTree::Other { name } => name@,
    }
}

/// The full path of an entry under its parent directory.
pub open spec fn spec_child_path(parent: Seq<char>, name: Seq<char>) -> Seq<char> {
    parent + seq!['/'] + name
}

/// Everything one walk does: the output it emits, the ignore memo it
/// leaves behind, and the paths it asked the oracle about.
pub struct WalkEffect {
    pub output: Seq<Seq<char>>,
    pub cache: Seq<Seq<char>>,
    pub queried: Seq<Seq<char>>,
}

/// The effect of walking one entry. The entry's decision is the walker's:
/// a skipped entry does nothing at all; a queried entry found ignored is
/// recorded and dropped; a kept file is scanned, a kept directory walked,
/// anything else left alone.
pub open spec fn spec_walk_node(
    node: FsTree,
    parent: Seq<char>,
    cache: Seq<Seq<char>>,
    config: SearchConfig,
    oracle: Seq<Seq<char>>,
) -> WalkEffect
    decreases node,
{
    let name = spec_node_name(node);
    let path = spec_child_path(parent, name);
    let d = spec_entry_decision(config.skip_hidden, config.use_ignore_rules, cache, path, name);
    if d is Skip {
        WalkEffect { output: Seq::empty(), cache, queried: Seq::empty() }
    } else if d is QueryIgnore && oracle.contains(path) {
        WalkEffect { output: Seq::empty(), cache: cache.push(path), queried: seq![path] }
    } else {
        let queried = if d is QueryIgnore {
            seq![path]
        } else {
            Seq::empty()
        };
        match node {
            FsTree::File { content, .. } => WalkEffect {
                output: spec_file_output(path, content@, config.pattern@, config.case_insensitive),
                cache,
                queried,
            },
            FsTree::Dir { entries, .. } => {
                let sub = spec_walk(entries@, path, cache, config, oracle);
                WalkEffect { output: sub.output, cache: sub.cache, queried: queried + sub.queried }
            },
            FsTree::Other { .. } => WalkEffect { output: Seq::empty(), cache, queried },
        }
    }
}

/// The effect of walking a directory's entries in order, threading the
/// ignore memo from each entry to the next.
pub open spec fn spec_walk(
    nodes: Seq<FsTree>,
    parent: Seq<char>,
    cache: Seq<Seq<char>>,
    config: SearchConfig,
    oracle: Seq<Seq<char>>,
) -> WalkEffect
    decreases nodes,
{
    if nodes.len() == 0 {
        WalkEffect { output: Seq::empty(), cache, queried: Seq::empty() }
    } else {
        let first = spec_walk_node(nodes[0], parent, cache, config, oracle);
        let rest = spec_walk(nodes.drop_first(), parent, first.cache, config, oracle);
        WalkEffect {
            output: first.output + rest.output,
            cache: rest.cache,
            queried: first.queried + rest.queried,
        }
    }
}

/// With the hidden-file policy on, a hidden entry's whole subtree
/// contributes nothing: no output, no memo change, no oracle query.
pub proof fn lemma_hidden_subtree_contributes_nothing(
    node: FsTree,
    parent: Seq<char>,
    cache: Seq<Seq<char>>,
    config: SearchConfig,
    oracle: Seq<Seq<char>>,
)
    requires
        config.skip_hidden,
        spec_hidden(spec_node_name(node)),
    ensures
        spec_walk_node(node, parent, cache, config, oracle).output == Seq::<Seq<char>>::empty(),
        spec_walk_node(node, parent, cache, config, oracle).cache == cache,
        spec_walk_node(node, parent, cache, config, oracle).queried == Seq::<Seq<char>>::empty(),
{
}

/// A walk only ever adds to the ignore memo: whatever was covered before
/// stays covered after.
pub proof fn lemma_walk_preserves_coverage(
    nodes: Seq<FsTree>,
    parent: Seq<char>,
    cache: Seq<Seq<char>>,
    config: SearchConfig,
    oracle: Seq<Seq<char>>,
    p: Seq<char>,
)
    requires
        spec_covered(cache, p),
    ensures
        spec_covered(spec_walk(nodes, parent, cache, config, oracle).cache, p),
    decreases nodes,
{
    if nodes.len() > 0 {
        lemma_walk_node_preserves_coverage(nodes[0], parent, cache, config, oracle, p);
        let first = spec_walk_node(nodes[0], parent, cache, config, oracle);
        lemma_walk_preserves_coverage(nodes.drop_first(), parent, first.cache, config, oracle, p);
    }
}

proof fn lemma_walk_node_preserves_coverage(
    node: FsTree,
    parent: Seq<char>,
    cache: Seq<Seq<char>>,
    config: SearchConfig,
    oracle: Seq<Seq<char>>,
    p: Seq<char>,
)
    requires
        spec_covered(cache, p),
    ensures
        spec_covered(spec_walk_node(node, parent, cache, config, oracle).cache, p),
    decreases node,
{
    let name = spec_node_name(node);
    let path = spec_child_path(parent, name);
    let d = spec_entry_decision(config.skip_hidden, config.use_ignore_rules, cache, path, name);
    if d is Skip {
    } else if d is QueryIgnore && oracle.contains(path) {
        lemma_covered_monotone(cache, path, p);
    } else {
        match node {
            FsTree::Dir { entries, .. } => {
                lemma_walk_preserves_coverage(entries@, path, cache, config, oracle, p);
            },
            _ => {},
        }
    }
}

/// A walk never asks the oracle about a path the memo already covers:
/// the whole subtree under a covered path goes unqueried.
pub proof fn lemma_covered_paths_never_queried(
    nodes: Seq<FsTree>,
    parent: Seq<char>,
    cache: Seq<Seq<char>>,
    config: SearchConfig,
    oracle: Seq<Seq<char>>,
    q: Seq<char>,
)
    requires
        spec_covered(cache, q),
    ensures
        !spec_walk(nodes, parent, cache, config, oracle).queried.contains(q),
    decreases nodes,
{
    if nodes.len() > 0 {
        let first = spec_walk_node(nodes[0], parent, cache, config, oracle);
        let rest = spec_walk(nodes.drop_first(), parent, first.cache, config, oracle);
        lemma_walk_node_never_queries_covered(nodes[0], parent, cache, config, oracle, q);
        lemma_walk_node_preserves_coverage(nodes[0], parent, cache, config, oracle, q);
        lemma_covered_paths_never_queried(
            nodes.drop_first(),
            parent,
            first.cache,
            config,
            oracle,
            q,
        );
        if (first.queried + rest.queried).contains(q) {
            let k = choose|k: int|
                0 <= k < (first.queried + rest.queried).len() && (first.queried
                    + rest.queried)[k] == q;
            if k < first.queried.len() {
                assert(first.queried[k] == q);
            } else {
                assert(rest.queried[k - first.queried.len()] == q);
            }
        }
    }
}

proof fn lemma_walk_node_never_queries_covered(
    node: FsTree,
    parent: Seq<char>,
    cache: Seq<Seq<char>>,
    config: SearchConfig,
    oracle: Seq<Seq<char>>,
    q: Seq<char>,
)
    requires
        spec_covered(cache, q),
    ensures
        !spec_walk_node(node, parent, cache, config, oracle).queried.contains(q),
    decreases node,
{
    let name = spec_node_name(node);
    let path = spec_child_path(parent, name);
    let d = spec_entry_decision(config.skip_hidden, config.use_ignore_rules, cache, path, name);
    if d is Skip {
    } else if d is QueryIgnore && oracle.contains(path) {
        assert(!spec_covered(cache, path));
    } else {
        let queried = if d is QueryIgnore {
            seq![path]
        } else {
            Seq::<Seq<char>>::empty()
        };
        if d is QueryIgnore {
            assert(!spec_covered(cache, path));
        }
        match node {
            FsTree::Dir { entries, .. } => {
                lemma_covered_paths_never_queried(entries@, path, cache, config, oracle, q);
                let sub = spec_walk(entries@, path, cache, config, oracle);
                if (queried + sub.queried).contains(q) {
                    let k = choose|k: int|
                        0 <= k < (queried + sub.queried).len() && (queried + sub.queried)[k] == q;
                    if k < queried.len() {
                        assert(queried[k] == q);
                    } else {
                        assert(sub.queried[k - queried.len()] == q);
                    }
                }
            },
            _ => {
                if queried.contains(q) {
                    let k = choose|k: int| 0 <= k < queried.len() && queried[k] == q;
                    assert(queried[k] == q);
                }
            },
        }
    }
}

/// Once a path is recorded in the memo, nothing at or under it is ever
/// queried again, however far the walk goes.
pub proof fn lemma_recorded_subtree_never_queried(
    nodes: Seq<FsTree>,
    parent: Seq<char>,
    cache: Seq<Seq<char>>,
    config: SearchConfig,
    oracle: Seq<Seq<char>>,
    p: Seq<char>,
    q: Seq<char>,
)
    requires
        spec_path_covers(p, q),
    ensures
        !spec_walk(nodes, parent, cache.push(p), config, oracle).queried.contains(q),
{
    lemma_record_covers_subtree(cache, p, q);
    lemma_covered_paths_never_queried(nodes, parent, cache.push(p), config, oracle, q);
}

/// A walk is a function of the tree, the starting memo, the
/// configuration and the oracle alone: two walks over the same values
/// emit identical output.
pub proof fn lemma_walk_deterministic(
    a: WalkEffect,
    b: WalkEffect,
    nodes: Seq<FsTree>,
    parent: Seq<char>,
    cache: Seq<Seq<char>>,
    config: SearchConfig,
    oracle: Seq<Seq<char>>,
)
    requires
        a == spec_walk(nodes, parent, cache, config, oracle),
        b == spec_walk(nodes, parent, cache, config, oracle),
    ensures
        a.output == b.output,
        a.cache == b.cache,
{
}

/// Whether the modeled oracle calls `path` ignored.
fn oracle_contains(oracle: &Vec<String>, path: &str) -> (r: bool)
    ensures
        r == oracle@.map_values(|p: String| p@).contains(path@),
{
    let ghost ov = oracle@.map_values(|p: String| p@);
    let mut k: usize = 0;
    while k < oracle.len()
        invariant
            0 <= k <= oracle@.len(),
            ov == oracle@.map_values(|p: String| p@),
            forall|j: int| 0 <= j < k ==> ov[j] != path@,
        decreases oracle@.len() - k,
    {
        if str_eq(oracle[k].as_str(), path) {
            assert(ov[k as int] == path@);
            return true;
        }
        k += 1;
    }
    false
}

/// Joins a base name to its parent directory's path.
fn child_path(parent: &str, name: &str) -> (r: String)
    ensures
        r@ == spec_child_path(parent@, name@),
{
    proof {
        reveal_strlit("/");
    }
    let mut r = parent.to_owned();
    r.append("/");
    r.append(name);
    proof {
        assert(r@ =~= spec_child_path(parent@, name@));
    }
    r
}

/// Walks a directory's entries in order: decides each entry, asks the
/// modeled oracle where the decision calls for it, records what it
/// answers, scans kept files and recurses into kept directories, and
/// appends every emitted line to `out`.
pub fn walk_tree(
    config: &SearchConfig,
    m: &Matcher,
    nodes: &Vec<FsTree>,
    parent: &str,
    cache: &mut IgnoreCache,
    oracle: &Vec<String>,
    out: &mut Vec<String>,
)
    requires
        m.spec_pattern() == config.pattern@,
        m.spec_ci() == config.case_insensitive,
    ensures
        ({
            let eff = spec_walk(
                nodes@,
                parent@,
                old(cache)@,
                *config,
                oracle@.map_values(|p: String| p@),
            );
            &&& final(cache)@ == eff.cache
            &&& final(out)@.map_values(|l: String| l@) == old(out)@.map_values(|l: String| l@)
                + eff.output
        }),
    decreases nodes@,
{
    let ghost ov = oracle@.map_values(|p: String| p@);
    let ghost cfg = *config;
    let ghost c0 = cache@;
    let ghost out0 = out@.map_values(|l: String| l@);
    let ghost total = spec_walk(nodes@, parent@, c0, cfg, ov);
    let ghost mut done: Seq<Seq<char>> = Seq::empty();
    let mut i: usize = 0;
    proof {
        assert(nodes@.skip(0) =~= nodes@);
    }
    while i < nodes.len()
        invariant
            0 <= i <= nodes@.len(),
            m.spec_pattern() == cfg.pattern@,
            m.spec_ci() == cfg.case_insensitive,
            cfg == *config,
            ov == oracle@.map_values(|p: String| p@),
            total == spec_walk(nodes@, parent@, c0, cfg, ov),
            out@.map_values(|l: String| l@) == out0 + done,
            ({
                let rem = spec_walk(nodes@.skip(i as int), parent@, cache@, cfg, ov);
                &&& total.output == done + rem.output
                &&& total.cache == rem.cache
            }),
        decreases nodes@.len() - i,
    {
        let ghost rem = spec_walk(nodes@.skip(i as int), parent@, cache@, cfg, ov);
        let ghost first = spec_walk_node(nodes@[i as int], parent@, cache@, cfg, ov);
        proof {
            assert(nodes@.skip(i as int)[0] == nodes@[i as int]);
            assert(nodes@.skip(i as int).drop_first() =~= nodes@.skip(i as int + 1));
        }
        let node = &nodes[i];
        let name = match node {
            FsTree::File { name, .. } => name,
            FsTree::Dir { name, .. } => name,
            FsTree::Other { name } => name,
        };
        let path = child_path(parent, name.as_str());
        proof {
            assert(name@ == spec_node_name(nodes@[i as int]));
            assert(path@ == spec_child_path(parent@, name@));
        }
        let d = entry_decision(config, cache, path.as_str(), name.as_str());
        let mut keep = true;
        match d {
            EntryDecision::Skip => {
                keep = false;
            },
            EntryDecision::QueryIgnore => {
                let ignored = oracle_contains(oracle, path.as_str());
                if apply_ignore_answer(cache, path.as_str(), ignored) {
                    keep = false;
                }
            },
            EntryDecision::Process => {},
        }
        if keep {
            match node {
                FsTree::File { content, .. } => {
                    let mut add = scan_file_text(path.as_str(), content.as_str(), m);
                    let ghost before = out@;
                    out.append(&mut add);
                    proof {
                        assert(out@.map_values(|l: String| l@) =~= before.map_values(
                            |l: String| l@,
                        ) + first.output);
                    }
                },
                FsTree::Dir { entries, .. } => {
                    walk_tree(config, m, entries, path.as_str(), cache, oracle, out);
                },
                FsTree::Other { .. } => {},
            }
        }
        proof {
            assert(cache@ == first.cache);
            assert(out@.map_values(|l: String| l@) =~= out0 + done + first.output);
            done = done + first.output;
            let rest = spec_walk(nodes@.skip(i as int + 1), parent@, cache@, cfg, ov);
            assert(rem.output =~= first.output + rest.output);
            assert(total.output =~= done + rest.output);
        }
        i += 1;
    }
    proof {
        assert(nodes@.skip(nodes@.len() as int) =~= Seq::<FsTree>::empty());
        assert(total.output =~= done);
    }
}

} // verus!
