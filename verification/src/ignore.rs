//! The run-local memo of paths already confirmed ignored.
//!
//! Once a directory is recorded, every path lying under it is covered and
//! need never be queried again. Covering uses path-component semantics:
//! `/foo` covers `/foo` and `/foo/bar`, but not `/foo2`.

use vstd::prelude::*;

verus! {

/// Whether `desc` is `anc` itself or a path nested under it: equal, or
/// extending it past a `'/'` separator.
pub open spec fn spec_path_covers(anc: Seq<char>, desc: Seq<char>) -> bool {
    desc == anc || (desc.len() > anc.len() && desc.subrange(0, anc.len() as int) == anc
        && desc[anc.len() as int] == '/')
}

/// Whether some recorded path covers `path`.
pub open spec fn spec_covered(cache: Seq<Seq<char>>, path: Seq<char>) -> bool {
    exists|k: int| 0 <= k < cache.len() && spec_path_covers(cache[k], path)
}

/// Recording more paths never uncovers one.
pub proof fn lemma_covered_monotone(cache: Seq<Seq<char>>, p: Seq<char>, q: Seq<char>)
    requires
        spec_covered(cache, q),
    ensures
        spec_covered(cache.push(p), q),
{
    let k = choose|k: int| 0 <= k < cache.len() && spec_path_covers(cache[k], q);
    assert(cache.push(p)[k] == cache[k]);
}

/// Once `p` is recorded, `p` itself and everything nested under it is
/// covered.
pub proof fn lemma_record_covers_subtree(cache: Seq<Seq<char>>, p: Seq<char>, q: Seq<char>)
    requires
        spec_path_covers(p, q),
    ensures
        spec_covered(cache.push(p), q),
{
    assert(cache.push(p)[cache.len() as int] == p);
}

/// Whether `desc` is `anc` or lies under it, by path components.
pub fn path_covers(anc: &str, desc: &str) -> (r: bool)
    ensures
        r == spec_path_covers(anc@, desc@),
{
    let an = anc.unicode_len();
    let dn = desc.unicode_len();
    if dn < an {
        return false;
    }
    if dn == an {
        return crate::text::str_eq(anc, desc);
    }
    if desc.get_char(an) != '/' {
        return false;
    }
    let mut j: usize = 0;
    while j < an
        invariant
            0 <= j <= an,
            an == anc@.len(),
            an < dn == desc@.len(),
            forall|k: int| 0 <= k < j ==> anc@[k] == desc@[k],
        decreases an - j,
    {
        if anc.get_char(j) != desc.get_char(j) {
            assert(desc@.subrange(0, an as int)[j as int] != anc@[j as int]);
            return false;
        }
        j += 1;
    }
    proof {
        assert(desc@.subrange(0, an as int) =~= anc@);
    }
    true
}

/// The growing set of directory paths confirmed ignored during one run.
pub struct IgnoreCache {
    paths: Vec<String>,
}

impl View for IgnoreCache {
    type V = Seq<Seq<char>>;

    closed spec fn view(&self) -> Seq<Seq<char>> {
        self.paths@.map_values(|p: String| p@)
    }
}

impl IgnoreCache {
    /// An empty memo: nothing is covered yet.
    pub fn new() -> (r: Self)
        ensures
            r@ == Seq::<Seq<char>>::empty(),
    {
        let r = IgnoreCache { paths: Vec::new() };
        proof {
            assert(r@ =~= Seq::<Seq<char>>::empty());
        }
        r
    }

    /// Whether `path` is equal to or nested under a recorded path.
    pub fn is_covered(&self, path: &str) -> (r: bool)
        ensures
            r == spec_covered(self@, path@),
    {
        let mut j: usize = 0;
        while j < self.paths.len()
            invariant
                0 <= j <= self.paths@.len(),
                self@ == self.paths@.map_values(|p: String| p@),
                forall|k: int| 0 <= k < j ==> !spec_path_covers(self@[k], path@),
            decreases self.paths@.len() - j,
        {
            if path_covers(self.paths[j].as_str(), path) {
                assert(spec_path_covers(self@[j as int], path@));
                return true;
            }
            j += 1;
        }
        false
    }

    /// Records `path` as a newly confirmed ignored root.
    pub fn record(&mut self, path: &str)
        ensures
            final(self)@ == old(self)@.push(path@),
    {
        self.paths.push(path.to_owned());
        proof {
            assert(self@ =~= old(self)@.push(path@));
        }
    }
}

} // verus!
