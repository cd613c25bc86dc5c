use vstd::prelude::*;
use std::collections::HashMap;
use crate::paths::{
    join_spec, logical_spec, rewrite_spec, hidden_spec, dotted_spec, join_path, logical_path,
    rewrite_extension, is_hidden_name, has_dot, ends_with_legacy, lemma_rewrite_idempotent,
    lemma_rewrite_moves_legacy,
};

verus! {

/// What a hash resolves to.
pub enum AssetEntry {
    /// A concrete file that substitutes for one logical path.
    SingleFile(String),
    /// A directory whose files are interchangeable substitutes for one
    /// logical path; one is drawn per request.
    Pool(String),
}

/// What to do with one entry of a directory listing while the index is built.
pub enum Visit {
    /// An ordinary subdirectory: list it and visit its entries too.
    Descend(String),
    /// Index the entry under the hash of the logical path.
    Index(String, AssetEntry),
    /// Leave the entry out.
    Skip,
}

/// The decision for an entry `name` of directory `dir`, with `root` the
/// substitute root.
pub open spec fn visit_spec(root: Seq<char>, dir: Seq<char>, name: Seq<char>, is_dir: bool, v: Visit) -> bool {
    let physical = join_spec(dir, name);
    let logical = logical_spec(root, physical);
    if is_dir && !dotted_spec(name) {
        v matches Visit::Descend(p) && p@ == physical
    } else if is_dir {
        match logical {
            Some(l) => v matches Visit::Index(k, AssetEntry::Pool(d)) && k@ == l && d@ == physical,
            None => v is Skip,
        }
    } else if hidden_spec(name) {
        v is Skip
    } else {
        match logical {
            Some(l) => v matches Visit::Index(k, AssetEntry::SingleFile(f)) && k@ == rewrite_spec(l) && f@
                == physical,
            None => v is Skip,
        }
    }
}

/// Classifies the entry `name` of directory `dir`. A directory whose own name
/// holds a dot is a pool; any other directory is descended into. A file is
/// indexed under its logical path with the legacy extension rewritten, unless
/// its name carries the hidden-artifact marker. Entries outside `root` are
/// skipped.
pub fn classify_entry(root: &str, dir: &str, name: &str, is_dir: bool) -> (r: Visit)
    ensures
        visit_spec(root@, dir@, name@, is_dir, r),
{
    let physical = join_path(dir, name);
    if is_dir && !has_dot(name) {
        return Visit::Descend(physical);
    }
    if !is_dir && is_hidden_name(name) {
        return Visit::Skip;
    }
    match logical_path(root, physical.as_str()) {
        Some(l) => {
            if is_dir {
                Visit::Index(l, AssetEntry::Pool(physical))
            } else {
                let k = rewrite_extension(l.as_str());
                Visit::Index(k, AssetEntry::SingleFile(physical))
            }
        },
        None => Visit::Skip,
    }
}

/// The substitute assets, keyed by the hash of their logical path.
pub struct StreamFiles {
    files: HashMap<u64, AssetEntry>,
}

impl View for StreamFiles {
    type V = Map<u64, AssetEntry>;

    closed spec fn view(&self) -> Map<u64, AssetEntry> {
        self.files@
    }
}

impl StreamFiles {
    /// An empty index: every lookup misses.
    pub fn new() -> (r: Self)
        ensures
            r@ == Map::<u64, AssetEntry>::empty(),
    {
        StreamFiles { files: HashMap::new() }
    }

    /// Records `entry` under `hash`; a later entry replaces an earlier one.
    pub fn insert(&mut self, hash: u64, entry: AssetEntry)
        ensures
            final(self)@ == old(self)@.insert(hash, entry),
    {
        self.files.insert(hash, entry);
    }

    /// Records the outcome of visiting one entry: an indexed entry is stored
    /// under `hash`, the hash of its logical path; other outcomes leave the
    /// index as it is. Returns the directory to descend into, if any.
    pub fn visit(&mut self, v: Visit, hash: u64) -> (r: Option<String>)
        ensures
            match v {
                Visit::Index(_, e) => final(self)@ == old(self)@.insert(hash, e) && r is None,
                Visit::Descend(d) => final(self)@ == old(self)@ && r == Some(d),
                Visit::Skip => final(self)@ == old(self)@ && r is None,
            },
    {
        match v {
            Visit::Index(_, e) => {
                self.insert(hash, e);
                None
            },
            Visit::Descend(d) => Some(d),
            Visit::Skip => None,
        }
    }

    /// The entry recorded under `hash`, if any.
    pub fn get(&self, hash: u64) -> (r: Option<&AssetEntry>)
        ensures
            match r {
                Some(e) => self@.contains_key(hash) && *e == self@[hash],
                None => !self@.contains_key(hash),
            },
    {
        self.files.get(&hash)
    }
}

/// The index after recording `visits` in order into `m`, the `i`-th one
/// under `hashes[i]`, the hash of its logical path.
pub open spec fn record_all(m: Map<u64, AssetEntry>, visits: Seq<Visit>, hashes: Seq<u64>) -> Map<u64, AssetEntry>
    decreases visits.len(),
{
    if visits.len() == 0 {
        m
    } else {
        let n = visits.len() - 1;
        let prev = record_all(m, visits.take(n), hashes);
        match visits[n] {
            Visit::Index(_, e) => prev.insert(hashes[n], e),
            _ => prev,
        }
    }
}

/// The entries of a walk of the tree: for the `i`-th one its directory, its
/// name and whether it is a directory, and the decision taken for it.
pub open spec fn walk_classified(
    root: Seq<char>,
    entries: Seq<(Seq<char>, Seq<char>, bool)>,
    visits: Seq<Visit>,
) -> bool {
    &&& entries.len() == visits.len()
    &&& forall|i: int|
        0 <= i < visits.len() ==> visit_spec(root, entries[i].0, entries[i].1, entries[i].2, #[trigger] visits[i])
}

/// Every key of an index built from a walk is the hash of an entry that was
/// indexed: a file without the hidden-artifact marker, or a pool directory.
/// So a hidden-marked file never contributes a key.
pub proof fn lemma_keys_from_indexed_entries(
    root: Seq<char>,
    entries: Seq<(Seq<char>, Seq<char>, bool)>,
    visits: Seq<Visit>,
    hashes: Seq<u64>,
    k: u64,
)
    requires
        walk_classified(root, entries, visits),
        hashes.len() == visits.len(),
        record_all(Map::empty(), visits, hashes).contains_key(k),
    ensures
        exists|i: int|
            0 <= i < visits.len() && hashes[i] == k && #[trigger] visits[i] is Index && (entries[i].2
                || !hidden_spec(entries[i].1)),
    decreases visits.len(),
{
    let n = visits.len() - 1;
    let pe = entries.take(n);
    let pv = visits.take(n);
    let ph = hashes.take(n);
    assert(record_all(Map::empty(), pv, hashes) == record_all(Map::empty(), pv, ph)) by {
        lemma_record_all_prefix_hashes(Map::empty(), pv, hashes, ph);
    }
    if visits[n] is Index && hashes[n] == k {
        assert(visit_spec(root, entries[n].0, entries[n].1, entries[n].2, visits[n]));
    } else {
        assert(walk_classified(root, pe, pv)) by {
            assert forall|i: int| 0 <= i < pv.len() implies visit_spec(root, pe[i].0, pe[i].1, pe[i].2, #[trigger] pv[i]) by {
                assert(visits[i] == pv[i]);
            }
        }
        lemma_keys_from_indexed_entries(root, pe, pv, ph, k);
        let i = choose|i: int| 0 <= i < pv.len() && ph[i] == k && #[trigger] pv[i] is Index && (pe[i].2 || !hidden_spec(pe[i].1));
        assert(visits[i] == pv[i]);
    }
}

/// Recording depends only on the hashes of the visits recorded.
proof fn lemma_record_all_prefix_hashes(m: Map<u64, AssetEntry>, visits: Seq<Visit>, h1: Seq<u64>, h2: Seq<u64>)
    requires
        h1.len() >= visits.len(),
        h2.len() >= visits.len(),
        forall|i: int| 0 <= i < visits.len() ==> h1[i] == h2[i],
    ensures
        record_all(m, visits, h1) == record_all(m, visits, h2),
    decreases visits.len(),
{
    if visits.len() > 0 {
        lemma_record_all_prefix_hashes(m, visits.take(visits.len() - 1), h1, h2);
    }
}

/// A file of the walk that no later indexed entry shares a hash with is
/// found under its hash, as a single file at its physical location, and it
/// was indexed under its logical path with the legacy extension rewritten.
pub proof fn lemma_file_found(
    root: Seq<char>,
    entries: Seq<(Seq<char>, Seq<char>, bool)>,
    visits: Seq<Visit>,
    hashes: Seq<u64>,
    j: int,
)
    requires
        walk_classified(root, entries, visits),
        hashes.len() == visits.len(),
        0 <= j < visits.len(),
        !entries[j].2,
        !hidden_spec(entries[j].1),
        logical_spec(root, join_spec(entries[j].0, entries[j].1)) is Some,
        forall|i: int| j < i < visits.len() && #[trigger] visits[i] is Index ==> hashes[i] != hashes[j],
    ensures
        visits[j] matches Visit::Index(k, _) && k@ == rewrite_spec(
            logical_spec(root, join_spec(entries[j].0, entries[j].1))->0,
        ),
        record_all(Map::empty(), visits, hashes).contains_key(hashes[j]),
        record_all(Map::empty(), visits, hashes)[hashes[j]] matches AssetEntry::SingleFile(f) && f@
            == join_spec(entries[j].0, entries[j].1),
    decreases visits.len(),
{
    assert(visit_spec(root, entries[j].0, entries[j].1, entries[j].2, visits[j]));
    let n = visits.len() - 1;
    if j < n {
        let pe = entries.take(n);
        let pv = visits.take(n);
        assert(walk_classified(root, pe, pv)) by {
            assert forall|i: int| 0 <= i < pv.len() implies visit_spec(root, pe[i].0, pe[i].1, pe[i].2, #[trigger] pv[i]) by {
                assert(visits[i] == pv[i]);
            }
        }
        let ph = hashes.take(n);
        assert forall|i: int| j < i < pv.len() && #[trigger] pv[i] is Index implies ph[i] != ph[j] by {
            assert(visits[i] == pv[i]);
        }
        lemma_file_found(root, pe, pv, ph, j);
        lemma_record_all_prefix_hashes(Map::empty(), pv, hashes, ph);
    }
}

/// A file whose logical path `l` ends in the legacy extension is indexed
/// under the rewritten path only: the key differs from `l`, and rewriting
/// the key again leaves it as it is.
pub proof fn lemma_legacy_file_key(root: Seq<char>, dir: Seq<char>, name: Seq<char>, v: Visit, l: Seq<char>)
    requires
        visit_spec(root, dir, name, false, v),
        !hidden_spec(name),
        logical_spec(root, join_spec(dir, name)) == Some(l),
        ends_with_legacy(l),
    ensures
        v matches Visit::Index(k, _) && k@ == rewrite_spec(l) && k@ != l && rewrite_spec(k@) == k@,
{
    lemma_rewrite_moves_legacy(l);
    lemma_rewrite_idempotent(l);
}

} // verus!
