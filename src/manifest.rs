use vstd::prelude::*;
use crate::text::same_text;

verus! {

/// An asset the manifest expects, with its size in bytes.
pub struct ManifestEntry {
    pub path: String,
    pub expected_size: u64,
}

/// The authoritative list of assets: each path at most once.
pub struct Manifest {
    pub entries: Vec<ManifestEntry>,
}

/// The size that the last pair for `path` gives, if any pair names it.
pub open spec fn last_size(pairs: Seq<(String, u64)>, path: Seq<char>) -> Option<u64>
    decreases pairs.len(),
{
    if pairs.len() == 0 {
        None
    } else if pairs.last().0@ == path {
        Some(pairs.last().1)
    } else {
        last_size(pairs.drop_last(), path)
    }
}

/// Whether `path` is a key of `entries`.
pub open spec fn has_path(entries: Seq<ManifestEntry>, path: Seq<char>) -> bool {
    exists|k: int| 0 <= k < entries.len() && (#[trigger] entries[k]).path@ == path
}

impl Manifest {
    /// No path occurs twice.
    pub open spec fn wf(&self) -> bool {
        forall|a: int, b: int|
            0 <= a < b < self.entries@.len() ==> (#[trigger] self.entries@[a]).path@
                != (#[trigger] self.entries@[b]).path@
    }

    /// The size expected at `path`, if the manifest lists it.
    pub open spec fn size_of(&self, path: Seq<char>) -> Option<u64> {
        if has_path(self.entries@, path) {
            Some(
                self.entries@[choose|k: int|
                    0 <= k < self.entries@.len() && (#[trigger] self.entries@[k]).path@
                        == path].expected_size,
            )
        } else {
            None
        }
    }

    /// Builds a manifest from `(path, size)` pairs; where a path repeats, the
    /// last pair wins.
    pub fn from_pairs(pairs: Vec<(String, u64)>) -> (r: Manifest)
        ensures
            r.wf(),
            forall|p: Seq<char>| #[trigger] r.size_of(p) == last_size(pairs@, p),
    {
        let mut entries: Vec<ManifestEntry> = Vec::new();
        let mut i: usize = 0;
        while i < pairs.len()
            invariant
                i <= pairs@.len(),
                forall|k: int|
                    0 <= k < entries@.len() ==> last_size(
                        pairs@.subrange(0, i as int),
                        (#[trigger] entries@[k]).path@,
                    ) == Some(entries@[k].expected_size),
                forall|p: Seq<char>|
                    #![trigger last_size(pairs@.subrange(0, i as int), p)]
                    last_size(pairs@.subrange(0, i as int), p) is Some ==> has_path(entries@, p),
                forall|a: int, b: int|
                    0 <= a < b < entries@.len() ==> (#[trigger] entries@[a]).path@
                        != (#[trigger] entries@[b]).path@,
            decreases pairs@.len() - i,
        {
            let ghost prefix = pairs@.subrange(0, i as int);
            let ghost next = pairs@.subrange(0, i + 1);
            assert(next.drop_last() == prefix);
            assert(next.last() == pairs@[i as int]);
            let size = pairs[i].1;
            let ghost old_entries = entries@;
            match find_entry(&entries, pairs[i].0.as_str()) {
                Some(k) => {
                    let path = pairs[i].0.clone();
                    entries.set(k, ManifestEntry { path, expected_size: size });
                    proof {
                        assert forall|j: int| 0 <= j < entries@.len() implies last_size(
                            next,
                            (#[trigger] entries@[j]).path@,
                        ) == Some(entries@[j].expected_size) by {
                            if j != k {
                                assert(entries@[j] == old_entries[j]);
                            }
                        }
                        assert forall|p: Seq<char>|
                            #![trigger last_size(next, p)]
                            last_size(next, p) is Some implies has_path(entries@, p) by {
                            if p == pairs@[i as int].0@ {
                                assert(entries@[k as int].path@ == p);
                            } else {
                                assert(last_size(prefix, p) is Some);
                                let j = choose|j: int|
                                    0 <= j < old_entries.len() && (#[trigger] old_entries[j]).path@
                                        == p;
                                assert(entries@[j] == old_entries[j]);
                            }
                        }
                        assert forall|a: int, b: int|
                            0 <= a < b < entries@.len() implies (#[trigger] entries@[a]).path@
                                != (#[trigger] entries@[b]).path@ by {
                            assert(old_entries[a].path@ != old_entries[b].path@);
                        }
                    }
                },
                None => {
                    let path = pairs[i].0.clone();
                    entries.push(ManifestEntry { path, expected_size: size });
                    proof {
                        assert forall|j: int| 0 <= j < entries@.len() implies last_size(
                            next,
                            (#[trigger] entries@[j]).path@,
                        ) == Some(entries@[j].expected_size) by {
                            if j < old_entries.len() {
                                assert(entries@[j] == old_entries[j]);
                            }
                        }
                        assert forall|p: Seq<char>|
                            #![trigger last_size(next, p)]
                            last_size(next, p) is Some implies has_path(entries@, p) by {
                            if p == pairs@[i as int].0@ {
                                assert(entries@[old_entries.len() as int].path@ == p);
                            } else {
                                assert(last_size(prefix, p) is Some);
                                let j = choose|j: int|
                                    0 <= j < old_entries.len() && (#[trigger] old_entries[j]).path@
                                        == p;
                                assert(entries@[j] == old_entries[j]);
                            }
                        }
                        assert forall|a: int, b: int|
                            0 <= a < b < entries@.len() implies (#[trigger] entries@[a]).path@
                                != (#[trigger] entries@[b]).path@ by {
                            if b < old_entries.len() {
                                assert(old_entries[a].path@ != old_entries[b].path@);
                            } else {
                                assert(entries@[a] == old_entries[a]);
                            }
                        }
                    }
                },
            }
            i += 1;
        }
        assert(pairs@.subrange(0, pairs@.len() as int) == pairs@);
        let r = Manifest { entries };
        assert forall|p: Seq<char>| #[trigger] r.size_of(p) == last_size(pairs@, p) by {
            if has_path(r.entries@, p) {
                let k = choose|k: int|
                    0 <= k < r.entries@.len() && (#[trigger] r.entries@[k]).path@ == p;
                assert(last_size(pairs@, r.entries@[k].path@) == Some(r.entries@[k].expected_size));
            }
        }
        r
    }
}

/// Why the manifest could not be had.
#[derive(PartialEq, Eq, Structural, Clone, Copy, Debug)]
pub enum ManifestError {
    /// The manifest text did not evaluate to a table of
    /// `path = { size = n }` records.
    Unreadable,
}

/// The manifest from the `(path, size)` records that evaluating its Lua data
/// file gave, or `Unreadable` when the evaluation failed (`None`).
pub fn load_manifest(evaluated: Option<Vec<(String, u64)>>) -> (r: Result<Manifest, ManifestError>)
    ensures
        match (evaluated, r) {
            (None, Err(e)) => e == ManifestError::Unreadable,
            (Some(pairs), Ok(m)) => m.wf() && forall|p: Seq<char>| #[trigger] m.size_of(p)
                == last_size(pairs@, p),
            _ => false,
        },
{
    match evaluated {
        Some(pairs) => Ok(Manifest::from_pairs(pairs)),
        None => Err(ManifestError::Unreadable),
    }
}

/// Position of the entry for `path`, if there is one.
pub(crate) fn find_entry(entries: &Vec<ManifestEntry>, path: &str) -> (r: Option<usize>)
    ensures
        match r {
            Some(k) => k < entries@.len() && entries@[k as int].path@ == path@,
            None => forall|k: int| 0 <= k < entries@.len() ==> (#[trigger] entries@[k]).path@ != path@,
        },
{
    let mut k: usize = 0;
    while k < entries.len()
        invariant
            k <= entries@.len(),
            forall|j: int| 0 <= j < k ==> (#[trigger] entries@[j]).path@ != path@,
        decreases entries@.len() - k,
    {
        if same_text(entries[k].path.as_str(), path) {
            return Some(k);
        }
        k += 1;
    }
    None
}

} // verus!
