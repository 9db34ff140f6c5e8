use vstd::prelude::*;
use crate::manifest::{find_entry, has_path, Manifest, ManifestEntry};
use crate::shard::{file_name_of, release_for_path, shard_key};
use crate::text::{joined, same_text};

verus! {

/// The release channel of a manifest entry, judged by its file name.
pub open spec fn asset_key(e: ManifestEntry) -> Seq<char> {
    shard_key(file_name_of(e.path@))
}

pub open spec fn strictly_increasing(v: Seq<usize>) -> bool {
    forall|a: int, b: int| 0 <= a < b < v.len() ==> v[a] < v[b]
}

/// `pending` lists, in increasing order, exactly the positions of the entries
/// whose local size differs from the expected one.
pub open spec fn is_pending_selection(
    entries: Seq<ManifestEntry>,
    local_sizes: Seq<u64>,
    pending: Seq<usize>,
) -> bool {
    &&& strictly_increasing(pending)
    &&& forall|k: int| 0 <= k < pending.len() ==> pending[k] < entries.len()
    &&& forall|k: usize|
        #![trigger pending.contains(k)]
        pending.contains(k) <==> (k < entries.len() && local_sizes[k as int]
            != entries[k as int].expected_size)
}

/// Picks, by position, the manifest entries whose local size differs from the
/// expected one; `local_sizes[k]` is the size of the local copy of entry `k`
/// (0 when it is absent).
pub fn select_pending(manifest: &Manifest, local_sizes: &Vec<u64>) -> (r: Vec<usize>)
    requires
        local_sizes@.len() == manifest.entries@.len(),
    ensures
        is_pending_selection(manifest.entries@, local_sizes@, r@),
{
    let mut out: Vec<usize> = Vec::new();
    let mut k: usize = 0;
    while k < manifest.entries.len()
        invariant
            k <= manifest.entries@.len(),
            local_sizes@.len() == manifest.entries@.len(),
            strictly_increasing(out@),
            forall|j: int| 0 <= j < out@.len() ==> out@[j] < k,
            forall|x: usize|
                #![trigger out@.contains(x)]
                out@.contains(x) <==> (x < k && local_sizes@[x as int]
                    != manifest.entries@[x as int].expected_size),
        decreases manifest.entries@.len() - k,
    {
        let ghost before = out@;
        if local_sizes[k] != manifest.entries[k].expected_size {
            out.push(k);
            proof {
                assert forall|a: int, b: int| 0 <= a < b < out@.len() implies out@[a] < out@[b] by {
                    if b == before.len() {
                        assert(out@[a] == before[a]);
                    } else {
                        assert(out@[a] == before[a] && out@[b] == before[b]);
                    }
                }
                assert forall|x: usize|
                    #![trigger out@.contains(x)]
                    out@.contains(x) <==> (x < k + 1 && local_sizes@[x as int]
                        != manifest.entries@[x as int].expected_size) by {
                    if x == k {
                        assert(out@[before.len() as int] == x);
                    } else if out@.contains(x) {
                        let t = choose|t: int| 0 <= t < out@.len() && out@[t] == x;
                        assert(t < before.len());
                        assert(before[t] == x);
                        assert(before.contains(x));
                    } else if x < k && local_sizes@[x as int]
                        != manifest.entries@[x as int].expected_size {
                        assert(before.contains(x));
                        let t = choose|t: int| 0 <= t < before.len() && before[t] == x;
                        assert(out@[t] == x);
                    }
                }
            }
        } else {
            proof {
                assert forall|x: usize|
                    #![trigger out@.contains(x)]
                    out@.contains(x) <==> (x < k + 1 && local_sizes@[x as int]
                        != manifest.entries@[x as int].expected_size) by {
                    if out@.contains(x) {
                        let t = choose|t: int| 0 <= t < out@.len() && out@[t] == x;
                        assert(out@[t] < k);
                        assert(before.contains(x));
                    }
                }
            }
        }
        k += 1;
    }
    out
}

/// An asset already at its expected size is never picked for download.
pub proof fn lemma_up_to_date_never_pending(
    manifest: Manifest,
    local_sizes: Seq<u64>,
    pending: Seq<usize>,
    k: usize,
)
    requires
        local_sizes.len() == manifest.entries@.len(),
        is_pending_selection(manifest.entries@, local_sizes, pending),
        k < manifest.entries@.len(),
        local_sizes[k as int] == manifest.entries@[k as int].expected_size,
    ensures
        !pending.contains(k),
{
}

/// The pending entries (by position in the manifest) that go to one release.
pub struct ShardBatch {
    pub release: String,
    pub members: Vec<usize>,
}

/// Position of a string with the text of `s` in `v`, if any.
fn text_position(v: &Vec<String>, s: &str) -> (r: Option<usize>)
    ensures
        match r {
            Some(k) => k < v@.len() && v@[k as int]@ == s@,
            None => forall|k: int| 0 <= k < v@.len() ==> (#[trigger] v@[k])@ != s@,
        },
{
    let mut k: usize = 0;
    while k < v.len()
        invariant
            k <= v@.len(),
            forall|j: int| 0 <= j < k ==> (#[trigger] v@[j])@ != s@,
        decreases v@.len() - k,
    {
        if same_text(v[k].as_str(), s) {
            return Some(k);
        }
        k += 1;
    }
    None
}

/// Whether `key` is the release of some pending entry.
pub open spec fn is_pending_key(entries: Seq<ManifestEntry>, pending: Seq<usize>, key: Seq<char>) -> bool {
    exists|t: int| 0 <= t < pending.len() && asset_key(entries[pending[t] as int]) == key
}

/// Whether some string of `keys` has the text `key`.
pub open spec fn among_keys(keys: Seq<String>, key: Seq<char>) -> bool {
    exists|t: int| 0 <= t < keys.len() && keys[t]@ == key
}

/// Whether one of `batches` is for release `key`.
pub open spec fn has_batch(batches: Seq<ShardBatch>, key: Seq<char>) -> bool {
    exists|b: int| 0 <= b < batches.len() && batches[b].release@ == key
}

/// Whether `x` is among the first `t` items of `pending`.
pub open spec fn drawn_from(pending: Seq<usize>, t: int, x: usize) -> bool {
    exists|u: int| 0 <= u < t && pending[u] == x
}

/// Whether some string of `releases` has the text `key`.
pub open spec fn key_listed(releases: Seq<String>, key: Seq<char>) -> bool {
    exists|c: int| 0 <= c < releases.len() && releases[c]@ == key
}

/// The pending positions whose key is `release`, in order.
fn members_for(pending: &Vec<usize>, keys: &Vec<String>, release: &str) -> (r: Vec<usize>)
    requires
        keys@.len() == pending@.len(),
        strictly_increasing(pending@),
    ensures
        strictly_increasing(r@),
        forall|i: usize|
            #![trigger r@.contains(i)]
            r@.contains(i) <==> exists|t: int|
                0 <= t < pending@.len() && pending@[t] == i && (#[trigger] keys@[t])@
                    == release@,
{
    let mut out: Vec<usize> = Vec::new();
    let mut t: usize = 0;
    while t < pending.len()
        invariant
            t <= pending@.len(),
            keys@.len() == pending@.len(),
            strictly_increasing(pending@),
            strictly_increasing(out@),
            forall|j: int| 0 <= j < out@.len() ==> drawn_from(pending@, t as int, #[trigger] out@[j]),
            forall|i: usize|
                #![trigger out@.contains(i)]
                out@.contains(i) <==> exists|u: int|
                    0 <= u < t && pending@[u] == i && (#[trigger] keys@[u])@ == release@,
        decreases pending@.len() - t,
    {
        let ghost before = out@;
        if same_text(keys[t].as_str(), release) {
            out.push(pending[t]);
            proof {
                assert forall|a: int, b: int| 0 <= a < b < out@.len() implies out@[a] < out@[b] by {
                    if b == before.len() {
                        assert(out@[a] == before[a]);
                        assert(drawn_from(pending@, t as int, before[a]));
                        let u = choose|u: int| 0 <= u < t && pending@[u] == before[a];
                        assert(pending@[u] < pending@[t as int]);
                    } else {
                        assert(out@[a] == before[a] && out@[b] == before[b]);
                    }
                }
                assert forall|j: int| 0 <= j < out@.len() implies drawn_from(
                    pending@,
                    t + 1,
                    #[trigger] out@[j],
                ) by {
                    if j < before.len() {
                        assert(out@[j] == before[j]);
                        assert(drawn_from(pending@, t as int, before[j]));
                        let u = choose|u: int| 0 <= u < t && pending@[u] == before[j];
                        assert(pending@[u] == out@[j]);
                    } else {
                        assert(pending@[t as int] == out@[j]);
                    }
                }
                assert forall|i: usize|
                    #![trigger out@.contains(i)]
                    out@.contains(i) <==> exists|u: int|
                        0 <= u < t + 1 && pending@[u] == i && (#[trigger] keys@[u])@ == release@ by {
                    if out@.contains(i) {
                        let j = choose|j: int| 0 <= j < out@.len() && out@[j] == i;
                        if j < before.len() {
                            assert(before[j] == i);
                            assert(before.contains(i));
                        } else {
                            assert(keys@[t as int]@ == release@);
                        }
                    }
                    if exists|u: int|
                        0 <= u < t + 1 && pending@[u] == i && (#[trigger] keys@[u])@ == release@ {
                        let u = choose|u: int|
                            0 <= u < t + 1 && pending@[u] == i && (#[trigger] keys@[u])@ == release@;
                        if u < t {
                            assert(before.contains(i));
                            let j = choose|j: int| 0 <= j < before.len() && before[j] == i;
                            assert(out@[j] == i);
                        } else {
                            assert(out@[before.len() as int] == i);
                        }
                    }
                }
            }
        } else {
            proof {
                assert forall|j: int| 0 <= j < out@.len() implies drawn_from(
                    pending@,
                    t + 1,
                    #[trigger] out@[j],
                ) by {
                    assert(drawn_from(pending@, t as int, out@[j]));
                    let u = choose|u: int| 0 <= u < t && pending@[u] == out@[j];
                    assert(pending@[u] == out@[j]);
                }
                assert forall|i: usize|
                    #![trigger out@.contains(i)]
                    out@.contains(i) <==> exists|u: int|
                        0 <= u < t + 1 && pending@[u] == i && (#[trigger] keys@[u])@ == release@ by {
                    if exists|u: int|
                        0 <= u < t + 1 && pending@[u] == i && (#[trigger] keys@[u])@ == release@ {
                        let u = choose|u: int|
                            0 <= u < t + 1 && pending@[u] == i && (#[trigger] keys@[u])@ == release@;
                        assert(u < t);
                        assert(before.contains(i));
                    }
                }
            }
        }
        t += 1;
    }
    out
}

/// Groups pending entries (positions in the manifest) by release channel:
/// one batch per distinct key, each holding exactly the pending entries of
/// that key.
pub fn shard_batches(manifest: &Manifest, pending: &Vec<usize>) -> (r: Vec<ShardBatch>)
    requires
        strictly_increasing(pending@),
        forall|t: int| 0 <= t < pending@.len() ==> pending@[t] < manifest.entries@.len(),
    ensures
        forall|a: int, b: int|
            0 <= a < b < r@.len() ==> (#[trigger] r@[a]).release@ != (#[trigger] r@[b]).release@,
        forall|b: int| 0 <= b < r@.len() ==> strictly_increasing((#[trigger] r@[b]).members@),
        forall|b: int, i: usize|
            #![trigger r@[b].members@.contains(i)]
            0 <= b < r@.len() ==> (r@[b].members@.contains(i) <==> (
            pending@.contains(i) && asset_key(manifest.entries@[i as int]) == r@[b].release@)),
        forall|t: int|
            0 <= t < pending@.len() ==> has_batch(
                r@,
                asset_key(manifest.entries@[#[trigger] pending@[t] as int]),
            ),
        forall|b: int|
            0 <= b < r@.len() ==> is_pending_key(
                manifest.entries@,
                pending@,
                (#[trigger] r@[b]).release@,
            ),
{
    let mut keys: Vec<String> = Vec::new();
    let mut t: usize = 0;
    while t < pending.len()
        invariant
            t <= pending@.len(),
            forall|u: int| 0 <= u < pending@.len() ==> pending@[u] < manifest.entries@.len(),
            keys@.len() == t,
            forall|u: int|
                0 <= u < t ==> (#[trigger] keys@[u])@ == asset_key(
                    manifest.entries@[pending@[u] as int],
                ),
        decreases pending@.len() - t,
    {
        keys.push(release_for_path(manifest.entries[pending[t]].path.as_str()));
        t += 1;
    }
    let mut releases: Vec<String> = Vec::new();
    let mut t: usize = 0;
    while t < keys.len()
        invariant
            t <= keys@.len(),
            forall|c: int| 0 <= c < releases@.len() ==> among_keys(keys@, (#[trigger] releases@[c])@),
            keys@.len() == pending@.len(),
            forall|u: int| 0 <= u < pending@.len() ==> pending@[u] < manifest.entries@.len(),
            forall|u: int|
                0 <= u < keys@.len() ==> (#[trigger] keys@[u])@ == asset_key(
                    manifest.entries@[pending@[u] as int],
                ),
            forall|a: int, b: int|
                0 <= a < b < releases@.len() ==> (#[trigger] releases@[a])@
                    != (#[trigger] releases@[b])@,
            forall|u: int| 0 <= u < t ==> key_listed(releases@, (#[trigger] keys@[u])@),
        decreases keys@.len() - t,
    {
        match text_position(&releases, keys[t].as_str()) {
            Some(_) => {},
            None => {
                let ghost before = releases@;
                releases.push(keys[t].clone());
                proof {
                    assert forall|a: int, b: int|
                        0 <= a < b < releases@.len() implies (#[trigger] releases@[a])@
                            != (#[trigger] releases@[b])@ by {
                        assert(releases@[a] == before[a]);
                        if b < before.len() {
                            assert(releases@[b] == before[b]);
                        }
                    }
                    assert forall|c: int| 0 <= c < releases@.len() implies among_keys(
                        keys@,
                        (#[trigger] releases@[c])@,
                    ) by {
                        if c < before.len() {
                            assert(releases@[c] == before[c]);
                        } else {
                            assert(keys@[t as int]@ == releases@[c]@);
                        }
                    }
                    assert forall|u: int| 0 <= u < t + 1 implies key_listed(
                        releases@,
                        (#[trigger] keys@[u])@,
                    ) by {
                        if u < t {
                            assert(key_listed(before, keys@[u]@));
                            let b = choose|b: int| 0 <= b < before.len() && before[b]@ == keys@[u]@;
                            assert(releases@[b] == before[b]);
                        } else {
                            assert(releases@[before.len() as int]@ == keys@[u]@);
                        }
                    }
                }
            },
        }
        t += 1;
    }
    let mut batches: Vec<ShardBatch> = Vec::new();
    let mut b: usize = 0;
    while b < releases.len()
        invariant
            b <= releases@.len(),
            batches@.len() == b,
            forall|c: int| 0 <= c < releases@.len() ==> among_keys(keys@, (#[trigger] releases@[c])@),
            keys@.len() == pending@.len(),
            forall|u: int| 0 <= u < pending@.len() ==> pending@[u] < manifest.entries@.len(),
            forall|u: int|
                0 <= u < keys@.len() ==> (#[trigger] keys@[u])@ == asset_key(
                    manifest.entries@[pending@[u] as int],
                ),
            forall|u: int| 0 <= u < keys@.len() ==> key_listed(releases@, (#[trigger] keys@[u])@),
            strictly_increasing(pending@),
            forall|j: int| 0 <= j < b ==> (#[trigger] batches@[j]).release@ == releases@[j]@,
            forall|j: int| 0 <= j < b ==> strictly_increasing((#[trigger] batches@[j]).members@),
            forall|j: int, i: usize|
                #![trigger batches@[j].members@.contains(i)]
                0 <= j < b ==> (batches@[j].members@.contains(i) <==> exists|u: int|
                    0 <= u < pending@.len() && pending@[u] == i && (#[trigger] keys@[u])@
                        == releases@[j]@),
        decreases releases@.len() - b,
    {
        let members = members_for(pending, &keys, releases[b].as_str());
        batches.push(ShardBatch { release: releases[b].clone(), members });
        b += 1;
    }
    proof {
        assert forall|b: int| 0 <= b < batches@.len() implies is_pending_key(
            manifest.entries@,
            pending@,
            (#[trigger] batches@[b]).release@,
        ) by {
            assert(among_keys(keys@, releases@[b]@));
            let t = choose|t: int| 0 <= t < keys@.len() && keys@[t]@ == releases@[b]@;
            assert(asset_key(manifest.entries@[pending@[t] as int]) == batches@[b].release@);
        }
        assert forall|j: int, i: usize|
            #![trigger batches@[j].members@.contains(i)]
            0 <= j < batches@.len() implies (batches@[j].members@.contains(i) <==> (
            pending@.contains(i) && asset_key(manifest.entries@[i as int])
                == batches@[j].release@)) by {
            if batches@[j].members@.contains(i) {
                let u = choose|u: int|
                    0 <= u < pending@.len() && pending@[u] == i && (#[trigger] keys@[u])@
                        == releases@[j]@;
                assert(pending@[u] == i);
            }
            if pending@.contains(i) && asset_key(manifest.entries@[i as int])
                == batches@[j].release@ {
                let u = choose|u: int| 0 <= u < pending@.len() && pending@[u] == i;
                assert(keys@[u]@ == releases@[j]@);
            }
        }
        assert forall|t: int|
            0 <= t < pending@.len() implies has_batch(
                batches@,
                asset_key(manifest.entries@[#[trigger] pending@[t] as int]),
            ) by {
            assert(key_listed(releases@, keys@[t]@));
            let b = choose|b: int| 0 <= b < releases@.len() && releases@[b]@ == keys@[t]@;
            assert(batches@[b].release@ == releases@[b]@);
        }
    }
    batches
}

/// Where a relocated file lands: its relative path under the trash root.
pub open spec fn trash_destination(trash_root: Seq<char>, rel: Seq<char>) -> Seq<char> {
    trash_root + "/"@ + rel
}

/// Whether reconciliation leaves the local file `rel` in place: it is the
/// manifest file itself or a key of the manifest.
pub open spec fn is_kept(entries: Seq<ManifestEntry>, index_file: Seq<char>, rel: Seq<char>) -> bool {
    rel == index_file || has_path(entries, rel)
}

/// The relocations that reconciliation makes of the local files `files`
/// (relative paths), in order, as `(relative path, destination)`.
pub open spec fn moves_of(
    files: Seq<String>,
    entries: Seq<ManifestEntry>,
    index_file: Seq<char>,
    trash_root: Seq<char>,
) -> Seq<(Seq<char>, Seq<char>)>
    decreases files.len(),
{
    if files.len() == 0 {
        Seq::empty()
    } else {
        let rest = moves_of(files.drop_last(), entries, index_file, trash_root);
        let f = files.last()@;
        if is_kept(entries, index_file, f) {
            rest
        } else {
            rest.push((f, trash_destination(trash_root, f)))
        }
    }
}

/// One relocation of a local file into the trash area.
pub struct TrashMove {
    /// Path relative to the assets root.
    pub relative: String,
    /// Path the file is moved to.
    pub destination: String,
}

pub open spec fn move_views(moves: Seq<TrashMove>) -> Seq<(Seq<char>, Seq<char>)> {
    moves.map_values(|m: TrashMove| (m.relative@, m.destination@))
}

/// Plans reconciliation: every local file (relative path) that is neither the
/// manifest file `index_file` nor listed in the manifest is moved under
/// `trash_root`, keeping its relative path. Nothing is deleted.
pub fn trash_plan(
    manifest: &Manifest,
    local_files: &Vec<String>,
    index_file: &str,
    trash_root: &str,
) -> (r: Vec<TrashMove>)
    ensures
        move_views(r@) == moves_of(local_files@, manifest.entries@, index_file@, trash_root@),
{
    let mut out: Vec<TrashMove> = Vec::new();
    let mut i: usize = 0;
    while i < local_files.len()
        invariant
            i <= local_files@.len(),
            move_views(out@) == moves_of(
                local_files@.subrange(0, i as int),
                manifest.entries@,
                index_file@,
                trash_root@,
            ),
        decreases local_files@.len() - i,
    {
        let ghost next = local_files@.subrange(0, i + 1);
        assert(next.drop_last() == local_files@.subrange(0, i as int));
        let rel = local_files[i].as_str();
        let kept = same_text(rel, index_file) || find_entry(&manifest.entries, rel).is_some();
        if !kept {
            let ghost before = out@;
            let dir = joined(trash_root, "/");
            let destination = joined(dir.as_str(), rel);
            out.push(TrashMove { relative: local_files[i].clone(), destination });
            assert(move_views(out@) == move_views(before).push(
                (local_files@[i as int]@, trash_destination(trash_root@, local_files@[i as int]@)),
            ));
        }
        i += 1;
    }
    assert(local_files@.subrange(0, local_files@.len() as int) == local_files@);
    out
}

/// Reconciliation only relocates: each move takes a local file that the
/// manifest does not keep to `trash_root/<relative path>`; and every such
/// local file is moved.
pub proof fn lemma_reconciliation_relocates(
    files: Seq<String>,
    entries: Seq<ManifestEntry>,
    index_file: Seq<char>,
    trash_root: Seq<char>,
)
    ensures
        forall|m: (Seq<char>, Seq<char>)|
            #![trigger moves_of(files, entries, index_file, trash_root).contains(m)]
            moves_of(files, entries, index_file, trash_root).contains(m) ==> {
                &&& m.1 == trash_destination(trash_root, m.0)
                &&& !is_kept(entries, index_file, m.0)
                &&& exists|i: int| 0 <= i < files.len() && (#[trigger] files[i])@ == m.0
            },
        forall|i: int|
            0 <= i < files.len() && !is_kept(entries, index_file, (#[trigger] files[i])@)
                ==> moves_of(files, entries, index_file, trash_root).contains(
                (files[i]@, trash_destination(trash_root, files[i]@)),
            ),
    decreases files.len(),
{
    if files.len() > 0 {
        let rest_files = files.drop_last();
        lemma_reconciliation_relocates(rest_files, entries, index_file, trash_root);
        let rest = moves_of(rest_files, entries, index_file, trash_root);
        let all = moves_of(files, entries, index_file, trash_root);
        assert forall|m: (Seq<char>, Seq<char>)|
            #![trigger all.contains(m)]
            all.contains(m) implies {
                &&& m.1 == trash_destination(trash_root, m.0)
                &&& !is_kept(entries, index_file, m.0)
                &&& exists|i: int| 0 <= i < files.len() && (#[trigger] files[i])@ == m.0
            } by {
            let t = choose|t: int| 0 <= t < all.len() && all[t] == m;
            if t < rest.len() {
                assert(rest[t] == m);
                assert(rest.contains(m));
                let i = choose|i: int| 0 <= i < rest_files.len() && (#[trigger] rest_files[i])@ == m.0;
                assert(files[i] == rest_files[i]);
            } else {
                assert(files[files.len() - 1]@ == m.0);
            }
        }
        assert forall|i: int|
            0 <= i < files.len() && !is_kept(entries, index_file, (#[trigger] files[i])@)
                implies all.contains((files[i]@, trash_destination(trash_root, files[i]@))) by {
            let m = (files[i]@, trash_destination(trash_root, files[i]@));
            if i < files.len() - 1 {
                assert(rest_files[i] == files[i]);
                assert(rest.contains(m));
                let t = choose|t: int| 0 <= t < rest.len() && rest[t] == m;
                assert(all[t] == m);
            } else {
                assert(all[all.len() - 1] == m);
            }
        }
    }
}

/// Why an asset sync did not complete.
pub enum AssetSyncError {
    /// The manifest could not be read.
    ManifestUnreadable,
    /// These assets could not be downloaded.
    DownloadsFailed(Vec<String>),
}

/// The verdict of an asset sync once downloads and reconciliation are done:
/// complete only when no download failed, else a failure listing every
/// failed path.
pub fn asset_sync_result(failed: Vec<String>) -> (r: Result<(), AssetSyncError>)
    ensures
        match r {
            Ok(_) => failed@.len() == 0,
            Err(AssetSyncError::DownloadsFailed(v)) => failed@.len() > 0 && v@ == failed@,
            Err(AssetSyncError::ManifestUnreadable) => false,
        },
{
    if failed.len() == 0 {
        Ok(())
    } else {
        Err(AssetSyncError::DownloadsFailed(failed))
    }
}

} // verus!
