use vstd::prelude::*;
use crate::diff::{texts, ChangeRecord, DiffAction};
use vstd::string::*;
use crate::text::same_text;

verus! {

/// The action of the last record for `path`, if any record names it; later
/// records win over earlier ones.
pub open spec fn last_action(changes: Seq<ChangeRecord>, path: Seq<char>) -> Option<DiffAction>
    decreases changes.len(),
{
    if changes.len() == 0 {
        None
    } else if changes.last().path@ == path {
        Some(changes.last().action)
    } else {
        last_action(changes.drop_last(), path)
    }
}

/// What a set of change records asks of the local tree: files to remove and
/// files to download, each path once.
pub struct CodePlan {
    pub removals: Vec<String>,
    pub downloads: Vec<String>,
}

/// `plan` removes each path whose last record is a removal and downloads each
/// path whose last record is an addition or modification, each path once.
pub open spec fn is_plan_of(changes: Seq<ChangeRecord>, plan: CodePlan) -> bool {
    &&& texts(plan.removals@).no_duplicates()
    &&& texts(plan.downloads@).no_duplicates()
    &&& forall|p: Seq<char>|
        #![trigger texts(plan.removals@).contains(p)]
        texts(plan.removals@).contains(p) <==> last_action(changes, p) == Some(
            DiffAction::Removed,
        )
    &&& forall|p: Seq<char>|
        #![trigger texts(plan.downloads@).contains(p)]
        texts(plan.downloads@).contains(p) <==> (last_action(changes, p) is Some
            && last_action(changes, p) != Some(DiffAction::Removed))
}

/// A file whose synchronisation failed, and why.
pub struct PerFileError {
    pub path: String,
    pub reason: String,
}

/// Position of `path` in `entries`, if there.
fn position_of(entries: &Vec<ChangeRecord>, path: &str) -> (r: Option<usize>)
    ensures
        match r {
            Some(k) => k < entries@.len() && entries@[k as int].path@ == path@,
            None => forall|k: int| 0 <= k < entries@.len() ==> (#[trigger] entries@[k]).path@ != path@,
        },
{
    let mut k: usize = 0;
    while k < entries.len()
        invariant
            k <= entries@.len(),
            forall|j: int| 0 <= j < k ==> (#[trigger] entries@[j]).path@ != path@,
        decreases entries@.len() - k,
    {
        if same_text(entries[k].path.as_str(), path) {
            return Some(k);
        }
        k += 1;
    }
    None
}

/// Resolves the records to one action per path, the last record for a path
/// deciding; removals and downloads (additions and modifications) come apart.
pub fn plan_code_sync(changes: &Vec<ChangeRecord>) -> (r: CodePlan)
    ensures
        is_plan_of(changes@, r),
{
    let mut entries: Vec<ChangeRecord> = Vec::new();
    let mut i: usize = 0;
    while i < changes.len()
        invariant
            i <= changes@.len(),
            forall|k: int|
                0 <= k < entries@.len() ==> last_action(
                    changes@.subrange(0, i as int),
                    (#[trigger] entries@[k]).path@,
                ) == Some(entries@[k].action),
            forall|p: Seq<char>|
                #![trigger last_action(changes@.subrange(0, i as int), p)]
                last_action(changes@.subrange(0, i as int), p) is Some ==> exists|k: int|
                    0 <= k < entries@.len() && (#[trigger] entries@[k]).path@ == p,
            forall|a: int, b: int|
                0 <= a < b < entries@.len() ==> (#[trigger] entries@[a]).path@
                    != (#[trigger] entries@[b]).path@,
        decreases changes@.len() - i,
    {
        let ghost prefix = changes@.subrange(0, i as int);
        let ghost next = changes@.subrange(0, i + 1);
        assert(next.drop_last() == prefix);
        assert(next.last() == changes@[i as int]);
        let action = changes[i].action;
        let ghost old_entries = entries@;
        match position_of(&entries, changes[i].path.as_str()) {
            Some(k) => {
                let path = changes[i].path.clone();
                entries.set(k, ChangeRecord { action, path });
                proof {
                    assert forall|j: int| 0 <= j < entries@.len() implies last_action(
                        next,
                        (#[trigger] entries@[j]).path@,
                    ) == Some(entries@[j].action) by {
                        if j != k {
                            assert(entries@[j] == old_entries[j]);
                        }
                    }
                    assert forall|p: Seq<char>|
                        #![trigger last_action(next, p)]
                        last_action(next, p) is Some implies exists|j: int|
                            0 <= j < entries@.len() && (#[trigger] entries@[j]).path@ == p by {
                        if p == changes@[i as int].path@ {
                            assert(entries@[k as int].path@ == p);
                        } else {
                            assert(last_action(prefix, p) is Some);
                            let j = choose|j: int|
                                0 <= j < old_entries.len() && (#[trigger] old_entries[j]).path@
                                    == p;
                            assert(j != k);
                            assert(entries@[j] == old_entries[j]);
                        }
                    }
                    assert forall|a: int, b: int|
                        0 <= a < b < entries@.len() implies (#[trigger] entries@[a]).path@
                            != (#[trigger] entries@[b]).path@ by {
                        assert(old_entries[a].path@ != old_entries[b].path@);
                    }
                }
            },
            None => {
                let path = changes[i].path.clone();
                entries.push(ChangeRecord { action, path });
                proof {
                    assert forall|j: int| 0 <= j < entries@.len() implies last_action(
                        next,
                        (#[trigger] entries@[j]).path@,
                    ) == Some(entries@[j].action) by {
                        if j < old_entries.len() {
                            assert(entries@[j] == old_entries[j]);
                        }
                    }
                    assert forall|p: Seq<char>|
                        #![trigger last_action(next, p)]
                        last_action(next, p) is Some implies exists|j: int|
                            0 <= j < entries@.len() && (#[trigger] entries@[j]).path@ == p by {
                        if p == changes@[i as int].path@ {
                            assert(entries@[old_entries.len() as int].path@ == p);
                        } else {
                            assert(last_action(prefix, p) is Some);
                            let j = choose|j: int|
                                0 <= j < old_entries.len() && (#[trigger] old_entries[j]).path@
                                    == p;
                            assert(entries@[j] == old_entries[j]);
                        }
                    }
                    assert forall|a: int, b: int|
                        0 <= a < b < entries@.len() implies (#[trigger] entries@[a]).path@
                            != (#[trigger] entries@[b]).path@ by {
                        if b < old_entries.len() {
                            assert(old_entries[a].path@ != old_entries[b].path@);
                        } else {
                            assert(entries@[a] == old_entries[a]);
                        }
                    }
                }
            },
        }
        i += 1;
    }
    assert(changes@.subrange(0, changes@.len() as int) == changes@);
    split_plan(changes, &entries)
}

/// Appends `s`, whose text `v` does not hold yet.
fn push_new(v: &mut Vec<String>, s: String)
    requires
        texts(old(v)@).no_duplicates(),
        !texts(old(v)@).contains(s@),
    ensures
        texts(final(v)@).no_duplicates(),
        forall|p: Seq<char>|
            #![trigger texts(final(v)@).contains(p)]
            texts(final(v)@).contains(p) <==> (texts(old(v)@).contains(p) || p == s@),
{
    let ghost before = texts(v@);
    let ghost item = s@;
    v.push(s);
    assert(texts(v@) == before.push(item));
    assert forall|a: int, b: int| 0 <= a < b < before.push(item).len() implies before.push(item)[a]
        != before.push(item)[b] by {
        if b == before.len() {
            assert(before[a] == before.push(item)[a]);
        }
    }
    assert forall|p: Seq<char>| before.push(item).contains(p) <==> (before.contains(p) || p == item) by {
        if before.push(item).contains(p) {
            let t = choose|t: int| 0 <= t < before.push(item).len() && before.push(item)[t] == p;
            if t < before.len() {
                assert(before[t] == p);
            }
        }
        if before.contains(p) {
            let t = choose|t: int| 0 <= t < before.len() && before[t] == p;
            assert(before.push(item)[t] == p);
        }
        if p == item {
            assert(before.push(item)[before.len() as int] == p);
        }
    }
}

/// Splits resolved entries into removals and downloads.
fn split_plan(changes: &Vec<ChangeRecord>, entries: &Vec<ChangeRecord>) -> (r: CodePlan)
    requires
        forall|k: int|
            0 <= k < entries@.len() ==> last_action(changes@, (#[trigger] entries@[k]).path@)
                == Some(entries@[k].action),
        forall|p: Seq<char>|
            #![trigger last_action(changes@, p)]
            last_action(changes@, p) is Some ==> exists|k: int|
                0 <= k < entries@.len() && (#[trigger] entries@[k]).path@ == p,
        forall|a: int, b: int|
            0 <= a < b < entries@.len() ==> (#[trigger] entries@[a]).path@
                != (#[trigger] entries@[b]).path@,
    ensures
        is_plan_of(changes@, r),
{
    let mut removals: Vec<String> = Vec::new();
    let mut downloads: Vec<String> = Vec::new();
    let mut k: usize = 0;
    while k < entries.len()
        invariant
            k <= entries@.len(),
            texts(removals@).no_duplicates(),
            texts(downloads@).no_duplicates(),
            forall|p: Seq<char>|
                #![trigger texts(removals@).contains(p)]
                texts(removals@).contains(p) <==> exists|j: int|
                    0 <= j < k && (#[trigger] entries@[j]).path@ == p && entries@[j].action
                        == DiffAction::Removed,
            forall|p: Seq<char>|
                #![trigger texts(downloads@).contains(p)]
                texts(downloads@).contains(p) <==> exists|j: int|
                    0 <= j < k && (#[trigger] entries@[j]).path@ == p && entries@[j].action
                        != DiffAction::Removed,
            forall|a: int, b: int|
                0 <= a < b < entries@.len() ==> (#[trigger] entries@[a]).path@
                    != (#[trigger] entries@[b]).path@,
        decreases entries@.len() - k,
    {
        let path = entries[k].path.clone();
        let ghost p0 = entries@[k as int].path@;
        proof {
            assert forall|p: Seq<char>| #[trigger] texts(removals@).contains(p) implies p != p0 by {
                let j = choose|j: int|
                    0 <= j < k && (#[trigger] entries@[j]).path@ == p && entries@[j].action
                        == DiffAction::Removed;
                assert(entries@[j].path@ != entries@[k as int].path@);
            }
            assert forall|p: Seq<char>| #[trigger] texts(downloads@).contains(p) implies p != p0 by {
                let j = choose|j: int|
                    0 <= j < k && (#[trigger] entries@[j]).path@ == p && entries@[j].action
                        != DiffAction::Removed;
                assert(entries@[j].path@ != entries@[k as int].path@);
            }
        }
        if entries[k].action == DiffAction::Removed {
            let ghost before = removals@;
            push_new(&mut removals, path);
            proof {
                assert forall|p: Seq<char>|
                    #![trigger texts(removals@).contains(p)]
                    texts(removals@).contains(p) <==> exists|j: int|
                        0 <= j < k + 1 && (#[trigger] entries@[j]).path@ == p
                            && entries@[j].action == DiffAction::Removed by {
                    if exists|j: int|
                        0 <= j < k + 1 && (#[trigger] entries@[j]).path@ == p
                            && entries@[j].action == DiffAction::Removed {
                        let j = choose|j: int|
                            0 <= j < k + 1 && (#[trigger] entries@[j]).path@ == p
                                && entries@[j].action == DiffAction::Removed;
                        if j < k {
                            assert(texts(before).contains(p));
                        }
                    }
                }
            }
        } else {
            let ghost before = downloads@;
            push_new(&mut downloads, path);
            proof {
                assert forall|p: Seq<char>|
                    #![trigger texts(downloads@).contains(p)]
                    texts(downloads@).contains(p) <==> exists|j: int|
                        0 <= j < k + 1 && (#[trigger] entries@[j]).path@ == p
                            && entries@[j].action != DiffAction::Removed by {
                    if exists|j: int|
                        0 <= j < k + 1 && (#[trigger] entries@[j]).path@ == p
                            && entries@[j].action != DiffAction::Removed {
                        let j = choose|j: int|
                            0 <= j < k + 1 && (#[trigger] entries@[j]).path@ == p
                                && entries@[j].action != DiffAction::Removed;
                        if j < k {
                            assert(texts(before).contains(p));
                        }
                    }
                }
            }
        }
        k += 1;
    }
    proof {
        assert forall|p: Seq<char>|
            #![trigger texts(removals@).contains(p)]
            texts(removals@).contains(p) <==> last_action(changes@, p) == Some(
                DiffAction::Removed,
            ) by {
            if last_action(changes@, p) == Some(DiffAction::Removed) {
                let j = choose|j: int| 0 <= j < entries@.len() && (#[trigger] entries@[j]).path@ == p;
                assert(entries@[j].action == DiffAction::Removed);
            }
        }
        assert forall|p: Seq<char>|
            #![trigger texts(downloads@).contains(p)]
            texts(downloads@).contains(p) <==> (last_action(changes@, p) is Some
                && last_action(changes@, p) != Some(DiffAction::Removed)) by {
            if last_action(changes@, p) is Some && last_action(changes@, p) != Some(DiffAction::Removed) {
                let j = choose|j: int| 0 <= j < entries@.len() && (#[trigger] entries@[j]).path@ == p;
                assert(entries@[j].action != DiffAction::Removed);
            }
        }
    }
    CodePlan { removals, downloads }
}

/// The failures among per-file results, in order, as `(path, reason)`.
pub open spec fn failures_of(results: Seq<(String, Result<(), String>)>) -> Seq<
    (Seq<char>, Seq<char>),
>
    decreases results.len(),
{
    if results.len() == 0 {
        Seq::empty()
    } else {
        let rest = failures_of(results.drop_last());
        match results.last().1 {
            Ok(_) => rest,
            Err(reason) => rest.push((results.last().0@, reason@)),
        }
    }
}

pub open spec fn error_views(errors: Seq<PerFileError>) -> Seq<(Seq<char>, Seq<char>)> {
    errors.map_values(|e: PerFileError| (e.path@, e.reason@))
}

/// Gathers the failed files of a batch of per-file results, in order; no
/// failure is dropped.
pub fn collect_failures(results: Vec<(String, Result<(), String>)>) -> (r: Vec<PerFileError>)
    ensures
        error_views(r@) == failures_of(results@),
{
    let mut out: Vec<PerFileError> = Vec::new();
    let mut i: usize = 0;
    while i < results.len()
        invariant
            i <= results@.len(),
            error_views(out@) == failures_of(results@.subrange(0, i as int)),
        decreases results@.len() - i,
    {
        let ghost next = results@.subrange(0, i + 1);
        assert(next.drop_last() == results@.subrange(0, i as int));
        match &results[i].1 {
            Ok(_) => {},
            Err(reason) => {
                let ghost before = out@;
                out.push(PerFileError { path: results[i].0.clone(), reason: reason.clone() });
                assert(error_views(out@) == error_views(before).push(
                    (results@[i as int].0@, reason@),
                ));
            },
        }
        i += 1;
    }
    assert(results@.subrange(0, results@.len() as int) == results@);
    out
}

/// The version to record after a sync from `local` to `remote`: the remote one
/// only when no file failed.
pub open spec fn recorded_version(
    local: Seq<char>,
    remote: Seq<char>,
    failures: Seq<PerFileError>,
) -> Seq<char> {
    if failures.len() == 0 {
        remote
    } else {
        local
    }
}

/// The version to record after a sync from `local` to `remote` that ended
/// with `failures`.
pub fn next_version_marker(local: &str, remote: &str, failures: &Vec<PerFileError>) -> (r: String)
    ensures
        r@ == recorded_version(local@, remote@, failures@),
{
    if failures.len() == 0 {
        String::from_str(remote)
    } else {
        String::from_str(local)
    }
}

/// Whether the local tree at version `local` differs from `remote`.
pub fn needs_update(local: &str, remote: &str) -> (r: bool)
    ensures
        r == (local@ != remote@),
{
    !same_text(local, remote)
}

proof fn lemma_only_removals(changes: Seq<ChangeRecord>, p: Seq<char>)
    requires
        forall|i: int| 0 <= i < changes.len() ==> (#[trigger] changes[i]).action
            == DiffAction::Removed,
    ensures
        last_action(changes, p) is None || last_action(changes, p) == Some(DiffAction::Removed),
    decreases changes.len(),
{
    if changes.len() > 0 {
        assert(changes[changes.len() - 1].action == DiffAction::Removed);
        if changes.last().path@ != p {
            assert forall|i: int| 0 <= i < changes.drop_last().len() implies (
            #[trigger] changes.drop_last()[i]).action == DiffAction::Removed by {
                assert(changes.drop_last()[i] == changes[i]);
            }
            lemma_only_removals(changes.drop_last(), p);
        }
    }
}

/// A change set made only of removals downloads nothing, whatever its paths.
pub proof fn lemma_removals_only_download_nothing(changes: Seq<ChangeRecord>, plan: CodePlan)
    requires
        forall|i: int| 0 <= i < changes.len() ==> (#[trigger] changes[i]).action
            == DiffAction::Removed,
        is_plan_of(changes, plan),
    ensures
        plan.downloads@.len() == 0,
{
    if plan.downloads@.len() > 0 {
        let p = texts(plan.downloads@)[0];
        assert(texts(plan.downloads@).contains(p));
        lemma_only_removals(changes, p);
    }
}

/// A batch whose every per-file result succeeded reports no failure.
pub proof fn lemma_all_succeeded_no_failures(results: Seq<(String, Result<(), String>)>)
    requires
        forall|i: int| 0 <= i < results.len() ==> (#[trigger] results[i]).1 is Ok,
    ensures
        failures_of(results).len() == 0,
    decreases results.len(),
{
    if results.len() > 0 {
        assert(results[results.len() - 1].1 is Ok);
        assert forall|i: int| 0 <= i < results.drop_last().len() implies (
        #[trigger] results.drop_last()[i]).1 is Ok by {
            assert(results.drop_last()[i] == results[i]);
        }
        lemma_all_succeeded_no_failures(results.drop_last());
    }
}

/// Every failed result of a batch is reported, with its path and reason.
pub proof fn lemma_failure_reported(results: Seq<(String, Result<(), String>)>, i: int)
    requires
        0 <= i < results.len(),
        results[i].1 is Err,
    ensures
        failures_of(results).contains((results[i].0@, results[i].1->Err_0@)),
    decreases results.len(),
{
    let last = results.len() - 1;
    if i == last {
        let f = failures_of(results);
        assert(f[f.len() - 1] == (results[i].0@, results[i].1->Err_0@));
    } else {
        assert(results.drop_last()[i] == results[i]);
        lemma_failure_reported(results.drop_last(), i);
        let rest = failures_of(results.drop_last());
        let t = choose|t: int| 0 <= t < rest.len() && rest[t] == (results[i].0@, results[i].1->Err_0@);
        assert(failures_of(results)[t] == rest[t]);
    }
}

/// The recorded version moves to the remote one exactly when the batch had
/// no failure; any failed file keeps the local version.
pub proof fn lemma_version_advances_only_on_success(
    local: Seq<char>,
    remote: Seq<char>,
    results: Seq<(String, Result<(), String>)>,
    failures: Seq<PerFileError>,
)
    requires
        error_views(failures) == failures_of(results),
    ensures
        (forall|i: int| 0 <= i < results.len() ==> (#[trigger] results[i]).1 is Ok)
            ==> recorded_version(local, remote, failures) == remote,
        (exists|i: int| 0 <= i < results.len() && (#[trigger] results[i]).1 is Err)
            ==> recorded_version(local, remote, failures) == local,
{
    if forall|i: int| 0 <= i < results.len() ==> (#[trigger] results[i]).1 is Ok {
        lemma_all_succeeded_no_failures(results);
        assert(error_views(failures).len() == failures.len());
    }
    if exists|i: int| 0 <= i < results.len() && (#[trigger] results[i]).1 is Err {
        let i = choose|i: int| 0 <= i < results.len() && (#[trigger] results[i]).1 is Err;
        lemma_failure_reported(results, i);
        assert(error_views(failures).len() == failures.len());
    }
}

} // verus!
