use vstd::prelude::*;
use vstd::string::*;
use crate::json::{
    field, field_in, field_of, items_of, json_of, parse_json, text_member, text_or_empty, Json,
};
use crate::text::{joined, same_text};

verus! {

/// How a file changed between two versions.
#[derive(PartialEq, Eq, Structural, Clone, Copy, Debug)]
pub enum DiffAction {
    Added,
    Modified,
    Removed,
}

/// One changed file.
pub struct ChangeRecord {
    pub action: DiffAction,
    pub path: String,
}

/// Why the change set between two versions could not be had.
#[derive(PartialEq, Eq, Structural, Clone, Copy, Debug)]
pub enum DiffError {
    /// The comparison endpoint could not be reached.
    UpstreamUnavailable,
    /// The response lacks the expected fields.
    MalformedResponse,
}

/// The action that a status word of the comparison endpoint stands for; a
/// word that is neither `added` nor `removed` counts as a modification.
pub open spec fn action_for_status(status: Seq<char>) -> DiffAction {
    if status == "added"@ {
        DiffAction::Added
    } else if status == "removed"@ {
        DiffAction::Removed
    } else {
        DiffAction::Modified
    }
}

/// Classifies a status word of the comparison endpoint.
pub fn classify_status(status: &str) -> (r: DiffAction)
    ensures
        r == action_for_status(status@),
{
    if same_text(status, "added") {
        DiffAction::Added
    } else if same_text(status, "removed") {
        DiffAction::Removed
    } else {
        DiffAction::Modified
    }
}

/// `v` in reverse order.
pub fn reversed<T>(v: Vec<T>) -> (r: Vec<T>)
    ensures
        r@ == v@.reverse(),
{
    let mut rest = v;
    let mut out: Vec<T> = Vec::new();
    while rest.len() > 0
        invariant
            out@ + rest@.reverse() == v@.reverse(),
        decreases rest@.len(),
    {
        let ghost before = rest@;
        let x = rest.pop().unwrap();
        proof {
            assert(before == rest@.push(x));
            assert(before.reverse() == seq![x] + rest@.reverse()) by {
                assert forall|k: int| 0 <= k < before.len() implies #[trigger] before.reverse()[k]
                    == (seq![x] + rest@.reverse())[k] by {
                    if k > 0 {
                        assert(before.reverse()[k] == before[before.len() - 1 - k]);
                    }
                }
            }
            assert(out@.push(x) + rest@.reverse() == out@ + before.reverse());
        }
        out.push(x);
    }
    assert(rest@.reverse() == Seq::<T>::empty());
    assert(out@ == out@ + rest@.reverse());
    out
}

/// The change record for one `(filename, status)` entry of the endpoint.
pub open spec fn record_for(entry: (Seq<char>, Seq<char>)) -> (DiffAction, Seq<char>) {
    (action_for_status(entry.1), entry.0)
}

/// Turns the endpoint's commit messages (newest first) and file entries
/// (`(filename, status)`) into the summary lines, oldest first, and the
/// change records, one per entry and in the same order.
pub fn summarize_comparison(
    messages_newest_first: Vec<String>,
    files: Vec<(String, String)>,
) -> (r: (Vec<String>, Vec<ChangeRecord>))
    ensures
        r.0@ == messages_newest_first@.reverse(),
        r.1@.len() == files@.len(),
        forall|i: int|
            0 <= i < files@.len() ==> (#[trigger] r.1@[i]).action == action_for_status(
                files@[i].1@,
            ) && r.1@[i].path@ == files@[i].0@,
{
    let lines = reversed(messages_newest_first);
    let mut records: Vec<ChangeRecord> = Vec::new();
    let mut i: usize = 0;
    while i < files.len()
        invariant
            i <= files@.len(),
            records@.len() == i,
            forall|k: int|
                0 <= k < i ==> (#[trigger] records@[k]).action == action_for_status(
                    files@[k].1@,
                ) && records@[k].path@ == files@[k].0@,
        decreases files@.len() - i,
    {
        let action = classify_status(files[i].1.as_str());
        let path = files[i].0.clone();
        records.push(ChangeRecord { action, path });
        i += 1;
    }
    (lines, records)
}

/// The text of each string of `v`.
pub open spec fn texts(v: Seq<String>) -> Seq<Seq<char>> {
    v.map_values(|s: String| s@)
}

/// The texts of each pair of strings of `v`.
pub open spec fn pair_texts(v: Seq<(String, String)>) -> Seq<(Seq<char>, Seq<char>)> {
    v.map_values(|p: (String, String)| (p.0@, p.1@))
}

/// The message of a commit entry: `commit.message`, or empty.
pub open spec fn message_of(c: Json) -> Seq<char> {
    text_or_empty(field_in(field(c, "commit"@), "message"@))
}

/// The `(filename, status)` of a file entry, each empty when missing.
pub open spec fn file_entry_of(f: Json) -> (Seq<char>, Seq<char>) {
    (text_or_empty(field(f, "filename"@)), text_or_empty(field(f, "status"@)))
}

/// What a comparison response holds: its commit messages (newest first) and
/// `(filename, status)` entries; `None` unless both `commits` and `files` are
/// arrays.
pub open spec fn comparison_of(doc: Json) -> Option<(Seq<Seq<char>>, Seq<(Seq<char>, Seq<char>)>)> {
    match (items_of(field(doc, "commits"@)), items_of(field(doc, "files"@))) {
        (Some(cs), Some(fs)) => Some(
            (cs.map_values(|c: Json| message_of(c)), fs.map_values(|f: Json| file_entry_of(f))),
        ),
        _ => None,
    }
}

/// `comparison_of` for a body that may not be JSON.
pub open spec fn comparison_in(doc: Option<Json>) -> Option<
    (Seq<Seq<char>>, Seq<(Seq<char>, Seq<char>)>),
> {
    match doc {
        Some(j) => comparison_of(j),
        None => None,
    }
}

/// The version a latest-version response names: the string `oid` of the first
/// entry of the `deferredCommits` array.
pub open spec fn latest_of(doc: Json) -> Option<Seq<char>> {
    match items_of(field(doc, "deferredCommits"@)) {
        Some(items) => if items.len() > 0 {
            match field(items[0], "oid"@) {
                Some(Json::Str(s)) => Some(s@),
                _ => None,
            }
        } else {
            None
        },
        None => None,
    }
}

/// `latest_of` for a body that may not be JSON.
pub open spec fn latest_in(doc: Option<Json>) -> Option<Seq<char>> {
    match doc {
        Some(j) => latest_of(j),
        None => None,
    }
}

/// Reads the commit messages (as sent, newest first) and the
/// `(filename, status)` entries of a parsed comparison response.
pub fn comparison_from_json(doc: &Json) -> (r: Option<(Vec<String>, Vec<(String, String)>)>)
    ensures
        match (comparison_of(*doc), r) {
            (None, None) => true,
            (Some((m, f)), Some((rm, rf))) => texts(rm@) == m && pair_texts(rf@) == f,
            _ => false,
        },
{
    let commits = match field_of(doc, "commits") {
        Some(Json::Array(a)) => a,
        _ => return None,
    };
    let files = match field_of(doc, "files") {
        Some(Json::Array(a)) => a,
        _ => return None,
    };
    let mut messages: Vec<String> = Vec::new();
    let mut i: usize = 0;
    while i < commits.len()
        invariant
            i <= commits@.len(),
            messages@.len() == i,
            forall|k: int| 0 <= k < i ==> (#[trigger] messages@[k])@ == message_of(commits@[k]),
        decreases commits@.len() - i,
    {
        let m = match field_of(&commits[i], "commit") {
            Some(c) => text_member(c, "message"),
            None => String::new(),
        };
        messages.push(m);
        i += 1;
    }
    let mut entries: Vec<(String, String)> = Vec::new();
    let mut k: usize = 0;
    while k < files.len()
        invariant
            k <= files@.len(),
            entries@.len() == k,
            forall|j: int|
                0 <= j < k ==> ((#[trigger] entries@[j]).0@, entries@[j].1@) == file_entry_of(
                    files@[j],
                ),
        decreases files@.len() - k,
    {
        let name = text_member(&files[k], "filename");
        let status = text_member(&files[k], "status");
        entries.push((name, status));
        k += 1;
    }
    assert(texts(messages@) == commits@.map_values(|c: Json| message_of(c)));
    assert(pair_texts(entries@) == files@.map_values(|f: Json| file_entry_of(f)));
    Some((messages, entries))
}

/// Reads a response of the comparison endpoint: the commit messages as sent
/// (newest first) and the `(filename, status)` entries. A missing message,
/// filename or status reads as empty; a body that is not JSON, or lacks the
/// `commits` or `files` arrays, is malformed.
pub fn decode_comparison(text: &str) -> (r: Result<(Vec<String>, Vec<(String, String)>), DiffError>)
    ensures
        match (comparison_in(json_of(text@)), r) {
            (None, Err(e)) => e == DiffError::MalformedResponse,
            (Some((m, f)), Ok((rm, rf))) => texts(rm@) == m && pair_texts(rf@) == f,
            _ => false,
        },
{
    match parse_json(text) {
        Some(doc) => match comparison_from_json(&doc) {
            Some(c) => Ok(c),
            None => Err(DiffError::MalformedResponse),
        },
        None => Err(DiffError::MalformedResponse),
    }
}

/// The change set between two versions from a response of the comparison
/// endpoint: summary lines oldest first, one record per file entry.
pub fn resolve_comparison(text: &str) -> (r: Result<(Vec<String>, Vec<ChangeRecord>), DiffError>)
    ensures
        match (comparison_in(json_of(text@)), r) {
            (None, Err(e)) => e == DiffError::MalformedResponse,
            (Some((m, f)), Ok((lines, recs))) => {
                &&& texts(lines@) == m.reverse()
                &&& recs@.len() == f.len()
                &&& forall|i: int|
                    0 <= i < f.len() ==> (#[trigger] recs@[i]).action == action_for_status(f[i].1)
                        && recs@[i].path@ == f[i].0
            },
            _ => false,
        },
{
    match decode_comparison(text) {
        Ok((messages, files)) => {
            let ghost msgs = messages@;
            let ghost fs = files@;
            let (lines, recs) = summarize_comparison(messages, files);
            proof {
                assert(texts(lines@) == texts(msgs).reverse());
                assert forall|i: int| 0 <= i < fs.len() implies pair_texts(fs)[i] == (
                fs[i].0@, fs[i].1@) by {}
            }
            Ok((lines, recs))
        },
        Err(e) => Err(e),
    }
}

/// Reads the version a parsed latest-version response names.
pub fn latest_version_from_json(doc: &Json) -> (r: Option<String>)
    ensures
        match (latest_of(*doc), r) {
            (None, None) => true,
            (Some(o), Some(s)) => s@ == o,
            _ => false,
        },
{
    let items = match field_of(doc, "deferredCommits") {
        Some(Json::Array(a)) => a,
        _ => return None,
    };
    if items.len() == 0 {
        return None;
    }
    match field_of(&items[0], "oid") {
        Some(Json::Str(s)) => Some(s.clone()),
        _ => None,
    }
}

/// Reads a response of the latest-version endpoint: the `oid` of the first
/// entry of `deferredCommits`; anything else is malformed.
pub fn decode_latest_version(text: &str) -> (r: Result<String, DiffError>)
    ensures
        match (latest_in(json_of(text@)), r) {
            (None, Err(e)) => e == DiffError::MalformedResponse,
            (Some(o), Ok(s)) => s@ == o,
            _ => false,
        },
{
    match parse_json(text) {
        Some(doc) => match latest_version_from_json(&doc) {
            Some(v) => Ok(v),
            None => Err(DiffError::MalformedResponse),
        },
        None => Err(DiffError::MalformedResponse),
    }
}

/// The comparison range `local...remote` asked of the endpoint.
pub fn comparison_range(local: &str, remote: &str) -> (r: String)
    ensures
        r@ == local@ + "..."@ + remote@,
{
    let a = joined(local, "...");
    joined(a.as_str(), remote)
}

} // verus!
