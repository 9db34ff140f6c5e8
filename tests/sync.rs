use dove_sync::assets::{
    asset_sync_result, select_pending, shard_batches, trash_plan, AssetSyncError,
};
use dove_sync::code_sync::{
    collect_failures, needs_update, next_version_marker, plan_code_sync, CodePlan,
};
use dove_sync::diff::{
    classify_status, comparison_range, decode_comparison, decode_latest_version,
    resolve_comparison, summarize_comparison, ChangeRecord, DiffAction, DiffError,
};
use dove_sync::diff::{comparison_from_json, latest_version_from_json};
use dove_sync::json::{field_of, parse_json, text_member, Json};
use dove_sync::manifest::{load_manifest, Manifest, ManifestError};
use dove_sync::transport::{FetchAction, FetchError, FetchEvent, FetchSession, TransportConfig};

fn rec(action: DiffAction, path: &str) -> ChangeRecord {
    ChangeRecord { action, path: path.to_string() }
}

fn sorted(v: &[String]) -> Vec<String> {
    let mut v = v.to_vec();
    v.sort();
    v
}

fn size_in(m: &Manifest, path: &str) -> Option<u64> {
    m.entries.iter().find(|e| e.path == path).map(|e| e.expected_size)
}

#[test]
fn status_words_classify() {
    assert_eq!(classify_status("added"), DiffAction::Added);
    assert_eq!(classify_status("removed"), DiffAction::Removed);
    assert_eq!(classify_status("modified"), DiffAction::Modified);
    assert_eq!(classify_status("renamed"), DiffAction::Modified);
    assert_eq!(classify_status(""), DiffAction::Modified);
}

#[test]
fn summary_is_oldest_first() {
    let (lines, recs) = summarize_comparison(
        vec!["third".to_string(), "second".to_string(), "first".to_string()],
        vec![
            ("a.lua".to_string(), "added".to_string()),
            ("b.lua".to_string(), "removed".to_string()),
            ("c.lua".to_string(), "changed".to_string()),
        ],
    );
    assert_eq!(lines, vec!["first", "second", "third"]);
    assert_eq!(recs.len(), 3);
    assert_eq!((recs[0].action, recs[0].path.as_str()), (DiffAction::Added, "a.lua"));
    assert_eq!((recs[1].action, recs[1].path.as_str()), (DiffAction::Removed, "b.lua"));
    assert_eq!((recs[2].action, recs[2].path.as_str()), (DiffAction::Modified, "c.lua"));
}

#[test]
fn comparison_response_decodes() {
    let text = r#"{"commits":[{"commit":{"message":"newer"}},{"commit":{"message":"older"}},{"sha":"x"}],
        "files":[{"filename":"x.lua","status":"modified"},{"filename":"y.lua"}]}"#;
    let (messages, files) = decode_comparison(text).ok().unwrap();
    assert_eq!(messages, vec!["newer", "older", ""]);
    assert_eq!(
        files,
        vec![
            ("x.lua".to_string(), "modified".to_string()),
            ("y.lua".to_string(), "".to_string())
        ]
    );
    let (lines, recs) = resolve_comparison(text).ok().unwrap();
    assert_eq!(lines, vec!["", "older", "newer"]);
    assert_eq!(recs[1].action, DiffAction::Modified);
    assert_eq!(recs[1].path, "y.lua");
}

#[test]
fn comparison_without_fields_is_malformed() {
    assert_eq!(decode_comparison(r#"{"files":[]}"#).err(), Some(DiffError::MalformedResponse));
    assert_eq!(decode_comparison(r#"{"commits":[]}"#).err(), Some(DiffError::MalformedResponse));
    assert_eq!(decode_comparison("not json").err(), Some(DiffError::MalformedResponse));
    assert_eq!(resolve_comparison("[]").err(), Some(DiffError::MalformedResponse));
    assert_eq!(
        decode_comparison(r#"{"commits":5,"files":[]}"#).err(),
        Some(DiffError::MalformedResponse)
    );
    assert_eq!(
        decode_comparison(r#"{"commits":[],"files":{"a":1}}"#).err(),
        Some(DiffError::MalformedResponse)
    );
}

#[test]
fn empty_comparison_decodes_to_nothing() {
    let (lines, recs) = resolve_comparison(r#"{"commits":[],"files":[]}"#).ok().unwrap();
    assert!(lines.is_empty());
    assert!(recs.is_empty());
}

#[test]
fn parsed_documents_are_read_by_member() {
    let doc = parse_json(r#"{"a":{"b":"x"},"n":1.5,"s":"t","l":[true,null]}"#).unwrap();
    match field_of(&doc, "a") {
        Some(inner) => assert_eq!(text_member(inner, "b"), "x"),
        None => panic!("member a is there"),
    }
    assert!(matches!(field_of(&doc, "n"), Some(Json::Number(n)) if n == "1.5"));
    assert!(matches!(field_of(&doc, "l"), Some(Json::Array(v)) if v.len() == 2));
    assert_eq!(text_member(&doc, "s"), "t");
    assert_eq!(text_member(&doc, "n"), "");
    assert!(field_of(&doc, "missing").is_none());
    assert!(parse_json("{").is_none());
}

#[test]
fn comparison_is_read_from_a_parsed_document() {
    let doc = parse_json(r#"{"commits":[{"commit":{"message":"m"}}],"files":[{"filename":"f","status":"added"}]}"#)
        .unwrap();
    let (messages, files) = comparison_from_json(&doc).unwrap();
    assert_eq!(messages, vec!["m"]);
    assert_eq!(files, vec![("f".to_string(), "added".to_string())]);
    assert!(comparison_from_json(&Json::Null).is_none());
}

#[test]
fn latest_version_is_read_from_a_parsed_document() {
    let doc = parse_json(r#"{"deferredCommits":[{"oid":"v1"}]}"#).unwrap();
    assert_eq!(latest_version_from_json(&doc), Some("v1".to_string()));
    let doc = parse_json(r#"{"deferredCommits":[{"oid":7}]}"#).unwrap();
    assert_eq!(latest_version_from_json(&doc), None);
}

#[test]
fn latest_version_decodes() {
    let text = r#"{"deferredCommits":[{"oid":"abc123"},{"oid":"older"}]}"#;
    assert_eq!(decode_latest_version(text).ok(), Some("abc123".to_string()));
    assert_eq!(
        decode_latest_version(r#"{"deferredCommits":[]}"#).err(),
        Some(DiffError::MalformedResponse)
    );
    assert_eq!(
        decode_latest_version(r#"{"deferredCommits":[{"id":1}]}"#).err(),
        Some(DiffError::MalformedResponse)
    );
    assert_eq!(decode_latest_version("{}").err(), Some(DiffError::MalformedResponse));
}

#[test]
fn comparison_range_joins_versions() {
    assert_eq!(comparison_range("A", "B"), "A...B");
}

#[test]
fn removals_only_plan_downloads_nothing() {
    let changes = vec![rec(DiffAction::Removed, "gone/a.lua"), rec(DiffAction::Removed, "b.lua")];
    let plan = plan_code_sync(&changes);
    assert!(plan.downloads.is_empty());
    assert_eq!(sorted(&plan.removals), vec!["b.lua", "gone/a.lua"]);
    // Removing a path that does not exist is a no-op that reports success.
    let results = plan.removals.iter().map(|p| (p.clone(), Ok(()))).collect();
    assert!(collect_failures(results).is_empty());
}

#[test]
fn last_record_for_a_path_wins() {
    let plan = plan_code_sync(&vec![rec(DiffAction::Modified, "x"), rec(DiffAction::Removed, "x")]);
    assert_eq!(plan.removals, vec!["x"]);
    assert!(plan.downloads.is_empty());
    let plan = plan_code_sync(&vec![rec(DiffAction::Removed, "x"), rec(DiffAction::Added, "x")]);
    assert!(plan.removals.is_empty());
    assert_eq!(plan.downloads, vec!["x"]);
}

#[test]
fn plan_lists_each_path_once() {
    let plan: CodePlan = plan_code_sync(&vec![
        rec(DiffAction::Added, "a"),
        rec(DiffAction::Modified, "b"),
        rec(DiffAction::Modified, "a"),
        rec(DiffAction::Removed, "c"),
    ]);
    assert_eq!(sorted(&plan.downloads), vec!["a", "b"]);
    assert_eq!(plan.removals, vec!["c"]);
    let empty = plan_code_sync(&vec![]);
    assert!(empty.downloads.is_empty() && empty.removals.is_empty());
}

#[test]
fn failures_are_collected_in_order() {
    let errors = collect_failures(vec![
        ("a".to_string(), Ok(())),
        ("b".to_string(), Err("404".to_string())),
        ("c".to_string(), Err("timeout".to_string())),
    ]);
    assert_eq!(errors.len(), 2);
    assert_eq!((errors[0].path.as_str(), errors[0].reason.as_str()), ("b", "404"));
    assert_eq!((errors[1].path.as_str(), errors[1].reason.as_str()), ("c", "timeout"));
}

#[test]
fn update_needed_only_when_versions_differ() {
    assert!(needs_update("A", "B"));
    assert!(!needs_update("B", "B"));
}

fn run_fetch(cfg: &TransportConfig, succeed: bool) -> Result<(), String> {
    let (mut session, mut action) = FetchSession::start(cfg);
    loop {
        action = match action {
            FetchAction::Request { .. } => {
                session.step(cfg, FetchEvent::Responded(if succeed { 200 } else { 502 }))
            }
            FetchAction::Read => session.step(cfg, FetchEvent::EndOfStream),
            FetchAction::Finish => return Ok(()),
            FetchAction::GiveUp(FetchError::Exhausted(_)) => return Err("exhausted".to_string()),
            FetchAction::GiveUp(FetchError::Filesystem(m)) => return Err(m),
            FetchAction::Ignore => panic!("no event should be out of phase"),
        }
    }
}

fn end_to_end(succeed: bool) -> (String, Vec<String>) {
    let local = "A";
    let remote = "B";
    assert!(needs_update(local, remote));
    let (_, changes) = summarize_comparison(
        vec![],
        vec![("x.lua".to_string(), "modified".to_string())],
    );
    let plan = plan_code_sync(&changes);
    assert_eq!(plan.downloads, vec!["x.lua"]);
    let cfg = TransportConfig {
        mirrors: vec!["m0".to_string(), "m1".to_string(), "m2".to_string()],
        max_attempts: 3,
        window_secs: 2,
        min_speed: 10240,
    };
    let results = plan.downloads.iter().map(|p| (p.clone(), run_fetch(&cfg, succeed))).collect();
    let failures = collect_failures(results);
    let marker = next_version_marker(local, remote, &failures);
    (marker, failures.into_iter().map(|f| f.path).collect())
}

#[test]
fn end_to_end_success_records_remote_version() {
    let (marker, failed) = end_to_end(true);
    assert_eq!(marker, "B");
    assert!(failed.is_empty());
}

#[test]
fn end_to_end_failure_keeps_local_version() {
    let (marker, failed) = end_to_end(false);
    assert_eq!(marker, "A");
    assert_eq!(failed, vec!["x.lua"]);
}

#[test]
fn manifest_loads_from_records() {
    let m = load_manifest(Some(vec![
        ("images/a.png".to_string(), 10),
        ("b.ogg".to_string(), 0),
        ("images/a.png".to_string(), 12),
    ]))
    .ok()
    .unwrap();
    assert_eq!(m.entries.len(), 2);
    assert_eq!(size_in(&m, "images/a.png"), Some(12));
    assert_eq!(size_in(&m, "b.ogg"), Some(0));
}

#[test]
fn unreadable_manifest_is_reported() {
    assert_eq!(load_manifest(None).err(), Some(ManifestError::Unreadable));
}

#[test]
fn manifest_pairs_last_wins() {
    let m = Manifest::from_pairs(vec![
        ("a".to_string(), 1),
        ("b".to_string(), 2),
        ("a".to_string(), 3),
    ]);
    assert_eq!(m.entries.len(), 2);
    assert_eq!(size_in(&m, "a"), Some(3));
    assert_eq!(size_in(&m, "b"), Some(2));
}

fn sample_manifest() -> Manifest {
    Manifest::from_pairs(vec![
        ("img/abc.png".to_string(), 100),
        ("img/xbz.png".to_string(), 50),
        ("snd/hello.ogg".to_string(), 7),
        ("done.png".to_string(), 9),
    ])
}

#[test]
fn up_to_date_assets_are_not_selected() {
    let m = sample_manifest();
    let pending = select_pending(&m, &vec![100, 0, 3, 9]);
    assert_eq!(pending, vec![1, 2]);
    assert!(select_pending(&m, &vec![100, 50, 7, 9]).is_empty());
}

#[test]
fn pending_assets_are_grouped_by_shard() {
    let m = sample_manifest();
    let pending = select_pending(&m, &vec![0, 0, 0, 9]);
    assert_eq!(pending, vec![0, 1, 2]);
    let batches = shard_batches(&m, &pending);
    assert_eq!(batches.len(), 2);
    let b = batches.iter().find(|b| b.release == "b").unwrap();
    assert_eq!(b.members, vec![0, 1]);
    let l = batches.iter().find(|b| b.release == "l").unwrap();
    assert_eq!(l.members, vec![2]);
    assert!(shard_batches(&m, &vec![]).is_empty());
}

#[test]
fn reconciliation_moves_unlisted_files_to_trash() {
    let m = sample_manifest();
    let local = vec![
        "assets_index.lua".to_string(),
        "img/abc.png".to_string(),
        "img/old.png".to_string(),
        "stray.txt".to_string(),
    ];
    let moves = trash_plan(&m, &local, "assets_index.lua", "_trashed_assets");
    assert_eq!(moves.len(), 2);
    assert_eq!(moves[0].relative, "img/old.png");
    assert_eq!(moves[0].destination, "_trashed_assets/img/old.png");
    assert_eq!(moves[1].relative, "stray.txt");
    assert_eq!(moves[1].destination, "_trashed_assets/stray.txt");
}

#[test]
fn asset_result_lists_every_failure() {
    assert!(asset_sync_result(vec![]).is_ok());
    match asset_sync_result(vec!["a.png".to_string(), "b.png".to_string()]) {
        Err(AssetSyncError::DownloadsFailed(v)) => assert_eq!(v, vec!["a.png", "b.png"]),
        _ => panic!("expected the failed downloads"),
    }
}
