use dove_sync::transport::{
    raw_file_path, release_asset_path, resource_url, AttemptError, FetchAction, FetchError,
    FetchEvent, FetchSession, Phase, TransportConfig,
};

fn config(attempts: u64) -> TransportConfig {
    TransportConfig {
        mirrors: vec![
            "https://m0.example".to_string(),
            "https://m1.example".to_string(),
            "https://m2.example".to_string(),
        ],
        max_attempts: attempts,
        window_secs: 2,
        min_speed: 10 * 1024,
    }
}

fn streaming(cfg: &TransportConfig) -> FetchSession {
    let (mut s, a) = FetchSession::start(cfg);
    assert!(matches!(a, FetchAction::Request { attempt: 0, mirror: 0 }));
    assert!(matches!(s.step(cfg, FetchEvent::Responded(200)), FetchAction::Read));
    s
}

#[test]
fn no_attempt_allowed_is_exhausted_at_once() {
    let cfg = config(0);
    let (s, a) = FetchSession::start(&cfg);
    assert_eq!(s.phase, Phase::Failed);
    assert!(matches!(a, FetchAction::GiveUp(FetchError::Exhausted(None))));
}

#[test]
fn two_slow_windows_abandon_and_rotate_mirror() {
    let cfg = config(3);
    let mut s = streaming(&cfg);
    let a = s.step(&cfg, FetchEvent::Chunk { bytes: 100, window_elapsed: true });
    assert!(matches!(a, FetchAction::Read));
    assert_eq!(s.slow_windows, 1);
    let a = s.step(&cfg, FetchEvent::Chunk { bytes: 100, window_elapsed: true });
    assert!(matches!(a, FetchAction::Request { attempt: 1, mirror: 1 }));
    assert_eq!(s.phase, Phase::Start);
    assert_eq!(s.received, 0);
}

#[test]
fn fast_window_resets_slow_count() {
    let cfg = config(3);
    let mut s = streaming(&cfg);
    s.step(&cfg, FetchEvent::Chunk { bytes: 100, window_elapsed: true });
    assert_eq!(s.slow_windows, 1);
    let a = s.step(&cfg, FetchEvent::Chunk { bytes: 1_000_000, window_elapsed: true });
    assert!(matches!(a, FetchAction::Read));
    assert_eq!(s.slow_windows, 0);
    let a = s.step(&cfg, FetchEvent::Chunk { bytes: 1, window_elapsed: true });
    assert!(matches!(a, FetchAction::Read));
    assert_eq!(s.slow_windows, 1);
}

#[test]
fn throughput_threshold_is_inclusive() {
    let cfg = config(3);
    let mut s = streaming(&cfg);
    // 20480 bytes in a 2 s window is exactly 10 KiB/s: not slow.
    s.step(&cfg, FetchEvent::Chunk { bytes: 20480, window_elapsed: true });
    assert_eq!(s.slow_windows, 0);
    // 20479 bytes is below the threshold.
    s.step(&cfg, FetchEvent::Chunk { bytes: 20479, window_elapsed: true });
    assert_eq!(s.slow_windows, 1);
    assert_eq!(s.received, 40959);
    assert_eq!(s.checkpoint, 40959);
}

#[test]
fn chunks_within_a_window_only_count_bytes() {
    let cfg = config(3);
    let mut s = streaming(&cfg);
    s.step(&cfg, FetchEvent::Chunk { bytes: 10, window_elapsed: false });
    s.step(&cfg, FetchEvent::Chunk { bytes: 15, window_elapsed: false });
    assert_eq!(s.received, 25);
    assert_eq!(s.checkpoint, 0);
    assert_eq!(s.slow_windows, 0);
}

#[test]
fn mirrors_wrap_round() {
    let cfg = config(5);
    let (mut s, _) = FetchSession::start(&cfg);
    let mut mirrors = Vec::new();
    for _ in 0..4 {
        match s.step(&cfg, FetchEvent::Responded(503)) {
            FetchAction::Request { mirror, .. } => mirrors.push(mirror),
            _ => panic!("expected a new request"),
        }
    }
    assert_eq!(mirrors, vec![1, 2, 0, 1]);
    let a = s.step(&cfg, FetchEvent::Responded(503));
    assert!(matches!(
        a,
        FetchAction::GiveUp(FetchError::Exhausted(Some(AttemptError::UpstreamStatus(503))))
    ));
    assert_eq!(s.phase, Phase::Failed);
}

#[test]
fn transport_failure_on_last_attempt_exhausts() {
    let cfg = config(1);
    let (mut s, _) = FetchSession::start(&cfg);
    let a = s.step(&cfg, FetchEvent::RequestFailed("refused".to_string()));
    match a {
        FetchAction::GiveUp(FetchError::Exhausted(Some(AttemptError::Transport(m)))) => {
            assert_eq!(m, "refused")
        }
        _ => panic!("expected exhaustion"),
    }
}

#[test]
fn stall_on_last_attempt_exhausts() {
    let cfg = config(1);
    let mut s = streaming(&cfg);
    s.step(&cfg, FetchEvent::Chunk { bytes: 0, window_elapsed: true });
    let a = s.step(&cfg, FetchEvent::Chunk { bytes: 0, window_elapsed: true });
    assert!(matches!(
        a,
        FetchAction::GiveUp(FetchError::Exhausted(Some(AttemptError::StallAbandoned)))
    ));
}

#[test]
fn read_failure_moves_to_next_mirror() {
    let cfg = config(2);
    let mut s = streaming(&cfg);
    let a = s.step(&cfg, FetchEvent::ReadFailed("reset".to_string()));
    assert!(matches!(a, FetchAction::Request { attempt: 1, mirror: 1 }));
}

#[test]
fn clean_end_of_stream_succeeds_and_is_final() {
    let cfg = config(2);
    let mut s = streaming(&cfg);
    s.step(&cfg, FetchEvent::Chunk { bytes: 5, window_elapsed: false });
    assert!(matches!(s.step(&cfg, FetchEvent::EndOfStream), FetchAction::Finish));
    assert_eq!(s.phase, Phase::Succeeded);
    assert!(matches!(s.step(&cfg, FetchEvent::Responded(200)), FetchAction::Ignore));
    assert_eq!(s.phase, Phase::Succeeded);
}

#[test]
fn sink_failure_gives_up_without_retry() {
    let cfg = config(3);
    let mut s = streaming(&cfg);
    match s.step(&cfg, FetchEvent::SinkFailed("disk full".to_string())) {
        FetchAction::GiveUp(FetchError::Filesystem(m)) => assert_eq!(m, "disk full"),
        _ => panic!("expected a filesystem failure"),
    }
    assert_eq!(s.phase, Phase::Failed);
}

#[test]
fn events_out_of_phase_are_ignored() {
    let cfg = config(3);
    let (mut s, _) = FetchSession::start(&cfg);
    let before = s;
    assert!(matches!(
        s.step(&cfg, FetchEvent::Chunk { bytes: 1, window_elapsed: true }),
        FetchAction::Ignore
    ));
    assert!(matches!(s.step(&cfg, FetchEvent::EndOfStream), FetchAction::Ignore));
    assert_eq!(s, before);
}

#[test]
fn urls_are_built_from_parts() {
    let cfg = config(3);
    assert_eq!(resource_url(&cfg, 2, "/x/y"), "https://m2.example/x/y");
    assert_eq!(
        release_asset_path("/Owner/Repo", "b", "abc.png"),
        "/Owner/Repo/releases/download/b/abc.png"
    );
    assert_eq!(raw_file_path("/Owner/Repo", "master", "x.lua"), "/Owner/Repo/raw/master/x.lua");
}
