use vstd::prelude::*;
use crate::text::joined;

verus! {

/// Fixed configuration of the resilient fetch: mirror base URLs tried in turn,
/// the number of attempts, the stall window and the minimum throughput.
pub struct TransportConfig {
    pub mirrors: Vec<String>,
    pub max_attempts: u64,
    /// Length of the throughput window, in seconds.
    pub window_secs: u64,
    /// Least acceptable throughput, in bytes per second.
    pub min_speed: u64,
}

impl TransportConfig {
    pub open spec fn wf(&self) -> bool {
        &&& self.mirrors@.len() > 0
        &&& self.window_secs > 0
    }
}

/// Why a single attempt ended without success.
pub enum AttemptError {
    /// The connection failed, or the body could not be read to its end.
    Transport(String),
    /// The mirror answered with a status outside 200..=299.
    UpstreamStatus(u16),
    /// Throughput stayed below the threshold for two windows in a row.
    StallAbandoned,
}

/// Terminal failure of a fetch.
pub enum FetchError {
    /// Every attempt failed; the error of the last one, if any was made.
    Exhausted(Option<AttemptError>),
    /// The received bytes could not be stored.
    Filesystem(String),
}

/// Where a fetch stands.
#[derive(PartialEq, Eq, Structural, Clone, Copy, Debug)]
pub enum Phase {
    /// A request is out; its response has not come yet.
    Start,
    /// The body is being received.
    Streaming,
    Succeeded,
    Failed,
}

/// What happened since the last step, as observed by the caller.
pub enum FetchEvent {
    /// The response arrived with this status.
    Responded(u16),
    /// The request failed before any response.
    RequestFailed(String),
    /// A chunk of `bytes` bytes arrived; `window_elapsed` tells whether a full
    /// throughput window has passed since the last checkpoint.
    Chunk { bytes: u64, window_elapsed: bool },
    /// The body ended cleanly.
    EndOfStream,
    /// Reading the body failed.
    ReadFailed(String),
    /// Storing the received bytes failed.
    SinkFailed(String),
}

/// What the caller is to do next.
pub enum FetchAction {
    /// Send a request for the resource to `mirrors[mirror]` (attempt `attempt`),
    /// discarding whatever an earlier attempt received.
    Request { attempt: u64, mirror: usize },
    /// Read the next chunk of the body.
    Read,
    /// Keep the received body: the fetch succeeded.
    Finish,
    /// Stop: the fetch failed.
    GiveUp(FetchError),
    /// The event does not belong to the current phase and changed nothing.
    Ignore,
}

/// State of one resilient fetch.
#[derive(PartialEq, Eq, Structural, Clone, Copy, Debug)]
pub struct FetchSession {
    /// Index of the current attempt, from 0.
    pub attempt: u64,
    pub phase: Phase,
    /// Bytes received in the current attempt.
    pub received: u64,
    /// `received` at the last throughput checkpoint.
    pub checkpoint: u64,
    /// Consecutive windows below the throughput threshold.
    pub slow_windows: u64,
}

/// The URL of `resource` on mirror `mirror`: the mirror's base followed by
/// the resource path.
pub fn resource_url(cfg: &TransportConfig, mirror: usize, resource: &str) -> (r: String)
    requires
        mirror < cfg.mirrors@.len(),
    ensures
        r@ == cfg.mirrors@[mirror as int]@ + resource@,
{
    joined(cfg.mirrors[mirror].as_str(), resource)
}

/// The path of a release asset of repository `repo`.
pub fn release_asset_path(repo: &str, release: &str, file_name: &str) -> (r: String)
    ensures
        r@ == repo@ + "/releases/download/"@ + release@ + "/"@ + file_name@,
{
    let a = joined(repo, "/releases/download/");
    let b = joined(a.as_str(), release);
    let c = joined(b.as_str(), "/");
    joined(c.as_str(), file_name)
}

/// The path of the raw content of `file` on branch `branch` of repository `repo`.
pub fn raw_file_path(repo: &str, branch: &str, file: &str) -> (r: String)
    ensures
        r@ == repo@ + "/raw/"@ + branch@ + "/"@ + file@,
{
    let a = joined(repo, "/raw/");
    let b = joined(a.as_str(), branch);
    let c = joined(b.as_str(), "/");
    joined(c.as_str(), file)
}

/// Mirror used by attempt `attempt` among `n` mirrors.
pub open spec fn mirror_for(attempt: int, n: int) -> int {
    attempt % n
}

pub open spec fn is_success_status(status: u16) -> bool {
    200 <= status && status <= 299
}

pub open spec fn fresh(attempt: u64) -> FetchSession {
    FetchSession { attempt, phase: Phase::Start, received: 0, checkpoint: 0, slow_windows: 0 }
}

pub open spec fn saturating_sum(a: u64, b: u64) -> u64 {
    if a + b > u64::MAX {
        u64::MAX
    } else {
        (a + b) as u64
    }
}

/// State and action once attempt `s.attempt` ended with `err`: the next attempt
/// goes to the next mirror, or the fetch is exhausted.
pub open spec fn after_failed_attempt(
    cfg: TransportConfig,
    s: FetchSession,
    err: AttemptError,
) -> (FetchSession, FetchAction) {
    if s.attempt + 1 >= cfg.max_attempts {
        (
            FetchSession { phase: Phase::Failed, ..s },
            FetchAction::GiveUp(FetchError::Exhausted(Some(err))),
        )
    } else {
        let next = (s.attempt + 1) as u64;
        (
            fresh(next),
            FetchAction::Request {
                attempt: next,
                mirror: mirror_for(next as int, cfg.mirrors@.len() as int) as usize,
            },
        )
    }
}

/// Whether a window in which `bytes` bytes arrived was below the threshold.
pub open spec fn window_is_slow(cfg: TransportConfig, bytes: int) -> bool {
    bytes / (cfg.window_secs as int) < cfg.min_speed
}

/// The transition of a fetch on one event.
pub open spec fn transition(
    cfg: TransportConfig,
    s: FetchSession,
    e: FetchEvent,
) -> (FetchSession, FetchAction) {
    match (s.phase, e) {
        (Phase::Start, FetchEvent::Responded(status)) => if is_success_status(status) {
            (FetchSession { phase: Phase::Streaming, ..s }, FetchAction::Read)
        } else {
            after_failed_attempt(cfg, s, AttemptError::UpstreamStatus(status))
        },
        (Phase::Start, FetchEvent::RequestFailed(msg)) => after_failed_attempt(
            cfg,
            s,
            AttemptError::Transport(msg),
        ),
        (Phase::Streaming, FetchEvent::Chunk { bytes, window_elapsed }) => {
            let received = saturating_sum(s.received, bytes);
            if !window_elapsed {
                (FetchSession { received, ..s }, FetchAction::Read)
            } else {
                let slow = if window_is_slow(cfg, received - s.checkpoint) {
                    s.slow_windows + 1
                } else {
                    0
                };
                if slow >= 2 {
                    after_failed_attempt(cfg, s, AttemptError::StallAbandoned)
                } else {
                    (
                        FetchSession {
                            received,
                            checkpoint: received,
                            slow_windows: slow as u64,
                            ..s
                        },
                        FetchAction::Read,
                    )
                }
            }
        },
        (Phase::Streaming, FetchEvent::EndOfStream) => (
            FetchSession { phase: Phase::Succeeded, ..s },
            FetchAction::Finish,
        ),
        (Phase::Streaming, FetchEvent::ReadFailed(msg)) => after_failed_attempt(
            cfg,
            s,
            AttemptError::Transport(msg),
        ),
        (Phase::Streaming, FetchEvent::SinkFailed(msg)) => (
            FetchSession { phase: Phase::Failed, ..s },
            FetchAction::GiveUp(FetchError::Filesystem(msg)),
        ),
        _ => (s, FetchAction::Ignore),
    }
}

/// A first window below the threshold does not end the attempt: the body is
/// read on and one slow window is counted.
pub proof fn lemma_one_slow_window_is_tolerated(
    cfg: TransportConfig,
    s: FetchSession,
    bytes: u64,
)
    requires
        cfg.wf(),
        s.wf(cfg),
        s.phase == Phase::Streaming,
        s.slow_windows == 0,
        window_is_slow(cfg, saturating_sum(s.received, bytes) - s.checkpoint),
    ensures
        ({
            let (t, a) = transition(cfg, s, FetchEvent::Chunk { bytes, window_elapsed: true });
            &&& t.phase == Phase::Streaming
            &&& t.attempt == s.attempt
            &&& t.slow_windows == 1
            &&& a == FetchAction::Read
        }),
{
}

/// A window at or above the threshold clears the count of slow windows.
pub proof fn lemma_fast_window_resets(cfg: TransportConfig, s: FetchSession, bytes: u64)
    requires
        cfg.wf(),
        s.wf(cfg),
        s.phase == Phase::Streaming,
        !window_is_slow(cfg, saturating_sum(s.received, bytes) - s.checkpoint),
    ensures
        ({
            let (t, a) = transition(cfg, s, FetchEvent::Chunk { bytes, window_elapsed: true });
            &&& t.phase == Phase::Streaming
            &&& t.attempt == s.attempt
            &&& t.slow_windows == 0
            &&& a == FetchAction::Read
        }),
{
}

/// The second slow window in a row abandons the attempt: the next attempt
/// goes to mirror `(i + 1) mod len(mirrors)`, or, when no attempt is left, the
/// fetch ends exhausted with the stall as its last error.
pub proof fn lemma_second_slow_window_abandons(
    cfg: TransportConfig,
    s: FetchSession,
    bytes: u64,
)
    requires
        cfg.wf(),
        s.wf(cfg),
        s.phase == Phase::Streaming,
        s.slow_windows == 1,
        window_is_slow(cfg, saturating_sum(s.received, bytes) - s.checkpoint),
    ensures
        ({
            let (t, a) = transition(cfg, s, FetchEvent::Chunk { bytes, window_elapsed: true });
            if s.attempt + 1 < cfg.max_attempts {
                &&& t == fresh((s.attempt + 1) as u64)
                &&& a == FetchAction::Request {
                    attempt: (s.attempt + 1) as u64,
                    mirror: ((s.attempt + 1) % (cfg.mirrors@.len() as int)) as usize,
                }
            } else {
                &&& t.phase == Phase::Failed
                &&& a == FetchAction::GiveUp(
                    FetchError::Exhausted(Some(AttemptError::StallAbandoned)),
                )
            }
        }),
{
}

/// Every transition keeps the session's invariant, never goes back to an
/// earlier attempt, and moves on by at most one attempt.
pub proof fn lemma_transition_wf(cfg: TransportConfig, s: FetchSession, e: FetchEvent)
    requires
        cfg.wf(),
        s.wf(cfg),
    ensures
        ({
            let (t, a) = transition(cfg, s, e);
            &&& t.wf(cfg)
            &&& s.attempt <= t.attempt <= s.attempt + 1
        }),
{
}

/// A finished fetch stays finished: later events change nothing.
pub proof fn lemma_finished_is_final(cfg: TransportConfig, s: FetchSession, e: FetchEvent)
    requires
        s.phase == Phase::Succeeded || s.phase == Phase::Failed,
    ensures
        transition(cfg, s, e) == (s, FetchAction::Ignore),
{
}

/// When the last allowed attempt fails, for whatever reason, the fetch ends
/// exhausted with that attempt's error; no further request is made.
pub proof fn lemma_last_attempt_exhausts(
    cfg: TransportConfig,
    s: FetchSession,
    err: AttemptError,
)
    requires
        cfg.wf(),
        s.wf(cfg),
        s.phase == Phase::Start || s.phase == Phase::Streaming,
        s.attempt + 1 == cfg.max_attempts,
    ensures
        after_failed_attempt(cfg, s, err) == (
            FetchSession { phase: Phase::Failed, ..s },
            FetchAction::GiveUp(FetchError::Exhausted(Some(err))),
        ),
{
}

impl FetchSession {
    /// Invariant of a session run under `cfg`.
    pub open spec fn wf(&self, cfg: TransportConfig) -> bool {
        &&& (self.phase == Phase::Start || self.phase == Phase::Streaming) ==> self.attempt
            < cfg.max_attempts
        &&& self.checkpoint <= self.received
        &&& self.slow_windows < 2
    }

    /// Opens a fetch: the first request goes to the first mirror; with no
    /// attempt allowed the fetch is exhausted at once.
    pub fn start(cfg: &TransportConfig) -> (r: (FetchSession, FetchAction))
        requires
            cfg.wf(),
        ensures
            r.0.wf(*cfg),
            cfg.max_attempts == 0 ==> r.0.phase == Phase::Failed && r.1 == FetchAction::GiveUp(
                FetchError::Exhausted(None),
            ),
            cfg.max_attempts > 0 ==> r.0 == fresh(0) && r.1 == (FetchAction::Request {
                attempt: 0,
                mirror: 0,
            }),
    {
        if cfg.max_attempts == 0 {
            (
                FetchSession {
                    attempt: 0,
                    phase: Phase::Failed,
                    received: 0,
                    checkpoint: 0,
                    slow_windows: 0,
                },
                FetchAction::GiveUp(FetchError::Exhausted(None)),
            )
        } else {
            (
                FetchSession {
                    attempt: 0,
                    phase: Phase::Start,
                    received: 0,
                    checkpoint: 0,
                    slow_windows: 0,
                },
                FetchAction::Request { attempt: 0, mirror: 0 },
            )
        }
    }

    fn fail_attempt(&mut self, cfg: &TransportConfig, err: AttemptError) -> (r: FetchAction)
        requires
            cfg.wf(),
            old(self).wf(*cfg),
            old(self).phase == Phase::Start || old(self).phase == Phase::Streaming,
        ensures
            (*final(self), r) == after_failed_attempt(*cfg, *old(self), err),
            final(self).wf(*cfg),
    {
        if self.attempt + 1 >= cfg.max_attempts {
            self.phase = Phase::Failed;
            FetchAction::GiveUp(FetchError::Exhausted(Some(err)))
        } else {
            let next = self.attempt + 1;
            *self = FetchSession {
                attempt: next,
                phase: Phase::Start,
                received: 0,
                checkpoint: 0,
                slow_windows: 0,
            };
            FetchAction::Request { attempt: next, mirror: (next % (cfg.mirrors.len() as u64)) as usize }
        }
    }

    /// Advances the fetch on one event and says what to do next.
    pub fn step(&mut self, cfg: &TransportConfig, event: FetchEvent) -> (r: FetchAction)
        requires
            cfg.wf(),
            old(self).wf(*cfg),
        ensures
            (*final(self), r) == transition(*cfg, *old(self), event),
            final(self).wf(*cfg),
    {
        match event {
            FetchEvent::Responded(status) => {
                if self.phase != Phase::Start {
                    return FetchAction::Ignore;
                }
                if 200 <= status && status <= 299 {
                    self.phase = Phase::Streaming;
                    FetchAction::Read
                } else {
                    self.fail_attempt(cfg, AttemptError::UpstreamStatus(status))
                }
            },
            FetchEvent::RequestFailed(msg) => {
                if self.phase != Phase::Start {
                    return FetchAction::Ignore;
                }
                self.fail_attempt(cfg, AttemptError::Transport(msg))
            },
            FetchEvent::Chunk { bytes, window_elapsed } => {
                if self.phase != Phase::Streaming {
                    return FetchAction::Ignore;
                }
                let received = self.received.saturating_add(bytes);
                if !window_elapsed {
                    self.received = received;
                    return FetchAction::Read;
                }
                let speed = (received - self.checkpoint) / cfg.window_secs;
                let slow: u64 = if speed < cfg.min_speed {
                    self.slow_windows + 1
                } else {
                    0
                };
                if slow >= 2 {
                    self.fail_attempt(cfg, AttemptError::StallAbandoned)
                } else {
                    self.received = received;
                    self.checkpoint = received;
                    self.slow_windows = slow;
                    FetchAction::Read
                }
            },
            FetchEvent::EndOfStream => {
                if self.phase != Phase::Streaming {
                    return FetchAction::Ignore;
                }
                self.phase = Phase::Succeeded;
                FetchAction::Finish
            },
            FetchEvent::ReadFailed(msg) => {
                if self.phase != Phase::Streaming {
                    return FetchAction::Ignore;
                }
                self.fail_attempt(cfg, AttemptError::Transport(msg))
            },
            FetchEvent::SinkFailed(msg) => {
                if self.phase != Phase::Streaming {
                    return FetchAction::Ignore;
                }
                self.phase = Phase::Failed;
                FetchAction::GiveUp(FetchError::Filesystem(msg))
            },
        }
    }
}

} // verus!
