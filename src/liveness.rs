//! The liveness watcher's decisions. It keeps the last known health snapshot
//! of a daemon (absent: unreachable) and is driven by events: the watcher
//! starting, the socket file changing or disappearing, a periodic tick, and
//! the results of the health probes it asks for. The caller performs each
//! probe and hands its result back, tagged with the probe's number, so that a
//! result that a later event has made stale is recognized and ignored.
use vstd::prelude::*;
use crate::bytes::copy_range;
use crate::http::RawResponse;
use crate::stream::is_json;

verus! {

/// Attempts in a probe sequence after the socket appears.
pub const STARTUP_RETRIES: u32 = 10;

/// Delay between two attempts of a probe sequence.
pub const RETRY_DELAY_MS: u64 = 500;

/// Filesystem events on the socket closer together than this are one change.
pub const DEBOUNCE_MS: u64 = 500;

/// What the watcher asks its caller to do.
#[derive(Clone, Copy, PartialEq, Eq, Structural, Debug)]
pub enum WatchAction {
    Nothing,
    /// Probe the daemon's health after `delay_ms`, and report the result as `probe`.
    Probe { probe: u64, delay_ms: u64 },
    /// The cached snapshot was written: announce it.
    Publish,
}

/// An event for the watcher, as values.
pub enum WatchEventModel {
    Started { socket_exists: bool },
    SocketChanged { at_ms: u64 },
    SocketRemoved,
    Tick { socket_exists: bool },
    ProbeResult { probe: u64, health: Option<Seq<u8>> },
}

/// An event for the watcher.
pub enum WatchEvent {
    /// The watcher starts.
    Started { socket_exists: bool },
    /// The socket file was created or modified, at a time in milliseconds.
    SocketChanged { at_ms: u64 },
    /// The socket file was removed.
    SocketRemoved,
    /// The periodic re-check.
    Tick { socket_exists: bool },
    /// The result of the probe `probe`: the health payload, or none where it failed.
    ProbeResult { probe: u64, health: Option<Vec<u8>> },
}

pub open spec fn opt_bytes_view(o: Option<Vec<u8>>) -> Option<Seq<u8>> {
    match o {
        Some(v) => Some(v@),
        None => None,
    }
}

impl View for WatchEvent {
    type V = WatchEventModel;

    open spec fn view(&self) -> WatchEventModel {
        match self {
            WatchEvent::Started { socket_exists } => WatchEventModel::Started { socket_exists: *socket_exists },
            WatchEvent::SocketChanged { at_ms } => WatchEventModel::SocketChanged { at_ms: *at_ms },
            WatchEvent::SocketRemoved => WatchEventModel::SocketRemoved,
            WatchEvent::Tick { socket_exists } => WatchEventModel::Tick { socket_exists: *socket_exists },
            WatchEvent::ProbeResult { probe, health } => WatchEventModel::ProbeResult {
                probe: *probe,
                health: opt_bytes_view(*health),
            },
        }
    }
}

/// The watcher's state, as values.
pub struct WatchModel {
    /// The cached snapshot; `None` is unreachable.
    pub snapshot: Option<Seq<u8>>,
    /// The number of the probe whose result is awaited, or of the last one.
    pub probe: u64,
    /// A probe result is awaited.
    pub probing: bool,
    /// Attempts left in the current probe sequence.
    pub attempts_left: u32,
    /// When the last change of the socket started a probe sequence.
    pub last_change: Option<u64>,
}

pub open spec fn next_probe(p: u64) -> u64 {
    if p == u64::MAX {
        0
    } else {
        (p + 1) as u64
    }
}

/// A new probe sequence of `attempts` attempts.
pub open spec fn start_probing(m: WatchModel, attempts: u32) -> (WatchModel, WatchAction) {
    let p = next_probe(m.probe);
    (
        WatchModel { probe: p, probing: true, attempts_left: attempts, ..m },
        WatchAction::Probe { probe: p, delay_ms: 0 },
    )
}

/// `at` is within the debounce window after `last`.
pub open spec fn within_window(last: Option<u64>, at: u64) -> bool {
    match last {
        Some(t) => t <= at && at - t < DEBOUNCE_MS,
        None => false,
    }
}

/// One event: the next state and what to do.
pub open spec fn watch_step(m: WatchModel, e: WatchEventModel) -> (WatchModel, WatchAction) {
    match e {
        WatchEventModel::Started { socket_exists } => if socket_exists {
            start_probing(m, STARTUP_RETRIES)
        } else {
            (
                WatchModel { snapshot: None, probe: next_probe(m.probe), probing: false, ..m },
                WatchAction::Publish,
            )
        },
        WatchEventModel::SocketChanged { at_ms } => if within_window(m.last_change, at_ms) {
            (m, WatchAction::Nothing)
        } else {
            start_probing(WatchModel { last_change: Some(at_ms), ..m }, STARTUP_RETRIES)
        },
        WatchEventModel::SocketRemoved => (
            WatchModel {
                snapshot: None,
                probe: next_probe(m.probe),
                probing: false,
                attempts_left: 0,
                last_change: None,
            },
            WatchAction::Publish,
        ),
        WatchEventModel::Tick { socket_exists } => if socket_exists && !m.probing {
            start_probing(m, 1)
        } else {
            (m, WatchAction::Nothing)
        },
        WatchEventModel::ProbeResult { probe, health } => if !m.probing || probe != m.probe {
            (m, WatchAction::Nothing)
        } else {
            match health {
                Some(h) => (
                    WatchModel { snapshot: Some(h), probing: false, attempts_left: 0, ..m },
                    WatchAction::Publish,
                ),
                None => if m.attempts_left <= 1 {
                    (
                        WatchModel { snapshot: None, probing: false, attempts_left: 0, ..m },
                        WatchAction::Publish,
                    )
                } else {
                    (
                        WatchModel { attempts_left: (m.attempts_left - 1) as u32, ..m },
                        WatchAction::Probe { probe: m.probe, delay_ms: RETRY_DELAY_MS },
                    )
                },
            }
        },
    }
}

/// The state after `events` in order.
pub open spec fn watch_run(m: WatchModel, events: Seq<WatchEventModel>) -> WatchModel
    decreases events.len(),
{
    if events.len() == 0 {
        m
    } else {
        watch_step(watch_run(m, events.drop_last()), events.last()).0
    }
}

/// Results of probes other than the one awaited leave the snapshot unreachable.
proof fn lemma_stale_results_keep_unreachable(m: WatchModel, events: Seq<WatchEventModel>)
    requires
        m.snapshot is None,
        !m.probing,
        forall|i: int| 0 <= i < events.len() ==> #[trigger] events[i] is ProbeResult,
    ensures
        watch_run(m, events) == m,
    decreases events.len(),
{
    if events.len() > 0 {
        assert forall|i: int| 0 <= i < events.drop_last().len() implies #[trigger] events.drop_last()[i] is ProbeResult by {
            assert(events.drop_last()[i] == events[i]);
        }
        lemma_stale_results_keep_unreachable(m, events.drop_last());
        assert(events[events.len() - 1] is ProbeResult);
    }
}

/// A socket that appears and is removed at once ends unreachable: the removal
/// publishes the unreachable state, and no result of a probe that the
/// appearance started, or of any probe asked for before, can bring back a
/// connected state afterwards, however the results arrive.
pub proof fn lemma_removal_wins(m: WatchModel, at_ms: u64, results: Seq<WatchEventModel>)
    requires
        forall|i: int| 0 <= i < results.len() ==> #[trigger] results[i] is ProbeResult,
    ensures
        ({
            let (m1, _) = watch_step(m, WatchEventModel::SocketChanged { at_ms });
            let (m2, a2) = watch_step(m1, WatchEventModel::SocketRemoved);
            &&& a2 == WatchAction::Publish
            &&& m2.snapshot is None
            &&& m2.probe != m1.probe
            &&& watch_run(m2, results).snapshot is None
        }),
{
    let (m1, _) = watch_step(m, WatchEventModel::SocketChanged { at_ms });
    let (m2, _) = watch_step(m1, WatchEventModel::SocketRemoved);
    lemma_stale_results_keep_unreachable(m2, results);
}

/// The liveness watcher of one daemon.
pub struct LivenessWatcher {
    snapshot: Option<Vec<u8>>,
    probe: u64,
    probing: bool,
    attempts_left: u32,
    last_change: Option<u64>,
}

impl View for LivenessWatcher {
    type V = WatchModel;

    closed spec fn view(&self) -> WatchModel {
        WatchModel {
            snapshot: opt_bytes_view(self.snapshot),
            probe: self.probe,
            probing: self.probing,
            attempts_left: self.attempts_left,
            last_change: self.last_change,
        }
    }
}

fn bump(p: u64) -> (r: u64)
    ensures
        r == next_probe(p),
{
    if p == u64::MAX {
        0
    } else {
        p + 1
    }
}

impl LivenessWatcher {
    /// A watcher that knows nothing yet: unreachable.
    pub fn new() -> (r: LivenessWatcher)
        ensures
            r@ == (WatchModel { snapshot: None, probe: 0, probing: false, attempts_left: 0, last_change: None }),
    {
        LivenessWatcher { snapshot: None, probe: 0, probing: false, attempts_left: 0, last_change: None }
    }

    fn start_probing(&mut self, attempts: u32) -> (r: WatchAction)
        ensures
            (final(self)@, r) == start_probing(old(self)@, attempts),
    {
        self.probe = bump(self.probe);
        self.probing = true;
        self.attempts_left = attempts;
        WatchAction::Probe { probe: self.probe, delay_ms: 0 }
    }

    /// Takes one event; returns what to do.
    pub fn handle(&mut self, e: WatchEvent) -> (r: WatchAction)
        ensures
            (final(self)@, r) == watch_step(old(self)@, e@),
    {
        match e {
            WatchEvent::Started { socket_exists } => if socket_exists {
                self.start_probing(STARTUP_RETRIES)
            } else {
                self.snapshot = None;
                self.probe = bump(self.probe);
                self.probing = false;
                WatchAction::Publish
            },
            WatchEvent::SocketChanged { at_ms } => {
                let within = match self.last_change {
                    Some(t) => t <= at_ms && at_ms - t < DEBOUNCE_MS,
                    None => false,
                };
                if within {
                    WatchAction::Nothing
                } else {
                    self.last_change = Some(at_ms);
                    self.start_probing(STARTUP_RETRIES)
                }
            },
            WatchEvent::SocketRemoved => {
                self.snapshot = None;
                self.probe = bump(self.probe);
                self.probing = false;
                self.attempts_left = 0;
                self.last_change = None;
                WatchAction::Publish
            },
            WatchEvent::Tick { socket_exists } => if socket_exists && !self.probing {
                self.start_probing(1)
            } else {
                WatchAction::Nothing
            },
            WatchEvent::ProbeResult { probe, health } => if !self.probing || probe != self.probe {
                WatchAction::Nothing
            } else {
                match health {
                    Some(h) => {
                        self.snapshot = Some(h);
                        self.probing = false;
                        self.attempts_left = 0;
                        WatchAction::Publish
                    },
                    None => if self.attempts_left <= 1 {
                        self.snapshot = None;
                        self.probing = false;
                        self.attempts_left = 0;
                        WatchAction::Publish
                    } else {
                        self.attempts_left = self.attempts_left - 1;
                        WatchAction::Probe { probe: self.probe, delay_ms: RETRY_DELAY_MS }
                    },
                }
            },
        }
    }

    /// A copy of the cached snapshot; `None` is unreachable.
    pub fn cached(&self) -> (r: Option<Vec<u8>>)
        ensures
            opt_bytes_view(r) == self@.snapshot,
    {
        match &self.snapshot {
            Some(s) => Some(copy_range(s.as_slice(), 0, s.len())),
            None => None,
        }
    }
}

/// Why a health check failed.
#[derive(Clone, Copy, PartialEq, Eq, Structural, Debug)]
pub enum HealthError {
    /// The daemon answered with a status other than 200.
    Status(u16),
    /// The body is not JSON.
    NotJson,
}

/// The health payload of a health-check response: its body, where the status
/// is 200 and the body is JSON.
pub fn health_payload(resp: &RawResponse) -> (r: Result<Vec<u8>, HealthError>)
    ensures
        resp.status != 200 ==> r == Err::<Vec<u8>, HealthError>(HealthError::Status(resp.status)),
        resp.status == 200 && !is_json(resp.body@) ==> r == Err::<Vec<u8>, HealthError>(HealthError::NotJson),
        resp.status == 200 && is_json(resp.body@) ==> (r matches Ok(b) && b@ == resp.body@),
{
    if resp.status != 200 {
        return Err(HealthError::Status(resp.status));
    }
    if crate::stream::json_valid(resp.body.as_slice()) {
        Ok(copy_range(resp.body.as_slice(), 0, resp.body.len()))
    } else {
        Err(HealthError::NotJson)
    }
}

} // verus!
