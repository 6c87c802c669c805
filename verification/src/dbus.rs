//! What the background task that talks to the sensor daemon decides:
//! commands and events exchanged with the UI, how a poll's replies become a
//! snapshot, what a command does to the poll loop, and how the connection
//! loop moves between connecting, polling and waiting to retry.
use vstd::prelude::*;

use crate::model::{
    category_from_text, format_from_text, parse_format, Category, DaemonState, DaemonStateView, Reading,
    ReadingKind, Snapshot,
};

verus! {

/// Commands the UI can send to the background task.
#[derive(Debug, Clone)]
pub enum DbusCmd {
    /// Force an immediate poll.
    RefreshNow,
    /// Fetch time-series history for a sensor key; the number is the hover
    /// generation that asked for it, and comes back with the reply.
    FetchHistory(String, u64),
    /// Push a new config (TOML text) to the daemon and ask it to persist.
    SaveConfig(String),
    /// Change how often the background task polls, in whole seconds.
    SetInterval(u64),
    /// Shut the task down.
    Shutdown,
}

/// Events flowing from the background task up to the UI.
///
/// History points are `(time, value)` pairs of `f64` bit patterns; a history
/// reply carries the hover generation of the request it answers.
#[derive(Debug, Clone)]
pub enum DbusEvent {
    State(DaemonState),
    Snapshot(Box<Snapshot>),
    History { key: String, generation: u64, points: Vec<(u64, u64)> },
    SaveResult(bool),
}

impl DbusCmd {
    /// A copy equal to `self`.
    pub fn duplicate(&self) -> (r: DbusCmd)
        ensures
            r == *self,
    {
        match self {
            DbusCmd::RefreshNow => DbusCmd::RefreshNow,
            DbusCmd::FetchHistory(k, g) => DbusCmd::FetchHistory(k.clone(), *g),
            DbusCmd::SaveConfig(t) => DbusCmd::SaveConfig(t.clone()),
            DbusCmd::SetInterval(s) => DbusCmd::SetInterval(*s),
            DbusCmd::Shutdown => DbusCmd::Shutdown,
        }
    }
}

// ---------------------------------------------------------------------------
// From the daemon's replies to a snapshot
// ---------------------------------------------------------------------------

/// A numeric reading as sent over D-Bus: (label, value bits, category, format).
pub type NumericTuple = (String, u64, String, String);

/// A text reading as sent over D-Bus: (label, text, category, format).
pub type TextTuple = (String, String, String, String);

/// The reading that a numeric entry stands for, if its category and format
/// are both known.
pub open spec fn numeric_reading(key: String, t: NumericTuple) -> Option<Reading> {
    match (category_from_text(t.2@), format_from_text(t.3@)) {
        (Some(c), Some(f)) => Some(
            Reading {
                key: key,
                label: t.0,
                category: c,
                kind: ReadingKind::Numeric { value_bits: t.1, format: f },
            },
        ),
        _ => None,
    }
}

/// The reading that a text entry stands for, if its category is known
/// (its format is not read).
pub open spec fn text_reading(key: String, t: TextTuple) -> Option<Reading> {
    match category_from_text(t.2@) {
        Some(c) => Some(
            Reading { key: key, label: t.0, category: c, kind: ReadingKind::Text(t.1) },
        ),
        None => None,
    }
}

/// `m` with the numeric entries stored in order, skipping unknown ones.
pub open spec fn with_numeric(
    m: Map<Seq<char>, Reading>,
    es: Seq<(String, NumericTuple)>,
) -> Map<Seq<char>, Reading>
    decreases es.len(),
{
    if es.len() == 0 {
        m
    } else {
        let prev = with_numeric(m, es.drop_last());
        match numeric_reading(es.last().0, es.last().1) {
            Some(r) => prev.insert(es.last().0@, r),
            None => prev,
        }
    }
}

/// `m` with the text entries stored in order, skipping unknown ones.
pub open spec fn with_text(m: Map<Seq<char>, Reading>, es: Seq<(String, TextTuple)>) -> Map<
    Seq<char>,
    Reading,
>
    decreases es.len(),
{
    if es.len() == 0 {
        m
    } else {
        let prev = with_text(m, es.drop_last());
        match text_reading(es.last().0, es.last().1) {
            Some(r) => prev.insert(es.last().0@, r),
            None => prev,
        }
    }
}

/// The snapshot of one poll: numeric readings first, then text readings,
/// each stored under its key (a later one replaces an earlier one).
pub open spec fn snapshot_of(
    numeric: Seq<(String, NumericTuple)>,
    text: Seq<(String, TextTuple)>,
) -> Map<Seq<char>, Reading> {
    with_text(with_numeric(Map::empty(), numeric), text)
}

/// Builds the snapshot of one poll from the daemon's numeric and text
/// readings, each given with its key.
pub fn build_snapshot(numeric: &Vec<(String, NumericTuple)>, text: &Vec<(String, TextTuple)>) -> (r:
    Snapshot)
    ensures
        r@ == snapshot_of(numeric@, text@),
{
    let mut snap = Snapshot::new();
    let n = numeric.len();
    let mut i: usize = 0;
    while i < n
        invariant
            n == numeric@.len(),
            i <= n,
            snap@ == with_numeric(Map::empty(), numeric@.take(i as int)),
        decreases n - i,
    {
        let (key, t) = (&numeric[i].0, &numeric[i].1);
        let c = Category::parse(t.2.as_str());
        let f = parse_format(t.3.as_str());
        assert(numeric@.take(i + 1).drop_last() =~= numeric@.take(i as int));
        match (c, f) {
            (Some(c), Some(f)) => {
                snap.insert(
                    Reading {
                        key: key.clone(),
                        label: t.0.clone(),
                        category: c,
                        kind: ReadingKind::Numeric { value_bits: t.1, format: f },
                    },
                );
            },
            _ => {},
        }
        i = i + 1;
    }
    assert(numeric@.take(n as int) =~= numeric@);
    let m = text.len();
    let mut j: usize = 0;
    while j < m
        invariant
            m == text@.len(),
            j <= m,
            snap@ == with_text(with_numeric(Map::empty(), numeric@), text@.take(j as int)),
        decreases m - j,
    {
        let (key, t) = (&text[j].0, &text[j].1);
        let c = Category::parse(t.2.as_str());
        assert(text@.take(j + 1).drop_last() =~= text@.take(j as int));
        match c {
            Some(c) => {
                snap.insert(
                    Reading {
                        key: key.clone(),
                        label: t.0.clone(),
                        category: c,
                        kind: ReadingKind::Text(t.1.clone()),
                    },
                );
            },
            None => {},
        }
        j = j + 1;
    }
    assert(text@.take(m as int) =~= text@);
    snap
}

// ---------------------------------------------------------------------------
// The poll loop
// ---------------------------------------------------------------------------

/// What woke the poll loop up.
#[derive(Debug, Clone)]
pub enum PollEvent {
    /// The connection to the daemon was just made.
    Connected,
    /// The poll interval elapsed.
    Tick,
    /// The daemon announced new readings.
    ReadingsChanged,
    /// The UI sent a command.
    Command(DbusCmd),
}

/// What the poll loop does next.
#[derive(Debug, Clone)]
pub enum PollAction {
    /// Fetch the readings and send a snapshot to the UI.
    SendSnapshot,
    /// Fetch the history of a key and send it to the UI, tagged with the
    /// hover generation.
    FetchHistory(String, u64),
    /// Send the config to the daemon and report whether it accepted it.
    SaveConfig(String),
    /// Restart the interval timer with the given period, in seconds.
    RestartTicker(u64),
    /// Leave the loop: shutdown was requested.
    Stop,
}

/// The action for an event, and the poll interval after it.
pub open spec fn poll_step_spec(interval: u64, event: PollEvent) -> (u64, PollAction) {
    match event {
        PollEvent::Connected => (interval, PollAction::SendSnapshot),
        PollEvent::Tick => (interval, PollAction::SendSnapshot),
        PollEvent::ReadingsChanged => (interval, PollAction::SendSnapshot),
        PollEvent::Command(cmd) => match cmd {
            DbusCmd::RefreshNow => (interval, PollAction::SendSnapshot),
            DbusCmd::FetchHistory(key, g) => (interval, PollAction::FetchHistory(key, g)),
            DbusCmd::SaveConfig(toml) => (interval, PollAction::SaveConfig(toml)),
            DbusCmd::SetInterval(secs) => (secs, PollAction::RestartTicker(secs)),
            DbusCmd::Shutdown => (interval, PollAction::Stop),
        },
    }
}

/// One step of the poll loop: updates the interval and says what to do.
pub fn poll_step(interval: &mut u64, event: PollEvent) -> (a: PollAction)
    ensures
        (*final(interval), a) == poll_step_spec(*old(interval), event),
{
    match event {
        PollEvent::Connected => PollAction::SendSnapshot,
        PollEvent::Tick => PollAction::SendSnapshot,
        PollEvent::ReadingsChanged => PollAction::SendSnapshot,
        PollEvent::Command(cmd) => match cmd {
            DbusCmd::RefreshNow => PollAction::SendSnapshot,
            DbusCmd::FetchHistory(key, g) => PollAction::FetchHistory(key, g),
            DbusCmd::SaveConfig(toml) => PollAction::SaveConfig(toml),
            DbusCmd::SetInterval(secs) => {
                *interval = secs;
                PollAction::RestartTicker(secs)
            },
            DbusCmd::Shutdown => PollAction::Stop,
        },
    }
}

/// What the UI is sent after a history fetch: the points, tagged with the
/// key and generation of the request; `None` when the fetch failed, which
/// ends the poll loop with an error.
pub fn history_reply(key: String, generation: u64, fetched: Option<Vec<(u64, u64)>>) -> (r: Option<
    DbusEvent,
>)
    ensures
        r == (match fetched {
            Some(points) => Some(DbusEvent::History { key, generation, points }),
            None => None,
        }),
{
    match fetched {
        Some(points) => Some(DbusEvent::History { key, generation, points }),
        None => None,
    }
}

/// What the UI is sent after saving the config: whether the daemon
/// accepted it, a failed call counting as refused.
pub fn save_reply(accepted: Option<bool>) -> (r: DbusEvent)
    ensures
        r == DbusEvent::SaveResult(accepted == Some(true)),
{
    match accepted {
        Some(ok) => DbusEvent::SaveResult(ok),
        None => DbusEvent::SaveResult(false),
    }
}

// ---------------------------------------------------------------------------
// The connection loop
// ---------------------------------------------------------------------------

/// Where the background task stands.
#[derive(Debug, Clone, Copy, PartialEq, Eq, Structural)]
pub enum LinkPhase {
    /// Opening the session bus and the proxy.
    Connecting,
    /// Polling the daemon.
    Polling,
    /// Waiting before the next attempt to connect.
    Waiting,
    /// The task has ended.
    Finished,
}

/// What happened in the current phase.
#[derive(Debug, Clone)]
pub enum LinkEvent {
    /// The session bus could not be opened (the error's text).
    SessionFailed(String),
    /// The proxy to the daemon could not be made (the error's text).
    ProxyFailed(String),
    /// The proxy is ready.
    ProxyReady,
    /// The poll loop ended with an error (its text).
    PollFailed(String),
    /// The poll loop ended because shutdown was requested.
    PollStopped,
    /// The retry delay elapsed.
    RetryElapsed,
    /// A command arrived while waiting to retry.
    CommandWhileWaiting(DbusCmd),
}

/// The next phase, and the connectivity state to announce to the UI, if any.
pub open spec fn link_step_spec(phase: LinkPhase, event: LinkEvent) -> (LinkPhase, Option<
    DaemonStateView,
>) {
    match (phase, event) {
        (LinkPhase::Connecting, LinkEvent::SessionFailed(e)) => (
            LinkPhase::Waiting,
            Some(DaemonStateView::Unreachable("session bus: "@ + e@)),
        ),
        (LinkPhase::Connecting, LinkEvent::ProxyFailed(e)) => (
            LinkPhase::Waiting,
            Some(DaemonStateView::Unreachable("proxy: "@ + e@)),
        ),
        (LinkPhase::Connecting, LinkEvent::ProxyReady) => (
            LinkPhase::Polling,
            Some(DaemonStateView::Connected),
        ),
        (LinkPhase::Polling, LinkEvent::PollFailed(e)) => (
            LinkPhase::Waiting,
            Some(DaemonStateView::Unreachable(e@)),
        ),
        (LinkPhase::Polling, LinkEvent::PollStopped) => (LinkPhase::Finished, None),
        (LinkPhase::Waiting, LinkEvent::RetryElapsed) => (LinkPhase::Connecting, None),
        (LinkPhase::Waiting, LinkEvent::CommandWhileWaiting(cmd)) => if cmd is Shutdown {
            (LinkPhase::Finished, None)
        } else {
            (LinkPhase::Connecting, None)
        },
        (p, _) => (p, None),
    }
}

pub open spec fn state_opt_view(s: Option<DaemonState>) -> Option<DaemonStateView> {
    match s {
        Some(d) => Some(d@),
        None => None,
    }
}

/// One step of the connection loop: the next phase, and the state to
/// announce to the UI.
pub fn link_step(phase: LinkPhase, event: LinkEvent) -> (r: (LinkPhase, Option<DaemonState>))
    ensures
        (r.0, state_opt_view(r.1)) == link_step_spec(phase, event),
{
    match (phase, event) {
        (LinkPhase::Connecting, LinkEvent::SessionFailed(e)) => {
            let mut why = String::from_str("session bus: ");
            why.append(e.as_str());
            (LinkPhase::Waiting, Some(DaemonState::Unreachable(why)))
        },
        (LinkPhase::Connecting, LinkEvent::ProxyFailed(e)) => {
            let mut why = String::from_str("proxy: ");
            why.append(e.as_str());
            (LinkPhase::Waiting, Some(DaemonState::Unreachable(why)))
        },
        (LinkPhase::Connecting, LinkEvent::ProxyReady) => (
            LinkPhase::Polling,
            Some(DaemonState::Connected),
        ),
        (LinkPhase::Polling, LinkEvent::PollFailed(e)) => (
            LinkPhase::Waiting,
            Some(DaemonState::Unreachable(e)),
        ),
        (LinkPhase::Polling, LinkEvent::PollStopped) => (LinkPhase::Finished, None),
        (LinkPhase::Waiting, LinkEvent::RetryElapsed) => (LinkPhase::Connecting, None),
        (LinkPhase::Waiting, LinkEvent::CommandWhileWaiting(cmd)) => match cmd {
            DbusCmd::Shutdown => (LinkPhase::Finished, None),
            _ => (LinkPhase::Connecting, None),
        },
        (p, _) => (p, None),
    }
}

} // verus!
