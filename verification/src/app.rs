//! The applet's state and how each UI message changes it: which popup is
//! open, what was last received from the daemon, what the user prefers, and
//! which commands go to the background task as a result.
use vstd::prelude::*;

use crate::dbus::{DbusCmd, DbusEvent};
use crate::keyed::TextMap;
use crate::model::{DaemonState, Reading, Snapshot};
use crate::text::same_text;

verus! {

/// The preferences that the applet reads and changes (part of the shared
/// vitals config file).
#[derive(Debug)]
pub struct Settings {
    pub update_time: u32,
    pub monitor_cmd: String,
    pub use_higher_precision: bool,
    pub alphabetize: bool,
    pub hide_zeros: bool,
    pub temperature_unit: u32,
    pub memory_measurement: u32,
    pub storage_measurement: u32,
    pub include_public_ip: bool,
    /// Keys of the sensors pinned to the panel, in pinning order.
    pub hot_sensors: Vec<String>,
}

/// The content of `Settings`.
pub struct SettingsView {
    pub update_time: u32,
    pub monitor_cmd: String,
    pub use_higher_precision: bool,
    pub alphabetize: bool,
    pub hide_zeros: bool,
    pub temperature_unit: u32,
    pub memory_measurement: u32,
    pub storage_measurement: u32,
    pub include_public_ip: bool,
    pub hot_sensors: Seq<String>,
}

impl View for Settings {
    type V = SettingsView;

    open spec fn view(&self) -> SettingsView {
        SettingsView {
            update_time: self.update_time,
            monitor_cmd: self.monitor_cmd,
            use_higher_precision: self.use_higher_precision,
            alphabetize: self.alphabetize,
            hide_zeros: self.hide_zeros,
            temperature_unit: self.temperature_unit,
            memory_measurement: self.memory_measurement,
            storage_measurement: self.storage_measurement,
            include_public_ip: self.include_public_ip,
            hot_sensors: self.hot_sensors@,
        }
    }
}

/// Messages the UI delivers to the applet. Popup windows are named by a
/// number that the caller assigns to each window it sees.
#[derive(Debug, Clone)]
pub enum Message {
    PopupOpened(u64),
    PopupClosed(u64),
    Dbus(DbusEvent),
    /// The channel to the background task is ready.
    DbusChannel,
    HoverEnter(String),
    HoverLeave,
    ToggleStar(String),
    RefreshNow,
    OpenMonitor,
    OpenPrefs,
    ClosePrefs,
    SetUpdateInterval(u32),
    SetTemperatureUnit(u32),
    SetMemoryMeasurement(u32),
    SetStorageMeasurement(u32),
    SetHigherPrecision(bool),
    SetAlphabetize(bool),
    SetHideZeros(bool),
    SetIncludePublicIp(bool),
    SetMonitorCmd(String),
    RetryDaemon,
    Noop,
}

/// What the caller has to do after a message.
#[derive(Debug, Clone)]
pub enum Effect {
    /// Send the command to the background task.
    Send(DbusCmd),
    /// Serialise the config and send it to the daemon to be saved.
    SaveConfig,
    /// Run the system monitor command through `sh -c`.
    LaunchMonitor(String),
}

/// The content of the applet's state.
pub struct VitalsView {
    pub popup: Option<u64>,
    pub prefs_open: bool,
    pub snapshot: Map<Seq<char>, Reading>,
    pub history: Map<Seq<char>, Vec<(u64, u64)>>,
    pub hover_generation: u64,
    pub hover_key: Option<String>,
    pub daemon_state: DaemonState,
    pub config: SettingsView,
    pub channel_ready: bool,
}

/// The applet's state.
pub struct Vitals {
    popup: Option<u64>,
    prefs_open: bool,
    snapshot: Snapshot,
    history: TextMap<Vec<(u64, u64)>>,
    /// Counts hover entries; a history reply is kept only when it answers the
    /// request of the current count, so late replies are discarded.
    hover_generation: u64,
    hover_key: Option<String>,
    daemon_state: DaemonState,
    config: Settings,
    channel_ready: bool,
}

impl View for Vitals {
    type V = VitalsView;

    open spec fn view(&self) -> VitalsView {
        VitalsView {
            popup: self.popup_spec(),
            prefs_open: self.prefs_open_spec(),
            snapshot: self.snapshot_spec(),
            history: self.history_spec(),
            hover_generation: self.hover_generation_spec(),
            hover_key: self.hover_key_spec(),
            daemon_state: self.daemon_state_spec(),
            config: self.config_spec(),
            channel_ready: self.channel_ready_spec(),
        }
    }
}

/// The state right after start-up.
pub open spec fn initial_view(config: SettingsView) -> VitalsView {
    VitalsView {
        popup: None,
        prefs_open: false,
        snapshot: Map::empty(),
        history: Map::empty(),
        hover_generation: 0,
        hover_key: None,
        daemon_state: DaemonState::Connecting,
        config: config,
        channel_ready: false,
    }
}

/// Whether `key` is among the texts of `s`.
pub open spec fn contains_text(s: Seq<String>, key: Seq<char>) -> bool {
    exists|i: int| 0 <= i < s.len() && #[trigger] s[i]@ == key
}

/// The first position of `key` in `s` (meaningful when it is there).
pub open spec fn first_position(s: Seq<String>, key: Seq<char>) -> int {
    choose|i: int|
        0 <= i < s.len() && #[trigger] s[i]@ == key && forall|j: int| 0 <= j < i ==> s[j]@ != key
}

/// Pinning toggles a key: its first occurrence is removed, or it is
/// appended when absent.
pub open spec fn toggle_star_spec(hot: Seq<String>, key: String) -> Seq<String> {
    if contains_text(hot, key@) {
        hot.remove(first_position(hot, key@))
    } else {
        hot.push(key)
    }
}

/// The update interval after the user picks `secs`: clamped to 1..=60.
pub open spec fn clamp_interval(secs: u32) -> u32 {
    if secs < 1 {
        1
    } else if secs > 60 {
        60
    } else {
        secs
    }
}

/// Adding one with wrap-around.
pub open spec fn next_generation(g: u64) -> u64 {
    if g == u64::MAX {
        0
    } else {
        (g + 1) as u64
    }
}

/// A command, sent only when the channel to the background task exists.
pub open spec fn send_if(ready: bool, cmd: DbusCmd) -> Seq<Effect> {
    if ready {
        seq![Effect::Send(cmd)]
    } else {
        Seq::empty()
    }
}

/// Saving the config, which needs the channel too.
pub open spec fn save_if(ready: bool) -> Seq<Effect> {
    if ready {
        seq![Effect::SaveConfig]
    } else {
        Seq::empty()
    }
}

/// A change of the config that is then saved.
pub open spec fn configured(s: VitalsView, c: SettingsView) -> (VitalsView, Seq<Effect>) {
    (VitalsView { config: c, ..s }, save_if(s.channel_ready))
}

/// The new state, and the effects, after a message.
pub open spec fn update_spec(s: VitalsView, msg: Message) -> (VitalsView, Seq<Effect>) {
    match msg {
        Message::PopupOpened(id) => (VitalsView { popup: Some(id), ..s }, Seq::empty()),
        Message::PopupClosed(id) => if s.popup == Some(id) {
            (VitalsView { popup: None, prefs_open: false, hover_key: None, ..s }, Seq::empty())
        } else {
            (s, Seq::empty())
        },
        Message::DbusChannel => {
            let secs = if s.config.update_time < 1 {
                1u64
            } else {
                s.config.update_time as u64
            };
            (
                VitalsView { channel_ready: true, ..s },
                seq![Effect::Send(DbusCmd::SetInterval(secs))],
            )
        },
        Message::Dbus(event) => match event {
            DbusEvent::State(d) => (VitalsView { daemon_state: d, ..s }, Seq::empty()),
            DbusEvent::Snapshot(snap) => (VitalsView { snapshot: snap@, ..s }, Seq::empty()),
            // A reply is kept only when it answers the current hover's request;
            // a reply to an earlier hover is stale and discarded.
            DbusEvent::History { key, generation, points } => if generation
                == s.hover_generation {
                (VitalsView { history: s.history.insert(key@, points), ..s }, Seq::empty())
            } else {
                (s, Seq::empty())
            },
            DbusEvent::SaveResult(_) => (s, Seq::empty()),
        },
        Message::HoverEnter(key) => (
            VitalsView {
                hover_generation: next_generation(s.hover_generation),
                hover_key: Some(key),
                ..s
            },
            send_if(
                s.channel_ready,
                DbusCmd::FetchHistory(key, next_generation(s.hover_generation)),
            ),
        ),
        Message::HoverLeave => (VitalsView { hover_key: None, ..s }, Seq::empty()),
        Message::ToggleStar(key) => configured(
            s,
            SettingsView { hot_sensors: toggle_star_spec(s.config.hot_sensors, key), ..s.config },
        ),
        Message::RefreshNow => (s, send_if(s.channel_ready, DbusCmd::RefreshNow)),
        Message::OpenMonitor => if s.config.monitor_cmd@.len() > 0 {
            (s, seq![Effect::LaunchMonitor(s.config.monitor_cmd)])
        } else {
            (s, Seq::empty())
        },
        Message::OpenPrefs => (VitalsView { prefs_open: true, ..s }, Seq::empty()),
        Message::ClosePrefs => (VitalsView { prefs_open: false, ..s }, Seq::empty()),
        Message::SetUpdateInterval(secs) => {
            let t = clamp_interval(secs);
            (
                VitalsView { config: SettingsView { update_time: t, ..s.config }, ..s },
                send_if(s.channel_ready, DbusCmd::SetInterval(t as u64)) + save_if(
                    s.channel_ready,
                ),
            )
        },
        Message::SetTemperatureUnit(u) => configured(
            s,
            SettingsView { temperature_unit: u, ..s.config },
        ),
        Message::SetMemoryMeasurement(m) => configured(
            s,
            SettingsView { memory_measurement: m, ..s.config },
        ),
        Message::SetStorageMeasurement(m) => configured(
            s,
            SettingsView { storage_measurement: m, ..s.config },
        ),
        Message::SetHigherPrecision(v) => configured(
            s,
            SettingsView { use_higher_precision: v, ..s.config },
        ),
        Message::SetAlphabetize(v) => configured(s, SettingsView { alphabetize: v, ..s.config }),
        Message::SetHideZeros(v) => configured(s, SettingsView { hide_zeros: v, ..s.config }),
        Message::SetIncludePublicIp(v) => configured(
            s,
            SettingsView { include_public_ip: v, ..s.config },
        ),
        Message::SetMonitorCmd(c) => configured(s, SettingsView { monitor_cmd: c, ..s.config }),
        Message::RetryDaemon => (s, send_if(s.channel_ready, DbusCmd::RefreshNow)),
        Message::Noop => (s, Seq::empty()),
    }
}

/// The first position of `key` among the texts of `hot`, if it is there.
fn position_of(hot: &Vec<String>, key: &str) -> (r: Option<usize>)
    ensures
        r is Some == contains_text(hot@, key@),
        r is Some ==> r.unwrap() < hot@.len() && r.unwrap() as int == first_position(hot@, key@),
{
    let n = hot.len();
    let mut i: usize = 0;
    while i < n
        invariant
            n == hot@.len(),
            i <= n,
            forall|j: int| 0 <= j < i ==> hot@[j]@ != key@,
        decreases n - i,
    {
        if same_text(hot[i].as_str(), key) {
            proof {
                let p = first_position(hot@, key@);
                assert(0 <= p < hot@.len() && hot@[p]@ == key@ && forall|j: int|
                    0 <= j < p ==> hot@[j]@ != key@) by {
                    assert(hot@[i as int]@ == key@);
                }
                if p < i {
                } else if p > i {
                    assert(hot@[i as int]@ != key@);
                }
            }
            return Some(i);
        }
        i = i + 1;
    }
    None
}

impl Vitals {
    pub closed spec fn popup_spec(&self) -> Option<u64> {
        self.popup
    }

    pub closed spec fn prefs_open_spec(&self) -> bool {
        self.prefs_open
    }

    pub closed spec fn snapshot_spec(&self) -> Map<Seq<char>, Reading> {
        self.snapshot@
    }

    pub closed spec fn history_spec(&self) -> Map<Seq<char>, Vec<(u64, u64)>> {
        self.history@
    }

    pub closed spec fn hover_generation_spec(&self) -> u64 {
        self.hover_generation
    }

    pub closed spec fn hover_key_spec(&self) -> Option<String> {
        self.hover_key
    }

    pub closed spec fn daemon_state_spec(&self) -> DaemonState {
        self.daemon_state
    }

    pub closed spec fn config_spec(&self) -> SettingsView {
        self.config@
    }

    pub closed spec fn channel_ready_spec(&self) -> bool {
        self.channel_ready
    }

    /// The state at start-up, with the config that was loaded.
    pub fn init(config: Settings) -> (r: Vitals)
        ensures
            r@ == initial_view(config@),
    {
        Vitals {
            popup: None,
            prefs_open: false,
            snapshot: Snapshot::new(),
            history: TextMap::new(),
            hover_generation: 0,
            hover_key: None,
            daemon_state: DaemonState::Connecting,
            config: config,
            channel_ready: false,
        }
    }

    fn save(&self, effects: &mut Vec<Effect>)
        ensures
            final(effects)@ == old(effects)@ + save_if(self@.channel_ready),
    {
        if self.channel_ready {
            effects.push(Effect::SaveConfig);
        }
    }

    fn send(&self, effects: &mut Vec<Effect>, cmd: DbusCmd)
        ensures
            final(effects)@ == old(effects)@ + send_if(self@.channel_ready, cmd),
    {
        if self.channel_ready {
            effects.push(Effect::Send(cmd));
        }
    }

    /// Applies a message; returns what the caller has to do, in order.
    pub fn update(&mut self, message: Message) -> (effects: Vec<Effect>)
        ensures
            (final(self)@, effects@) == update_spec(old(self)@, message),
    {
        let mut effects: Vec<Effect> = Vec::new();
        match message {
            Message::PopupOpened(id) => {
                self.popup = Some(id);
            },
            Message::PopupClosed(id) => {
                if self.popup == Some(id) {
                    self.popup = None;
                    self.prefs_open = false;
                    self.hover_key = None;
                }
            },
            Message::DbusChannel => {
                self.channel_ready = true;
                let t = self.config.update_time;
                let secs: u64 = if t < 1 {
                    1
                } else {
                    t as u64
                };
                effects.push(Effect::Send(DbusCmd::SetInterval(secs)));
            },
            Message::Dbus(event) => match event {
                DbusEvent::State(state) => {
                    self.daemon_state = state;
                },
                DbusEvent::Snapshot(snap) => {
                    self.snapshot = *snap;
                },
                DbusEvent::History { key, generation, points } => {
                    if generation == self.hover_generation {
                        self.history.insert(key, points);
                    }
                },
                DbusEvent::SaveResult(_) => {},
            },
            Message::HoverEnter(key) => {
                self.hover_generation = if self.hover_generation == u64::MAX {
                    0
                } else {
                    self.hover_generation + 1
                };
                self.hover_key = Some(key.clone());
                self.send(&mut effects, DbusCmd::FetchHistory(key, self.hover_generation));
            },
            Message::HoverLeave => {
                self.hover_key = None;
            },
            Message::ToggleStar(key) => {
                match position_of(&self.config.hot_sensors, key.as_str()) {
                    Some(pos) => {
                        self.config.hot_sensors.remove(pos);
                    },
                    None => {
                        self.config.hot_sensors.push(key);
                    },
                }
                self.save(&mut effects);
            },
            Message::RefreshNow => {
                self.send(&mut effects, DbusCmd::RefreshNow);
            },
            Message::OpenMonitor => {
                if self.config.monitor_cmd.unicode_len() > 0 {
                    effects.push(Effect::LaunchMonitor(self.config.monitor_cmd.clone()));
                }
            },
            Message::OpenPrefs => {
                self.prefs_open = true;
            },
            Message::ClosePrefs => {
                self.prefs_open = false;
            },
            Message::SetUpdateInterval(secs) => {
                let t = if secs < 1 {
                    1
                } else if secs > 60 {
                    60
                } else {
                    secs
                };
                self.config.update_time = t;
                self.send(&mut effects, DbusCmd::SetInterval(t as u64));
                self.save(&mut effects);
            },
            Message::SetTemperatureUnit(u) => {
                self.config.temperature_unit = u;
                self.save(&mut effects);
            },
            Message::SetMemoryMeasurement(m) => {
                self.config.memory_measurement = m;
                self.save(&mut effects);
            },
            Message::SetStorageMeasurement(m) => {
                self.config.storage_measurement = m;
                self.save(&mut effects);
            },
            Message::SetHigherPrecision(v) => {
                self.config.use_higher_precision = v;
                self.save(&mut effects);
            },
            Message::SetAlphabetize(v) => {
                self.config.alphabetize = v;
                self.save(&mut effects);
            },
            Message::SetHideZeros(v) => {
                self.config.hide_zeros = v;
                self.save(&mut effects);
            },
            Message::SetIncludePublicIp(v) => {
                self.config.include_public_ip = v;
                self.save(&mut effects);
            },
            Message::SetMonitorCmd(c) => {
                self.config.monitor_cmd = c;
                self.save(&mut effects);
            },
            Message::RetryDaemon => {
                self.send(&mut effects, DbusCmd::RefreshNow);
            },
            Message::Noop => {},
        }
        effects
    }

    pub fn snapshot(&self) -> (r: &Snapshot)
        ensures
            r@ == self@.snapshot,
    {
        &self.snapshot
    }

    pub fn config(&self) -> (r: &Settings)
        ensures
            r@ == self@.config,
    {
        &self.config
    }

    pub fn daemon_state(&self) -> (r: &DaemonState)
        ensures
            *r == self@.daemon_state,
    {
        &self.daemon_state
    }

    pub fn hover_key(&self) -> (r: Option<&str>)
        ensures
            r is Some == self@.hover_key is Some,
            r is Some ==> r.unwrap()@ == self@.hover_key.unwrap()@,
    {
        match &self.hover_key {
            Some(k) => Some(k.as_str()),
            None => None,
        }
    }

    /// The history points last received for `key`, if any.
    pub fn history(&self, key: &str) -> (r: Option<&Vec<(u64, u64)>>)
        ensures
            r is Some == self@.history.contains_key(key@),
            r is Some ==> *r.unwrap() == self@.history[key@],
    {
        self.history.get(key)
    }

    pub fn popup_id(&self) -> (r: Option<u64>)
        ensures
            r == self@.popup,
    {
        self.popup
    }

    pub fn prefs_open(&self) -> (r: bool)
        ensures
            r == self@.prefs_open,
    {
        self.prefs_open
    }

    pub fn hover_generation(&self) -> (r: u64)
        ensures
            r == self@.hover_generation,
    {
        self.hover_generation
    }

    pub fn channel_ready(&self) -> (r: bool)
        ensures
            r == self@.channel_ready,
    {
        self.channel_ready
    }
}

} // verus!
