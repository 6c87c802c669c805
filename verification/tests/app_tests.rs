use vitals_cosmic::app::{Effect, Message, Settings, Vitals};
use vitals_cosmic::dbus::{DbusCmd, DbusEvent};
use vitals_cosmic::model::{Category, DaemonState, Reading, ReadingKind, SensorFormat, Snapshot};

fn settings() -> Settings {
    Settings {
        update_time: 5,
        monitor_cmd: "btop".into(),
        use_higher_precision: false,
        alphabetize: true,
        hide_zeros: false,
        temperature_unit: 0,
        memory_measurement: 0,
        storage_measurement: 0,
        include_public_ip: false,
        hot_sensors: vec!["_a".into()],
    }
}

fn ready() -> Vitals {
    let mut v = Vitals::init(settings());
    let e = v.update(Message::DbusChannel);
    assert!(matches!(e.as_slice(), [Effect::Send(DbusCmd::SetInterval(5))]));
    v
}

#[test]
fn init_state() {
    let v = Vitals::init(settings());
    assert_eq!(v.popup_id(), None);
    assert!(!v.prefs_open());
    assert_eq!(v.snapshot().len(), 0);
    assert!(v.hover_key().is_none());
    assert!(matches!(v.daemon_state(), DaemonState::Connecting));
    assert!(!v.channel_ready());
    assert_eq!(v.hover_generation(), 0);
    assert_eq!(v.config().hot_sensors, vec!["_a".to_string()]);
}

#[test]
fn nothing_is_sent_before_the_channel() {
    let mut v = Vitals::init(settings());
    assert!(v.update(Message::RefreshNow).is_empty());
    assert!(v.update(Message::ToggleStar("_b".into())).is_empty());
    assert!(v.update(Message::HoverEnter("_a".into())).is_empty());
    assert!(v.update(Message::SetUpdateInterval(90)).is_empty());
    assert_eq!(v.config().update_time, 60);
    assert_eq!(v.config().hot_sensors, vec!["_a".to_string(), "_b".to_string()]);
}

#[test]
fn channel_with_zero_interval_asks_for_one_second() {
    let mut s = settings();
    s.update_time = 0;
    let mut v = Vitals::init(s);
    let e = v.update(Message::DbusChannel);
    assert!(matches!(e.as_slice(), [Effect::Send(DbusCmd::SetInterval(1))]));
    assert!(v.channel_ready());
}

#[test]
fn popup_open_and_close() {
    let mut v = ready();
    v.update(Message::PopupOpened(7));
    v.update(Message::OpenPrefs);
    v.update(Message::HoverEnter("_a".into()));
    assert_eq!(v.popup_id(), Some(7));
    v.update(Message::PopupClosed(8));
    assert_eq!(v.popup_id(), Some(7));
    assert!(v.prefs_open());
    v.update(Message::PopupClosed(7));
    assert_eq!(v.popup_id(), None);
    assert!(!v.prefs_open());
    assert!(v.hover_key().is_none());
}

#[test]
fn hover_fetches_history() {
    let mut v = ready();
    let e = v.update(Message::HoverEnter("_cpu".into()));
    match e.as_slice() {
        [Effect::Send(DbusCmd::FetchHistory(k, g))] => {
            assert_eq!(k, "_cpu");
            assert_eq!(*g, 1);
        }
        _ => panic!("expected a fetch"),
    }
    assert_eq!(v.hover_key(), Some("_cpu"));
    assert_eq!(v.hover_generation(), 1);
    v.update(Message::HoverLeave);
    assert!(v.hover_key().is_none());
}

#[test]
fn history_reads_back() {
    let mut v = ready();
    v.update(Message::HoverEnter("_cpu".into()));
    let g = v.hover_generation();
    let pts = vec![(1.0f64.to_bits(), 2.0f64.to_bits())];
    v.update(Message::Dbus(DbusEvent::History { key: "_cpu".into(), generation: g, points: pts.clone() }));
    assert_eq!(v.history("_cpu"), Some(&pts));
    assert_eq!(v.history("_gpu"), None);
    let newer = vec![(3.0f64.to_bits(), 4.0f64.to_bits())];
    v.update(Message::Dbus(DbusEvent::History { key: "_cpu".into(), generation: g, points: newer.clone() }));
    assert_eq!(v.history("_cpu"), Some(&newer));
}

#[test]
fn stale_history_is_discarded() {
    let mut v = ready();
    let e1 = v.update(Message::HoverEnter("_k1".into()));
    let g1 = match e1.as_slice() {
        [Effect::Send(DbusCmd::FetchHistory(_, g))] => *g,
        _ => panic!("expected a fetch"),
    };
    let h1 = vec![(1u64, 1u64)];
    v.update(Message::Dbus(DbusEvent::History { key: "_k1".into(), generation: g1, points: h1.clone() }));
    v.update(Message::HoverEnter("_k2".into()));
    let late = vec![(9u64, 9u64)];
    v.update(Message::Dbus(DbusEvent::History { key: "_k1".into(), generation: g1, points: late }));
    assert_eq!(v.history("_k1"), Some(&h1));
    assert_eq!(v.hover_key(), Some("_k2"));
}

#[test]
fn toggle_star_twice_restores() {
    let mut v = ready();
    let e = v.update(Message::ToggleStar("_b".into()));
    assert!(matches!(e.as_slice(), [Effect::SaveConfig]));
    assert_eq!(v.config().hot_sensors, vec!["_a".to_string(), "_b".to_string()]);
    v.update(Message::ToggleStar("_b".into()));
    assert_eq!(v.config().hot_sensors, vec!["_a".to_string()]);
    v.update(Message::ToggleStar("_a".into()));
    assert!(v.config().hot_sensors.is_empty());
}

#[test]
fn update_interval_is_clamped() {
    let mut v = ready();
    let e = v.update(Message::SetUpdateInterval(0));
    assert!(matches!(e.as_slice(), [Effect::Send(DbusCmd::SetInterval(1)), Effect::SaveConfig]));
    assert_eq!(v.config().update_time, 1);
    let e = v.update(Message::SetUpdateInterval(600));
    assert!(matches!(e.as_slice(), [Effect::Send(DbusCmd::SetInterval(60)), Effect::SaveConfig]));
    v.update(Message::SetUpdateInterval(10));
    assert_eq!(v.config().update_time, 10);
}

#[test]
fn settings_changes_are_saved() {
    let mut v = ready();
    for m in [
        Message::SetTemperatureUnit(1),
        Message::SetMemoryMeasurement(1),
        Message::SetStorageMeasurement(1),
        Message::SetHigherPrecision(true),
        Message::SetAlphabetize(false),
        Message::SetHideZeros(true),
        Message::SetIncludePublicIp(true),
        Message::SetMonitorCmd("htop".into()),
    ] {
        let e = v.update(m);
        assert!(matches!(e.as_slice(), [Effect::SaveConfig]));
    }
    let c = v.config();
    assert_eq!(c.temperature_unit, 1);
    assert_eq!(c.memory_measurement, 1);
    assert_eq!(c.storage_measurement, 1);
    assert!(c.use_higher_precision);
    assert!(!c.alphabetize);
    assert!(c.hide_zeros);
    assert!(c.include_public_ip);
    assert_eq!(c.monitor_cmd, "htop");
}

#[test]
fn monitor_launch_needs_a_command() {
    let mut v = ready();
    match v.update(Message::OpenMonitor).as_slice() {
        [Effect::LaunchMonitor(c)] => assert_eq!(c, "btop"),
        _ => panic!("expected a launch"),
    }
    v.update(Message::SetMonitorCmd(String::new()));
    assert!(v.update(Message::OpenMonitor).is_empty());
}

#[test]
fn daemon_events_update_state() {
    let mut v = ready();
    v.update(Message::Dbus(DbusEvent::State(DaemonState::Unreachable("gone".into()))));
    assert!(matches!(v.daemon_state(), DaemonState::Unreachable(w) if w == "gone"));
    let mut s = Snapshot::new();
    s.insert(Reading {
        key: "_k".into(),
        label: "K".into(),
        category: Category::Fan,
        kind: ReadingKind::Numeric { value_bits: 0, format: SensorFormat::Fan },
    });
    v.update(Message::Dbus(DbusEvent::Snapshot(Box::new(s))));
    assert_eq!(v.snapshot().len(), 1);
    assert!(v.update(Message::Dbus(DbusEvent::SaveResult(false))).is_empty());
    assert!(matches!(v.update(Message::RetryDaemon).as_slice(), [Effect::Send(DbusCmd::RefreshNow)]));
    assert!(matches!(v.update(Message::RefreshNow).as_slice(), [Effect::Send(DbusCmd::RefreshNow)]));
    assert!(v.update(Message::Noop).is_empty());
    v.update(Message::OpenPrefs);
    assert!(v.prefs_open());
    v.update(Message::ClosePrefs);
    assert!(!v.prefs_open());
}
