use vitals_cosmic::dbus::{
    build_snapshot, history_reply, save_reply, DbusEvent, link_step, poll_step, DbusCmd, LinkEvent, LinkPhase, NumericTuple,
    PollAction, PollEvent, TextTuple,
};
use vitals_cosmic::model::{Category, DaemonState, ReadingKind, SensorFormat};

fn num(key: &str, label: &str, v: f64, cat: &str, fmt: &str) -> (String, NumericTuple) {
    (key.into(), (label.into(), v.to_bits(), cat.into(), fmt.into()))
}

fn txt(key: &str, label: &str, t: &str, cat: &str) -> (String, TextTuple) {
    (key.into(), (label.into(), t.into(), cat.into(), "string".into()))
}

#[test]
fn snapshot_keeps_known_numeric_readings() {
    let numeric = vec![
        num("_temp_cpu", "CPU", 45.0, "temperature", "temp"),
        num("_fan_1", "Fan 1", 1200.0, "fan", "fan"),
        num("_bad_cat", "X", 1.0, "weather", "temp"),
        num("_bad_fmt", "Y", 1.0, "fan", "furlongs"),
        num("_gpu", "GPU load", 3.0, "gpu#1", "percent"),
    ];
    let snap = build_snapshot(&numeric, &vec![]);
    assert_eq!(snap.len(), 3);
    let r = snap.get("_temp_cpu").unwrap();
    assert_eq!(r.label, "CPU");
    assert_eq!(r.category, Category::Temperature);
    match r.kind {
        ReadingKind::Numeric { value_bits, format } => {
            assert_eq!(f64::from_bits(value_bits), 45.0);
            assert_eq!(format, SensorFormat::Temp);
        }
        _ => panic!("expected a number"),
    }
    assert_eq!(snap.get("_gpu").unwrap().category, Category::Gpu(1));
    assert!(snap.get("_bad_cat").is_none());
    assert!(snap.get("_bad_fmt").is_none());
}

#[test]
fn text_readings_replace_numeric_ones() {
    let numeric = vec![num("_k", "Num", 1.0, "system", "load")];
    let text = vec![
        txt("_k", "Text", "hello", "system"),
        txt("_t", "Kernel", "6.1", "system"),
        txt("_u", "Unknown", "?", "nowhere"),
    ];
    let snap = build_snapshot(&numeric, &text);
    assert_eq!(snap.len(), 2);
    let r = snap.get("_k").unwrap();
    assert_eq!(r.label, "Text");
    match &r.kind {
        ReadingKind::Text(t) => assert_eq!(t, "hello"),
        _ => panic!("expected text"),
    }
    assert!(snap.get("_u").is_none());
}

#[test]
fn poll_step_handles_every_command() {
    let mut iv = 5u64;
    assert!(matches!(poll_step(&mut iv, PollEvent::Connected), PollAction::SendSnapshot));
    assert!(matches!(poll_step(&mut iv, PollEvent::Tick), PollAction::SendSnapshot));
    assert!(matches!(poll_step(&mut iv, PollEvent::ReadingsChanged), PollAction::SendSnapshot));
    assert!(matches!(
        poll_step(&mut iv, PollEvent::Command(DbusCmd::RefreshNow)),
        PollAction::SendSnapshot
    ));
    match poll_step(&mut iv, PollEvent::Command(DbusCmd::FetchHistory("k".into(), 4))) {
        PollAction::FetchHistory(k, g) => {
            assert_eq!(k, "k");
            assert_eq!(g, 4);
        }
        _ => panic!("expected history"),
    }
    match poll_step(&mut iv, PollEvent::Command(DbusCmd::SaveConfig("a = 1".into()))) {
        PollAction::SaveConfig(t) => assert_eq!(t, "a = 1"),
        _ => panic!("expected save"),
    }
    assert_eq!(iv, 5);
    assert!(matches!(
        poll_step(&mut iv, PollEvent::Command(DbusCmd::SetInterval(2))),
        PollAction::RestartTicker(2)
    ));
    assert_eq!(iv, 2);
    assert!(matches!(poll_step(&mut iv, PollEvent::Command(DbusCmd::Shutdown)), PollAction::Stop));
}

#[test]
fn link_step_moves_through_phases() {
    match link_step(LinkPhase::Connecting, LinkEvent::SessionFailed("no bus".into())) {
        (LinkPhase::Waiting, Some(DaemonState::Unreachable(w))) => assert_eq!(w, "session bus: no bus"),
        _ => panic!("unexpected"),
    }
    match link_step(LinkPhase::Connecting, LinkEvent::ProxyFailed("denied".into())) {
        (LinkPhase::Waiting, Some(DaemonState::Unreachable(w))) => assert_eq!(w, "proxy: denied"),
        _ => panic!("unexpected"),
    }
    assert!(matches!(
        link_step(LinkPhase::Connecting, LinkEvent::ProxyReady),
        (LinkPhase::Polling, Some(DaemonState::Connected))
    ));
    match link_step(LinkPhase::Polling, LinkEvent::PollFailed("GetReadings".into())) {
        (LinkPhase::Waiting, Some(DaemonState::Unreachable(w))) => assert_eq!(w, "GetReadings"),
        _ => panic!("unexpected"),
    }
    assert!(matches!(link_step(LinkPhase::Polling, LinkEvent::PollStopped), (LinkPhase::Finished, None)));
    assert!(matches!(link_step(LinkPhase::Waiting, LinkEvent::RetryElapsed), (LinkPhase::Connecting, None)));
    assert!(matches!(
        link_step(LinkPhase::Waiting, LinkEvent::CommandWhileWaiting(DbusCmd::Shutdown)),
        (LinkPhase::Finished, None)
    ));
    assert!(matches!(
        link_step(LinkPhase::Waiting, LinkEvent::CommandWhileWaiting(DbusCmd::RefreshNow)),
        (LinkPhase::Connecting, None)
    ));
    assert!(matches!(link_step(LinkPhase::Finished, LinkEvent::ProxyReady), (LinkPhase::Finished, None)));
}

#[test]
fn command_copies_are_equal() {
    match DbusCmd::FetchHistory("x".into(), 2).duplicate() {
        DbusCmd::FetchHistory(k, g) => {
            assert_eq!(k, "x");
            assert_eq!(g, 2);
        }
        _ => panic!("wrong command"),
    }
    assert!(matches!(DbusCmd::SetInterval(9).duplicate(), DbusCmd::SetInterval(9)));
}

#[test]
fn call_outcomes_become_replies() {
    match history_reply("k".into(), 3, Some(vec![(1, 2)])) {
        Some(DbusEvent::History { key, generation, points }) => {
            assert_eq!(key, "k");
            assert_eq!(generation, 3);
            assert_eq!(points, vec![(1, 2)]);
        }
        _ => panic!("expected history"),
    }
    assert!(history_reply("k".into(), 3, None).is_none());
    assert!(matches!(save_reply(Some(true)), DbusEvent::SaveResult(true)));
    assert!(matches!(save_reply(Some(false)), DbusEvent::SaveResult(false)));
    assert!(matches!(save_reply(None), DbusEvent::SaveResult(false)));
}
