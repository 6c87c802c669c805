use vitals_cosmic::icons::{for_category, IconAsset};
use vitals_cosmic::model::{Category, DaemonState, Reading, ReadingKind, SensorFormat, Snapshot};
use vitals_cosmic::view::{
    is_pinned, panel_chips, popup_sections, popup_surface_action, section_order, status_text,
    SurfaceRequest,
};

fn reading(key: &str, cat: Category, text: bool) -> Reading {
    Reading {
        key: key.into(),
        label: key.to_uppercase(),
        category: cat,
        kind: if text {
            ReadingKind::Text("t".into())
        } else {
            ReadingKind::Numeric { value_bits: 0, format: SensorFormat::Percent }
        },
    }
}

#[test]
fn chips_take_pinned_numeric_readings() {
    let mut s = Snapshot::new();
    for k in ["a", "b", "c", "d", "e", "f"] {
        s.insert(reading(k, Category::System, false));
    }
    s.insert(reading("t", Category::System, true));
    let hot: Vec<String> = ["t", "missing", "c", "a", "b", "e", "f", "d"]
        .iter()
        .map(|s| s.to_string())
        .collect();
    let chips = panel_chips(&hot, &s);
    let keys: Vec<&str> = chips.iter().map(|r| r.key.as_str()).collect();
    assert_eq!(keys, vec!["c", "a", "b", "e"]);
    assert!(panel_chips(&vec![], &s).is_empty());
}

#[test]
fn pinned_lookup() {
    let hot = vec!["x".to_string(), "y".to_string()];
    assert!(is_pinned(&hot, "y"));
    assert!(!is_pinned(&hot, "z"));
}

#[test]
fn sections_follow_display_order_then_gpus() {
    let mut s = Snapshot::new();
    s.insert(reading("g2", Category::Gpu(2), false));
    s.insert(reading("t", Category::Temperature, false));
    s.insert(reading("p", Category::Processor, false));
    s.insert(reading("g0", Category::Gpu(0), false));
    let g = s.grouped();
    let order = section_order(&g);
    assert_eq!(order.len(), 11);
    assert_eq!(order[9], Category::Gpu(0));
    assert_eq!(order[10], Category::Gpu(2));
    let secs = popup_sections(&order, &g);
    let cats: Vec<Category> = secs.iter().map(|p| p.0).collect();
    assert_eq!(
        cats,
        vec![Category::Processor, Category::Temperature, Category::Gpu(0), Category::Gpu(2)]
    );
    assert_eq!(secs[0].1[0].key, "p");
}

#[test]
fn status_lines() {
    assert_eq!(
        status_text(&DaemonState::Unreachable("no bus".into())),
        Some("Daemon unreachable: no bus".to_string())
    );
    assert_eq!(
        status_text(&DaemonState::Connecting),
        Some("Connecting to vitals-daemon\u{2026}".to_string())
    );
    assert_eq!(status_text(&DaemonState::Connected), None);
}

#[test]
fn surface_requests() {
    assert_eq!(popup_surface_action(false, Some(3)), SurfaceRequest::Destroy(3));
    assert_eq!(popup_surface_action(false, None), SurfaceRequest::Create);
    assert_eq!(popup_surface_action(true, Some(3)), SurfaceRequest::Create);
    assert_eq!(popup_surface_action(true, None), SurfaceRequest::Create);
}

#[test]
fn icons_for_keys() {
    assert_eq!(for_category("processor"), IconAsset::Cpu);
    assert_eq!(for_category("network-up"), IconAsset::NetworkUp);
    assert_eq!(for_category("network-down"), IconAsset::NetworkDown);
    assert_eq!(for_category("gpu"), IconAsset::Gpu);
    assert_eq!(for_category("nonsense"), IconAsset::System);
    for c in Category::display_order() {
        assert_ne!(for_category(c.icon_name()), IconAsset::NetworkUp);
    }
}
