use vitals_cosmic::model::{
    parse_format, Category, DaemonState, Reading, ReadingKind, SensorFormat, Snapshot,
};

fn numeric(key: &str, label: &str, category: Category) -> Reading {
    Reading {
        key: key.to_string(),
        label: label.to_string(),
        category,
        kind: ReadingKind::Numeric { value_bits: 1.5f64.to_bits(), format: SensorFormat::Temp },
    }
}

#[test]
fn parse_reads_category_names() {
    assert_eq!(Category::parse("temperature"), Some(Category::Temperature));
    assert_eq!(Category::parse("voltage"), Some(Category::Voltage));
    assert_eq!(Category::parse("fan"), Some(Category::Fan));
    assert_eq!(Category::parse("memory"), Some(Category::Memory));
    assert_eq!(Category::parse("processor"), Some(Category::Processor));
    assert_eq!(Category::parse("system"), Some(Category::System));
    assert_eq!(Category::parse("network"), Some(Category::Network));
    assert_eq!(Category::parse("storage"), Some(Category::Storage));
    assert_eq!(Category::parse("battery"), Some(Category::Battery));
}

#[test]
fn parse_reads_gpu_names() {
    assert_eq!(Category::parse("gpu#0"), Some(Category::Gpu(0)));
    assert_eq!(Category::parse("gpu#12"), Some(Category::Gpu(12)));
    assert_eq!(Category::parse("gpu#255"), Some(Category::Gpu(255)));
    assert_eq!(Category::parse("gpu#+3"), Some(Category::Gpu(3)));
    assert_eq!(Category::parse("gpu#007"), Some(Category::Gpu(7)));
}

#[test]
fn parse_refuses_unknown_names() {
    for s in ["", "gpu", "gpu#", "gpu#256", "gpu#-1", "gpu# 1", "GPU#1", "Temperature", "fans", "gpu0"] {
        assert_eq!(Category::parse(s), None, "input {s:?}");
    }
}

#[test]
fn titles_of_categories() {
    assert_eq!(Category::Temperature.title(), "Temperature");
    assert_eq!(Category::Fan.title(), "Fans");
    assert_eq!(Category::Battery.title(), "Battery");
    assert_eq!(Category::Gpu(0).title(), "GPU 0");
    assert_eq!(Category::Gpu(42).title(), "GPU 42");
    assert_eq!(Category::Gpu(255).title(), "GPU 255");
}

#[test]
fn icon_names_of_categories() {
    assert_eq!(Category::Processor.icon_name(), "processor");
    assert_eq!(Category::Fan.icon_name(), "fan");
    assert_eq!(Category::Gpu(3).icon_name(), "gpu");
}

#[test]
fn icon_names_parse_back() {
    for c in Category::display_order() {
        assert_eq!(Category::parse(c.icon_name()), Some(*c));
    }
}

#[test]
fn display_order_has_no_gpu() {
    let order = Category::display_order();
    assert_eq!(
        order.to_vec(),
        vec![
            Category::Processor,
            Category::Memory,
            Category::System,
            Category::Network,
            Category::Storage,
            Category::Temperature,
            Category::Fan,
            Category::Voltage,
            Category::Battery,
        ]
    );
}

#[test]
fn rank_follows_derived_order() {
    let cats = [
        Category::Temperature,
        Category::Voltage,
        Category::Fan,
        Category::Memory,
        Category::Processor,
        Category::System,
        Category::Network,
        Category::Storage,
        Category::Battery,
        Category::Gpu(0),
        Category::Gpu(1),
        Category::Gpu(200),
    ];
    for a in cats {
        for b in cats {
            assert_eq!(a.rank() < b.rank(), a < b, "{a:?} {b:?}");
        }
    }
}

#[test]
fn parse_format_reads_all_names() {
    let table = [
        ("percent", SensorFormat::Percent),
        ("temp", SensorFormat::Temp),
        ("fan", SensorFormat::Fan),
        ("in", SensorFormat::Voltage),
        ("hertz", SensorFormat::Hertz),
        ("memory", SensorFormat::Memory),
        ("storage", SensorFormat::Storage),
        ("speed", SensorFormat::Speed),
        ("uptime", SensorFormat::Uptime),
        ("runtime", SensorFormat::Runtime),
        ("watt", SensorFormat::Watt),
        ("watt-gpu", SensorFormat::WattGpu),
        ("watt-hour", SensorFormat::WattHour),
        ("milliamp", SensorFormat::Milliamp),
        ("milliamp-hour", SensorFormat::MilliampHour),
        ("load", SensorFormat::Load),
        ("pcie", SensorFormat::Pcie),
        ("string", SensorFormat::StringVal),
    ];
    for (s, f) in table {
        assert_eq!(parse_format(s), Some(f));
    }
    assert_eq!(parse_format("voltage"), None);
    assert_eq!(parse_format(""), None);
    assert_eq!(parse_format("Watt"), None);
}

#[test]
fn snapshot_insert_replaces_by_key() {
    let mut s = Snapshot::new();
    assert_eq!(s.len(), 0);
    s.insert(numeric("k1", "A", Category::Fan));
    s.insert(numeric("k2", "B", Category::Fan));
    s.insert(numeric("k1", "C", Category::Memory));
    assert_eq!(s.len(), 2);
    let r = s.get("k1").unwrap();
    assert_eq!(r.label, "C");
    assert_eq!(r.category, Category::Memory);
    assert!(s.get("k3").is_none());
    let copy = s.clone();
    assert_eq!(copy.get("k2").unwrap().label, "B");
    assert_eq!(Snapshot::default().len(), 0);
}

#[test]
fn grouped_sorts_categories_and_labels() {
    let mut s = Snapshot::new();
    s.insert(numeric("z", "Core 2", Category::Processor));
    s.insert(numeric("a", "Core 10", Category::Processor));
    s.insert(numeric("m", "Fan 1", Category::Fan));
    s.insert(numeric("g1", "Load", Category::Gpu(1)));
    s.insert(numeric("g0", "Load", Category::Gpu(0)));
    s.insert(numeric("b", "Core 2", Category::Processor));
    let g = s.grouped();
    let cats: Vec<Category> = g.iter().map(|p| p.0).collect();
    assert_eq!(
        cats,
        vec![Category::Fan, Category::Processor, Category::Gpu(0), Category::Gpu(1)]
    );
    let keys: Vec<&str> = g[1].1.iter().map(|r| r.key.as_str()).collect();
    // "Core 10" < "Core 2"; equal labels are ordered by key.
    assert_eq!(keys, vec!["a", "b", "z"]);
    assert_eq!(g[0].1.len(), 1);
    assert_eq!(g[2].1[0].key, "g0");
}

#[test]
fn grouped_of_empty_snapshot_is_empty() {
    assert!(Snapshot::new().grouped().is_empty());
}

#[test]
fn reading_kind_and_state_copies() {
    let r = numeric("k", "L", Category::Fan);
    assert!(r.is_numeric());
    let t = Reading {
        key: "t".into(),
        label: "T".into(),
        category: Category::System,
        kind: ReadingKind::Text("up".into()),
    };
    assert!(!t.is_numeric());
    let d = t.duplicate();
    assert_eq!(d.key, "t");
    match DaemonState::Unreachable("x".into()).duplicate() {
        DaemonState::Unreachable(w) => assert_eq!(w, "x"),
        _ => panic!("wrong state"),
    }
}

#[test]
fn titles_are_distinct() {
    let mut cats: Vec<Category> = Category::display_order().to_vec();
    for n in 0..=255u8 {
        cats.push(Category::Gpu(n));
    }
    let titles: Vec<String> = cats.iter().map(|c| c.title()).collect();
    for i in 0..titles.len() {
        for j in 0..titles.len() {
            assert_eq!(titles[i] == titles[j], i == j);
        }
    }
}
