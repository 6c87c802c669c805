//! Domain types: sensor categories and formats as the daemon names them,
//! single readings, and the snapshot of one poll.
use vstd::prelude::*;

use crate::keyed::{entries_map, index_of_key, keys_unique, lemma_index_of_key, TextMap};
use crate::text::{
    decimal, lemma_decimal, lemma_parse_decimal, lemma_text_order, parse_u8, parse_u8_spec,
    push_decimal, same_text, text_less, text_lt,
};

verus! {

/// Sensor categories, in the order of the GNOME extension's grouping.
#[derive(Debug, Clone, Copy, PartialEq, Eq, Structural, PartialOrd, Ord, Hash)]
pub enum Category {
    Temperature,
    Voltage,
    Fan,
    Memory,
    Processor,
    System,
    Network,
    Storage,
    Battery,
    Gpu(u8),
}

/// How a numeric reading is to be formatted (the daemon's `SensorFormat`).
#[derive(Debug, Clone, Copy, PartialEq, Eq, Structural, Hash)]
pub enum SensorFormat {
    Percent,
    Temp,
    Fan,
    Voltage,
    Hertz,
    Memory,
    Storage,
    Speed,
    Uptime,
    Runtime,
    Watt,
    WattGpu,
    WattHour,
    Milliamp,
    MilliampHour,
    Load,
    Pcie,
    StringVal,
}

/// The category a daemon string names: the lower-case names, or `gpu#` and a
/// number that `u8::from_str` accepts.
pub open spec fn category_from_text(s: Seq<char>) -> Option<Category> {
    if s == "temperature"@ {
        Some(Category::Temperature)
    } else if s == "voltage"@ {
        Some(Category::Voltage)
    } else if s == "fan"@ {
        Some(Category::Fan)
    } else if s == "memory"@ {
        Some(Category::Memory)
    } else if s == "processor"@ {
        Some(Category::Processor)
    } else if s == "system"@ {
        Some(Category::System)
    } else if s == "network"@ {
        Some(Category::Network)
    } else if s == "storage"@ {
        Some(Category::Storage)
    } else if s == "battery"@ {
        Some(Category::Battery)
    } else if s.len() >= 4 && s.take(4) == "gpu#"@ {
        match parse_u8_spec(s.skip(4)) {
            Some(n) => Some(Category::Gpu(n)),
            None => None,
        }
    } else {
        None
    }
}

/// Section header text of a category.
pub open spec fn category_title(c: Category) -> Seq<char> {
    match c {
        Category::Temperature => "Temperature"@,
        Category::Voltage => "Voltage"@,
        Category::Fan => "Fans"@,
        Category::Memory => "Memory"@,
        Category::Processor => "Processor"@,
        Category::System => "System"@,
        Category::Network => "Network"@,
        Category::Storage => "Storage"@,
        Category::Battery => "Battery"@,
        Category::Gpu(n) => "GPU "@ + decimal(n as nat),
    }
}

/// Icon key of a category.
pub open spec fn category_icon(c: Category) -> Seq<char> {
    match c {
        Category::Temperature => "temperature"@,
        Category::Voltage => "voltage"@,
        Category::Fan => "fan"@,
        Category::Memory => "memory"@,
        Category::Processor => "processor"@,
        Category::System => "system"@,
        Category::Network => "network"@,
        Category::Storage => "storage"@,
        Category::Battery => "battery"@,
        Category::Gpu(_) => "gpu"@,
    }
}

/// The name under which the daemon sends a category: the icon key, and
/// `gpu#N` for the GPU with index `N`.
pub open spec fn category_wire(c: Category) -> Seq<char> {
    match c {
        Category::Gpu(n) => "gpu#"@ + decimal(n as nat),
        _ => category_icon(c),
    }
}

/// Position of a category in the derived order: the variants in declaration
/// order, GPUs last by index.
pub open spec fn category_rank(c: Category) -> int {
    match c {
        Category::Temperature => 0,
        Category::Voltage => 1,
        Category::Fan => 2,
        Category::Memory => 3,
        Category::Processor => 4,
        Category::System => 5,
        Category::Network => 6,
        Category::Storage => 7,
        Category::Battery => 8,
        Category::Gpu(n) => 9 + n as int,
    }
}

/// The fixed section order of the popup (GPUs are added after it).
pub open spec fn display_order_spec() -> Seq<Category> {
    seq![
        Category::Processor,
        Category::Memory,
        Category::System,
        Category::Network,
        Category::Storage,
        Category::Temperature,
        Category::Fan,
        Category::Voltage,
        Category::Battery,
    ]
}

pub open spec fn is_gpu(c: Category) -> bool {
    c is Gpu
}

impl Category {
    /// Parse the category string that the daemon sends, such as
    /// "temperature" or "gpu#0".
    pub fn parse(s: &str) -> (r: Option<Category>)
        ensures
            r == category_from_text(s@),
    {
        if same_text(s, "temperature") {
            Some(Category::Temperature)
        } else if same_text(s, "voltage") {
            Some(Category::Voltage)
        } else if same_text(s, "fan") {
            Some(Category::Fan)
        } else if same_text(s, "memory") {
            Some(Category::Memory)
        } else if same_text(s, "processor") {
            Some(Category::Processor)
        } else if same_text(s, "system") {
            Some(Category::System)
        } else if same_text(s, "network") {
            Some(Category::Network)
        } else if same_text(s, "storage") {
            Some(Category::Storage)
        } else if same_text(s, "battery") {
            Some(Category::Battery)
        } else {
            let n = s.unicode_len();
            if n < 4 {
                return None;
            }
            let head = s.substring_char(0, 4);
            if !same_text(head, "gpu#") {
                assert(s@.take(4) =~= head@);
                return None;
            }
            assert(s@.take(4) =~= head@);
            let rest = s.substring_char(4, n);
            assert(s@.skip(4) =~= rest@);
            match parse_u8(rest) {
                Some(k) => Some(Category::Gpu(k)),
                None => None,
            }
        }
    }

    /// Display name for the popup section header.
    pub fn title(&self) -> (r: String)
        ensures
            r@ == category_title(*self),
    {
        match self {
            Category::Temperature => String::from_str("Temperature"),
            Category::Voltage => String::from_str("Voltage"),
            Category::Fan => String::from_str("Fans"),
            Category::Memory => String::from_str("Memory"),
            Category::Processor => String::from_str("Processor"),
            Category::System => String::from_str("System"),
            Category::Network => String::from_str("Network"),
            Category::Storage => String::from_str("Storage"),
            Category::Battery => String::from_str("Battery"),
            Category::Gpu(n) => {
                let mut t = String::from_str("GPU ");
                push_decimal(&mut t, *n);
                t
            },
        }
    }

    /// Icon key (matches the bundled SVG names).
    pub fn icon_name(&self) -> (r: &'static str)
        ensures
            r@ == category_icon(*self),
    {
        match self {
            Category::Temperature => "temperature",
            Category::Voltage => "voltage",
            Category::Fan => "fan",
            Category::Memory => "memory",
            Category::Processor => "processor",
            Category::System => "system",
            Category::Network => "network",
            Category::Storage => "storage",
            Category::Battery => "battery",
            Category::Gpu(_) => "gpu",
        }
    }

    /// Stable display order for the popup; GPUs are not in it.
    pub fn display_order() -> (r: &'static [Category])
        ensures
            r@ == display_order_spec(),
    {
        let r: &'static [Category] = &[
            Category::Processor,
            Category::Memory,
            Category::System,
            Category::Network,
            Category::Storage,
            Category::Temperature,
            Category::Fan,
            Category::Voltage,
            Category::Battery,
        ];
        assert(r@ =~= display_order_spec());
        r
    }

    /// The position of the category in the order of categories.
    pub fn rank(&self) -> (r: u16)
        ensures
            r as int == category_rank(*self),
    {
        match self {
            Category::Temperature => 0,
            Category::Voltage => 1,
            Category::Fan => 2,
            Category::Memory => 3,
            Category::Processor => 4,
            Category::System => 5,
            Category::Network => 6,
            Category::Storage => 7,
            Category::Battery => 8,
            Category::Gpu(n) => 9 + *n as u16,
        }
    }
}

/// Two categories have the same rank only when they are the same.
pub proof fn lemma_rank_injective(a: Category, b: Category)
    ensures
        category_rank(a) == category_rank(b) ==> a == b,
{
}

/// Every category name that the daemon sends is read back as that category.
pub proof fn lemma_parse_reads_wire_names(c: Category)
    ensures
        category_from_text(category_wire(c)) == Some(c),
{
    reveal_strlit("temperature");
    assert("temperature"@.len() == 11 && "temperature"@[0] == 't');
    reveal_strlit("voltage");
    assert("voltage"@.len() == 7 && "voltage"@[0] == 'v');
    reveal_strlit("fan");
    assert("fan"@.len() == 3 && "fan"@[0] == 'f');
    reveal_strlit("memory");
    assert("memory"@.len() == 6 && "memory"@[0] == 'm');
    reveal_strlit("processor");
    assert("processor"@.len() == 9 && "processor"@[0] == 'p');
    reveal_strlit("system");
    assert("system"@.len() == 6 && "system"@[0] == 's');
    reveal_strlit("network");
    assert("network"@.len() == 7 && "network"@[0] == 'n');
    reveal_strlit("storage");
    assert("storage"@.len() == 7 && "storage"@[0] == 's');
    reveal_strlit("battery");
    assert("battery"@.len() == 7 && "battery"@[0] == 'b');
    reveal_strlit("gpu");
    assert("gpu"@.len() == 3 && "gpu"@[0] == 'g');
    reveal_strlit("gpu#");
    match c {
        Category::Gpu(n) => {
            let s = "gpu#"@ + decimal(n as nat);
            lemma_parse_decimal(n);
            lemma_decimal(n as nat);
            assert(s.take(4) =~= "gpu#"@);
            assert(s.skip(4) =~= decimal(n as nat));
            assert(s[0] == 'g');
            assert(s.len() >= 5);
        },
        _ => {
        },
    }
}

/// Different categories have different section titles.
pub proof fn lemma_titles_distinct(a: Category, b: Category)
    ensures
        category_title(a) == category_title(b) ==> a == b,
{
    reveal_strlit("Temperature");
    assert("Temperature"@.len() == 11 && "Temperature"@[0] == 'T');
    reveal_strlit("Voltage");
    assert("Voltage"@.len() == 7 && "Voltage"@[0] == 'V');
    reveal_strlit("Fans");
    assert("Fans"@.len() == 4 && "Fans"@[0] == 'F');
    reveal_strlit("Memory");
    assert("Memory"@.len() == 6 && "Memory"@[0] == 'M');
    reveal_strlit("Processor");
    assert("Processor"@.len() == 9 && "Processor"@[0] == 'P');
    reveal_strlit("System");
    assert("System"@.len() == 6 && "System"@[0] == 'S');
    reveal_strlit("Network");
    assert("Network"@.len() == 7 && "Network"@[0] == 'N');
    reveal_strlit("Storage");
    assert("Storage"@.len() == 7 && "Storage"@[0] == 'S');
    reveal_strlit("Battery");
    assert("Battery"@.len() == 7 && "Battery"@[0] == 'B');
    reveal_strlit("GPU ");
    assert("GPU "@.len() == 4 && "GPU "@[0] == 'G');
    if let Category::Gpu(n) = a {
        lemma_decimal(n as nat);
        assert(category_title(a)[0] == 'G');
        assert(category_title(a).len() >= 5);
        if let Category::Gpu(m) = b {
            lemma_decimal(m as nat);
            if category_title(a) == category_title(b) {
                assert(category_title(a).skip(4) =~= decimal(n as nat));
                assert(category_title(b).skip(4) =~= decimal(m as nat));
            }
        }
    }
    if let Category::Gpu(m) = b {
        lemma_decimal(m as nat);
        assert(category_title(b)[0] == 'G');
        assert(category_title(b).len() >= 5);
    }
}

/// The string that the daemon's `SensorFormat::as_str` gives.
pub open spec fn format_wire(f: SensorFormat) -> Seq<char> {
    match f {
        SensorFormat::Percent => "percent"@,
        SensorFormat::Temp => "temp"@,
        SensorFormat::Fan => "fan"@,
        SensorFormat::Voltage => "in"@,
        SensorFormat::Hertz => "hertz"@,
        SensorFormat::Memory => "memory"@,
        SensorFormat::Storage => "storage"@,
        SensorFormat::Speed => "speed"@,
        SensorFormat::Uptime => "uptime"@,
        SensorFormat::Runtime => "runtime"@,
        SensorFormat::Watt => "watt"@,
        SensorFormat::WattGpu => "watt-gpu"@,
        SensorFormat::WattHour => "watt-hour"@,
        SensorFormat::Milliamp => "milliamp"@,
        SensorFormat::MilliampHour => "milliamp-hour"@,
        SensorFormat::Load => "load"@,
        SensorFormat::Pcie => "pcie"@,
        SensorFormat::StringVal => "string"@,
    }
}

/// The format a daemon string names, if any.
pub open spec fn format_from_text(s: Seq<char>) -> Option<SensorFormat> {
    if s == "percent"@ {
        Some(SensorFormat::Percent)
    } else if s == "temp"@ {
        Some(SensorFormat::Temp)
    } else if s == "fan"@ {
        Some(SensorFormat::Fan)
    } else if s == "in"@ {
        Some(SensorFormat::Voltage)
    } else if s == "hertz"@ {
        Some(SensorFormat::Hertz)
    } else if s == "memory"@ {
        Some(SensorFormat::Memory)
    } else if s == "storage"@ {
        Some(SensorFormat::Storage)
    } else if s == "speed"@ {
        Some(SensorFormat::Speed)
    } else if s == "uptime"@ {
        Some(SensorFormat::Uptime)
    } else if s == "runtime"@ {
        Some(SensorFormat::Runtime)
    } else if s == "watt"@ {
        Some(SensorFormat::Watt)
    } else if s == "watt-gpu"@ {
        Some(SensorFormat::WattGpu)
    } else if s == "watt-hour"@ {
        Some(SensorFormat::WattHour)
    } else if s == "milliamp"@ {
        Some(SensorFormat::Milliamp)
    } else if s == "milliamp-hour"@ {
        Some(SensorFormat::MilliampHour)
    } else if s == "load"@ {
        Some(SensorFormat::Load)
    } else if s == "pcie"@ {
        Some(SensorFormat::Pcie)
    } else if s == "string"@ {
        Some(SensorFormat::StringVal)
    } else {
        None
    }
}

/// Parse the format string that the daemon sends.
pub fn parse_format(s: &str) -> (r: Option<SensorFormat>)
    ensures
        r == format_from_text(s@),
{
    if same_text(s, "percent") {
        Some(SensorFormat::Percent)
    } else if same_text(s, "temp") {
        Some(SensorFormat::Temp)
    } else if same_text(s, "fan") {
        Some(SensorFormat::Fan)
    } else if same_text(s, "in") {
        Some(SensorFormat::Voltage)
    } else if same_text(s, "hertz") {
        Some(SensorFormat::Hertz)
    } else if same_text(s, "memory") {
        Some(SensorFormat::Memory)
    } else if same_text(s, "storage") {
        Some(SensorFormat::Storage)
    } else if same_text(s, "speed") {
        Some(SensorFormat::Speed)
    } else if same_text(s, "uptime") {
        Some(SensorFormat::Uptime)
    } else if same_text(s, "runtime") {
        Some(SensorFormat::Runtime)
    } else if same_text(s, "watt") {
        Some(SensorFormat::Watt)
    } else if same_text(s, "watt-gpu") {
        Some(SensorFormat::WattGpu)
    } else if same_text(s, "watt-hour") {
        Some(SensorFormat::WattHour)
    } else if same_text(s, "milliamp") {
        Some(SensorFormat::Milliamp)
    } else if same_text(s, "milliamp-hour") {
        Some(SensorFormat::MilliampHour)
    } else if same_text(s, "load") {
        Some(SensorFormat::Load)
    } else if same_text(s, "pcie") {
        Some(SensorFormat::Pcie)
    } else if same_text(s, "string") {
        Some(SensorFormat::StringVal)
    } else {
        None
    }
}

/// Every format string that the daemon sends is read back as that format.
pub proof fn lemma_parse_format_reads_wire_names(f: SensorFormat)
    ensures
        format_from_text(format_wire(f)) == Some(f),
{
    reveal_strlit("percent");
    assert("percent"@.len() == 7 && "percent"@[0] == 'p');
    reveal_strlit("temp");
    assert("temp"@.len() == 4 && "temp"@[0] == 't');
    reveal_strlit("fan");
    assert("fan"@.len() == 3 && "fan"@[0] == 'f');
    reveal_strlit("in");
    assert("in"@.len() == 2 && "in"@[0] == 'i');
    reveal_strlit("hertz");
    assert("hertz"@.len() == 5 && "hertz"@[0] == 'h');
    reveal_strlit("memory");
    assert("memory"@.len() == 6 && "memory"@[0] == 'm');
    reveal_strlit("storage");
    assert("storage"@.len() == 7 && "storage"@[0] == 's');
    reveal_strlit("speed");
    assert("speed"@.len() == 5 && "speed"@[0] == 's');
    reveal_strlit("uptime");
    assert("uptime"@.len() == 6 && "uptime"@[0] == 'u');
    reveal_strlit("runtime");
    assert("runtime"@.len() == 7 && "runtime"@[0] == 'r');
    reveal_strlit("watt");
    assert("watt"@.len() == 4 && "watt"@[0] == 'w');
    reveal_strlit("watt-gpu");
    assert("watt-gpu"@.len() == 8 && "watt-gpu"@[0] == 'w');
    reveal_strlit("watt-hour");
    assert("watt-hour"@.len() == 9 && "watt-hour"@[0] == 'w');
    reveal_strlit("milliamp");
    assert("milliamp"@.len() == 8 && "milliamp"@[0] == 'm');
    reveal_strlit("milliamp-hour");
    assert("milliamp-hour"@.len() == 13 && "milliamp-hour"@[0] == 'm');
    reveal_strlit("load");
    assert("load"@.len() == 4 && "load"@[0] == 'l');
    reveal_strlit("pcie");
    assert("pcie"@.len() == 4 && "pcie"@[0] == 'p');
    reveal_strlit("string");
    assert("string"@.len() == 6 && "string"@[0] == 's');
}

/// What a reading holds: a number with its format, or a text.
///
/// A number is carried as the bit pattern of the `f64` that the daemon sent
/// (`f64::to_bits`); nothing here reads it as a number.
#[derive(Debug, Clone)]
pub enum ReadingKind {
    Numeric { value_bits: u64, format: SensorFormat },
    Text(String),
}

/// A single sensor reading as received from the daemon.
#[derive(Debug, Clone)]
pub struct Reading {
    pub key: String,
    pub label: String,
    pub category: Category,
    pub kind: ReadingKind,
}

impl ReadingKind {
    /// A copy equal to `self`.
    pub fn duplicate(&self) -> (r: ReadingKind)
        ensures
            r == *self,
    {
        match self {
            ReadingKind::Numeric { value_bits, format } => ReadingKind::Numeric {
                value_bits: *value_bits,
                format: *format,
            },
            ReadingKind::Text(t) => ReadingKind::Text(t.clone()),
        }
    }
}

impl Reading {
    /// A copy equal to `self`.
    pub fn duplicate(&self) -> (r: Reading)
        ensures
            r == *self,
    {
        Reading {
            key: self.key.clone(),
            label: self.label.clone(),
            category: self.category,
            kind: self.kind.duplicate(),
        }
    }

    pub fn is_numeric(&self) -> (r: bool)
        ensures
            r == (self.kind is Numeric),
    {
        match self.kind {
            ReadingKind::Numeric { .. } => true,
            ReadingKind::Text(_) => false,
        }
    }
}

/// The order of readings within a popup section: by label, then by key.
pub open spec fn reading_lt(a: Reading, b: Reading) -> bool {
    text_lt(a.label@, b.label@) || (a.label@ == b.label@ && text_lt(a.key@, b.key@))
}

/// Readings with distinct keys are strictly and totally ordered.
pub proof fn lemma_reading_order(a: Reading, b: Reading, c: Reading)
    ensures
        !reading_lt(a, a),
        reading_lt(a, b) ==> !reading_lt(b, a),
        reading_lt(a, b) && reading_lt(b, c) ==> reading_lt(a, c),
        a.key@ != b.key@ ==> reading_lt(a, b) || reading_lt(b, a),
{
    lemma_text_order(a.label@, b.label@, c.label@);
    lemma_text_order(a.key@, b.key@, c.key@);
}

pub fn reading_less(a: &Reading, b: &Reading) -> (r: bool)
    ensures
        r == reading_lt(*a, *b),
{
    if text_less(a.label.as_str(), b.label.as_str()) {
        true
    } else if same_text(a.label.as_str(), b.label.as_str()) {
        text_less(a.key.as_str(), b.key.as_str())
    } else {
        false
    }
}

/// One poll's worth of readings, by key.
#[derive(Debug)]
pub struct Snapshot {
    readings: TextMap<Reading>,
}

impl View for Snapshot {
    type V = Map<Seq<char>, Reading>;

    open spec fn view(&self) -> Map<Seq<char>, Reading> {
        self.reading_map()
    }
}

/// Whether each reading of the map is stored under its own key.
pub open spec fn keyed_by_own_key(m: Map<Seq<char>, Reading>) -> bool {
    forall|k: Seq<char>| #[trigger] m.contains_key(k) ==> m[k].key@ == k
}

/// `g` lists the readings of `m` by category: categories in increasing order,
/// none empty, each reading once, under its own category, in reading order.
pub open spec fn is_grouping(m: Map<Seq<char>, Reading>, g: Seq<(Category, Vec<Reading>)>) -> bool {
    &&& forall|i: int, j: int|
        0 <= i < j < g.len() ==> category_rank(#[trigger] g[i].0) < category_rank(#[trigger] g[j].0)
    &&& forall|i: int| 0 <= i < g.len() ==> (#[trigger] g[i].1@).len() > 0
    &&& forall|i: int, a: int|
        #![trigger g[i].1@[a]]
        0 <= i < g.len() && 0 <= a < g[i].1@.len() ==> {
            &&& m.contains_key(g[i].1@[a].key@)
            &&& m[g[i].1@[a].key@] == g[i].1@[a]
            &&& g[i].1@[a].category == g[i].0
        }
    &&& forall|i: int, a: int, b: int|
        0 <= i < g.len() && 0 <= a < b < g[i].1@.len() ==> reading_lt(
            #[trigger] g[i].1@[a],
            #[trigger] g[i].1@[b],
        )
    &&& forall|k: Seq<char>|
        #[trigger] m.contains_key(k) ==> exists|i: int, a: int|
            0 <= i < g.len() && 0 <= a < g[i].1@.len() && #[trigger] g[i].1@[a] == m[k]
}

impl Snapshot {
    pub closed spec fn reading_map(&self) -> Map<Seq<char>, Reading> {
        self.readings@
    }

    #[verifier::type_invariant]
    closed spec fn inv(&self) -> bool {
        keyed_by_own_key(self.readings@)
    }

    pub fn new() -> (r: Snapshot)
        ensures
            r@ == Map::<Seq<char>, Reading>::empty(),
    {
        Snapshot { readings: TextMap::new() }
    }

    pub fn len(&self) -> (r: usize)
        ensures
            r == self@.len(),
    {
        self.readings.len()
    }

    /// Stores `r` under its key, replacing the reading stored there.
    pub fn insert(&mut self, r: Reading)
        ensures
            final(self)@ == old(self)@.insert(r.key@, r),
    {
        proof {
            use_type_invariant(&*self);
        }
        let mut m: TextMap<Reading> = TextMap::new();
        std::mem::swap(&mut m, &mut self.readings);
        let key = r.key.clone();
        m.insert(key, r);
        proof {
            assert forall|k: Seq<char>| #[trigger] m@.contains_key(k) implies m@[k].key@ == k by {
                if k != r.key@ {
                    assert(old(self)@.contains_key(k));
                }
            }
        }
        self.readings = m;
    }

    /// The reading stored under `key`, if any.
    pub fn get(&self, key: &str) -> (r: Option<&Reading>)
        ensures
            r is Some == self@.contains_key(key@),
            r is Some ==> *r.unwrap() == self@[key@],
    {
        self.readings.get(key)
    }

    /// The readings grouped by category: categories in the order of
    /// `Category`, readings in each group sorted by label (then key).
    pub fn grouped(&self) -> (g: Vec<(Category, Vec<Reading>)>)
        ensures
            is_grouping(self@, g@),
    {
        proof {
            use_type_invariant(self);
        }
        let entries = self.readings.entries();
        let n = entries.len();
        let ghost es = entries@;
        // The categories present, in increasing rank.
        let mut cats: Vec<Category> = Vec::new();
        let mut e: usize = 0;
        while e < n
            invariant
                n == es.len(),
                entries@ == es,
                e <= n,
                forall|i: int, j: int|
                    0 <= i < j < cats@.len() ==> category_rank(#[trigger] cats@[i])
                        < category_rank(#[trigger] cats@[j]),
                forall|c: Category| #[trigger]
                    cats@.contains(c) <==> exists|x: int| 0 <= x < e && es[x].1.category == c,
            decreases n - e,
        {
            let c = entries[e].1.category;
            insert_category(&mut cats, c);
            proof {
                assert forall|cc: Category| #[trigger] cats@.contains(cc) <==> exists|x: int|
                    0 <= x < e + 1 && es[x].1.category == cc by {
                    if cc == c {
                        assert(es[e as int].1.category == cc);
                    }
                    if exists|x: int| 0 <= x < e + 1 && es[x].1.category == cc {
                        let x = choose|x: int| 0 <= x < e + 1 && es[x].1.category == cc;
                        if x < e {
                        } else {
                            assert(cc == c);
                        }
                    }
                }
            }
            e = e + 1;
        }
        let mut g: Vec<(Category, Vec<Reading>)> = Vec::new();
        let nc = cats.len();
        let mut ci: usize = 0;
        while ci < nc
            invariant
                n == es.len(),
                entries@ == es,
                keys_unique(es),
                keyed_by_own_key(entries_map(es)),
                nc == cats@.len(),
                ci <= nc,
                g@.len() == ci,
                forall|i: int, j: int|
                    0 <= i < j < cats@.len() ==> category_rank(#[trigger] cats@[i])
                        < category_rank(#[trigger] cats@[j]),
                forall|c: Category| #[trigger]
                    cats@.contains(c) <==> exists|x: int| 0 <= x < n && es[x].1.category == c,
                forall|i: int| 0 <= i < ci ==> #[trigger] g@[i].0 == cats@[i],
                forall|i: int, a: int, b: int|
                    0 <= i < ci && 0 <= a < b < g@[i].1@.len() ==> reading_lt(
                        #[trigger] g@[i].1@[a],
                        #[trigger] g@[i].1@[b],
                    ),
                forall|i: int, r: Reading|
                    0 <= i < ci ==> (#[trigger] g@[i].1@.contains(r) <==> exists|x: int|
                        0 <= x < n && es[x].1 == r && r.category == cats@[i]),
            decreases nc - ci,
        {
            let c = cats[ci];
            let mut group: Vec<Reading> = Vec::new();
            let mut x: usize = 0;
            while x < n
                invariant
                    n == es.len(),
                    entries@ == es,
                    keys_unique(es),
                    keyed_by_own_key(entries_map(es)),
                    x <= n,
                    forall|a: int, b: int|
                        0 <= a < b < group@.len() ==> reading_lt(
                            #[trigger] group@[a],
                            #[trigger] group@[b],
                        ),
                    forall|r: Reading| #[trigger]
                        group@.contains(r) <==> exists|y: int|
                            0 <= y < x && es[y].1 == r && r.category == c,
                decreases n - x,
            {
                if entries[x].1.category == c {
                    proof {
                        assert forall|a: int| 0 <= a < group@.len() implies (#[trigger] group@[a]).key@
                            != entries[x as int].1.key@ by {
                            assert(group@.contains(group@[a]));
                            let y = choose|y: int| 0 <= y < x && es[y].1 == group@[a] && group@[a].category == c;
                            assert(es[y].0@ != es[x as int].0@);
                            lemma_entry_key(es, y);
                            lemma_entry_key(es, x as int);
                        }
                    }
                    let r = entries[x].1.duplicate();
                    insert_reading(&mut group, r);
                }
                proof {
                    assert forall|rr: Reading| #[trigger] group@.contains(rr) <==> exists|y: int|
                        0 <= y < x + 1 && es[y].1 == rr && rr.category == c by {
                        if exists|y: int| 0 <= y < x + 1 && es[y].1 == rr && rr.category == c {
                            let y = choose|y: int| 0 <= y < x + 1 && es[y].1 == rr && rr.category == c;
                            if y < x {
                            }
                        }
                    }
                }
                x = x + 1;
            }
            g.push((c, group));
            proof {
                assert forall|i: int, r: Reading|
                    0 <= i < ci + 1 implies (#[trigger] g@[i].1@.contains(r) <==> exists|x: int|
                        0 <= x < n && es[x].1 == r && r.category == cats@[i]) by {
                }
            }
            ci = ci + 1;
        }
        proof {
            self.lemma_grouping(es, cats@, g@);
        }
        g
    }

    proof fn lemma_grouping(&self, es: Seq<(String, Reading)>, cats: Seq<Category>, g: Seq<(Category, Vec<Reading>)>)
        requires
            keyed_by_own_key(self@),
            keys_unique(es),
            entries_map(es) == self@,
            g.len() == cats.len(),
            forall|i: int, j: int|
                0 <= i < j < cats.len() ==> category_rank(#[trigger] cats[i])
                    < category_rank(#[trigger] cats[j]),
            forall|c: Category| #[trigger]
                cats.contains(c) <==> exists|x: int| 0 <= x < es.len() && es[x].1.category == c,
            forall|i: int| 0 <= i < g.len() ==> #[trigger] g[i].0 == cats[i],
            forall|i: int, a: int, b: int|
                0 <= i < g.len() && 0 <= a < b < g[i].1@.len() ==> reading_lt(
                    #[trigger] g[i].1@[a],
                    #[trigger] g[i].1@[b],
                ),
            forall|i: int, r: Reading|
                0 <= i < g.len() ==> (#[trigger] g[i].1@.contains(r) <==> exists|x: int|
                    0 <= x < es.len() && es[x].1 == r && r.category == cats[i]),
        ensures
            is_grouping(self@, g),
    {
        let m = self@;
        assert forall|i: int, j: int| 0 <= i < j < g.len() implies category_rank(#[trigger] g[i].0)
            < category_rank(#[trigger] g[j].0) by {
            assert(cats[i] == g[i].0 && cats[j] == g[j].0);
        }
        assert forall|i: int| 0 <= i < g.len() implies (#[trigger] g[i].1@).len() > 0 by {
            assert(g[i].0 == cats[i]);
            assert(cats.contains(cats[i]));
            let x = choose|x: int| 0 <= x < es.len() && es[x].1.category == cats[i];
            assert(g[i].1@.contains(es[x].1));
        }
        assert forall|i: int, a: int|
            0 <= i < g.len() && 0 <= a < g[i].1@.len() implies {
                &&& m.contains_key(#[trigger] g[i].1@[a].key@)
                &&& m[g[i].1@[a].key@] == g[i].1@[a]
                &&& g[i].1@[a].category == g[i].0
            } by {
            let r = g[i].1@[a];
            assert(g[i].1@.contains(r));
            let x = choose|x: int| 0 <= x < es.len() && es[x].1 == r && r.category == cats[i];
            lemma_index_of_key(es, x);
            lemma_entry_key(es, x);
        }
        assert forall|k: Seq<char>| #[trigger] m.contains_key(k) implies exists|i: int, a: int|
            0 <= i < g.len() && 0 <= a < g[i].1@.len() && #[trigger] g[i].1@[a] == m[k] by {
            let x = index_of_key(es, k);
            lemma_index_of_key(es, x);
            let r = es[x].1;
            let c = r.category;
            assert(cats.contains(c));
            let i = choose|i: int| 0 <= i < cats.len() && cats[i] == c;
            assert(g[i].1@.contains(r));
            let a = choose|a: int| 0 <= a < g[i].1@.len() && g[i].1@[a] == r;
        }
    }
}

/// An entry of a snapshot's map holds a reading under that reading's key.
proof fn lemma_entry_key(es: Seq<(String, Reading)>, x: int)
    requires
        keys_unique(es),
        keyed_by_own_key(entries_map(es)),
        0 <= x < es.len(),
    ensures
        es[x].1.key@ == es[x].0@,
{
    lemma_index_of_key(es, x);
}

impl Clone for Snapshot {
    fn clone(&self) -> (r: Snapshot)
        ensures
            r@ == self@,
    {
        proof {
            use_type_invariant(self);
        }
        Snapshot { readings: self.readings.duplicate() }
    }
}

impl Default for Snapshot {
    fn default() -> (r: Snapshot)
        ensures
            r@ == Map::<Seq<char>, Reading>::empty(),
    {
        Snapshot::new()
    }
}

/// Connectivity to the sensor daemon.
#[derive(Debug, Clone)]
pub enum DaemonState {
    Connecting,
    Connected,
    Unreachable(String),
}

/// The content of a `DaemonState`.
pub enum DaemonStateView {
    Connecting,
    Connected,
    Unreachable(Seq<char>),
}

impl View for DaemonState {
    type V = DaemonStateView;

    open spec fn view(&self) -> DaemonStateView {
        match self {
            DaemonState::Connecting => DaemonStateView::Connecting,
            DaemonState::Connected => DaemonStateView::Connected,
            DaemonState::Unreachable(why) => DaemonStateView::Unreachable(why@),
        }
    }
}

impl DaemonState {
    /// A copy equal to `self`.
    pub fn duplicate(&self) -> (r: DaemonState)
        ensures
            r == *self,
    {
        match self {
            DaemonState::Connecting => DaemonState::Connecting,
            DaemonState::Connected => DaemonState::Connected,
            DaemonState::Unreachable(why) => DaemonState::Unreachable(why.clone()),
        }
    }
}

/// Inserts `c` into the rank-sorted `cats` unless it is there.
fn insert_category(cats: &mut Vec<Category>, c: Category)
    requires
        forall|i: int, j: int|
            0 <= i < j < old(cats)@.len() ==> category_rank(#[trigger] old(cats)@[i])
                < category_rank(#[trigger] old(cats)@[j]),
    ensures
        forall|i: int, j: int|
            0 <= i < j < final(cats)@.len() ==> category_rank(#[trigger] final(cats)@[i])
                < category_rank(#[trigger] final(cats)@[j]),
        forall|d: Category| #[trigger] final(cats)@.contains(d) <==> (old(cats)@.contains(d) || d == c),
{
    let rc = c.rank();
    let n = cats.len();
    let mut i: usize = 0;
    while i < n
        invariant
            n == cats@.len(),
            cats@ == old(cats)@,
            i <= n,
            forall|j: int| 0 <= j < i ==> category_rank(#[trigger] cats@[j]) < rc,
        ensures
            i <= n,
            forall|j: int| 0 <= j < i ==> category_rank(#[trigger] cats@[j]) < rc,
            i < n ==> category_rank(cats@[i as int]) >= rc,
        decreases n - i,
    {
        if cats[i].rank() >= rc {
            break;
        }
        i = i + 1;
    }
    if i < n && cats[i].rank() == rc {
        proof {
            lemma_rank_injective(cats@[i as int], c);
        }
        return;
    }
    let ghost before = cats@;
    cats.insert(i, c);
    proof {
        assert(cats@ == before.insert(i as int, c));
        assert(i < before.len() ==> category_rank(before[i as int]) > rc);
        assert forall|a: int, b: int| 0 <= a < b < cats@.len() implies category_rank(
            #[trigger] cats@[a],
        ) < category_rank(#[trigger] cats@[b]) by {
            if b < i {
                assert(cats@[a] == before[a] && cats@[b] == before[b]);
            } else if b == i {
                assert(cats@[a] == before[a]);
            } else if a < i {
                assert(cats@[a] == before[a] && cats@[b] == before[b - 1]);
            } else if a == i {
                assert(cats@[b] == before[b - 1]);
                if b - 1 > i {
                    assert(category_rank(before[i as int]) < category_rank(before[b - 1]));
                }
            } else {
                assert(cats@[a] == before[a - 1]);
                assert(cats@[b] == before[b - 1]);
            }
        }
        assert forall|d: Category| #[trigger] cats@.contains(d) <==> (before.contains(d) || d == c) by {
            if cats@.contains(d) {
                let j = choose|j: int| 0 <= j < cats@.len() && cats@[j] == d;
                if j < i {
                    assert(before[j] == d);
                } else if j > i {
                    assert(before[j - 1] == d);
                }
            }
            if before.contains(d) {
                let j = choose|j: int| 0 <= j < before.len() && before[j] == d;
                if j < i {
                    assert(cats@[j] == d);
                } else {
                    assert(cats@[j + 1] == d);
                }
            }
            if d == c {
                assert(cats@[i as int] == d);
            }
        }
    }
}

/// Inserts `r` into the sorted `group`, whose keys all differ from `r`'s.
fn insert_reading(group: &mut Vec<Reading>, r: Reading)
    requires
        forall|a: int, b: int|
            0 <= a < b < old(group)@.len() ==> reading_lt(
                #[trigger] old(group)@[a],
                #[trigger] old(group)@[b],
            ),
        forall|a: int| 0 <= a < old(group)@.len() ==> (#[trigger] old(group)@[a]).key@ != r.key@,
    ensures
        forall|a: int, b: int|
            0 <= a < b < final(group)@.len() ==> reading_lt(
                #[trigger] final(group)@[a],
                #[trigger] final(group)@[b],
            ),
        forall|x: Reading| #[trigger] final(group)@.contains(x) <==> (old(group)@.contains(x) || x == r),
{
    let n = group.len();
    let mut i: usize = 0;
    while i < n
        invariant
            n == group@.len(),
            group@ == old(group)@,
            i <= n,
            forall|a: int| 0 <= a < group@.len() ==> (#[trigger] group@[a]).key@ != r.key@,
            forall|j: int| 0 <= j < i ==> reading_lt(#[trigger] group@[j], r),
        ensures
            i <= n,
            forall|j: int| 0 <= j < i ==> reading_lt(#[trigger] group@[j], r),
            i < n ==> reading_lt(r, group@[i as int]),
        decreases n - i,
    {
        if reading_less(&r, &group[i]) {
            break;
        }
        proof {
            lemma_reading_order(group@[i as int], r, r);
        }
        i = i + 1;
    }
    let ghost before = group@;
    group.insert(i, r);
    proof {
        assert(group@ == before.insert(i as int, r));
        assert forall|a: int, b: int| 0 <= a < b < group@.len() implies reading_lt(
            #[trigger] group@[a],
            #[trigger] group@[b],
        ) by {
            if b < i {
                assert(group@[a] == before[a] && group@[b] == before[b]);
            } else if b == i {
                assert(group@[a] == before[a]);
            } else if a < i {
                assert(group@[a] == before[a] && group@[b] == before[b - 1]);
                lemma_reading_order(before[a], r, before[b - 1]);
                if b - 1 > i {
                    lemma_reading_order(r, before[i as int], before[b - 1]);
                }
            } else if a == i {
                assert(group@[b] == before[b - 1]);
                if b - 1 > i {
                    lemma_reading_order(r, before[i as int], before[b - 1]);
                }
            } else {
                assert(group@[a] == before[a - 1]);
                assert(group@[b] == before[b - 1]);
            }
        }
        assert forall|x: Reading| #[trigger] group@.contains(x) <==> (before.contains(x) || x == r) by {
            if group@.contains(x) {
                let j = choose|j: int| 0 <= j < group@.len() && group@[j] == x;
                if j < i {
                    assert(before[j] == x);
                } else if j > i {
                    assert(before[j - 1] == x);
                }
            }
            if before.contains(x) {
                let j = choose|j: int| 0 <= j < before.len() && before[j] == x;
                if j < i {
                    assert(group@[j] == x);
                } else {
                    assert(group@[j + 1] == x);
                }
            }
            if x == r {
                assert(group@[i as int] == x);
            }
        }
    }
}

} // verus!
