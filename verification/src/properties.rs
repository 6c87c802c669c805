//! Properties that hold across the library's operations.
use vstd::prelude::*;

use crate::app::{
    contains_text, first_position, toggle_star_spec, update_spec, Effect, Message, VitalsView,
};
use crate::dbus::{
    link_step_spec, poll_step_spec, snapshot_of, text_reading, numeric_reading, with_numeric,
    with_text, DbusCmd, DbusEvent, LinkEvent, LinkPhase, NumericTuple, PollAction, PollEvent,
    TextTuple,
};
use crate::model::{
    category_from_text, category_rank, display_order_spec, format_from_text, is_gpu, is_grouping,
    lemma_reading_order, reading_lt, Category, DaemonState, DaemonStateView, Reading, ReadingKind,
};
use crate::icons::{icon_for_spec, IconAsset};
use crate::model::{category_icon, category_wire, format_wire, SensorFormat};
use crate::text::{
    all_digits, decimal, digits_value, is_digit, lemma_decimal, lemma_text_order, lt_from,
    parse_u8_spec, text_lt,
};
use crate::view::status_text_spec;
use crate::view::{
    group_categories, group_of, lemma_pinned_prefix, panel_chips_spec, pinned_numeric,
    section_order_spec, sections_spec, with_gpus,
};

verus! {

// ---------------------------------------------------------------------------
// Categories and sections
// ---------------------------------------------------------------------------

/// The fixed display order lists every category but the GPUs, once each.
pub proof fn lemma_display_order(c: Category)
    ensures
        display_order_spec().contains(c) <==> !is_gpu(c),
        display_order_spec().no_duplicates(),
{
    let o = display_order_spec();
    match c {
        Category::Processor => assert(o[0] == c),
        Category::Memory => assert(o[1] == c),
        Category::System => assert(o[2] == c),
        Category::Network => assert(o[3] == c),
        Category::Storage => assert(o[4] == c),
        Category::Temperature => assert(o[5] == c),
        Category::Fan => assert(o[6] == c),
        Category::Voltage => assert(o[7] == c),
        Category::Battery => assert(o[8] == c),
        Category::Gpu(_) => {},
    }
}

proof fn lemma_with_gpus(order: Seq<Category>, cats: Seq<Category>)
    requires
        order.no_duplicates(),
    ensures
        with_gpus(order, cats).no_duplicates(),
        forall|c: Category| #[trigger]
            with_gpus(order, cats).contains(c) <==> (order.contains(c) || (is_gpu(c)
                && cats.contains(c))),
    decreases cats.len(),
{
    if cats.len() > 0 {
        let d = cats.drop_last();
        lemma_with_gpus(order, d);
        assert forall|c: Category| #[trigger] cats.contains(c) <==> (d.contains(c) || c
            == cats.last()) by {
            if cats.contains(c) {
                let i = choose|i: int| 0 <= i < cats.len() && cats[i] == c;
                if i < d.len() {
                    assert(d[i] == c);
                }
            }
            if d.contains(c) {
                let i = choose|i: int| 0 <= i < d.len() && d[i] == c;
                assert(cats[i] == c);
            }
            if c == cats.last() {
                assert(cats[cats.len() - 1] == c);
            }
        }
        let prev = with_gpus(order, d);
        let w = with_gpus(order, cats);
        let last = cats.last();
        if is_gpu(last) && !prev.contains(last) {
            assert(w == prev.push(last));
            assert forall|c: Category| #[trigger] w.contains(c) <==> (prev.contains(c) || c == last) by {
                if w.contains(c) {
                    let i = choose|i: int| 0 <= i < w.len() && w[i] == c;
                    if i < prev.len() {
                        assert(prev[i] == c);
                    }
                }
                if prev.contains(c) {
                    let i = choose|i: int| 0 <= i < prev.len() && prev[i] == c;
                    assert(w[i] == c);
                }
                if c == last {
                    assert(w[prev.len() as int] == c);
                }
            }
        }
    }
}

/// Every category that has readings gets a section in the popup, and no
/// category gets two.
pub proof fn lemma_sections_cover_groups(
    m: Map<Seq<char>, Reading>,
    g: Seq<(Category, Vec<Reading>)>,
    i: int,
)
    requires
        is_grouping(m, g),
        0 <= i < g.len(),
    ensures
        section_order_spec(g).contains(g[i].0),
        section_order_spec(g).no_duplicates(),
{
    lemma_display_order(g[i].0);
    lemma_with_gpus(display_order_spec(), group_categories(g));
    assert(group_categories(g)[i] == g[i].0);
    assert(group_categories(g).contains(g[i].0));
}

/// The popup lists each reading of a snapshot exactly once.
pub proof fn lemma_grouping_lists_each_reading_once(
    m: Map<Seq<char>, Reading>,
    g: Seq<(Category, Vec<Reading>)>,
    i: int,
    a: int,
    j: int,
    b: int,
)
    requires
        is_grouping(m, g),
        0 <= i < g.len(),
        0 <= a < g[i].1@.len(),
        0 <= j < g.len(),
        0 <= b < g[j].1@.len(),
        g[i].1@[a] == g[j].1@[b],
    ensures
        i == j,
        a == b,
{
    let r = g[i].1@[a];
    assert(g[i].0 == r.category && g[j].0 == r.category);
    if i != j {
        if i < j {
            assert(category_rank(g[i].0) < category_rank(g[j].0));
        } else {
            assert(category_rank(g[j].0) < category_rank(g[i].0));
        }
    }
    lemma_reading_order(r, r, r);
    if a < b {
        assert(reading_lt(g[i].1@[a], g[i].1@[b]));
    } else if b < a {
        assert(reading_lt(g[i].1@[b], g[i].1@[a]));
    }
}

// ---------------------------------------------------------------------------
// Building a snapshot
// ---------------------------------------------------------------------------

/// A reading stored in a snapshot is what the snapshot then holds under its
/// key; the other keys keep what they held.
pub proof fn lemma_snapshot_read_back(m: Map<Seq<char>, Reading>, r: Reading, other: Seq<char>)
    ensures
        m.insert(r.key@, r).contains_key(r.key@),
        m.insert(r.key@, r)[r.key@] == r,
        other != r.key@ ==> m.insert(r.key@, r).contains_key(other) == m.contains_key(other),
        other != r.key@ && m.contains_key(other) ==> m.insert(r.key@, r)[other] == m[other],
{
}

pub open spec fn numeric_keys_unique(es: Seq<(String, NumericTuple)>) -> bool {
    forall|i: int, j: int|
        0 <= i < es.len() && 0 <= j < es.len() && i != j ==> #[trigger] es[i].0@ != #[trigger] es[j].0@
}

pub open spec fn text_keys_unique(es: Seq<(String, TextTuple)>) -> bool {
    forall|i: int, j: int|
        0 <= i < es.len() && 0 <= j < es.len() && i != j ==> #[trigger] es[i].0@ != #[trigger] es[j].0@
}

/// Whether a text entry under `k` names a known category.
pub open spec fn has_text(es: Seq<(String, TextTuple)>, k: Seq<char>) -> bool {
    exists|i: int| 0 <= i < es.len() && #[trigger] es[i].0@ == k && text_reading(es[i].0, es[i].1) is Some
}

/// Whether a numeric entry under `k` names a known category and format.
pub open spec fn has_numeric(es: Seq<(String, NumericTuple)>, k: Seq<char>) -> bool {
    exists|i: int|
        0 <= i < es.len() && #[trigger] es[i].0@ == k && numeric_reading(es[i].0, es[i].1) is Some
}

proof fn lemma_with_text(m: Map<Seq<char>, Reading>, es: Seq<(String, TextTuple)>, k: Seq<char>)
    requires
        text_keys_unique(es),
    ensures
        has_text(es, k) ==> {
            let i = choose|i: int|
                0 <= i < es.len() && #[trigger] es[i].0@ == k && text_reading(es[i].0, es[i].1) is Some;
            &&& with_text(m, es).contains_key(k)
            &&& with_text(m, es)[k] == text_reading(es[i].0, es[i].1).unwrap()
        },
        !has_text(es, k) ==> {
            &&& with_text(m, es).contains_key(k) == m.contains_key(k)
            &&& m.contains_key(k) ==> with_text(m, es)[k] == m[k]
        },
    decreases es.len(),
{
    if es.len() > 0 {
        let d = es.drop_last();
        let last = es.last();
        assert(text_keys_unique(d)) by {
            assert forall|i: int, j: int|
                0 <= i < d.len() && 0 <= j < d.len() && i != j implies #[trigger] d[i].0@
                != #[trigger] d[j].0@ by {
                assert(es[i].0@ != es[j].0@);
            }
        }
        lemma_with_text(m, d, k);
        if has_text(es, k) {
            let i = choose|i: int|
                0 <= i < es.len() && #[trigger] es[i].0@ == k && text_reading(es[i].0, es[i].1) is Some;
            if i == es.len() - 1 {
            } else {
                assert(d[i] == es[i]);
                assert(has_text(d, k));
                let i2 = choose|i: int|
                    0 <= i < d.len() && #[trigger] d[i].0@ == k && text_reading(d[i].0, d[i].1) is Some;
                assert(i2 == i) by {
                    if i2 != i {
                        assert(es[i2].0@ != es[i].0@);
                    }
                }
                assert(last.0@ != k) by {
                    assert(es[es.len() - 1].0@ != es[i].0@);
                }
            }
        } else {
            if has_text(d, k) {
                let i = choose|i: int|
                    0 <= i < d.len() && #[trigger] d[i].0@ == k && text_reading(d[i].0, d[i].1) is Some;
                assert(es[i] == d[i]);
            }
            if last.0@ == k {
                assert(es[es.len() - 1].0@ == k);
            }
        }
    }
}

proof fn lemma_with_numeric(
    m: Map<Seq<char>, Reading>,
    es: Seq<(String, NumericTuple)>,
    k: Seq<char>,
)
    requires
        numeric_keys_unique(es),
    ensures
        has_numeric(es, k) ==> {
            let i = choose|i: int|
                0 <= i < es.len() && #[trigger] es[i].0@ == k && numeric_reading(es[i].0, es[i].1) is Some;
            &&& with_numeric(m, es).contains_key(k)
            &&& with_numeric(m, es)[k] == numeric_reading(es[i].0, es[i].1).unwrap()
        },
        !has_numeric(es, k) ==> {
            &&& with_numeric(m, es).contains_key(k) == m.contains_key(k)
            &&& m.contains_key(k) ==> with_numeric(m, es)[k] == m[k]
        },
    decreases es.len(),
{
    if es.len() > 0 {
        let d = es.drop_last();
        let last = es.last();
        assert(numeric_keys_unique(d)) by {
            assert forall|i: int, j: int|
                0 <= i < d.len() && 0 <= j < d.len() && i != j implies #[trigger] d[i].0@
                != #[trigger] d[j].0@ by {
                assert(es[i].0@ != es[j].0@);
            }
        }
        lemma_with_numeric(m, d, k);
        if has_numeric(es, k) {
            let i = choose|i: int|
                0 <= i < es.len() && #[trigger] es[i].0@ == k && numeric_reading(es[i].0, es[i].1) is Some;
            if i == es.len() - 1 {
            } else {
                assert(d[i] == es[i]);
                assert(has_numeric(d, k));
                let i2 = choose|i: int|
                    0 <= i < d.len() && #[trigger] d[i].0@ == k && numeric_reading(d[i].0, d[i].1) is Some;
                assert(i2 == i) by {
                    if i2 != i {
                        assert(es[i2].0@ != es[i].0@);
                    }
                }
                assert(last.0@ != k) by {
                    assert(es[es.len() - 1].0@ != es[i].0@);
                }
            }
        } else {
            if has_numeric(d, k) {
                let i = choose|i: int|
                    0 <= i < d.len() && #[trigger] d[i].0@ == k && numeric_reading(d[i].0, d[i].1) is Some;
                assert(es[i] == d[i]);
            }
            if last.0@ == k {
                assert(es[es.len() - 1].0@ == k);
            }
        }
    }
}

/// In a poll's snapshot (the daemon's replies have distinct keys each), a
/// key holds the text reading sent under it if its category is known, else
/// the numeric reading if its category and format are known, else nothing.
pub proof fn lemma_snapshot_entry(
    numeric: Seq<(String, NumericTuple)>,
    text: Seq<(String, TextTuple)>,
    k: Seq<char>,
)
    requires
        numeric_keys_unique(numeric),
        text_keys_unique(text),
    ensures
        snapshot_of(numeric, text).contains_key(k) <==> (has_text(text, k) || has_numeric(
            numeric,
            k,
        )),
        has_text(text, k) ==> {
            let i = choose|i: int|
                0 <= i < text.len() && #[trigger] text[i].0@ == k && text_reading(text[i].0, text[i].1) is Some;
            snapshot_of(numeric, text)[k] == text_reading(text[i].0, text[i].1).unwrap()
        },
        !has_text(text, k) && has_numeric(numeric, k) ==> {
            let i = choose|i: int|
                0 <= i < numeric.len() && #[trigger] numeric[i].0@ == k && numeric_reading(
                    numeric[i].0,
                    numeric[i].1,
                ) is Some;
            snapshot_of(numeric, text)[k] == numeric_reading(numeric[i].0, numeric[i].1).unwrap()
        },
{
    lemma_with_numeric(Map::empty(), numeric, k);
    lemma_with_text(with_numeric(Map::empty(), numeric), text, k);
}

// ---------------------------------------------------------------------------
// The applet's state machine
// ---------------------------------------------------------------------------

/// Pinning a key that is not pinned and then unpinning it gives back the
/// list of pinned keys as it was.
pub proof fn lemma_toggle_star_twice(hot: Seq<String>, key: String)
    requires
        !contains_text(hot, key@),
    ensures
        toggle_star_spec(toggle_star_spec(hot, key), key) == hot,
{
    let once = toggle_star_spec(hot, key);
    assert(once == hot.push(key));
    assert(once[hot.len() as int]@ == key@);
    assert(contains_text(once, key@));
    let p = first_position(once, key@);
    assert(p == hot.len()) by {
        if p < hot.len() {
            assert(once[p] == hot[p]);
            assert(contains_text(hot, key@));
        }
    }
    assert(once.remove(p) =~= hot);
}

/// Whether no key is pinned twice.
pub open spec fn texts_distinct(s: Seq<String>) -> bool {
    forall|i: int, j: int| 0 <= i < s.len() && 0 <= j < s.len() && i != j ==> #[trigger] s[i]@ != #[trigger] s[j]@
}

proof fn lemma_remove_text(hot: Seq<String>, p: int, key: Seq<char>, other: Seq<char>)
    requires
        texts_distinct(hot),
        0 <= p < hot.len(),
        hot[p]@ == key,
    ensures
        !contains_text(hot.remove(p), key),
        other != key ==> contains_text(hot.remove(p), other) == contains_text(hot, other),
        texts_distinct(hot.remove(p)),
{
    let t = hot.remove(p);
    assert forall|j: int| 0 <= j < t.len() implies t[j] == hot[if j < p { j } else { j + 1 }] by {}
    if contains_text(t, key) {
        let j = choose|j: int| 0 <= j < t.len() && #[trigger] t[j]@ == key;
        let h = if j < p { j } else { j + 1 };
        assert(hot[h]@ == key);
    }
    if other != key {
        if contains_text(hot, other) {
            let j = choose|j: int| 0 <= j < hot.len() && #[trigger] hot[j]@ == other;
            if j < p {
                assert(t[j]@ == other);
            } else if j > p {
                assert(t[j - 1]@ == other);
            }
        }
        if contains_text(t, other) {
            let j = choose|j: int| 0 <= j < t.len() && #[trigger] t[j]@ == other;
            let h = if j < p { j } else { j + 1 };
            assert(hot[h]@ == other);
        }
    }
    assert forall|i: int, j: int| 0 <= i < t.len() && 0 <= j < t.len() && i != j implies #[trigger] t[i]@
        != #[trigger] t[j]@ by {
        let a = if i < p { i } else { i + 1 };
        let b = if j < p { j } else { j + 1 };
        assert(hot[a]@ != hot[b]@);
    }
}

proof fn lemma_push_text(hot: Seq<String>, key: String, other: Seq<char>)
    requires
        texts_distinct(hot),
        !contains_text(hot, key@),
    ensures
        contains_text(hot.push(key), key@),
        other != key@ ==> contains_text(hot.push(key), other) == contains_text(hot, other),
        texts_distinct(hot.push(key)),
{
    let t = hot.push(key);
    assert(t[hot.len() as int]@ == key@);
    if other != key@ {
        if contains_text(hot, other) {
            let j = choose|j: int| 0 <= j < hot.len() && #[trigger] hot[j]@ == other;
            assert(t[j]@ == other);
        }
        if contains_text(t, other) {
            let j = choose|j: int| 0 <= j < t.len() && #[trigger] t[j]@ == other;
            assert(hot[j]@ == other);
        }
    }
    assert forall|i: int, j: int| 0 <= i < t.len() && 0 <= j < t.len() && i != j implies #[trigger] t[i]@
        != #[trigger] t[j]@ by {
        if i < hot.len() && j < hot.len() {
            assert(t[i] == hot[i] && t[j] == hot[j]);
        } else if i < hot.len() {
            assert(t[i] == hot[i]);
            assert(!(hot[i]@ == key@));
        } else if j < hot.len() {
            assert(t[j] == hot[j]);
            assert(!(hot[j]@ == key@));
        }
    }
}

/// Toggling a pin flips whether that key is pinned, leaves every other key
/// as it was, and never pins a key twice.
pub proof fn lemma_toggle_star_flips(hot: Seq<String>, key: String, other: Seq<char>)
    requires
        texts_distinct(hot),
    ensures
        contains_text(toggle_star_spec(hot, key), key@) == !contains_text(hot, key@),
        other != key@ ==> contains_text(toggle_star_spec(hot, key), other) == contains_text(hot, other),
        texts_distinct(toggle_star_spec(hot, key)),
{
    if contains_text(hot, key@) {
        let p = first_position(hot, key@);
        let w = choose|i: int| 0 <= i < hot.len() && #[trigger] hot[i]@ == key@;
        assert(0 <= p < hot.len() && hot[p]@ == key@) by {
            assert(hot[w]@ == key@);
            if forall|j: int| 0 <= j < w ==> hot[j]@ != key@ {
            } else {
                let q = choose|j: int| 0 <= j < w && hot[j]@ == key@;
                assert(hot[q]@ == hot[w]@);
            }
        }
        lemma_remove_text(hot, p, key@, other);
    } else {
        lemma_push_text(hot, key, other);
    }
}

/// A chosen update interval is stored clamped to 1..=60 seconds, and the
/// same value is what the background task is told to poll at.
pub proof fn lemma_update_interval(s: VitalsView, secs: u32)
    ensures
        ({
            let (t, effects) = update_spec(s, Message::SetUpdateInterval(secs));
            &&& 1 <= t.config.update_time <= 60
            &&& (1 <= secs <= 60 ==> t.config.update_time == secs)
            &&& s.channel_ready ==> effects == seq![
                Effect::Send(DbusCmd::SetInterval(t.config.update_time as u64)),
                Effect::SaveConfig,
            ]
            &&& !s.channel_ready ==> effects.len() == 0
        }),
{
    let (t, effects) = update_spec(s, Message::SetUpdateInterval(secs));
    if s.channel_ready {
        assert(effects =~= seq![
            Effect::Send(DbusCmd::SetInterval(t.config.update_time as u64)),
            Effect::SaveConfig,
        ]);
    }
}

/// Whenever a message changes the config while the channel exists, the
/// last thing to do is to save it.
pub proof fn lemma_config_changes_are_saved(s: VitalsView, msg: Message)
    requires
        s.channel_ready,
    ensures
        update_spec(s, msg).0.config != s.config ==> {
            let e = update_spec(s, msg).1;
            e.len() > 0 && e.last() is SaveConfig
        },
{
}

/// Nothing goes to the background task before its channel exists, except
/// the interval set when the channel arrives.
pub proof fn lemma_no_commands_before_channel(s: VitalsView, msg: Message)
    requires
        !s.channel_ready,
        !(msg is DbusChannel),
    ensures
        forall|i: int|
            0 <= i < update_spec(s, msg).1.len() ==> #[trigger] update_spec(s, msg).1[i] is LaunchMonitor,
        update_spec(s, msg).0.channel_ready == false,
{
    let e = update_spec(s, msg).1;
    match msg {
        Message::SetUpdateInterval(secs) => {
            assert(e =~= Seq::<Effect>::empty());
        },
        _ => {},
    }
}

/// A history reply that answers the current hover is what the state then
/// holds for its key; the other keys keep theirs.
pub proof fn lemma_history_read_back(
    s: VitalsView,
    key: String,
    points: Vec<(u64, u64)>,
    other: Seq<char>,
)
    ensures
        ({
            let t = update_spec(
                s,
                Message::Dbus(
                    DbusEvent::History { key, generation: s.hover_generation, points },
                ),
            ).0;
            &&& t.history.contains_key(key@)
            &&& t.history[key@] == points
            &&& other != key@ ==> t.history.contains_key(other) == s.history.contains_key(other)
            &&& other != key@ && s.history.contains_key(other) ==> t.history[other] == s.history[other]
        }),
{
}

/// A history reply to an earlier hover is discarded: the state is unchanged.
pub proof fn lemma_stale_history_discarded(
    s: VitalsView,
    key: String,
    generation: u64,
    points: Vec<(u64, u64)>,
)
    requires
        generation != s.hover_generation,
    ensures
        update_spec(s, Message::Dbus(DbusEvent::History { key, generation, points })) == (
            s,
            Seq::<Effect>::empty(),
        ),
{
}

/// The history request sent on a hover carries the hover's generation, so
/// its reply is kept as long as no other hover followed.
pub proof fn lemma_hover_request_matches(s: VitalsView, key: String)
    requires
        s.channel_ready,
    ensures
        ({
            let (t, e) = update_spec(s, Message::HoverEnter(key));
            e == seq![Effect::Send(DbusCmd::FetchHistory(key, t.hover_generation))]
        }),
{
}

/// Closing the open popup also leaves the preferences and the hover;
/// closing any other window changes nothing.
pub proof fn lemma_popup_close(s: VitalsView, id: u64)
    ensures
        s.popup == Some(id) ==> {
            let t = update_spec(s, Message::PopupClosed(id)).0;
            &&& t.popup is None
            &&& !t.prefs_open
            &&& t.hover_key is None
        },
        s.popup != Some(id) ==> update_spec(s, Message::PopupClosed(id)).0 == s,
{
}

/// Each hover entry moves the hover counter on by one (wrapping).
pub proof fn lemma_hover_counts(s: VitalsView, key: String)
    ensures
        ({
            let t = update_spec(s, Message::HoverEnter(key)).0;
            &&& s.hover_generation < u64::MAX ==> t.hover_generation == s.hover_generation + 1
            &&& s.hover_generation == u64::MAX ==> t.hover_generation == 0
            &&& t.hover_key == Some(key)
        }),
{
}

// ---------------------------------------------------------------------------
// The background task
// ---------------------------------------------------------------------------

/// A snapshot is sent as soon as the connection is made; only a shutdown
/// command stops the poll loop, and only a new interval changes the interval.
pub proof fn lemma_poll_stops_only_on_shutdown(interval: u64, event: PollEvent)
    ensures
        event is Connected ==> poll_step_spec(interval, event) == (interval, PollAction::SendSnapshot),
        (poll_step_spec(interval, event).1 is Stop) <==> (event matches PollEvent::Command(cmd)
            && cmd is Shutdown),
        poll_step_spec(interval, event).0 != interval ==> (event matches PollEvent::Command(cmd)
            && cmd is SetInterval),
{
}

/// Once finished, the connection loop stays finished and announces
/// nothing; the UI is told the daemon is unreachable exactly when the loop
/// starts waiting to retry.
pub proof fn lemma_link_phases(phase: LinkPhase, event: LinkEvent)
    ensures
        phase == LinkPhase::Finished ==> link_step_spec(phase, event) == (
            LinkPhase::Finished,
            None::<DaemonStateView>,
        ),
        phase != LinkPhase::Waiting && link_step_spec(phase, event).0 == LinkPhase::Waiting ==> (
        link_step_spec(phase, event).1 matches Some(d) && d is Unreachable),
        (link_step_spec(phase, event).1 matches Some(d) && d is Unreachable) ==> link_step_spec(
            phase,
            event,
        ).0 == LinkPhase::Waiting,
{
}

// ---------------------------------------------------------------------------
// The panel
// ---------------------------------------------------------------------------

proof fn lemma_pinned_numeric_members(hot: Seq<String>, m: Map<Seq<char>, Reading>)
    ensures
        forall|i: int|
            0 <= i < pinned_numeric(hot, m).len() ==> {
                let r = #[trigger] pinned_numeric(hot, m)[i];
                &&& r.kind is Numeric
                &&& exists|k: Seq<char>| m.contains_key(k) && m[k] == r && contains_text(hot, k)
            },
    decreases hot.len(),
{
    if hot.len() > 0 {
        let d = hot.drop_last();
        lemma_pinned_numeric_members(d, m);
        let p = pinned_numeric(hot, m);
        assert forall|i: int| 0 <= i < p.len() implies {
            let r = #[trigger] p[i];
            &&& r.kind is Numeric
            &&& exists|k: Seq<char>| m.contains_key(k) && m[k] == r && contains_text(hot, k)
        } by {
            let q = pinned_numeric(d, m);
            if i < q.len() {
                assert(p[i] == q[i]);
                let k = choose|k: Seq<char>| m.contains_key(k) && m[k] == q[i] && contains_text(d, k);
                let j = choose|j: int| 0 <= j < d.len() && #[trigger] d[j]@ == k;
                assert(hot[j] == d[j]);
                assert(contains_text(hot, k));
            } else {
                let k = hot.last()@;
                assert(hot[hot.len() - 1]@ == k);
                assert(contains_text(hot, k));
            }
        }
    }
}

/// The panel shows at most four chips, each a numeric reading of the
/// snapshot stored under a pinned key.
pub proof fn lemma_panel_chips(hot: Seq<String>, m: Map<Seq<char>, Reading>)
    ensures
        panel_chips_spec(hot, m).len() <= 4,
        forall|i: int|
            0 <= i < panel_chips_spec(hot, m).len() ==> {
                let r = #[trigger] panel_chips_spec(hot, m)[i];
                &&& r.kind is Numeric
                &&& exists|k: Seq<char>| m.contains_key(k) && m[k] == r && contains_text(hot, k)
            },
{
    lemma_pinned_numeric_members(hot, m);
    let p = pinned_numeric(hot, m);
    let c = panel_chips_spec(hot, m);
    assert forall|i: int| 0 <= i < c.len() implies {
        let r = #[trigger] c[i];
        &&& r.kind is Numeric
        &&& exists|k: Seq<char>| m.contains_key(k) && m[k] == r && contains_text(hot, k)
    } by {
        assert(c[i] == p[i]);
    }
}

// ---------------------------------------------------------------------------
// What each operation is for, stated without its own definitions
// ---------------------------------------------------------------------------

/// Within a group of the popup, readings come in increasing order of label
/// (in the order of strings); the key only breaks ties between equal labels.
pub proof fn lemma_groups_sorted_by_label(
    m: Map<Seq<char>, Reading>,
    g: Seq<(Category, Vec<Reading>)>,
    i: int,
    a: int,
    b: int,
)
    requires
        is_grouping(m, g),
        0 <= i < g.len(),
        0 <= a < b < g[i].1@.len(),
    ensures
        !text_lt(g[i].1@[b].label@, g[i].1@[a].label@),
        g[i].1@[a].label@ == g[i].1@[b].label@ ==> text_lt(g[i].1@[a].key@, g[i].1@[b].key@),
{
    let x = g[i].1@[a];
    let y = g[i].1@[b];
    assert(reading_lt(x, y));
    lemma_text_order(x.label@, y.label@, y.label@);
}

/// A text entry of a poll whose category string names a category is stored
/// under its key as a text reading of that category, with its label and text
/// (the daemon's replies have distinct keys).
pub proof fn lemma_text_entry_stored(
    numeric: Seq<(String, NumericTuple)>,
    text: Seq<(String, TextTuple)>,
    i: int,
)
    requires
        numeric_keys_unique(numeric),
        text_keys_unique(text),
        0 <= i < text.len(),
        category_from_text(text[i].1.2@) is Some,
    ensures
        snapshot_of(numeric, text).contains_key(text[i].0@),
        snapshot_of(numeric, text)[text[i].0@] == (Reading {
            key: text[i].0,
            label: text[i].1.0,
            category: category_from_text(text[i].1.2@).unwrap(),
            kind: ReadingKind::Text(text[i].1.1),
        }),
{
    let k = text[i].0@;
    assert(text_reading(text[i].0, text[i].1) is Some);
    assert(has_text(text, k));
    lemma_snapshot_entry(numeric, text, k);
    let j = choose|j: int|
        0 <= j < text.len() && #[trigger] text[j].0@ == k && text_reading(text[j].0, text[j].1) is Some;
    assert(j == i) by {
        if j != i {
            assert(text[j].0@ != text[i].0@);
        }
    }
}

/// A numeric entry whose category and format strings are both known, and
/// whose key no known text entry takes, is stored under its key as a number
/// of that category and format, with its label and value.
pub proof fn lemma_numeric_entry_stored(
    numeric: Seq<(String, NumericTuple)>,
    text: Seq<(String, TextTuple)>,
    i: int,
)
    requires
        numeric_keys_unique(numeric),
        text_keys_unique(text),
        0 <= i < numeric.len(),
        category_from_text(numeric[i].1.2@) is Some,
        format_from_text(numeric[i].1.3@) is Some,
        !has_text(text, numeric[i].0@),
    ensures
        snapshot_of(numeric, text).contains_key(numeric[i].0@),
        snapshot_of(numeric, text)[numeric[i].0@] == (Reading {
            key: numeric[i].0,
            label: numeric[i].1.0,
            category: category_from_text(numeric[i].1.2@).unwrap(),
            kind: ReadingKind::Numeric {
                value_bits: numeric[i].1.1,
                format: format_from_text(numeric[i].1.3@).unwrap(),
            },
        }),
{
    let k = numeric[i].0@;
    assert(numeric_reading(numeric[i].0, numeric[i].1) is Some);
    assert(has_numeric(numeric, k));
    lemma_snapshot_entry(numeric, text, k);
    let j = choose|j: int|
        0 <= j < numeric.len() && #[trigger] numeric[j].0@ == k && numeric_reading(
            numeric[j].0,
            numeric[j].1,
        ) is Some;
    assert(j == i) by {
        if j != i {
            assert(numeric[j].0@ != numeric[i].0@);
        }
    }
}

/// The daemon's state as reported is the state the applet then holds, and
/// nothing else changes.
pub proof fn lemma_daemon_state_reported(s: VitalsView, d: DaemonState)
    ensures
        update_spec(s, Message::Dbus(DbusEvent::State(d))).0.daemon_state == d,
        update_spec(s, Message::Dbus(DbusEvent::State(d))).0 == (VitalsView {
            daemon_state: d,
            ..s
        }),
        update_spec(s, Message::Dbus(DbusEvent::State(d))).1.len() == 0,
{
}

/// A snapshot received is the snapshot the applet then holds.
pub proof fn lemma_snapshot_received(s: VitalsView, snap: crate::model::Snapshot)
    ensures
        update_spec(s, Message::Dbus(DbusEvent::Snapshot(Box::new(snap)))).0.snapshot == snap@,
        update_spec(s, Message::Dbus(DbusEvent::Snapshot(Box::new(snap)))).1.len() == 0,
{
}

/// Each preference message sets its own preference to the value given and
/// leaves the pinned sensors as they were.
pub proof fn lemma_preferences_set(s: VitalsView, u: u32, v: bool, c: String)
    ensures
        update_spec(s, Message::SetTemperatureUnit(u)).0.config.temperature_unit == u,
        update_spec(s, Message::SetMemoryMeasurement(u)).0.config.memory_measurement == u,
        update_spec(s, Message::SetStorageMeasurement(u)).0.config.storage_measurement == u,
        update_spec(s, Message::SetHigherPrecision(v)).0.config.use_higher_precision == v,
        update_spec(s, Message::SetAlphabetize(v)).0.config.alphabetize == v,
        update_spec(s, Message::SetHideZeros(v)).0.config.hide_zeros == v,
        update_spec(s, Message::SetIncludePublicIp(v)).0.config.include_public_ip == v,
        update_spec(s, Message::SetMonitorCmd(c)).0.config.monitor_cmd == c,
        update_spec(s, Message::SetTemperatureUnit(u)).0.config.hot_sensors == s.config.hot_sensors,
        update_spec(s, Message::SetHideZeros(v)).0.config.hot_sensors == s.config.hot_sensors,
        update_spec(s, Message::SetMonitorCmd(c)).0.config.hot_sensors == s.config.hot_sensors,
{
}

/// Opening a popup remembers it; the preferences open and close on request.
pub proof fn lemma_popup_and_prefs(s: VitalsView, id: u64)
    ensures
        update_spec(s, Message::PopupOpened(id)).0.popup == Some(id),
        update_spec(s, Message::OpenPrefs).0.prefs_open,
        !update_spec(s, Message::ClosePrefs).0.prefs_open,
        update_spec(s, Message::HoverLeave).0.hover_key is None,
{
}

/// Refresh and retry ask the background task for a poll (once it exists);
/// the monitor is launched with the configured command unless it is empty;
/// when the channel arrives the task is told the interval, at least a second.
pub proof fn lemma_requests(s: VitalsView)
    ensures
        s.channel_ready ==> update_spec(s, Message::RefreshNow).1 == seq![
            Effect::Send(DbusCmd::RefreshNow),
        ],
        s.channel_ready ==> update_spec(s, Message::RetryDaemon).1 == seq![
            Effect::Send(DbusCmd::RefreshNow),
        ],
        s.config.monitor_cmd@.len() > 0 ==> update_spec(s, Message::OpenMonitor).1 == seq![
            Effect::LaunchMonitor(s.config.monitor_cmd),
        ],
        s.config.monitor_cmd@.len() == 0 ==> update_spec(s, Message::OpenMonitor).1.len() == 0,
        update_spec(s, Message::DbusChannel).0.channel_ready,
        update_spec(s, Message::DbusChannel).1.len() == 1,
        update_spec(s, Message::DbusChannel).1[0] matches Effect::Send(DbusCmd::SetInterval(secs))
            && secs >= 1 && (s.config.update_time >= 1 ==> secs == s.config.update_time),
{
}

/// How many of the first `i` pinned keys hold a numeric reading in `m`.
pub open spec fn numeric_pins_before(hot: Seq<String>, m: Map<Seq<char>, Reading>, i: int) -> nat
    decreases i,
{
    if i <= 0 {
        0
    } else {
        let k = hot[i - 1]@;
        numeric_pins_before(hot, m, i - 1) + if m.contains_key(k) && m[k].kind is Numeric {
            1nat
        } else {
            0nat
        }
    }
}

proof fn lemma_pinned_count(hot: Seq<String>, m: Map<Seq<char>, Reading>, i: int)
    requires
        0 <= i <= hot.len(),
    ensures
        pinned_numeric(hot.take(i), m).len() == numeric_pins_before(hot, m, i),
    decreases i,
{
    if i > 0 {
        lemma_pinned_count(hot, m, i - 1);
        assert(hot.take(i).drop_last() =~= hot.take(i - 1));
    }
}

/// A pinned key that holds a numeric reading (of any format) gets a chip when
/// fewer than four earlier pinned keys do; its chip comes after theirs.
pub proof fn lemma_pinned_numeric_gets_chip(hot: Seq<String>, m: Map<Seq<char>, Reading>, i: int)
    requires
        0 <= i < hot.len(),
        m.contains_key(hot[i]@),
        m[hot[i]@].kind is Numeric,
        numeric_pins_before(hot, m, i) < 4,
    ensures
        numeric_pins_before(hot, m, i) < panel_chips_spec(hot, m).len(),
        panel_chips_spec(hot, m)[numeric_pins_before(hot, m, i) as int] == m[hot[i]@],
{
    let n = numeric_pins_before(hot, m, i);
    lemma_pinned_count(hot, m, i);
    lemma_pinned_prefix(hot, m, i + 1);
    assert(hot.take(i + 1).drop_last() =~= hot.take(i));
    assert(hot.take(i + 1).last() == hot[i]);
    let p = pinned_numeric(hot.take(i + 1), m);
    assert(p == pinned_numeric(hot.take(i), m).push(m[hot[i]@]));
    assert(p[n as int] == m[hot[i]@]);
    let all = pinned_numeric(hot, m);
    assert(all.take(p.len() as int)[n as int] == all[n as int]);
}

proof fn lemma_group_of_found(g: Seq<(Category, Vec<Reading>)>, c: Category)
    ensures
        group_of(g, c) matches Some(rs) ==> exists|j: int|
            0 <= j < g.len() && #[trigger] g[j].0 == c && g[j].1@ == rs,
        group_of(g, c) is None ==> forall|j: int| 0 <= j < g.len() ==> #[trigger] g[j].0 != c,
    decreases g.len(),
{
    if g.len() > 0 {
        let d = g.drop_first();
        lemma_group_of_found(d, c);
        if g[0].0 != c {
            if group_of(g, c) is Some {
                let j = choose|j: int| 0 <= j < d.len() && #[trigger] d[j].0 == c && d[j].1@
                    == group_of(g, c).unwrap();
                assert(g[j + 1] == d[j]);
            } else {
                assert forall|j: int| 0 <= j < g.len() implies #[trigger] g[j].0 != c by {
                    if j > 0 {
                        assert(g[j] == d[j - 1]);
                    }
                }
            }
        } else {
            assert(g[0].0 == c);
        }
    }
}

/// Each section of the popup lists the whole group of its category, and
/// every category of the order that has readings gets its section (the
/// grouping names each category once).
pub proof fn lemma_sections_list_whole_groups(
    order: Seq<Category>,
    g: Seq<(Category, Vec<Reading>)>,
)
    ensures
        forall|i: int|
            0 <= i < sections_spec(order, g).len() ==> exists|j: int|
                0 <= j < g.len() && g[j].0 == (#[trigger] sections_spec(order, g)[i]).0 && g[j].1@
                    == sections_spec(order, g)[i].1 && g[j].1@.len() > 0,
        (forall|a: int, b: int| 0 <= a < b < g.len() ==> #[trigger] g[a].0 != #[trigger] g[b].0)
            ==> forall|j: int|
            0 <= j < g.len() && order.contains(#[trigger] g[j].0) && g[j].1@.len() > 0
                ==> exists|i: int|
                0 <= i < sections_spec(order, g).len() && #[trigger] sections_spec(order, g)[i]
                    == (g[j].0, g[j].1@),
    decreases order.len(),
{
    if order.len() > 0 {
        let d = order.drop_last();
        let c = order.last();
        lemma_sections_list_whole_groups(d, g);
        lemma_group_of_found(g, c);
        let prev = sections_spec(d, g);
        let cur = sections_spec(order, g);
        assert forall|i: int| 0 <= i < cur.len() implies exists|j: int|
            0 <= j < g.len() && g[j].0 == (#[trigger] cur[i]).0 && g[j].1@ == cur[i].1 && g[j].1@.len()
                > 0 by {
            if i < prev.len() {
                assert(cur[i] == prev[i]);
            } else {
                let rs = group_of(g, c).unwrap();
                assert(cur[i] == (c, rs));
            }
        }
        if forall|a: int, b: int| 0 <= a < b < g.len() ==> #[trigger] g[a].0 != #[trigger] g[b].0 {
            assert forall|j: int|
                0 <= j < g.len() && order.contains(#[trigger] g[j].0) && g[j].1@.len()
                    > 0 implies exists|i: int|
                0 <= i < cur.len() && #[trigger] cur[i] == (g[j].0, g[j].1@) by {
                let cc = g[j].0;
                let w = choose|w: int| 0 <= w < order.len() && order[w] == cc;
                if w < d.len() {
                    assert(d[w] == cc);
                    assert(d.contains(cc));
                    let i = choose|i: int| 0 <= i < prev.len() && #[trigger] prev[i] == (cc, g[j].1@);
                    assert(cur[i] == prev[i]);
                } else {
                    assert(cc == c);
                    let rs = group_of(g, c).unwrap();
                    let j2 = choose|j2: int| 0 <= j2 < g.len() && #[trigger] g[j2].0 == c && g[j2].1@ == rs;
                    if j2 != j {
                        if j2 < j {
                            assert(g[j2].0 != g[j].0);
                        } else {
                            assert(g[j].0 != g[j2].0);
                        }
                    }
                    assert(cur[prev.len() as int] == (cc, g[j].1@));
                }
            }
        }
    }
}

/// The popup's sections start with the fixed order.
pub proof fn lemma_section_order_starts_fixed(g: Seq<(Category, Vec<Reading>)>)
    ensures
        section_order_spec(g).len() >= display_order_spec().len(),
        section_order_spec(g).take(display_order_spec().len() as int) == display_order_spec(),
{
    lemma_with_gpus_prefix(display_order_spec(), group_categories(g));
}

proof fn lemma_with_gpus_prefix(order: Seq<Category>, cats: Seq<Category>)
    ensures
        with_gpus(order, cats).len() >= order.len(),
        with_gpus(order, cats).take(order.len() as int) == order,
    decreases cats.len(),
{
    if cats.len() > 0 {
        lemma_with_gpus_prefix(order, cats.drop_last());
        let prev = with_gpus(order, cats.drop_last());
        assert(prev.push(cats.last()).take(order.len() as int) =~= prev.take(order.len() as int));
    } else {
        assert(order.take(order.len() as int) =~= order);
    }
}

// ---------------------------------------------------------------------------
// Names, numbers and order of texts
// ---------------------------------------------------------------------------

/// `parse` accepts nothing but the daemon's names: a category other than a
/// GPU only from its own name, a GPU only from `gpu#` followed by a number.
pub proof fn lemma_parse_accepts_only_names(s: Seq<char>)
    ensures
        match category_from_text(s) {
            Some(Category::Gpu(n)) => s.len() > 4 && s.take(4) == "gpu#"@ && parse_u8_spec(s.skip(4))
                == Some(n),
            Some(c) => s == category_wire(c),
            None => true,
        },
{
    reveal_strlit("gpu#");
    reveal_strlit("temperature");
    reveal_strlit("voltage");
    reveal_strlit("fan");
    reveal_strlit("memory");
    reveal_strlit("processor");
    reveal_strlit("system");
    reveal_strlit("network");
    reveal_strlit("storage");
    reveal_strlit("battery");
    if let Some(Category::Gpu(n)) = category_from_text(s) {
        assert(s.take(4) == "gpu#"@);
        if s.len() == 4 {
            assert(s.skip(4).len() == 0);
        }
    }
}

/// `parse_format` accepts nothing but the daemon's format names.
pub proof fn lemma_parse_format_accepts_only_names(s: Seq<char>)
    ensures
        match format_from_text(s) {
            Some(f) => s == format_wire(f),
            None => true,
        },
{
}

/// Reading a byte: an optional `+` and leading zeros are accepted, an empty
/// text is not, a non-digit after the first character is not, and neither is
/// a number above 255.
pub proof fn lemma_parse_u8_shapes(n: u8, s: Seq<char>, i: int)
    ensures
        parse_u8_spec(seq!['+'] + decimal(n as nat)) == Some(n),
        parse_u8_spec(seq!['0'] + decimal(n as nat)) == Some(n),
        parse_u8_spec(Seq::<char>::empty()) is None,
        1 <= i < s.len() && !is_digit(s[i]) ==> parse_u8_spec(s) is None,
        all_digits(s) && s.len() > 0 && digits_value(s) > 255 ==> parse_u8_spec(s) is None,
{
    lemma_decimal(n as nat);
    let d = decimal(n as nat);
    let p = seq!['+'] + d;
    assert(p.drop_first() =~= d);
    let z = seq!['0'] + d;
    assert(z[0] == '0');
    assert(all_digits(z)) by {
        assert forall|j: int| 0 <= j < z.len() implies is_digit(#[trigger] z[j]) by {
            if j > 0 {
                assert(z[j] == d[j - 1]);
            }
        }
    }
    lemma_leading_zero(d);
    if 1 <= i < s.len() && !is_digit(s[i]) {
        if s[0] == '+' {
            assert(s.drop_first()[i - 1] == s[i]);
        }
    }
}

proof fn lemma_leading_zero(d: Seq<char>)
    ensures
        digits_value(seq!['0'] + d) == digits_value(d),
    decreases d.len(),
{
    let z = seq!['0'] + d;
    if d.len() == 0 {
        assert(z.drop_last() =~= Seq::<char>::empty());
        assert(z.last() == '0');
        assert(('0' as int) == 48);
        assert(digits_value(z) == digits_value(z.drop_last()) * 10 + crate::text::digit_value(
            z.last(),
        ));
    } else {
        lemma_leading_zero(d.drop_last());
        assert(z.drop_last() =~= seq!['0'] + d.drop_last());
        assert(z.last() == d.last());
    }
}

/// The order of texts compares characters by code point, a proper prefix
/// comes first, and the empty text comes before every other.
pub proof fn lemma_text_lt_shapes(x: char, y: char, a: Seq<char>, b: Seq<char>)
    ensures
        text_lt(seq![x], seq![y]) <==> (x as int) < (y as int),
        b.len() > 0 ==> text_lt(a, a + b),
        b.len() > 0 ==> text_lt(Seq::<char>::empty(), b),
        text_lt(seq![x] + a, seq![y] + b) <==> ((x as int) < (y as int) || (x == y && text_lt(a, b))),
{
    assert(lt_from(seq![x], seq![y], 1) == false);
    lemma_prefix_lt(a, b, 0);
    lemma_shift(x, y, a, b, 0);
}

proof fn lemma_prefix_lt(a: Seq<char>, b: Seq<char>, i: int)
    requires
        0 <= i <= a.len(),
    ensures
        b.len() > 0 ==> lt_from(a, a + b, i),
    decreases a.len() - i,
{
    if i < a.len() {
        lemma_prefix_lt(a, b, i + 1);
        assert((a + b)[i] == a[i]);
    }
}

proof fn lemma_shift(x: char, y: char, a: Seq<char>, b: Seq<char>, i: int)
    requires
        0 <= i,
    ensures
        i == 0 ==> (lt_from(seq![x] + a, seq![y] + b, 0) <==> ((x as int) < (y as int) || (x == y
            && lt_from(a, b, 0)))),
        i > 0 ==> lt_from(seq![x] + a, seq![y] + b, i) == lt_from(a, b, i - 1),
    decreases a.len() + 1 - i,
{
    let p = seq![x] + a;
    let q = seq![y] + b;
    if i < p.len() && i < q.len() {
        if i > 0 {
            assert(p[i] == a[i - 1] && q[i] == b[i - 1]);
        }
        if p[i] == q[i] {
            lemma_shift(x, y, a, b, i + 1);
        }
    }
    if i == 0 {
        assert(p[0] == x && q[0] == y);
    }
}

// ---------------------------------------------------------------------------
// More on what the operations do
// ---------------------------------------------------------------------------

/// A key under which no entry names a known category (and, for numbers, a
/// known format) is not in the poll's snapshot.
pub proof fn lemma_unknown_entries_dropped(
    numeric: Seq<(String, NumericTuple)>,
    text: Seq<(String, TextTuple)>,
    k: Seq<char>,
)
    requires
        numeric_keys_unique(numeric),
        text_keys_unique(text),
        forall|i: int|
            0 <= i < text.len() && #[trigger] text[i].0@ == k ==> category_from_text(text[i].1.2@) is None,
        forall|i: int|
            0 <= i < numeric.len() && #[trigger] numeric[i].0@ == k ==> category_from_text(
                numeric[i].1.2@,
            ) is None || format_from_text(numeric[i].1.3@) is None,
    ensures
        !snapshot_of(numeric, text).contains_key(k),
{
    lemma_snapshot_entry(numeric, text, k);
}

/// A report that the daemon saved or refused the config, and a no-op, change
/// nothing and ask for nothing.
pub proof fn lemma_inert_messages(s: VitalsView, ok: bool)
    ensures
        update_spec(s, Message::Dbus(DbusEvent::SaveResult(ok))) == (s, Seq::<Effect>::empty()),
        update_spec(s, Message::Noop) == (s, Seq::<Effect>::empty()),
{
}

/// Each preference message changes that one preference and nothing else of
/// the state.
pub proof fn lemma_preferences_frame(s: VitalsView, u: u32, v: bool, c: String)
    ensures
        update_spec(s, Message::SetTemperatureUnit(u)).0 == (VitalsView {
            config: crate::app::SettingsView { temperature_unit: u, ..s.config },
            ..s
        }),
        update_spec(s, Message::SetMemoryMeasurement(u)).0 == (VitalsView {
            config: crate::app::SettingsView { memory_measurement: u, ..s.config },
            ..s
        }),
        update_spec(s, Message::SetStorageMeasurement(u)).0 == (VitalsView {
            config: crate::app::SettingsView { storage_measurement: u, ..s.config },
            ..s
        }),
        update_spec(s, Message::SetHigherPrecision(v)).0 == (VitalsView {
            config: crate::app::SettingsView { use_higher_precision: v, ..s.config },
            ..s
        }),
        update_spec(s, Message::SetAlphabetize(v)).0 == (VitalsView {
            config: crate::app::SettingsView { alphabetize: v, ..s.config },
            ..s
        }),
        update_spec(s, Message::SetHideZeros(v)).0 == (VitalsView {
            config: crate::app::SettingsView { hide_zeros: v, ..s.config },
            ..s
        }),
        update_spec(s, Message::SetIncludePublicIp(v)).0 == (VitalsView {
            config: crate::app::SettingsView { include_public_ip: v, ..s.config },
            ..s
        }),
        update_spec(s, Message::SetMonitorCmd(c)).0 == (VitalsView {
            config: crate::app::SettingsView { monitor_cmd: c, ..s.config },
            ..s
        }),
{
}

/// Every poll event but a command, and a refresh command, asks for a
/// snapshot; history and save requests are passed on as they came.
pub proof fn lemma_poll_requests(interval: u64, key: String, g: u64, toml: String)
    ensures
        poll_step_spec(interval, PollEvent::Tick) == (interval, PollAction::SendSnapshot),
        poll_step_spec(interval, PollEvent::ReadingsChanged) == (interval, PollAction::SendSnapshot),
        poll_step_spec(interval, PollEvent::Command(DbusCmd::RefreshNow)) == (
            interval,
            PollAction::SendSnapshot,
        ),
        poll_step_spec(interval, PollEvent::Command(DbusCmd::FetchHistory(key, g))) == (
            interval,
            PollAction::FetchHistory(key, g),
        ),
        poll_step_spec(interval, PollEvent::Command(DbusCmd::SaveConfig(toml))) == (
            interval,
            PollAction::SaveConfig(toml),
        ),
        poll_step_spec(interval, PollEvent::Command(DbusCmd::SetInterval(g))) == (
            g,
            PollAction::RestartTicker(g),
        ),
{
}

/// When the loop starts waiting because of an error, the reason announced
/// ends with that error's text; a ready proxy is announced as connected and
/// polling starts; after the pause the loop connects again.
pub proof fn lemma_link_reasons(e: String)
    ensures
        link_step_spec(LinkPhase::Connecting, LinkEvent::SessionFailed(e)).1 matches Some(
            DaemonStateView::Unreachable(why),
        ) && why.len() >= e@.len() && why.skip(why.len() - e@.len()) == e@,
        link_step_spec(LinkPhase::Connecting, LinkEvent::ProxyFailed(e)).1 matches Some(
            DaemonStateView::Unreachable(why),
        ) && why.len() >= e@.len() && why.skip(why.len() - e@.len()) == e@,
        link_step_spec(LinkPhase::Polling, LinkEvent::PollFailed(e)).1 == Some(
            DaemonStateView::Unreachable(e@),
        ),
        link_step_spec(LinkPhase::Connecting, LinkEvent::ProxyReady) == (
            LinkPhase::Polling,
            Some(DaemonStateView::Connected),
        ),
        link_step_spec(LinkPhase::Waiting, LinkEvent::RetryElapsed) == (
            LinkPhase::Connecting,
            None::<DaemonStateView>,
        ),
        link_step_spec(LinkPhase::Polling, LinkEvent::PollStopped) == (
            LinkPhase::Finished,
            None::<DaemonStateView>,
        ),
        link_step_spec(LinkPhase::Waiting, LinkEvent::CommandWhileWaiting(DbusCmd::Shutdown)) == (
            LinkPhase::Finished,
            None::<DaemonStateView>,
        ),
        link_step_spec(LinkPhase::Waiting, LinkEvent::CommandWhileWaiting(DbusCmd::RefreshNow)) == (
            LinkPhase::Connecting,
            None::<DaemonStateView>,
        ),
{
    let a = "session bus: "@ + e@;
    assert(a.skip(a.len() - e@.len()) =~= e@);
    let b = "proxy: "@ + e@;
    assert(b.skip(b.len() - e@.len()) =~= e@);
}

/// The status line names the daemon's error when it is unreachable, and
/// there is none once it is connected.
pub proof fn lemma_status_line(d: DaemonState)
    ensures
        d is Connected ==> status_text_spec(d) is None,
        !(d is Connected) ==> status_text_spec(d) is Some,
        d matches DaemonState::Unreachable(why) ==> ({
            let t = status_text_spec(d).unwrap();
            t.len() >= why@.len() && t.skip(t.len() - why@.len()) == why@
        }),
{
    if let DaemonState::Unreachable(why) = d {
        let t = "Daemon unreachable: "@ + why@;
        assert(t.skip(t.len() - why@.len()) =~= why@);
    }
}

/// The popup's sections are those of the fixed order and the GPUs that have
/// readings, nothing else.
pub proof fn lemma_section_order_only_known(g: Seq<(Category, Vec<Reading>)>, c: Category)
    ensures
        section_order_spec(g).contains(c) ==> display_order_spec().contains(c) || group_categories(
            g,
        ).contains(c),
{
    lemma_display_order(c);
    lemma_with_gpus(display_order_spec(), group_categories(g));
}

/// Whether `a` stands before `b` in `order`.
pub open spec fn stands_before(order: Seq<Category>, a: Category, b: Category) -> bool {
    exists|p: int, q: int| 0 <= p < q < order.len() && #[trigger] order[p] == a && #[trigger] order[q] == b
}

/// The popup's sections come in the order given: each section's category is
/// in the order, and a section before another has its category earlier.
pub proof fn lemma_sections_follow_order(order: Seq<Category>, g: Seq<(Category, Vec<Reading>)>)
    ensures
        forall|i: int|
            0 <= i < sections_spec(order, g).len() ==> order.contains(
                (#[trigger] sections_spec(order, g)[i]).0,
            ),
        forall|i: int, j: int|
            0 <= i < j < sections_spec(order, g).len() ==> stands_before(
                order,
                (#[trigger] sections_spec(order, g)[i]).0,
                (#[trigger] sections_spec(order, g)[j]).0,
            ),
    decreases order.len(),
{
    if order.len() > 0 {
        let d = order.drop_last();
        lemma_sections_follow_order(d, g);
        let prev = sections_spec(d, g);
        let cur = sections_spec(order, g);
        assert forall|i: int| 0 <= i < cur.len() implies order.contains((#[trigger] cur[i]).0) by {
            if i < prev.len() {
                assert(cur[i] == prev[i]);
                assert(d.contains(prev[i].0));
                let p = choose|p: int| 0 <= p < d.len() && d[p] == prev[i].0;
                assert(order[p] == d[p]);
            } else {
                assert(cur[i].0 == order[order.len() - 1]);
            }
        }
        assert forall|i: int, j: int| 0 <= i < j < cur.len() implies stands_before(
            order,
            (#[trigger] cur[i]).0,
            (#[trigger] cur[j]).0,
        ) by {
            assert(cur[i] == prev[i]);
            if j < prev.len() {
                assert(cur[j] == prev[j]);
                assert(stands_before(d, prev[i].0, prev[j].0));
                let (p, q) = choose|p: int, q: int|
                    0 <= p < q < d.len() && #[trigger] d[p] == prev[i].0 && #[trigger] d[q] == prev[j].0;
                assert(order[p] == d[p] && order[q] == d[q]);
            } else {
                assert(d.contains(prev[i].0));
                let p = choose|p: int| 0 <= p < d.len() && d[p] == prev[i].0;
                let q = order.len() - 1;
                assert(order[p] == d[p]);
                assert(cur[j].0 == order[q]);
            }
        }
    }
}

/// Distinct icon keys of categories get distinct icons, the processor gets
/// the CPU icon, and no category gets a network-direction icon.
pub proof fn lemma_category_icons(a: Category, b: Category)
    ensures
        category_icon(a) != category_icon(b) ==> icon_for_spec(category_icon(a)) != icon_for_spec(
            category_icon(b),
        ),
        icon_for_spec(category_icon(Category::Processor)) == IconAsset::Cpu,
        icon_for_spec(category_icon(a)) != IconAsset::NetworkUp,
        icon_for_spec(category_icon(a)) != IconAsset::NetworkDown,
{
    reveal_strlit("temperature");
    assert("temperature"@.len() == 11 && "temperature"@[0] == 't');
    reveal_strlit("voltage");
    assert("voltage"@.len() == 7 && "voltage"@[0] == 'v');
    reveal_strlit("fan");
    assert("fan"@.len() == 3 && "fan"@[0] == 'f');
    reveal_strlit("memory");
    assert("memory"@.len() == 6 && "memory"@[0] == 'm');
    reveal_strlit("processor");
    assert("processor"@.len() == 9 && "processor"@[0] == 'p');
    reveal_strlit("system");
    assert("system"@.len() == 6 && "system"@[0] == 's');
    reveal_strlit("network");
    assert("network"@.len() == 7 && "network"@[0] == 'n');
    reveal_strlit("network-down");
    assert("network-down"@.len() == 12 && "network-down"@[0] == 'n');
    reveal_strlit("network-up");
    assert("network-up"@.len() == 10 && "network-up"@[0] == 'n');
    reveal_strlit("storage");
    assert("storage"@.len() == 7 && "storage"@[0] == 's');
    reveal_strlit("battery");
    assert("battery"@.len() == 7 && "battery"@[0] == 'b');
    reveal_strlit("gpu");
    assert("gpu"@.len() == 3 && "gpu"@[0] == 'g');
}

/// The grouping of a snapshot keeps every reading, once, under its own
/// category, with the categories in increasing order and no empty group.
pub proof fn lemma_grouping_complete(m: Map<Seq<char>, Reading>, g: Seq<(Category, Vec<Reading>)>, k: Seq<char>)
    requires
        is_grouping(m, g),
    ensures
        m.contains_key(k) ==> exists|i: int, a: int|
            0 <= i < g.len() && 0 <= a < g[i].1@.len() && #[trigger] g[i].1@[a] == m[k] && g[i].0
                == m[k].category,
        forall|i: int, a: int|
            0 <= i < g.len() && 0 <= a < g[i].1@.len() ==> m.contains_key((#[trigger] g[i].1@[a]).key@)
                && m[g[i].1@[a].key@] == g[i].1@[a],
        forall|i: int| 0 <= i < g.len() ==> (#[trigger] g[i].1@).len() > 0,
        forall|i: int, j: int|
            0 <= i < j < g.len() ==> category_rank(#[trigger] g[i].0) < category_rank(#[trigger] g[j].0),
{
    if m.contains_key(k) {
        let (i, a) = choose|i: int, a: int|
            0 <= i < g.len() && 0 <= a < g[i].1@.len() && #[trigger] g[i].1@[a] == m[k];
        assert(g[i].1@[a].category == g[i].0);
    }
}

/// Toggling a pin through the applet flips whether that key is pinned and
/// leaves the other keys as they were (no key pinned twice).
pub proof fn lemma_toggle_message(s: VitalsView, key: String, other: Seq<char>)
    requires
        texts_distinct(s.config.hot_sensors),
    ensures
        ({
            let t = update_spec(s, Message::ToggleStar(key)).0;
            &&& contains_text(t.config.hot_sensors, key@) == !contains_text(s.config.hot_sensors, key@)
            &&& other != key@ ==> contains_text(t.config.hot_sensors, other) == contains_text(
                s.config.hot_sensors,
                other,
            )
            &&& texts_distinct(t.config.hot_sensors)
            &&& t.config.update_time == s.config.update_time
            &&& t.snapshot == s.snapshot
        }),
{
    lemma_toggle_star_flips(s.config.hot_sensors, key, other);
}

} // verus!
