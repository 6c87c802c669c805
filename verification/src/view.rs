//! What the panel and the popup show, decided from the state: the pinned
//! chips of the panel, the order of the popup's sections, the status line,
//! and whether a click opens or closes the popup.
use vstd::prelude::*;

use crate::app::contains_text;
use crate::model::{display_order_spec, is_gpu, Category, DaemonState, Reading, Snapshot};
use crate::text::same_text;

verus! {

/// Most chips the panel shows.
pub const MAX_CHIPS: usize = 4;

/// The numeric readings of the pinned keys that the snapshot holds, in
/// pinning order.
pub open spec fn pinned_numeric(hot: Seq<String>, m: Map<Seq<char>, Reading>) -> Seq<Reading>
    decreases hot.len(),
{
    if hot.len() == 0 {
        Seq::empty()
    } else {
        let prev = pinned_numeric(hot.drop_last(), m);
        let k = hot.last()@;
        if m.contains_key(k) && m[k].kind is Numeric {
            prev.push(m[k])
        } else {
            prev
        }
    }
}

/// The panel's chips: the first four pinned numeric readings.
pub open spec fn panel_chips_spec(hot: Seq<String>, m: Map<Seq<char>, Reading>) -> Seq<Reading> {
    let p = pinned_numeric(hot, m);
    if p.len() <= MAX_CHIPS {
        p
    } else {
        p.take(MAX_CHIPS as int)
    }
}

/// The readings found for a prefix of the pinned keys begin those found
/// for all of them.
pub proof fn lemma_pinned_prefix(hot: Seq<String>, m: Map<Seq<char>, Reading>, i: int)
    requires
        0 <= i <= hot.len(),
    ensures
        pinned_numeric(hot.take(i), m).len() <= pinned_numeric(hot, m).len(),
        pinned_numeric(hot, m).take(pinned_numeric(hot.take(i), m).len() as int) == pinned_numeric(
            hot.take(i),
            m,
        ),
    decreases hot.len(),
{
    if i == hot.len() {
        assert(hot.take(i) =~= hot);
        assert(pinned_numeric(hot, m).take(pinned_numeric(hot, m).len() as int) =~= pinned_numeric(
            hot,
            m,
        ));
    } else {
        let d = hot.drop_last();
        lemma_pinned_prefix(d, m, i);
        assert(d.take(i) =~= hot.take(i));
        let p = pinned_numeric(d.take(i), m);
        assert(pinned_numeric(hot, m).take(p.len() as int) =~= pinned_numeric(d, m).take(
            p.len() as int,
        ));
    }
}

/// The chips of the panel: up to four pinned sensors that the snapshot holds
/// and that are numeric, in pinning order.
pub fn panel_chips(hot: &Vec<String>, snap: &Snapshot) -> (r: Vec<Reading>)
    ensures
        r@ == panel_chips_spec(hot@, snap@),
{
    let n = hot.len();
    let mut chips: Vec<Reading> = Vec::new();
    let mut i: usize = 0;
    while i < n && chips.len() < MAX_CHIPS
        invariant
            n == hot@.len(),
            i <= n,
            chips@ == pinned_numeric(hot@.take(i as int), snap@),
            chips@.len() <= MAX_CHIPS,
        decreases n - i,
    {
        assert(hot@.take(i + 1).drop_last() =~= hot@.take(i as int));
        match snap.get(hot[i].as_str()) {
            Some(reading) => {
                if reading.is_numeric() {
                    chips.push(reading.duplicate());
                }
            },
            None => {},
        }
        i = i + 1;
    }
    proof {
        lemma_pinned_prefix(hot@, snap@, i as int);
        if i == n {
            assert(hot@.take(i as int) =~= hot@);
        }
    }
    chips
}

/// Whether `key` is pinned to the panel.
pub fn is_pinned(hot: &Vec<String>, key: &str) -> (r: bool)
    ensures
        r == contains_text(hot@, key@),
{
    let n = hot.len();
    let mut i: usize = 0;
    while i < n
        invariant
            n == hot@.len(),
            i <= n,
            forall|j: int| 0 <= j < i ==> hot@[j]@ != key@,
        decreases n - i,
    {
        if same_text(hot[i].as_str(), key) {
            return true;
        }
        i = i + 1;
    }
    false
}

/// `order` followed by the GPU categories of `cats` that it does not hold yet.
pub open spec fn with_gpus(order: Seq<Category>, cats: Seq<Category>) -> Seq<Category>
    decreases cats.len(),
{
    if cats.len() == 0 {
        order
    } else {
        let prev = with_gpus(order, cats.drop_last());
        let c = cats.last();
        if is_gpu(c) && !prev.contains(c) {
            prev.push(c)
        } else {
            prev
        }
    }
}

/// The categories of a grouping.
pub open spec fn group_categories(g: Seq<(Category, Vec<Reading>)>) -> Seq<Category> {
    g.map_values(|p: (Category, Vec<Reading>)| p.0)
}

/// The popup's section order: the fixed order, then the GPUs present.
pub open spec fn section_order_spec(g: Seq<(Category, Vec<Reading>)>) -> Seq<Category> {
    with_gpus(display_order_spec(), group_categories(g))
}

/// The readings grouped under `c`, if `g` has a group for it.
pub open spec fn group_of(g: Seq<(Category, Vec<Reading>)>, c: Category) -> Option<Seq<Reading>>
    decreases g.len(),
{
    if g.len() == 0 {
        None
    } else if g[0].0 == c {
        Some(g[0].1@)
    } else {
        group_of(g.drop_first(), c)
    }
}

/// The sections of the popup, in `order`: each category that has a
/// non-empty group, with that group.
pub open spec fn sections_spec(order: Seq<Category>, g: Seq<(Category, Vec<Reading>)>) -> Seq<
    (Category, Seq<Reading>),
>
    decreases order.len(),
{
    if order.len() == 0 {
        Seq::empty()
    } else {
        let prev = sections_spec(order.drop_last(), g);
        let c = order.last();
        match group_of(g, c) {
            Some(rs) => if rs.len() > 0 {
                prev.push((c, rs))
            } else {
                prev
            },
            None => prev,
        }
    }
}

/// The section order of the popup for a grouping of the readings.
pub fn section_order(g: &Vec<(Category, Vec<Reading>)>) -> (r: Vec<Category>)
    ensures
        r@ == section_order_spec(g@),
{
    let mut order = vstd::slice::slice_to_vec(Category::display_order());
    let n = g.len();
    let mut i: usize = 0;
    while i < n
        invariant
            n == g@.len(),
            i <= n,
            order@ == with_gpus(display_order_spec(), group_categories(g@).take(i as int)),
        decreases n - i,
    {
        let c = g[i].0;
        assert(group_categories(g@).take(i + 1).drop_last() =~= group_categories(g@).take(
            i as int,
        ));
        let is_gpu = match c {
            Category::Gpu(_) => true,
            _ => false,
        };
        if is_gpu && !contains_category(&order, c) {
            order.push(c);
        }
        i = i + 1;
    }
    assert(group_categories(g@).take(n as int) =~= group_categories(g@));
    order
}

fn contains_category(v: &Vec<Category>, c: Category) -> (r: bool)
    ensures
        r == v@.contains(c),
{
    let n = v.len();
    let mut i: usize = 0;
    while i < n
        invariant
            n == v@.len(),
            i <= n,
            forall|j: int| 0 <= j < i ==> v@[j] != c,
        decreases n - i,
    {
        if v[i] == c {
            return true;
        }
        i = i + 1;
    }
    false
}

fn find_group<'a>(g: &'a Vec<(Category, Vec<Reading>)>, c: Category) -> (r: Option<&'a Vec<Reading>>)
    ensures
        r is Some == group_of(g@, c) is Some,
        r is Some ==> r.unwrap()@ == group_of(g@, c).unwrap(),
{
    let n = g.len();
    let mut i: usize = 0;
    assert(g@.skip(0) =~= g@);
    while i < n
        invariant
            n == g@.len(),
            i <= n,
            group_of(g@, c) == group_of(g@.skip(i as int), c),
        decreases n - i,
    {
        assert(g@.skip(i as int).drop_first() =~= g@.skip(i + 1));
        if g[i].0 == c {
            return Some(&g[i].1);
        }
        i = i + 1;
    }
    None
}

/// The popup's sections: for each category of `order` with a non-empty
/// group in `g`, that category and its readings.
pub fn popup_sections(order: &Vec<Category>, g: &Vec<(Category, Vec<Reading>)>) -> (r: Vec<
    (Category, Vec<Reading>),
>)
    ensures
        r@.len() == sections_spec(order@, g@).len(),
        forall|i: int|
            0 <= i < r@.len() ==> (#[trigger] r@[i]).0 == sections_spec(order@, g@)[i].0 && r@[i].1@
                == sections_spec(order@, g@)[i].1,
{
    let n = order.len();
    let mut out: Vec<(Category, Vec<Reading>)> = Vec::new();
    let mut i: usize = 0;
    while i < n
        invariant
            n == order@.len(),
            i <= n,
            out@.len() == sections_spec(order@.take(i as int), g@).len(),
            forall|j: int|
                0 <= j < out@.len() ==> (#[trigger] out@[j]).0 == sections_spec(
                    order@.take(i as int),
                    g@,
                )[j].0 && out@[j].1@ == sections_spec(order@.take(i as int), g@)[j].1,
        decreases n - i,
    {
        let c = order[i];
        assert(order@.take(i + 1).drop_last() =~= order@.take(i as int));
        let ghost before = out@;
        let ghost prev = sections_spec(order@.take(i as int), g@);
        let ghost next = sections_spec(order@.take(i + 1), g@);
        match find_group(g, c) {
            Some(rs) => {
                if rs.len() > 0 {
                    let copy = copy_readings(rs);
                    out.push((c, copy));
                    proof {
                        assert(next == prev.push((c, rs@)));
                        assert forall|j: int| 0 <= j < out@.len() implies (#[trigger] out@[j]).0
                            == next[j].0 && out@[j].1@ == next[j].1 by {
                            if j < before.len() {
                                assert(out@[j] == before[j]);
                            }
                        }
                    }
                } else {
                    assert(next == prev);
                }
            },
            None => {
                assert(next == prev);
            },
        }
        i = i + 1;
    }
    assert(order@.take(n as int) =~= order@);
    out
}

fn copy_readings(rs: &Vec<Reading>) -> (r: Vec<Reading>)
    ensures
        r@ == rs@,
{
    let n = rs.len();
    let mut out: Vec<Reading> = Vec::new();
    let mut i: usize = 0;
    while i < n
        invariant
            n == rs@.len(),
            i <= n,
            out@ == rs@.take(i as int),
        decreases n - i,
    {
        out.push(rs[i].duplicate());
        assert(out@ =~= rs@.take(i + 1));
        i = i + 1;
    }
    assert(rs@.take(n as int) =~= rs@);
    out
}

/// The status line of the popup for the daemon's state.
pub open spec fn status_text_spec(d: DaemonState) -> Option<Seq<char>> {
    match d {
        DaemonState::Unreachable(why) => Some("Daemon unreachable: "@ + why@),
        DaemonState::Connecting => Some("Connecting to vitals-daemon\u{2026}"@),
        DaemonState::Connected => None,
    }
}

/// The status line shown above the sections, if any.
pub fn status_text(d: &DaemonState) -> (r: Option<String>)
    ensures
        r is Some == status_text_spec(*d) is Some,
        r is Some ==> r.unwrap()@ == status_text_spec(*d).unwrap(),
{
    match d {
        DaemonState::Unreachable(why) => {
            let mut t = String::from_str("Daemon unreachable: ");
            t.append(why.as_str());
            Some(t)
        },
        DaemonState::Connecting => Some(String::from_str("Connecting to vitals-daemon\u{2026}")),
        DaemonState::Connected => None,
    }
}

/// What a click on the panel button does to the popup surface.
#[derive(Debug, Clone, Copy, PartialEq, Eq, Structural)]
pub enum SurfaceRequest {
    /// Close the popup with this number.
    Destroy(u64),
    /// Open a new popup.
    Create,
}

/// Closes the existing popup when asked to close one, and opens a new one
/// otherwise.
pub fn popup_surface_action(open: bool, existing: Option<u64>) -> (r: SurfaceRequest)
    ensures
        r == (if !open && existing is Some {
            SurfaceRequest::Destroy(existing.unwrap())
        } else {
            SurfaceRequest::Create
        }),
{
    if !open {
        if let Some(id) = existing {
            return SurfaceRequest::Destroy(id);
        }
    }
    SurfaceRequest::Create
}

} // verus!
