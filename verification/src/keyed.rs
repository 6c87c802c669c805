//! A map from texts to values, kept as a vector of entries with distinct keys.
//!
//! The applet keys its readings and histories by `String`. vstd's
//! specification of `BTreeMap` holds only for key types that obey its model
//! of `Ord`, which `String` does not, and its `HashMap` specification gives
//! nothing provable for `String` keys either; so the lookups here compare
//! keys by their characters and are proved directly.
use vstd::prelude::*;

use crate::model::Reading;

verus! {

/// Whether the keys of the entries are pairwise distinct (by content).
pub open spec fn keys_unique<V>(s: Seq<(String, V)>) -> bool {
    forall|i: int, j: int|
        0 <= i < s.len() && 0 <= j < s.len() && i != j ==> #[trigger] s[i].0@ != #[trigger] s[j].0@
}

pub open spec fn has_key<V>(s: Seq<(String, V)>, k: Seq<char>) -> bool {
    exists|i: int| 0 <= i < s.len() && #[trigger] s[i].0@ == k
}

pub open spec fn index_of_key<V>(s: Seq<(String, V)>, k: Seq<char>) -> int {
    choose|i: int| 0 <= i < s.len() && #[trigger] s[i].0@ == k
}

/// The map that a sequence of entries stands for.
pub open spec fn entries_map<V>(s: Seq<(String, V)>) -> Map<Seq<char>, V> {
    Map::new(|k: Seq<char>| has_key(s, k), |k: Seq<char>| s[index_of_key(s, k)].1)
}

pub proof fn lemma_index_of_key<V>(s: Seq<(String, V)>, i: int)
    requires
        keys_unique(s),
        0 <= i < s.len(),
    ensures
        has_key(s, s[i].0@),
        index_of_key(s, s[i].0@) == i,
        entries_map(s).contains_key(s[i].0@),
        entries_map(s)[s[i].0@] == s[i].1,
{
    let k = s[i].0@;
    assert(has_key(s, k));
    let j = index_of_key(s, k);
    assert(s[j].0@ == k);
}

/// A map keyed by text, with lookups by content.
#[derive(Debug)]
pub struct TextMap<V> {
    entries: Vec<(String, V)>,
}

impl<V> View for TextMap<V> {
    type V = Map<Seq<char>, V>;

    open spec fn view(&self) -> Map<Seq<char>, V> {
        entries_map(self.entry_seq())
    }
}

impl<V> TextMap<V> {
    /// The entries, in the order in which their keys were first inserted.
    pub closed spec fn entry_seq(&self) -> Seq<(String, V)> {
        self.entries@
    }

    #[verifier::type_invariant]
    closed spec fn inv(&self) -> bool {
        keys_unique(self.entries@)
    }

    pub fn new() -> (r: Self)
        ensures
            r@ == Map::<Seq<char>, V>::empty(),
            r.entry_seq() == Seq::<(String, V)>::empty(),
    {
        let r = TextMap { entries: Vec::new() };
        assert(r@ =~= Map::<Seq<char>, V>::empty());
        r
    }

    pub fn len(&self) -> (r: usize)
        ensures
            r == self@.len(),
            r == self.entry_seq().len(),
    {
        proof {
            use_type_invariant(self);
            self.lemma_len();
        }
        self.entries.len()
    }

    proof fn lemma_len(&self)
        requires
            keys_unique(self.entries@),
        ensures
            self@.len() == self.entries@.len(),
            self@.dom().finite(),
        decreases self.entries@.len(),
    {
        let s = self.entries@;
        let keys = Seq::new(s.len(), |i: int| s[i].0@);
        assert forall|k: Seq<char>| #[trigger] self@.dom().contains(k) <==> keys.contains(k) by {
            if self@.dom().contains(k) {
                let i = index_of_key(s, k);
                assert(keys[i] == k);
            }
            if keys.contains(k) {
                let i = choose|i: int| 0 <= i < keys.len() && keys[i] == k;
                assert(s[i].0@ == k);
            }
        }
        assert(self@.dom() =~= keys.to_set());
        assert(keys.no_duplicates()) by {
            assert forall|i: int, j: int| 0 <= i < keys.len() && 0 <= j < keys.len() && i != j
                implies keys[i] != keys[j] by {
                assert(s[i].0@ != s[j].0@);
            }
        }
        keys.unique_seq_to_set();
    }

    /// The entries with their keys; the keys are distinct.
    pub fn entries(&self) -> (r: &Vec<(String, V)>)
        ensures
            r@ == self.entry_seq(),
            keys_unique(r@),
            entries_map(r@) == self@,
    {
        proof {
            use_type_invariant(self);
        }
        &self.entries
    }

    /// The value stored under `key`, if any.
    pub fn get(&self, key: &str) -> (r: Option<&V>)
        ensures
            r is Some == self@.contains_key(key@),
            r is Some ==> *r.unwrap() == self@[key@],
    {
        proof {
            use_type_invariant(self);
        }
        let n = self.entries.len();
        let mut i: usize = 0;
        while i < n
            invariant
                n == self.entries@.len(),
                i <= n,
                keys_unique(self.entries@),
                forall|j: int| 0 <= j < i ==> self.entries@[j].0@ != key@,
            decreases n - i,
        {
            if crate::text::same_text(self.entries[i].0.as_str(), key) {
                proof {
                    lemma_index_of_key(self.entries@, i as int);
                }
                return Some(&self.entries[i].1);
            }
            i = i + 1;
        }
        None
    }

    /// Stores `value` under `key`, replacing what was stored there.
    pub fn insert(&mut self, key: String, value: V)
        ensures
            final(self)@ == old(self)@.insert(key@, value),
    {
        proof {
            use_type_invariant(&*self);
        }
        let ghost k = key@;
        let mut v: Vec<(String, V)> = Vec::new();
        std::mem::swap(&mut v, &mut self.entries);
        let ghost s = v@;
        assert(s == old(self).entries@);
        let n = v.len();
        let mut i: usize = 0;
        while i < n
            invariant
                v@ == s,
                k == key@,
                n == s.len(),
                i <= n,
                forall|j: int| 0 <= j < i ==> s[j].0@ != k,
            ensures
                i <= n,
                forall|j: int| 0 <= j < i ==> s[j].0@ != k,
                i < n ==> s[i as int].0@ == k,
            decreases n - i,
        {
            if crate::text::same_text(v[i].0.as_str(), key.as_str()) {
                break;
            }
            i = i + 1;
        }
        if i < n {
            proof {
                assert(s[i as int].0@ == k);
            }
            v.set(i, (key, value));
            let ghost t = v@;
            proof {
                assert(keys_unique(t)) by {
                    assert forall|a: int, b: int|
                        0 <= a < t.len() && 0 <= b < t.len() && a != b implies #[trigger] t[a].0@
                        != #[trigger] t[b].0@ by {
                        assert(s[a].0@ != s[b].0@);
                    }
                }
                assert forall|kk: Seq<char>| #[trigger] has_key(t, kk) == has_key(s, kk) by {
                    if has_key(s, kk) {
                        let a = index_of_key(s, kk);
                        assert(t[a].0@ == kk);
                    }
                    if has_key(t, kk) {
                        let a = index_of_key(t, kk);
                        assert(s[a].0@ == kk);
                    }
                }
                assert forall|kk: Seq<char>| has_key(t, kk) implies entries_map(t)[kk]
                    == old(self)@.insert(k, value)[kk] by {
                    let a = index_of_key(t, kk);
                    lemma_index_of_key(t, a);
                    if kk != k {
                        lemma_index_of_key(s, a);
                    }
                }
                assert(entries_map(t) =~= old(self)@.insert(k, value));
            }
            self.entries = v;
        } else {
            v.push((key, value));
            let ghost t = v@;
            proof {
                assert(keys_unique(t)) by {
                    assert forall|a: int, b: int|
                        0 <= a < t.len() && 0 <= b < t.len() && a != b implies #[trigger] t[a].0@
                        != #[trigger] t[b].0@ by {
                        if a < n && b < n {
                            assert(s[a].0@ != s[b].0@);
                        }
                    }
                }
                assert forall|kk: Seq<char>| #[trigger] has_key(t, kk) == (has_key(s, kk) || kk
                    == k) by {
                    if has_key(s, kk) {
                        let a = index_of_key(s, kk);
                        assert(t[a].0@ == kk);
                    }
                    if kk == k {
                        assert(t[n as int].0@ == kk);
                    }
                    if has_key(t, kk) && kk != k {
                        let a = index_of_key(t, kk);
                        assert(s[a].0@ == kk);
                    }
                }
                assert forall|kk: Seq<char>| has_key(t, kk) implies entries_map(t)[kk]
                    == old(self)@.insert(k, value)[kk] by {
                    let a = index_of_key(t, kk);
                    lemma_index_of_key(t, a);
                    if kk != k {
                        lemma_index_of_key(s, a);
                    }
                }
                assert(entries_map(t) =~= old(self)@.insert(k, value));
            }
            self.entries = v;
        }
    }
}

impl TextMap<Reading> {
    /// A copy with the same entries.
    pub fn duplicate(&self) -> (r: Self)
        ensures
            r@ == self@,
            r.entry_seq() == self.entry_seq(),
    {
        proof {
            use_type_invariant(self);
        }
        let n = self.entries.len();
        let mut out: Vec<(String, Reading)> = Vec::new();
        let mut i: usize = 0;
        while i < n
            invariant
                n == self.entries@.len(),
                i <= n,
                out@ == self.entries@.take(i as int),
            decreases n - i,
        {
            let key = self.entries[i].0.clone();
            let value = self.entries[i].1.duplicate();
            out.push((key, value));
            assert(out@ =~= self.entries@.take(i + 1));
            i = i + 1;
        }
        assert(out@ =~= self.entries@);
        TextMap { entries: out }
    }
}

} // verus!
