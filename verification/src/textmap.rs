//! A map from texts to values that is always walked in the order of its
//! keys.

use vstd::prelude::*;

use crate::text::{
    lemma_text_lt_irreflexive, lemma_text_lt_total, lemma_text_lt_transitive, str_lt, text_lt,
};

verus! {

/// Whether the keys stand in strictly ascending order.
pub open spec fn ascending<V>(entries: Seq<(Seq<char>, V)>) -> bool {
    forall|i: int, j: int|
        0 <= i < j < entries.len() ==> text_lt((#[trigger] entries[i]).0, (#[trigger] entries[j]).0)
}

/// Whether `key` is the key of some entry.
pub open spec fn has_key<V>(entries: Seq<(Seq<char>, V)>, key: Seq<char>) -> bool {
    exists|i: int| 0 <= i < entries.len() && (#[trigger] entries[i]).0 == key
}

/// The place of `key` among the entries.
pub open spec fn place_of<V>(entries: Seq<(Seq<char>, V)>, key: Seq<char>) -> int {
    choose|i: int| 0 <= i < entries.len() && (#[trigger] entries[i]).0 == key
}

/// The value under `key`.
pub open spec fn lookup<V>(entries: Seq<(Seq<char>, V)>, key: Seq<char>) -> Option<V> {
    if has_key(entries, key) {
        Some(entries[place_of(entries, key)].1)
    } else {
        None
    }
}

/// In ascending entries a key stands at one place only.
pub proof fn lemma_place_is_unique<V>(entries: Seq<(Seq<char>, V)>, key: Seq<char>, at: int)
    requires
        ascending(entries),
        0 <= at < entries.len(),
        entries[at].0 == key,
    ensures
        has_key(entries, key),
        place_of(entries, key) == at,
        lookup(entries, key) == Some(entries[at].1),
{
    let p = place_of(entries, key);
    lemma_text_lt_irreflexive(key);
    if p < at {
        assert(text_lt(entries[p].0, entries[at].0));
    } else if at < p {
        assert(text_lt(entries[at].0, entries[p].0));
    }
}

/// Two maps that give the same answer for every key are the same: the
/// order of the entries does not depend on how they came to be there.
pub proof fn lemma_entries_are_canonical<V>(a: Seq<(Seq<char>, V)>, b: Seq<(Seq<char>, V)>)
    requires
        ascending(a),
        ascending(b),
        forall|key: Seq<char>| #[trigger] lookup(a, key) == lookup(b, key),
    ensures
        a == b,
    decreases a.len(),
{
    if a.len() == 0 {
        if b.len() > 0 {
            lemma_place_is_unique(b, b[0].0, 0);
            assert(lookup(a, b[0].0) is None);
        }
        assert(a =~= b);
    } else {
        lemma_place_is_unique(a, a[0].0, 0);
        assert(lookup(b, a[0].0) == Some(a[0].1));
        let p = place_of(b, a[0].0);
        lemma_place_is_unique(b, b[0].0, 0);
        assert(lookup(a, b[0].0) == Some(b[0].1));
        let q = place_of(a, b[0].0);
        if p > 0 && q > 0 {
            assert(text_lt(b[0].0, b[p].0));
            assert(text_lt(a[0].0, a[q].0));
            lemma_text_lt_transitive(a[0].0, b[0].0, a[0].0);
            lemma_text_lt_irreflexive(a[0].0);
        }
        if q == 0 {
            lemma_place_is_unique(b, a[0].0, 0);
        } else {
            lemma_place_is_unique(a, b[0].0, 0);
        }
        assert(a[0] == b[0]);
        let ta = a.drop_first();
        let tb = b.drop_first();
        assert(ascending(ta)) by {
            assert forall|i: int, j: int| 0 <= i < j < ta.len() implies text_lt(
                (#[trigger] ta[i]).0,
                (#[trigger] ta[j]).0,
            ) by {
                assert(text_lt(a[i + 1].0, a[j + 1].0));
            }
        }
        assert(ascending(tb)) by {
            assert forall|i: int, j: int| 0 <= i < j < tb.len() implies text_lt(
                (#[trigger] tb[i]).0,
                (#[trigger] tb[j]).0,
            ) by {
                assert(text_lt(b[i + 1].0, b[j + 1].0));
            }
        }
        assert forall|key: Seq<char>| #[trigger] lookup(ta, key) == lookup(tb, key) by {
            lemma_lookup_in_tail(a, key);
            lemma_lookup_in_tail(b, key);
            assert(lookup(a, key) == lookup(b, key));
        }
        lemma_entries_are_canonical(ta, tb);
        assert(a =~= seq![a[0]] + ta);
        assert(b =~= seq![b[0]] + tb);
    }
}

proof fn lemma_lookup_in_tail<V>(a: Seq<(Seq<char>, V)>, key: Seq<char>)
    requires
        ascending(a),
        a.len() > 0,
    ensures
        lookup(a.drop_first(), key) == if key == a[0].0 {
            None
        } else {
            lookup(a, key)
        },
{
    let tail = a.drop_first();
    assert(ascending(tail)) by {
        assert forall|i: int, j: int| 0 <= i < j < tail.len() implies text_lt(
            (#[trigger] tail[i]).0,
            (#[trigger] tail[j]).0,
        ) by {
            assert(text_lt(a[i + 1].0, a[j + 1].0));
        }
    }
    if has_key(tail, key) {
        let p = place_of(tail, key);
        assert(a[p + 1].0 == key);
        lemma_place_is_unique(a, key, p + 1);
        lemma_place_is_unique(tail, key, p);
        if key == a[0].0 {
            lemma_place_is_unique(a, key, 0);
        }
    } else if key != a[0].0 && has_key(a, key) {
        let p = place_of(a, key);
        assert(tail[p - 1].0 == key);
    }
}

/// A map from texts to values.
#[derive(Debug, PartialEq, Eq)]
pub struct TextMap<V> {
    entries: Vec<(String, V)>,
}

/// Entries, their keys by view.
pub open spec fn entry_views<V>(v: Seq<(String, V)>) -> Seq<(Seq<char>, V)> {
    v.map_values(|e: (String, V)| (e.0@, e.1))
}

impl<V> View for TextMap<V> {
    type V = Seq<(Seq<char>, V)>;

    /// The entries in the order of their keys.
    closed spec fn view(&self) -> Seq<(Seq<char>, V)> {
        entry_views(self.entries@)
    }
}

impl<V> TextMap<V> {
    pub open spec fn wf(&self) -> bool {
        ascending(self@)
    }

    pub fn new() -> (r: Self)
        ensures
            r.wf(),
            r@.len() == 0,
    {
        TextMap { entries: Vec::new() }
    }

    pub fn len(&self) -> (r: usize)
        ensures
            r == self@.len(),
    {
        self.entries.len()
    }

    pub fn is_empty(&self) -> (r: bool)
        ensures
            r == (self@.len() == 0),
    {
        self.entries.len() == 0
    }

    /// The entries in the order of their keys.
    pub fn entries(&self) -> (r: &Vec<(String, V)>)
        ensures
            entry_views(r@) == self@,
    {
        &self.entries
    }

    /// The number of keys before `key`.
    fn rank(&self, key: &str) -> (r: usize)
        requires
            self.wf(),
        ensures
            r <= self@.len(),
            forall|i: int| 0 <= i < r ==> text_lt((#[trigger] self@[i]).0, key@),
            forall|i: int| r <= i < self@.len() ==> !text_lt((#[trigger] self@[i]).0, key@),
    {
        let mut i: usize = 0;
        while i < self.entries.len() && str_lt(self.entries[i].0.as_str(), key)
            invariant
                i <= self@.len(),
                self@.len() == self.entries@.len(),
                forall|k: int| 0 <= k < i ==> text_lt((#[trigger] self@[k]).0, key@),
            decreases self.entries@.len() - i,
        {
            assert(self@[i as int].0 == self.entries@[i as int].0@);
            i += 1;
        }
        proof {
            if i < self@.len() {
                assert(self@[i as int].0 == self.entries@[i as int].0@);
            }
            assert forall|k: int| i <= k < self@.len() implies !text_lt(
                (#[trigger] self@[k]).0,
                key@,
            ) by {
                if k > i && text_lt(self@[k].0, key@) {
                    assert(text_lt(self@[i as int].0, self@[k].0));
                    lemma_text_lt_transitive(self@[i as int].0, self@[k].0, key@);
                }
            }
        }
        i
    }

    pub fn get(&self, key: &str) -> (r: Option<&V>)
        requires
            self.wf(),
        ensures
            match r {
                Some(v) => lookup(self@, key@) == Some(*v),
                None => lookup(self@, key@) is None,
            },
    {
        let at: usize = self.rank(key);
        if at < self.entries.len() && self.entries[at].0.as_str().eq(key) {
            proof {
                assert(self@[at as int].0 == key@);
                lemma_place_is_unique(self@, key@, at as int);
            }
            return Some(&self.entries[at].1);
        }
        proof {
            if has_key(self@, key@) {
                let p = place_of(self@, key@);
                lemma_text_lt_irreflexive(key@);
                assert(p >= at);
                if p > at {
                    assert(text_lt(self@[at as int].0, self@[p].0));
                } else {
                    assert(self@[at as int].0 == self.entries@[at as int].0@);
                }
            }
        }
        None
    }

    /// Puts `value` under `key` and hands back what stood there before.
    pub fn insert(&mut self, key: String, value: V) -> (r: Option<V>)
        requires
            old(self).wf(),
        ensures
            final(self).wf(),
            r == lookup(old(self)@, key@),
            lookup(final(self)@, key@) == Some(value),
            forall|other: Seq<char>|
                other != key@ ==> #[trigger] lookup(final(self)@, other) == lookup(
                    old(self)@,
                    other,
                ),
            final(self)@.len() == old(self)@.len() + if lookup(old(self)@, key@) is Some {
                0int
            } else {
                1
            },
    {
        let ghost before = self@;
        let at: usize = self.rank(key.as_str());
        let ghost name = key@;
        if at < self.entries.len() && self.entries[at].0.as_str().eq(key.as_str()) {
            proof {
                assert(before[at as int].0 == name);
                lemma_place_is_unique(before, name, at as int);
            }
            let mut entry: (String, V) = (key, value);
            std::mem::swap(&mut self.entries[at], &mut entry);
            proof {
                assert(self@ =~= before.update(at as int, (name, value)));
                assert(ascending(self@)) by {
                    assert forall|i: int, j: int| 0 <= i < j < self@.len() implies text_lt(
                        (#[trigger] self@[i]).0,
                        (#[trigger] self@[j]).0,
                    ) by {
                        assert(text_lt(before[i].0, before[j].0));
                    }
                }
                lemma_place_is_unique(self@, name, at as int);
                assert forall|other: Seq<char>| other != name implies #[trigger] lookup(
                    self@,
                    other,
                ) == lookup(before, other) by {
                    if has_key(before, other) {
                        let p = place_of(before, other);
                        lemma_place_is_unique(before, other, p);
                        assert(self@[p].0 == other);
                        lemma_place_is_unique(self@, other, p);
                    } else if has_key(self@, other) {
                        let p = place_of(self@, other);
                        assert(before[p].0 == other);
                    }
                }
            }
            return Some(entry.1);
        }
        proof {
            if has_key(before, name) {
                let p = place_of(before, name);
                lemma_text_lt_irreflexive(name);
                assert(p >= at);
                if p > at {
                    assert(text_lt(before[at as int].0, before[p].0));
                } else {
                    assert(before[at as int].0 == self.entries@[at as int].0@);
                }
            }
            assert(lookup(before, name) is None);
        }
        self.entries.insert(at, (key, value));
        proof {
            assert(self@ =~= before.insert(at as int, (name, value)));
            assert(ascending(self@)) by {
                assert forall|i: int, j: int| 0 <= i < j < self@.len() implies text_lt(
                    (#[trigger] self@[i]).0,
                    (#[trigger] self@[j]).0,
                ) by {
                    if j == at {
                        assert(self@[i] == before[i]);
                    } else if i == at {
                        assert(self@[j] == before[j - 1]);
                        assert(!text_lt(before[j - 1].0, name));
                        lemma_text_lt_total(before[j - 1].0, name);
                        assert(before[j - 1].0 != name) by {
                            if before[j - 1].0 == name {
                                assert(has_key(before, name));
                            }
                        }
                    } else {
                        let a = if i < at {
                            i
                        } else {
                            i - 1
                        };
                        let b = if j < at {
                            j
                        } else {
                            j - 1
                        };
                        assert(self@[i] == before[a]);
                        assert(self@[j] == before[b]);
                        assert(text_lt(before[a].0, before[b].0));
                    }
                }
            }
            assert(self@[at as int] == (name, value));
            lemma_place_is_unique(self@, name, at as int);
            assert forall|other: Seq<char>| other != name implies #[trigger] lookup(
                self@,
                other,
            ) == lookup(before, other) by {
                if has_key(before, other) {
                    let p = place_of(before, other);
                    lemma_place_is_unique(before, other, p);
                    let q = if p < at {
                        p
                    } else {
                        p + 1
                    };
                    assert(self@[q] == before[p]);
                    lemma_place_is_unique(self@, other, q);
                } else if has_key(self@, other) {
                    let p = place_of(self@, other);
                    assert(p != at);
                    let q = if p < at {
                        p
                    } else {
                        p - 1
                    };
                    assert(before[q] == self@[p]);
                    assert(has_key(before, other));
                }
            }
        }
        None
    }
}

/// A value is found exactly under the keys that stand among the entries, and
/// it is the one that stands beside its key.
pub proof fn lemma_found_is_what_is_there<V>(entries: Seq<(Seq<char>, V)>, key: Seq<char>)
    ensures
        lookup(entries, key) is Some <==> entries.map_values(|e: (Seq<char>, V)| e.0).contains(key),
        lookup(entries, key) matches Some(v) ==> entries.contains((key, v)),
{
    let keys = entries.map_values(|e: (Seq<char>, V)| e.0);
    if has_key(entries, key) {
        let p = place_of(entries, key);
        assert(keys[p] == key);
        assert(entries[p] == (key, entries[p].1));
    }
    if keys.contains(key) {
        let p = choose|p: int| 0 <= p < keys.len() && keys[p] == key;
        assert(entries[p].0 == key);
    }
}

} // verus!
