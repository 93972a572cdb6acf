//! A map with text keys that is walked in the order of its keys.
use crate::text::{comes_before, text_before};
use crate::text::{lemma_before_irreflexive, lemma_before_total, lemma_before_transitive};
use vstd::prelude::*;

verus! {

/// The keys of the entries strictly ascend.
pub open spec fn ascending<V>(s: Seq<(Seq<char>, V)>) -> bool {
    forall|i: int, j: int| 0 <= i < j < s.len() ==> text_before(#[trigger] s[i].0, #[trigger] s[j].0)
}

/// Some entry has the key `key`.
pub open spec fn has_key<V>(s: Seq<(Seq<char>, V)>, key: Seq<char>) -> bool {
    exists|i: int| 0 <= i < s.len() && (#[trigger] s[i]).0 == key
}

/// The place of the entry with the key `key`.
pub open spec fn place_of<V>(s: Seq<(Seq<char>, V)>, key: Seq<char>) -> int {
    choose|i: int| 0 <= i < s.len() && (#[trigger] s[i]).0 == key
}

/// The entries as a mathematical map.
pub open spec fn as_map<V>(s: Seq<(Seq<char>, V)>) -> Map<Seq<char>, V> {
    Map::new(|key: Seq<char>| has_key(s, key), |key: Seq<char>| s[place_of(s, key)].1)
}

/// A key is in the map exactly when some entry has it.
pub proof fn lemma_map_key<V>(s: Seq<(Seq<char>, V)>, key: Seq<char>)
    ensures
        as_map(s).contains_key(key) == has_key(s, key),
{
}

/// Ascending entries hold no key twice.
pub proof fn lemma_place_unique<V>(s: Seq<(Seq<char>, V)>, i: int)
    requires
        ascending(s),
        0 <= i < s.len(),
    ensures
        has_key(s, s[i].0),
        place_of(s, s[i].0) == i,
        as_map(s).contains_key(s[i].0),
        as_map(s)[s[i].0] == s[i].1,
{
    let key = s[i].0;
    assert(s[i].0 == key);
    let j = place_of(s, key);
    assert(0 <= j < s.len() && s[j].0 == key);
    lemma_before_irreflexive(key);
    if j < i {
        assert(text_before(s[j].0, s[i].0));
    }
    if i < j {
        assert(text_before(s[i].0, s[j].0));
    }
}

/// The order in which a map is walked is settled by what the map holds: two
/// ascending sequences with the same contents are the same.
pub proof fn lemma_contents_determine_order<V>(a: Seq<(Seq<char>, V)>, b: Seq<(Seq<char>, V)>)
    requires
        ascending(a),
        ascending(b),
        as_map(a) == as_map(b),
    ensures
        a == b,
    decreases a.len(),
{
    if a.len() == 0 {
        if b.len() > 0 {
            lemma_place_unique(b, 0);
            assert(as_map(a).contains_key(b[0].0));
        }
        assert(a == b);
    } else {
        let n = a.len() - 1;
        lemma_place_unique(a, n);
        assert(has_key(b, a[n].0));
        let m = place_of(b, a[n].0);
        assert(b[m].0 == a[n].0);
        lemma_place_unique(b, m);
        if m < b.len() - 1 {
            let last = b.len() - 1;
            lemma_place_unique(b, last);
            assert(has_key(a, b[last].0));
            let k = place_of(a, b[last].0);
            assert(text_before(b[m].0, b[last].0));
            if k < n {
                assert(text_before(a[k].0, a[n].0));
                lemma_before_transitive(a[n].0, a[k].0, a[n].0);
            }
            lemma_before_irreflexive(a[n].0);
            assert(false);
        }
        assert(a[n] == b[m]);
        let x = a.drop_last();
        let y = b.drop_last();
        assert(ascending(x));
        assert(ascending(y));
        assert forall|key: Seq<char>| has_key(x, key) == (has_key(a, key) && key != a[n].0) by {
            lemma_before_irreflexive(a[n].0);
            if has_key(x, key) {
                let i = place_of(x, key);
                assert(a[i].0 == key);
                assert(text_before(a[i].0, a[n].0));
            }
            if has_key(a, key) && key != a[n].0 {
                let i = place_of(a, key);
                assert(x[i].0 == key);
            }
        }
        assert forall|key: Seq<char>| has_key(y, key) == (has_key(b, key) && key != a[n].0) by {
            lemma_before_irreflexive(a[n].0);
            if has_key(y, key) {
                let i = place_of(y, key);
                assert(b[i].0 == key);
                assert(text_before(b[i].0, b[m].0));
            }
            if has_key(b, key) && key != a[n].0 {
                let i = place_of(b, key);
                assert(y[i].0 == key);
            }
        }
        assert forall|key: Seq<char>| has_key(x, key) implies as_map(x)[key] == as_map(y)[key] by {
            let i = place_of(x, key);
            lemma_place_unique(x, i);
            assert(a[i] == x[i]);
            lemma_place_unique(a, i);
            assert(as_map(a).contains_key(key));
            assert(as_map(b).contains_key(key));
            assert(has_key(y, key));
            let j = place_of(y, key);
            lemma_place_unique(y, j);
            assert(b[j] == y[j]);
            lemma_place_unique(b, j);
        }
        assert forall|key: Seq<char>| as_map(x).contains_key(key) == as_map(y).contains_key(key) by {
            assert(as_map(a).contains_key(key) == as_map(b).contains_key(key));
            lemma_map_key(a, key);
            lemma_map_key(b, key);
            assert(has_key(x, key) == has_key(y, key));
        }
        assert(as_map(x) =~= as_map(y));
        lemma_contents_determine_order(x, y);
        assert(a == x.push(a[n]));
        assert(b == y.push(b[m]));
    }
}

/// A map from text to values, walked in ascending order of the keys.
pub struct TextMap<V> {
    entries: Vec<(String, V)>,
}

/// The entries of a map as pairs of text and value.
pub open spec fn entry_views<V>(s: Seq<(String, V)>) -> Seq<(Seq<char>, V)> {
    s.map_values(|e: (String, V)| (e.0@, e.1))
}

impl<V> View for TextMap<V> {
    type V = Seq<(Seq<char>, V)>;

    closed spec fn view(&self) -> Seq<(Seq<char>, V)> {
        entry_views(self.entries@)
    }
}

impl<V> TextMap<V> {
    #[verifier::type_invariant]
    spec fn well_formed(self) -> bool {
        ascending(entry_views(self.entries@))
    }

    /// What the map holds, as a mathematical map.
    pub open spec fn map(self) -> Map<Seq<char>, V> {
        as_map(self@)
    }

    /// The empty map.
    pub fn new() -> (r: Self)
        ensures
            r@ == Seq::<(Seq<char>, V)>::empty(),
            r.map() == Map::<Seq<char>, V>::empty(),
    {
        let entries: Vec<(String, V)> = Vec::new();
        let r = TextMap { entries };
        assert(r@ == Seq::<(Seq<char>, V)>::empty());
        assert(r.map() =~= Map::<Seq<char>, V>::empty());
        r
    }

    /// How many entries the map has.
    pub fn len(&self) -> (r: usize)
        ensures
            r == self@.len(),
            ascending(self@),
    {
        proof {
            use_type_invariant(self);
        }
        self.entries.len()
    }

    /// The key of the entry at place `i` of the walk.
    pub fn key_at(&self, i: usize) -> (r: &str)
        requires
            i < self@.len(),
        ensures
            r@ == self@[i as int].0,
    {
        self.entries[i].0.as_str()
    }

    /// The value of the entry at place `i` of the walk.
    pub fn value_at(&self, i: usize) -> (r: &V)
        requires
            i < self@.len(),
        ensures
            *r == self@[i as int].1,
    {
        &self.entries[i].1
    }

    /// The place of `key`, or the place where it would have to stand.
    fn find(entries: &Vec<(String, V)>, key: &str) -> (r: (usize, bool))
        requires
            ascending(entry_views(entries@)),
        ensures
            r.0 <= entries@.len(),
            forall|k: int| 0 <= k < r.0 ==> text_before(#[trigger] entries@[k].0@, key@),
            r.1 ==> r.0 < entries@.len() && entries@[r.0 as int].0@ == key@,
            !r.1 ==> forall|k: int|
                r.0 <= k < entries@.len() ==> text_before(key@, #[trigger] entries@[k].0@),
    {
        let ghost s = entry_views(entries@);
        let mut lo: usize = 0;
        let mut hi: usize = entries.len();
        while lo < hi
            invariant
                lo <= hi <= entries@.len(),
                s == entry_views(entries@),
                ascending(s),
                forall|k: int| 0 <= k < lo ==> text_before(#[trigger] entries@[k].0@, key@),
                forall|k: int|
                    hi <= k < entries@.len() ==> text_before(key@, #[trigger] entries@[k].0@),
            decreases hi - lo,
        {
            let mid: usize = lo + (hi - lo) / 2;
            let here = entries[mid].0.as_str();
            assert(s[mid as int].0 == here@);
            if comes_before(here, key) {
                assert forall|k: int| 0 <= k < mid + 1 implies text_before(
                    #[trigger] entries@[k].0@,
                    key@,
                ) by {
                    if k < mid {
                        assert(s[k].0 == entries@[k].0@);
                        assert(text_before(s[k].0, s[mid as int].0));
                        lemma_before_transitive(entries@[k].0@, here@, key@);
                    }
                }
                lo = mid + 1;
            } else if comes_before(key, here) {
                assert forall|k: int| mid <= k < entries@.len() implies text_before(
                    key@,
                    #[trigger] entries@[k].0@,
                ) by {
                    if mid < k {
                        assert(s[k].0 == entries@[k].0@);
                        assert(text_before(s[mid as int].0, s[k].0));
                        lemma_before_transitive(key@, here@, entries@[k].0@);
                    }
                }
                hi = mid;
            } else {
                proof {
                    lemma_before_total(here@, key@);
                    assert forall|k: int| 0 <= k < mid implies text_before(
                        #[trigger] entries@[k].0@,
                        key@,
                    ) by {
                        assert(s[k].0 == entries@[k].0@);
                        assert(text_before(s[k].0, s[mid as int].0));
                    }
                }
                return (mid, true);
            }
        }
        (lo, false)
    }

    /// The value of `key`, when the map has one.
    pub fn get(&self, key: &str) -> (r: Option<&V>)
        ensures
            match r {
                Some(value) => self.map().contains_key(key@) && *value == self.map()[key@],
                None => !self.map().contains_key(key@),
            },
    {
        proof {
            use_type_invariant(self);
        }
        let (place, found) = Self::find(&self.entries, key);
        let ghost s = self@;
        if found {
            proof {
                assert(s[place as int].0 == key@);
                lemma_place_unique(s, place as int);
            }
            Some(&self.entries[place].1)
        } else {
            proof {
                if has_key(s, key@) {
                    let k = place_of(s, key@);
                    assert(s[k].0 == self.entries@[k].0@);
                    lemma_before_irreflexive(key@);
                }
            }
            None
        }
    }

    /// Whether the map has the key `key`.
    pub fn contains_key(&self, key: &str) -> (r: bool)
        ensures
            r == self.map().contains_key(key@),
    {
        self.get(key).is_some()
    }

    /// Gives `key` the value `value`, in place of the one it may have had.
    pub fn insert(&mut self, key: String, value: V)
        ensures
            final(self).map() == old(self).map().insert(key@, value),
            ascending(final(self)@),
    {
        proof {
            use_type_invariant(&*self);
        }
        let ghost before = self@;
        let mut entries: Vec<(String, V)> = Vec::new();
        core::mem::swap(&mut entries, &mut self.entries);
        let (place, found) = Self::find(&entries, key.as_str());
        let ghost place_int = place as int;
        assert(before == entry_views(entries@));
        assert forall|k: int| 0 <= k < before.len() implies before[k].0 == #[trigger] entries@[k].0@ by {}
        if found {
            entries.set(place, (key, value));
            let ghost after = entry_views(entries@);
            proof {
                assert(after == before.update(place_int, (key@, value)));
                assert forall|i: int, j: int| 0 <= i < j < after.len() implies text_before(
                    #[trigger] after[i].0,
                    #[trigger] after[j].0,
                ) by {
                    assert(after[i].0 == before[i].0);
                    assert(after[j].0 == before[j].0);
                }
                lemma_updated(before, after, place_int, key@, value);
            }
        } else {
            entries.insert(place, (key, value));
            let ghost after = entry_views(entries@);
            proof {
                assert(after == before.insert(place_int, (key@, value)));
                lemma_inserted(before, after, place_int, key@, value);
            }
        }
        self.entries = entries;
    }

    /// Takes the entry of `key` out of the map and hands its value back.
    pub fn remove(&mut self, key: &str) -> (r: Option<V>)
        ensures
            final(self).map() == old(self).map().remove(key@),
            ascending(final(self)@),
            match r {
                Some(value) => {
                    &&& old(self).map().contains_key(key@)
                    &&& value == old(self).map()[key@]
                    &&& has_key(old(self)@, key@)
                    &&& final(self)@ == old(self)@.remove(place_of(old(self)@, key@))
                },
                None => !old(self).map().contains_key(key@) && final(self)@ == old(self)@,
            },
    {
        proof {
            use_type_invariant(&*self);
        }
        let ghost before = self@;
        let mut entries: Vec<(String, V)> = Vec::new();
        core::mem::swap(&mut entries, &mut self.entries);
        let (place, found) = Self::find(&entries, key);
        let ghost place_int = place as int;
        assert(before == entry_views(entries@));
        assert forall|k: int| 0 <= k < before.len() implies before[k].0 == #[trigger] entries@[k].0@ by {}
        if found {
            assert(before[place_int].0 == key@);
            let (_, value) = entries.remove(place);
            let ghost after = entry_views(entries@);
            proof {
                assert(after == before.remove(place_int));
                lemma_place_unique(before, place_int);
                lemma_removed(before, after, place_int, key@);
            }
            self.entries = entries;
            Some(value)
        } else {
            proof {
                if has_key(before, key@) {
                    let k = place_of(before, key@);
                    assert(before[k].0 == entries@[k].0@);
                    lemma_before_irreflexive(key@);
                }
                assert(as_map(before) =~= as_map(before).remove(key@));
            }
            self.entries = entries;
            None
        }
    }
}

impl<V: Clone> Clone for TextMap<V> {
    fn clone(&self) -> (r: Self)
        ensures
            r@.len() == self@.len(),
            forall|i: int|
                #![trigger r@[i]]
                0 <= i < r@.len() ==> r@[i].0 == self@[i].0 && cloned::<V>(self@[i].1, r@[i].1),
    {
        proof {
            use_type_invariant(self);
        }
        let mut entries: Vec<(String, V)> = Vec::new();
        let mut i: usize = 0;
        while i < self.entries.len()
            invariant
                i <= self.entries@.len(),
                entries@.len() == i,
                forall|k: int|
                    #![trigger entries@[k]]
                    0 <= k < i ==> entries@[k].0@ == self.entries@[k].0@ && cloned::<V>(
                        self.entries@[k].1,
                        entries@[k].1,
                    ),
            decreases self.entries@.len() - i,
        {
            entries.push((self.entries[i].0.clone(), self.entries[i].1.clone()));
            i = i + 1;
        }
        assert forall|k: int| 0 <= k < entries@.len() implies (#[trigger] entry_views(
            entries@,
        )[k]).0 == self@[k].0 by {
            assert(entries@[k].0@ == self.entries@[k].0@);
        }
        TextMap { entries }
    }
}

proof fn lemma_updated<V>(
    before: Seq<(Seq<char>, V)>,
    after: Seq<(Seq<char>, V)>,
    place: int,
    key: Seq<char>,
    value: V,
)
    requires
        ascending(before),
        ascending(after),
        0 <= place < before.len(),
        before[place].0 == key,
        after == before.update(place, (key, value)),
    ensures
        as_map(after) == as_map(before).insert(key, value),
{
    assert forall|k: Seq<char>| has_key(after, k) == (has_key(before, k) || k == key) by {
        if has_key(after, k) {
            let i = place_of(after, k);
            assert(before[i].0 == k);
        }
        if has_key(before, k) {
            let i = place_of(before, k);
            assert(after[i].0 == k);
        }
        assert(after[place].0 == key);
    }
    assert forall|k: Seq<char>| has_key(after, k) implies #[trigger] as_map(after)[k] == as_map(
        before,
    ).insert(key, value)[k] by {
        let i = place_of(after, k);
        lemma_place_unique(after, i);
        lemma_place_unique(before, i);
        lemma_place_unique(before, place);
    }
    assert(as_map(after) =~= as_map(before).insert(key, value));
}

proof fn lemma_inserted<V>(
    before: Seq<(Seq<char>, V)>,
    after: Seq<(Seq<char>, V)>,
    place: int,
    key: Seq<char>,
    value: V,
)
    requires
        ascending(before),
        0 <= place <= before.len(),
        forall|k: int| 0 <= k < place ==> text_before(#[trigger] before[k].0, key),
        forall|k: int| place <= k < before.len() ==> text_before(key, #[trigger] before[k].0),
        after == before.insert(place, (key, value)),
    ensures
        ascending(after),
        as_map(after) == as_map(before).insert(key, value),
{
    assert forall|i: int, j: int| 0 <= i < j < after.len() implies text_before(
        #[trigger] after[i].0,
        #[trigger] after[j].0,
    ) by {
        if i < place {
            assert(after[i] == before[i]);
        } else if i > place {
            assert(after[i] == before[i - 1]);
        }
        if j < place {
            assert(after[j] == before[j]);
        } else if j > place {
            assert(after[j] == before[j - 1]);
        }
    }
    assert(after[place] == (key, value));
    assert forall|k: Seq<char>| has_key(after, k) == (has_key(before, k) || k == key) by {
        if has_key(after, k) {
            let i = place_of(after, k);
            if i < place {
                assert(before[i].0 == k);
            } else if i > place {
                assert(before[i - 1].0 == k);
            }
        }
        if has_key(before, k) {
            let i = place_of(before, k);
            if i < place {
                assert(after[i].0 == k);
            } else {
                assert(after[i + 1].0 == k);
            }
        }
        assert(after[place].0 == key);
    }
    assert forall|k: Seq<char>| has_key(after, k) implies #[trigger] as_map(after)[k] == as_map(
        before,
    ).insert(key, value)[k] by {
        let i = place_of(after, k);
        lemma_place_unique(after, i);
        lemma_place_unique(after, place);
        if i < place {
            assert(after[i] == before[i]);
            lemma_place_unique(before, i);
        } else if i > place {
            assert(after[i] == before[i - 1]);
            lemma_place_unique(before, i - 1);
        }
        lemma_before_irreflexive(key);
    }
    assert(as_map(after) =~= as_map(before).insert(key, value));
}

proof fn lemma_removed<V>(
    before: Seq<(Seq<char>, V)>,
    after: Seq<(Seq<char>, V)>,
    place: int,
    key: Seq<char>,
)
    requires
        ascending(before),
        0 <= place < before.len(),
        before[place].0 == key,
        after == before.remove(place),
    ensures
        ascending(after),
        as_map(after) == as_map(before).remove(key),
{
    assert forall|i: int, j: int| 0 <= i < j < after.len() implies text_before(
        #[trigger] after[i].0,
        #[trigger] after[j].0,
    ) by {
        let a = if i < place {
            i
        } else {
            i + 1
        };
        let b = if j < place {
            j
        } else {
            j + 1
        };
        assert(after[i] == before[a]);
        assert(after[j] == before[b]);
    }
    assert forall|k: Seq<char>| has_key(after, k) == (has_key(before, k) && k != key) by {
        if has_key(after, k) {
            let i = place_of(after, k);
            let a = if i < place {
                i
            } else {
                i + 1
            };
            assert(after[i] == before[a]);
            lemma_place_unique(before, a);
            lemma_place_unique(before, place);
        }
        if has_key(before, k) && k != key {
            let i = place_of(before, k);
            if i < place {
                assert(after[i].0 == k);
            } else {
                assert(after[i - 1].0 == k);
            }
        }
    }
    assert forall|k: Seq<char>| has_key(after, k) implies #[trigger] as_map(after)[k] == as_map(
        before,
    ).remove(key)[k] by {
        let i = place_of(after, k);
        lemma_place_unique(after, i);
        let a = if i < place {
            i
        } else {
            i + 1
        };
        assert(after[i] == before[a]);
        lemma_place_unique(before, a);
    }
    assert(as_map(after) =~= as_map(before).remove(key));
}

} // verus!
