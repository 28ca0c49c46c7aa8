//! A map from texts to values, kept in the order of its keys.

use crate::text::{before, before_irreflexive, before_total, before_transitive, same_text, text_before};
use vstd::prelude::*;

verus! {

/// A map whose keys are texts. Its entries are held by ascending key, no key twice.
#[derive(Debug)]
pub struct TextMap<V> {
    entries: Vec<(String, V)>,
}

/// Whether the keys of `s` ascend strictly.
pub open spec fn ascending<V>(s: Seq<(String, V)>) -> bool {
    forall|i: int, j: int|
        0 <= i < j < s.len() ==> before((#[trigger] s[i]).0@, (#[trigger] s[j]).0@)
}

/// Whether `k` is the key at position `i`.
pub open spec fn key_at<V>(s: Seq<(String, V)>, k: Seq<char>, i: int) -> bool {
    0 <= i < s.len() && s[i].0@ == k
}

/// The map that a sequence of entries stands for.
pub open spec fn map_of<V>(s: Seq<(String, V)>) -> Map<Seq<char>, V> {
    Map::new(
        |k: Seq<char>| exists|i: int| key_at(s, k, i),
        |k: Seq<char>| s[choose|i: int| key_at(s, k, i)].1,
    )
}

/// In an ascending sequence a key stands at one position only.
proof fn key_stands_once<V>(s: Seq<(String, V)>, i: int, j: int)
    requires
        ascending(s),
        0 <= i < s.len(),
        0 <= j < s.len(),
        s[i].0@ == s[j].0@,
    ensures
        i == j,
{
    before_irreflexive(s[i].0@);
}

/// What the map holds at the key of position `i`.
proof fn entry_is_mapped<V>(s: Seq<(String, V)>, i: int)
    requires
        ascending(s),
        0 <= i < s.len(),
    ensures
        map_of(s).dom().contains(s[i].0@),
        map_of(s)[s[i].0@] == s[i].1,
{
    let k = s[i].0@;
    assert(key_at(s, k, i));
    let j = choose|j: int| key_at(s, k, j);
    key_stands_once(s, i, j);
}

impl<V> View for TextMap<V> {
    type V = Map<Seq<char>, V>;

    closed spec fn view(&self) -> Map<Seq<char>, V> {
        map_of(self.entries@)
    }
}

/// Whether `keys` are the keys of `m`, in ascending order and none twice.
pub open spec fn lists_keys<V>(keys: Seq<Seq<char>>, m: Map<Seq<char>, V>) -> bool {
    &&& forall|i: int, j: int|
        0 <= i < j < keys.len() ==> before(#[trigger] keys[i], #[trigger] keys[j])
    &&& forall|i: int| 0 <= i < keys.len() ==> m.dom().contains(#[trigger] keys[i])
    &&& forall|k: Seq<char>| #[trigger] m.dom().contains(k) ==> keys.contains(k)
}

impl<V> TextMap<V> {
    #[verifier::type_invariant]
    spec fn inv(self) -> bool {
        ascending(self.entries@)
    }

    /// The keys, in order.
    pub closed spec fn keys(&self) -> Seq<Seq<char>> {
        self.entries@.map_values(|e: (String, V)| e.0@)
    }

    proof fn keys_listed(&self)
        requires
            self.inv(),
        ensures
            lists_keys(self.keys(), self@),
    {
        let s = self.entries@;
        assert forall|i: int| 0 <= i < self.keys().len() implies self@.dom().contains(
            #[trigger] self.keys()[i],
        ) by {
            entry_is_mapped(s, i);
        }
        assert forall|k: Seq<char>| #[trigger] self@.dom().contains(k) implies self.keys().contains(
            k,
        ) by {
            let i = choose|i: int| key_at(s, k, i);
            assert(self.keys()[i] == k);
        }
    }

    /// The empty map.
    pub fn new() -> (r: Self)
        ensures
            r@ == Map::<Seq<char>, V>::empty(),
            r.keys() == Seq::<Seq<char>>::empty(),
    {
        let r = TextMap { entries: Vec::new() };
        assert(r@ =~= Map::<Seq<char>, V>::empty()) by {
            assert forall|k: Seq<char>| !r@.dom().contains(k) by {
                assert forall|i: int| !key_at(r.entries@, k, i) by {}
            }
        }
        assert(r.keys() =~= Seq::<Seq<char>>::empty());
        r
    }

    /// How many keys there are.
    pub fn len(&self) -> (r: usize)
        ensures
            r == self.keys().len(),
            lists_keys(self.keys(), self@),
    {
        proof {
            use_type_invariant(self);
            self.keys_listed();
        }
        self.entries.len()
    }

    /// The key at position `i`.
    pub fn key(&self, i: usize) -> (r: &String)
        requires
            i < self.keys().len(),
        ensures
            r@ == self.keys()[i as int],
            self@.dom().contains(r@),
    {
        proof {
            use_type_invariant(self);
            self.keys_listed();
        }
        &self.entries[i].0
    }

    /// The value at position `i`.
    pub fn value(&self, i: usize) -> (r: &V)
        requires
            i < self.keys().len(),
        ensures
            *r == self@[self.keys()[i as int]],
    {
        proof {
            use_type_invariant(self);
            entry_is_mapped(self.entries@, i as int);
        }
        &self.entries[i].1
    }

    /// The first position whose key does not come before `k`.
    fn seek(&self, k: &str) -> (r: usize)
        ensures
            r <= self.entries@.len(),
            forall|i: int| 0 <= i < r ==> before((#[trigger] self.entries@[i]).0@, k@),
            forall|i: int|
                r <= i < self.entries@.len() ==> !before((#[trigger] self.entries@[i]).0@, k@),
    {
        proof {
            use_type_invariant(self);
        }
        let mut lo: usize = 0;
        let mut hi: usize = self.entries.len();
        while lo < hi
            invariant
                ascending(self.entries@),
                lo <= hi <= self.entries@.len(),
                forall|i: int| 0 <= i < lo ==> before((#[trigger] self.entries@[i]).0@, k@),
                forall|i: int|
                    hi <= i < self.entries@.len() ==> !before((#[trigger] self.entries@[i]).0@, k@),
            decreases hi - lo,
        {
            let mid: usize = lo + (hi - lo) / 2;
            if text_before(self.entries[mid].0.as_str(), k) {
                assert forall|i: int| 0 <= i < mid + 1 implies before(
                    (#[trigger] self.entries@[i]).0@,
                    k@,
                ) by {
                    if i < mid {
                        before_transitive(self.entries@[i].0@, self.entries@[mid as int].0@, k@);
                    }
                }
                lo = mid + 1;
            } else {
                assert forall|i: int| mid <= i < self.entries@.len() implies !before(
                    (#[trigger] self.entries@[i]).0@,
                    k@,
                ) by {
                    if mid < i && before(self.entries@[i].0@, k@) {
                        before_transitive(self.entries@[mid as int].0@, self.entries@[i].0@, k@);
                    }
                }
                hi = mid;
            }
        }
        lo
    }

    /// The value of `k`, if there is one.
    pub fn get(&self, k: &str) -> (r: Option<&V>)
        ensures
            match r {
                Some(v) => self@.dom().contains(k@) && *v == self@[k@],
                None => !self@.dom().contains(k@),
            },
    {
        proof {
            use_type_invariant(self);
        }
        let i = self.seek(k);
        if i < self.entries.len() && same_text(self.entries[i].0.as_str(), k) {
            proof {
                entry_is_mapped(self.entries@, i as int);
            }
            Some(&self.entries[i].1)
        } else {
            proof {
                self.absent(k@, i as int);
            }
            None
        }
    }

    proof fn absent(&self, k: Seq<char>, i: int)
        requires
            ascending(self.entries@),
            0 <= i <= self.entries@.len(),
            forall|j: int| 0 <= j < i ==> before((#[trigger] self.entries@[j]).0@, k),
            forall|j: int|
                i <= j < self.entries@.len() ==> !before((#[trigger] self.entries@[j]).0@, k),
            i < self.entries@.len() ==> self.entries@[i].0@ != k,
        ensures
            !self@.dom().contains(k),
            i < self.entries@.len() ==> before(k, self.entries@[i].0@),
    {
        before_irreflexive(k);
        if i < self.entries@.len() {
            before_total(k, self.entries@[i].0@);
        }
        assert forall|j: int| !key_at(self.entries@, k, j) by {
            if i < j < self.entries@.len() && self.entries@[j].0@ == k {
                assert(before(self.entries@[i].0@, self.entries@[j].0@));
                assert(false);
            }
        }
    }

    /// Whether `k` is a key.
    pub fn contains(&self, k: &str) -> (r: bool)
        ensures
            r == self@.dom().contains(k@),
    {
        match self.get(k) {
            Some(_) => true,
            None => false,
        }
    }

    /// Gives `k` the value `v`, whatever it had before.
    pub fn insert(&mut self, k: String, v: V)
        ensures
            final(self)@ == old(self)@.insert(k@, v),
    {
        proof {
            use_type_invariant(&*self);
        }
        let i = self.seek(k.as_str());
        let ghost before_entries = self.entries@;
        if i < self.entries.len() && same_text(self.entries[i].0.as_str(), k.as_str()) {
            let mut entries: Vec<(String, V)> = Vec::new();
            std::mem::swap(&mut entries, &mut self.entries);
            let ghost kv = k@;
            entries.set(i, (k, v));
            proof {
                let s = entries@;
                assert(ascending(s)) by {
                    assert forall|a: int, b: int| 0 <= a < b < s.len() implies before(
                        (#[trigger] s[a]).0@,
                        (#[trigger] s[b]).0@,
                    ) by {
                        assert(before(before_entries[a].0@, before_entries[b].0@));
                    }
                }
                assert(map_of(s) =~= map_of(before_entries).insert(kv, v)) by {
                    updated_map(before_entries, s, i as int, v);
                }
            }
            self.entries = entries;
        } else {
            proof {
                self.absent(k@, i as int);
            }
            let mut entries: Vec<(String, V)> = Vec::new();
            std::mem::swap(&mut entries, &mut self.entries);
            let ghost kv = k@;
            let ghost key = k;
            entries.insert(i, (k, v));
            proof {
                inserted_map(before_entries, entries@, i as int, key, v);
            }
            self.entries = entries;
        }
    }

    /// Takes the key `k` out, and says whether it was there.
    pub fn remove(&mut self, k: &str) -> (r: bool)
        ensures
            r == old(self)@.dom().contains(k@),
            final(self)@ == old(self)@.remove(k@),
    {
        proof {
            use_type_invariant(&*self);
        }
        let i = self.seek(k);
        let ghost was = self.entries@;
        if i < self.entries.len() && same_text(self.entries[i].0.as_str(), k) {
            let mut entries: Vec<(String, V)> = Vec::new();
            std::mem::swap(&mut entries, &mut self.entries);
            let _ = entries.remove(i);
            proof {
                removed_map(was, entries@, i as int);
            }
            self.entries = entries;
            true
        } else {
            proof {
                self.absent(k@, i as int);
                assert(old(self)@.remove(k@) =~= old(self)@);
            }
            false
        }
    }
}

/// Replacing the value at position `i` replaces the value of its key.
proof fn updated_map<V>(s: Seq<(String, V)>, t: Seq<(String, V)>, i: int, v: V)
    requires
        ascending(s),
        ascending(t),
        0 <= i < s.len(),
        s.len() == t.len(),
        t[i].0@ == s[i].0@,
        t[i].1 == v,
        forall|j: int| 0 <= j < s.len() && j != i ==> t[j] == s[j],
    ensures
        map_of(t) == map_of(s).insert(s[i].0@, v),
{
    let k = s[i].0@;
    let m = map_of(s).insert(k, v);
    assert forall|x: Seq<char>| map_of(t).dom().contains(x) == m.dom().contains(x) by {
        if map_of(t).dom().contains(x) {
            let j = choose|j: int| key_at(t, x, j);
            assert(key_at(s, x, j));
        }
        if m.dom().contains(x) {
            if x == k {
                assert(key_at(t, x, i));
            } else {
                let j = choose|j: int| key_at(s, x, j);
                assert(key_at(t, x, j));
            }
        }
    }
    assert forall|x: Seq<char>| map_of(t).dom().contains(x) implies map_of(t)[x] == m[x] by {
        let j = choose|j: int| key_at(t, x, j);
        entry_is_mapped(t, j);
        entry_is_mapped(s, j);
        if x == k {
            key_stands_once(t, i, j);
        }
    }
    assert(map_of(t) =~= m);
}

/// Putting a new key at its place adds it to the map.
proof fn inserted_map<V>(s: Seq<(String, V)>, t: Seq<(String, V)>, i: int, k: String, v: V)
    requires
        ascending(s),
        0 <= i <= s.len(),
        t == s.insert(i, (k, v)),
        forall|j: int| 0 <= j < i ==> before((#[trigger] s[j]).0@, k@),
        i < s.len() ==> before(k@, s[i].0@),
        !map_of(s).dom().contains(k@),
    ensures
        ascending(t),
        map_of(t) == map_of(s).insert(k@, v),
{
    assert forall|a: int, b: int| 0 <= a < b < t.len() implies before(
        (#[trigger] t[a]).0@,
        (#[trigger] t[b]).0@,
    ) by {
        if a == i {
            assert(t[b] == s[b - 1]);
            if b - 1 > i {
                assert(before(s[i].0@, s[b - 1].0@));
                before_transitive(k@, s[i].0@, s[b - 1].0@);
            }
        } else if b == i {
            assert(t[a] == s[a]);
        } else {
            let x = if a < i { a } else { a - 1 };
            let y = if b < i { b } else { b - 1 };
            assert(before(s[x].0@, s[y].0@));
        }
    }
    let m = map_of(s).insert(k@, v);
    assert(t[i] == (k, v));
    assert forall|x: Seq<char>| map_of(t).dom().contains(x) == m.dom().contains(x) by {
        if map_of(t).dom().contains(x) && x != k@ {
            let j = choose|j: int| key_at(t, x, j);
            assert(key_at(s, x, if j < i { j } else { j - 1 }));
        }
        if m.dom().contains(x) {
            if x == k@ {
                assert(key_at(t, x, i));
            } else {
                let j = choose|j: int| key_at(s, x, j);
                assert(key_at(t, x, if j < i { j } else { j + 1 }));
            }
        }
    }
    assert forall|x: Seq<char>| map_of(t).dom().contains(x) implies map_of(t)[x] == m[x] by {
        let j = choose|j: int| key_at(t, x, j);
        entry_is_mapped(t, j);
        if j != i {
            let jj = if j < i { j } else { j - 1 };
            assert(t[j] == s[jj]);
            entry_is_mapped(s, jj);
            if x == k@ {
                assert(map_of(s).dom().contains(k@));
            }
        }
    }
    assert(map_of(t) =~= m);
}

/// Taking an entry out takes its key out of the map.
proof fn removed_map<V>(s: Seq<(String, V)>, t: Seq<(String, V)>, i: int)
    requires
        ascending(s),
        0 <= i < s.len(),
        t == s.remove(i),
    ensures
        ascending(t),
        map_of(t) == map_of(s).remove(s[i].0@),
        map_of(s).dom().contains(s[i].0@),
{
    let k = s[i].0@;
    entry_is_mapped(s, i);
    assert forall|a: int, b: int| 0 <= a < b < t.len() implies before(
        (#[trigger] t[a]).0@,
        (#[trigger] t[b]).0@,
    ) by {
        let x = if a < i { a } else { a + 1 };
        let y = if b < i { b } else { b + 1 };
        assert(before(s[x].0@, s[y].0@));
    }
    let m = map_of(s).remove(k);
    assert forall|x: Seq<char>| map_of(t).dom().contains(x) == m.dom().contains(x) by {
        if map_of(t).dom().contains(x) {
            let j = choose|j: int| key_at(t, x, j);
            let jj = if j < i { j } else { j + 1 };
            assert(key_at(s, x, jj));
            if x == k {
                key_stands_once(s, i, jj);
            }
        }
        if m.dom().contains(x) {
            let j = choose|j: int| key_at(s, x, j);
            assert(key_at(t, x, if j < i { j } else { j - 1 }));
        }
    }
    assert forall|x: Seq<char>| map_of(t).dom().contains(x) implies map_of(t)[x] == m[x] by {
        let j = choose|j: int| key_at(t, x, j);
        let jj = if j < i { j } else { j + 1 };
        assert(t[j] == s[jj]);
        entry_is_mapped(t, j);
        entry_is_mapped(s, jj);
        if x == k {
            key_stands_once(s, i, jj);
        }
    }
    assert(map_of(t) =~= m);
}

} // verus!
