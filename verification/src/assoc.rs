//! A map kept as a list of entries, for keys that are compared and not hashed.

use vstd::prelude::*;

verus! {

/// A key that can be compared by what it stands for.
pub trait MapKey: View {
    /// Whether the two keys stand for the same thing.
    fn same_key(&self, other: &Self) -> (r: bool)
        ensures
            r == (self@ == other@),
    ;
}

impl MapKey for String {
    fn same_key(&self, other: &Self) -> (r: bool) {
        *self == *other
    }
}

/// A map from keys to values in which no key occurs twice.
pub struct AssocMap<K: MapKey, V> {
    entries: Vec<(K, V)>,
}

impl<K: MapKey, V> AssocMap<K, V> {
    /// No key occurs twice.
    #[verifier::type_invariant]
    spec fn wf(&self) -> bool {
        forall|i: int, j: int|
            0 <= i < j < self.entries@.len() ==> #[trigger] self.entries@[i].0@
                != #[trigger] self.entries@[j].0@
    }

    spec fn holds(&self, key: K::V) -> bool {
        exists|i: int| 0 <= i < self.entries@.len() && #[trigger] self.entries@[i].0@ == key
    }

    spec fn place(&self, key: K::V) -> int {
        choose|i: int| 0 <= i < self.entries@.len() && #[trigger] self.entries@[i].0@ == key
    }
}

impl<K: MapKey, V> View for AssocMap<K, V> {
    type V = Map<K::V, V>;

    closed spec fn view(&self) -> Map<K::V, V> {
        Map::new(|key: K::V| self.holds(key), |key: K::V| self.entries@[self.place(key)].1)
    }
}

impl<K: MapKey, V> AssocMap<K, V> {
    /// Creates a map without entries.
    pub fn new() -> (r: Self)
        ensures
            r@ == Map::<K::V, V>::empty(),
    {
        let r = AssocMap { entries: Vec::new() };
        assert(r@ =~= Map::<K::V, V>::empty());
        r
    }

    /// Where `key` stands, or the number of entries where it does not occur.
    fn find(&self, key: &K) -> (r: usize)
        ensures
            r <= self.entries@.len(),
            r < self.entries@.len() <==> self@.contains_key(key@),
            r < self.entries@.len() ==> self.entries@[r as int].0@ == key@ && self@[key@]
                == self.entries@[r as int].1,
    {
        proof {
            use_type_invariant(self);
        }
        let mut i: usize = 0;
        while i < self.entries.len()
            invariant
                i <= self.entries@.len(),
                self.wf(),
                forall|j: int| 0 <= j < i ==> #[trigger] self.entries@[j].0@ != key@,
            decreases self.entries.len() - i,
        {
            if self.entries[i].0.same_key(key) {
                assert(self.holds(key@));
                return i;
            }
            i = i + 1;
        }
        i
    }

    /// The value kept under `key`, if there is one.
    pub fn get(&self, key: &K) -> (r: Option<&V>)
        ensures
            match r {
                Some(value) => self@.contains_key(key@) && *value == self@[key@],
                None => !self@.contains_key(key@),
            },
    {
        let i = self.find(key);
        if i < self.entries.len() {
            Some(&self.entries[i].1)
        } else {
            None
        }
    }

    /// Whether nothing is kept.
    pub fn is_empty(&self) -> (r: bool)
        ensures
            r == (self@ == Map::<K::V, V>::empty()),
    {
        let r = self.entries.len() == 0;
        proof {
            if r {
                assert(self@ =~= Map::<K::V, V>::empty());
            } else {
                assert(self.holds(self.entries@[0].0@));
                assert(self@.contains_key(self.entries@[0].0@));
            }
        }
        r
    }

    /// Each entry is found under its own key.
    proof fn lemma_entry(self, i: int)
        requires
            self.wf(),
            0 <= i < self.entries@.len(),
        ensures
            self@.contains_key(self.entries@[i].0@),
            self@[self.entries@[i].0@] == self.entries@[i].1,
    {
        assert(self.holds(self.entries@[i].0@));
        assert(self.place(self.entries@[i].0@) == i);
    }

    /// A key of the map stands at its place.
    proof fn lemma_place(self, key: K::V)
        requires
            self@.contains_key(key),
        ensures
            0 <= self.place(key) < self.entries@.len(),
            self.entries@[self.place(key)].0@ == key,
            self@[key] == self.entries@[self.place(key)].1,
    {
        assert(self.holds(key));
    }

    /// Taking out one entry takes its key out of the map.
    proof fn lemma_removed(self, after: Self, i: int)
        requires
            self.wf(),
            0 <= i < self.entries@.len(),
            after.entries@ == self.entries@.remove(i),
        ensures
            after.wf(),
            after@ == self@.remove(self.entries@[i].0@),
    {
        let gone = self.entries@[i].0@;
        assert forall|j: int| 0 <= j < after.entries@.len() implies #[trigger] after.entries@[j]
            == self.entries@[if j < i { j } else { j + 1 }] by {}
        assert forall|x: int, y: int|
            0 <= x < y < after.entries@.len() implies #[trigger] after.entries@[x].0@
            != #[trigger] after.entries@[y].0@ by {
            let p = if x < i { x } else { x + 1 };
            let q = if y < i { y } else { y + 1 };
            assert(self.entries@[p].0@ != self.entries@[q].0@);
        }
        assert forall|key: K::V| after@.contains_key(key) <==> self@.contains_key(key) && key
            != gone by {
            if after@.contains_key(key) {
                after.lemma_place(key);
                let j = after.place(key);
                self.lemma_entry(if j < i { j } else { j + 1 });
            }
            if self@.contains_key(key) && key != gone {
                self.lemma_place(key);
                let j = self.place(key);
                after.lemma_entry(if j < i { j } else { j - 1 });
            }
        }
        assert forall|key: K::V| after@.contains_key(key) implies after@[key] == self@[key] by {
            after.lemma_place(key);
            let j = after.place(key);
            self.lemma_entry(if j < i { j } else { j + 1 });
        }
        assert(after@ =~= self@.remove(gone));
    }

    /// Adding an entry under a new key adds it to the map.
    proof fn lemma_added(self, after: Self, key: K, value: V)
        requires
            self.wf(),
            !self@.contains_key(key@),
            after.entries@ == self.entries@.push((key, value)),
        ensures
            after.wf(),
            after@ == self@.insert(key@, value),
    {
        let n = self.entries@.len() as int;
        assert forall|j: int| 0 <= j < n implies self.entries@[j].0@ != key@
            && #[trigger] after.entries@[j] == self.entries@[j] by {
            self.lemma_entry(j);
        }
        assert(after.entries@[n] == (key, value));
        assert(after.wf());
        assert forall|k: K::V| after@.contains_key(k) <==> self@.contains_key(k) || k == key@ by {
            if after@.contains_key(k) && k != key@ {
                after.lemma_place(k);
                self.lemma_entry(after.place(k));
            }
            if self@.contains_key(k) {
                self.lemma_place(k);
                after.lemma_entry(self.place(k));
            }
            after.lemma_entry(n);
        }
        assert forall|k: K::V| after@.contains_key(k) implies after@[k] == self@.insert(
            key@,
            value,
        )[k] by {
            after.lemma_entry(n);
            if k != key@ {
                after.lemma_place(k);
                self.lemma_entry(after.place(k));
            }
        }
        assert(after@ =~= self@.insert(key@, value));
    }

    /// Keeps `value` under `key`, in place of what was kept there.
    pub fn insert(&mut self, key: K, value: V)
        ensures
            final(self)@ == old(self)@.insert(key@, value),
    {
        self.remove(&key);
        proof {
            use_type_invariant(&*self);
        }
        let ghost before = *self;
        let mut entries: Vec<(K, V)> = Vec::new();
        std::mem::swap(&mut entries, &mut self.entries);
        let ghost (k, v) = (key, value);
        entries.push((key, value));
        proof {
            before.lemma_added(AssocMap { entries }, k, v);
            assert(old(self)@.remove(k@).insert(k@, v) =~= old(self)@.insert(k@, v));
        }
        self.entries = entries;
    }

    /// Forgets what is kept under `key`.
    pub fn remove(&mut self, key: &K)
        ensures
            final(self)@ == old(self)@.remove(key@),
    {
        proof {
            use_type_invariant(&*self);
        }
        let i = self.find(key);
        let ghost before = *self;
        let mut entries: Vec<(K, V)> = Vec::new();
        std::mem::swap(&mut entries, &mut self.entries);
        if i < entries.len() {
            entries.remove(i);
            proof {
                before.lemma_removed(AssocMap { entries }, i as int);
            }
        }
        proof {
            if i == before.entries@.len() {
                assert(before@ =~= before@.remove(key@));
            }
        }
        self.entries = entries;
    }

    /// The keys, each once.
    pub fn keys(&self) -> (r: Vec<&K>)
        ensures
            forall|i: int| 0 <= i < r@.len() ==> self@.contains_key(#[trigger] r@[i]@),
            forall|key: K::V|
                self@.contains_key(key) ==> exists|i: int|
                    0 <= i < r@.len() && #[trigger] r@[i]@ == key,
            forall|i: int, j: int|
                0 <= i < j < r@.len() ==> #[trigger] r@[i]@ != #[trigger] r@[j]@,
    {
        proof {
            use_type_invariant(self);
        }
        let mut out: Vec<&K> = Vec::new();
        let mut i: usize = 0;
        while i < self.entries.len()
            invariant
                i <= self.entries@.len(),
                out@.len() == i,
                forall|j: int| 0 <= j < i ==> #[trigger] out@[j] == self.entries@[j].0,
            decreases self.entries.len() - i,
        {
            out.push(&self.entries[i].0);
            i = i + 1;
        }
        proof {
            assert forall|j: int| 0 <= j < out@.len() implies self@.contains_key(
                #[trigger] out@[j]@,
            ) by {
                self.lemma_entry(j);
            }
            assert forall|key: K::V| self@.contains_key(key) implies exists|j: int|
                0 <= j < out@.len() && #[trigger] out@[j]@ == key by {
                self.lemma_place(key);
                assert(out@[self.place(key)]@ == key);
            }
            assert forall|i: int, j: int| 0 <= i < j < out@.len() implies #[trigger] out@[i]@
                != #[trigger] out@[j]@ by {
                assert(self.entries@[i].0@ != self.entries@[j].0@);
            }
        }
        out
    }
}

impl AssocMap<String, String> {
    /// Copies a map of texts.
    pub fn copied(&self) -> (r: Self)
        ensures
            r@ == self@,
    {
        proof {
            use_type_invariant(self);
        }
        let mut entries: Vec<(String, String)> = Vec::new();
        for i in 0..self.entries.len()
            invariant
                entries@ == self.entries@.take(i as int),
        {
            entries.push((self.entries[i].0.clone(), self.entries[i].1.clone()));
            assert(entries@ =~= self.entries@.take(i + 1));
        }
        assert(entries@ =~= self.entries@);
        let r = AssocMap { entries };
        proof {
            assert forall|key: Seq<char>| r@.contains_key(key) <==> self@.contains_key(key) by {
                if r@.contains_key(key) {
                    r.lemma_place(key);
                    self.lemma_entry(r.place(key));
                }
                if self@.contains_key(key) {
                    self.lemma_place(key);
                    r.lemma_entry(self.place(key));
                }
            }
            assert forall|key: Seq<char>| r@.contains_key(key) implies r@[key] == self@[key] by {
                r.lemma_place(key);
                self.lemma_entry(r.place(key));
            }
            assert(r@ =~= self@);
        }
        r
    }
}

/// What was kept last under a key is found under it, and what is kept under other keys stays.
pub proof fn what_is_kept_is_found<K: MapKey, V>(
    entries: &mut AssocMap<K, V>,
    key: K,
    value: V,
    other: K::V,
)
    requires
        call_ensures(AssocMap::<K, V>::insert, (entries, key, value), ()),
    ensures
        final(entries)@.contains_key(key@),
        final(entries)@[key@] == value,
        other != key@ ==> (final(entries)@.contains_key(other) <==> old(entries)@.contains_key(
            other,
        )),
        other != key@ && old(entries)@.contains_key(other) ==> final(entries)@[other] == old(entries)@[other],
{
}

/// What is forgotten is not found, and what is kept under other keys stays.
pub proof fn what_is_forgotten_is_not_found<K: MapKey, V>(
    entries: &mut AssocMap<K, V>,
    key: &K,
    other: K::V,
)
    requires
        call_ensures(AssocMap::<K, V>::remove, (entries, key), ()),
    ensures
        !final(entries)@.contains_key(key@),
        other != key@ ==> (final(entries)@.contains_key(other) <==> old(entries)@.contains_key(
            other,
        )),
        other != key@ && old(entries)@.contains_key(other) ==> final(entries)@[other] == old(entries)@[other],
{
}

/// A lookup gives what is kept under the key, and nothing where nothing is.
pub proof fn a_lookup_gives_what_is_kept<K: MapKey, V>(
    entries: &AssocMap<K, V>,
    key: &K,
    r: Option<&V>,
)
    requires
        call_ensures(AssocMap::<K, V>::get, (entries, key), r),
    ensures
        r is Some <==> entries@.contains_key(key@),
        r is Some ==> *(r->0) == entries@[key@],
{
}

} // verus!
