//! The durable key/value view of one document: an in-memory store double,
//! and the dirty-set bookkeeping that drives checkpointing.

use vstd::prelude::*;

verus! {

/// Compares two byte strings.
pub fn bytes_eq(a: &Vec<u8>, b: &Vec<u8>) -> (r: bool)
    ensures
        r == (a@ == b@),
{
    if a.len() != b.len() {
        return false;
    }
    let mut i: usize = 0;
    while i < a.len()
        invariant
            a@.len() == b@.len(),
            i <= a@.len(),
            forall|j: int| 0 <= j < i ==> a@[j] == b@[j],
        decreases a@.len() - i,
    {
        if a[i] != b[i] {
            return false;
        }
        i = i + 1;
    }
    proof {
        assert(a@ =~= b@);
    }
    true
}

/// No key occurs twice in the sequence of pairs.
pub open spec fn unique_keys(s: Seq<(Vec<u8>, Vec<u8>)>) -> bool {
    forall|i: int, j: int|
        #![trigger s[i].0, s[j].0]
        0 <= i < j < s.len() ==> s[i].0@ != s[j].0@
}

/// The map a sequence of key/value pairs denotes.
pub open spec fn pairs_map(s: Seq<(Vec<u8>, Vec<u8>)>) -> Map<Seq<u8>, Seq<u8>>
    decreases s.len(),
{
    if s.len() == 0 {
        Map::empty()
    } else {
        pairs_map(s.drop_last()).insert(s.last().0@, s.last().1@)
    }
}

/// A key is in the denoted map exactly when some pair carries it.
pub proof fn lemma_pairs_map_contains(s: Seq<(Vec<u8>, Vec<u8>)>)
    ensures
        forall|k: Seq<u8>|
            #[trigger] pairs_map(s).contains_key(k) <==> exists|i: int|
                0 <= i < s.len() && #[trigger] s[i].0@ == k,
    decreases s.len(),
{
    if s.len() > 0 {
        lemma_pairs_map_contains(s.drop_last());
        assert forall|k: Seq<u8>| #[trigger] pairs_map(s).contains_key(k) implies exists|i: int|
            0 <= i < s.len() && #[trigger] s[i].0@ == k by {
            if k == s.last().0@ {
                assert(s[s.len() - 1].0@ == k);
            } else {
                assert(pairs_map(s.drop_last()).contains_key(k));
                let i = choose|i: int|
                    0 <= i < s.drop_last().len() && #[trigger] s.drop_last()[i].0@ == k;
                assert(s.drop_last()[i] == s[i]);
                assert(s[i].0@ == k);
            }
        }
        assert forall|k: Seq<u8>|
            exists|i: int| 0 <= i < s.len() && #[trigger] s[i].0@ == k implies #[trigger] pairs_map(
            s,
        ).contains_key(k) by {
            let i = choose|i: int| 0 <= i < s.len() && #[trigger] s[i].0@ == k;
            if i < s.len() - 1 {
                assert(s.drop_last()[i].0@ == k);
                assert(pairs_map(s.drop_last()).contains_key(k));
            } else {
                assert(k == s.last().0@);
            }
        }
    }
}

/// With unique keys, the denoted map carries each pair's own value.
pub proof fn lemma_pairs_map_get(s: Seq<(Vec<u8>, Vec<u8>)>, i: int)
    requires
        unique_keys(s),
        0 <= i < s.len(),
    ensures
        pairs_map(s).contains_key(s[i].0@),
        pairs_map(s)[s[i].0@] == s[i].1@,
    decreases s.len(),
{
    if i == s.len() - 1 {
    } else {
        assert(unique_keys(s.drop_last())) by {
            assert(forall|x: int, y: int|
                0 <= x < y < s.drop_last().len() ==> s.drop_last()[x] == s[x] && s.drop_last()[y]
                    == s[y]);
        }
        assert(s.drop_last()[i] == s[i]);
        lemma_pairs_map_get(s.drop_last(), i);
        assert(s[i].0@ != s.last().0@);
    }
}

/// Replacing the value stored at pair `i` updates the map at that key alone.
pub proof fn lemma_pairs_map_update(s: Seq<(Vec<u8>, Vec<u8>)>, i: int, p: (Vec<u8>, Vec<u8>))
    requires
        unique_keys(s),
        0 <= i < s.len(),
        s[i].0@ == p.0@,
    ensures
        pairs_map(s.update(i, p)) == pairs_map(s).insert(p.0@, p.1@),
        unique_keys(s.update(i, p)),
    decreases s.len(),
{
    let t = s.update(i, p);
    assert(unique_keys(t)) by {
        assert(forall|x: int| 0 <= x < t.len() ==> t[x].0@ == s[x].0@);
    }
    if i == s.len() - 1 {
        assert(t.drop_last() =~= s.drop_last());
        assert(t.last() == p);
        assert(pairs_map(s.drop_last()).insert(p.0@, p.1@) =~= pairs_map(s).insert(p.0@, p.1@));
    } else {
        assert(unique_keys(s.drop_last())) by {
            assert(forall|x: int, y: int|
                0 <= x < y < s.drop_last().len() ==> s.drop_last()[x] == s[x] && s.drop_last()[y]
                    == s[y]);
        }
        assert(s.drop_last()[i] == s[i]);
        lemma_pairs_map_update(s.drop_last(), i, p);
        assert(t.drop_last() =~= s.drop_last().update(i, p));
        assert(t.last() == s.last());
        assert(s[i].0@ != s.last().0@);
        assert(pairs_map(s.drop_last()).insert(p.0@, p.1@).insert(s.last().0@, s.last().1@)
            =~= pairs_map(s).insert(p.0@, p.1@));
    }
}

/// Dropping pair `i` removes exactly that key from the map.
pub proof fn lemma_pairs_map_remove(s: Seq<(Vec<u8>, Vec<u8>)>, i: int)
    requires
        unique_keys(s),
        0 <= i < s.len(),
    ensures
        pairs_map(s.remove(i)) == pairs_map(s).remove(s[i].0@),
        unique_keys(s.remove(i)),
    decreases s.len(),
{
    let t = s.remove(i);
    assert(unique_keys(t)) by {
        assert(forall|x: int|
            0 <= x < t.len() ==> t[x] == (if x < i {
                s[x]
            } else {
                s[x + 1]
            }));
    }
    assert(unique_keys(s.drop_last())) by {
        assert(forall|x: int, y: int|
            0 <= x < y < s.drop_last().len() ==> s.drop_last()[x] == s[x] && s.drop_last()[y]
                == s[y]);
    }
    if i == s.len() - 1 {
        assert(t =~= s.drop_last());
        lemma_pairs_map_contains(s.drop_last());
        assert forall|k: Seq<u8>| true implies #[trigger] pairs_map(t).contains_key(k)
            == pairs_map(s).remove(s[i].0@).contains_key(k) && (pairs_map(t).contains_key(k)
            ==> pairs_map(t)[k] == pairs_map(s).remove(s[i].0@)[k]) by {
            if k != s[i].0@ && pairs_map(t).contains_key(k) {
                let x = choose|x: int| 0 <= x < t.len() && #[trigger] t[x].0@ == k;
                lemma_pairs_map_get(t, x);
                lemma_pairs_map_get(s, x);
            }
            if k == s[i].0@ {
                if pairs_map(t).contains_key(k) {
                    let x = choose|x: int| 0 <= x < t.len() && #[trigger] t[x].0@ == k;
                    assert(s[x].0@ == s[i].0@ && x < i);
                }
            }
        }
        assert(pairs_map(t) =~= pairs_map(s).remove(s[i].0@));
    } else {
        assert(s.drop_last()[i] == s[i]);
        lemma_pairs_map_remove(s.drop_last(), i);
        assert(t.drop_last() =~= s.drop_last().remove(i));
        assert(t.last() == s.last());
        assert(s[i].0@ != s.last().0@);
        assert(pairs_map(s.drop_last()).remove(s[i].0@).insert(s.last().0@, s.last().1@)
            =~= pairs_map(s).remove(s[i].0@));
    }
}

/// An in-memory byte-blob store: the reference backend used by tests and
/// the model every backend is held to.
pub struct MemStore {
    pub entries: Vec<(Vec<u8>, Vec<u8>)>,
}

impl View for MemStore {
    type V = Map<Seq<u8>, Seq<u8>>;

    open spec fn view(&self) -> Map<Seq<u8>, Seq<u8>> {
        pairs_map(self.entries@)
    }
}

impl MemStore {
    /// Each key is stored at most once.
    pub open spec fn wf(&self) -> bool {
        unique_keys(self.entries@)
    }

    /// Creates an empty store.
    pub fn new() -> (s: MemStore)
        ensures
            s.wf(),
            s@ == Map::<Seq<u8>, Seq<u8>>::empty(),
    {
        MemStore { entries: Vec::new() }
    }

    /// Index of the pair holding `key`, if any.
    fn find(&self, key: &Vec<u8>) -> (r: Option<usize>)
        ensures
            match r {
                Some(i) => i < self.entries@.len() && self.entries@[i as int].0@ == key@,
                None => forall|i: int|
                    0 <= i < self.entries@.len() ==> self.entries@[i].0@ != key@,
            },
    {
        let mut i: usize = 0;
        while i < self.entries.len()
            invariant
                i <= self.entries@.len(),
                forall|j: int| 0 <= j < i ==> self.entries@[j].0@ != key@,
            decreases self.entries@.len() - i,
        {
            if bytes_eq(&self.entries[i].0, key) {
                return Some(i);
            }
            i = i + 1;
        }
        None
    }

    /// Reads the value stored at `key`, if any.
    pub fn get(&self, key: &Vec<u8>) -> (r: Option<Vec<u8>>)
        requires
            self.wf(),
        ensures
            match r {
                Some(v) => self@.contains_key(key@) && self@[key@] == v@,
                None => !self@.contains_key(key@),
            },
    {
        proof {
            lemma_pairs_map_contains(self.entries@);
        }
        match self.find(key) {
            Some(i) => {
                proof {
                    lemma_pairs_map_get(self.entries@, i as int);
                }
                Some(clone_vec(&self.entries[i].1))
            },
            None => None,
        }
    }

    /// `key` currently holds a value.
    pub fn contains(&self, key: &Vec<u8>) -> (r: bool)
        requires
            self.wf(),
        ensures
            r == self@.contains_key(key@),
    {
        proof {
            lemma_pairs_map_contains(self.entries@);
        }
        match self.find(key) {
            Some(i) => {
                proof {
                    lemma_pairs_map_get(self.entries@, i as int);
                }
                true
            },
            None => false,
        }
    }

    /// Stores `value` at `key`, replacing any earlier value.
    pub fn set(&mut self, key: &Vec<u8>, value: &Vec<u8>)
        requires
            old(self).wf(),
        ensures
            final(self).wf(),
            final(self)@ == old(self)@.insert(key@, value@),
    {
        proof {
            lemma_pairs_map_contains(self.entries@);
        }
        let pair = (clone_vec(key), clone_vec(value));
        match self.find(key) {
            Some(i) => {
                proof {
                    lemma_pairs_map_update(self.entries@, i as int, pair);
                }
                self.entries[i] = pair;
            },
            None => {
                let ghost pre = self.entries@;
                self.entries.push(pair);
                proof {
                    assert(self.entries@.drop_last() =~= pre);
                }
            },
        }
    }

    /// Removes any value stored at `key`.
    pub fn remove(&mut self, key: &Vec<u8>)
        requires
            old(self).wf(),
        ensures
            final(self).wf(),
            final(self)@ == old(self)@.remove(key@),
    {
        proof {
            lemma_pairs_map_contains(self.entries@);
        }
        match self.find(key) {
            Some(i) => {
                proof {
                    lemma_pairs_map_remove(self.entries@, i as int);
                }
                self.entries.remove(i);
            },
            None => {
                proof {
                    assert(self@.remove(key@) =~= self@);
                }
            },
        }
    }
}

/// Copies a byte vector.
pub fn clone_vec(b: &Vec<u8>) -> (r: Vec<u8>)
    ensures
        r@ == b@,
{
    let mut out: Vec<u8> = Vec::new();
    let mut i: usize = 0;
    while i < b.len()
        invariant
            i <= b@.len(),
            out@ == b@.take(i as int),
        decreases b@.len() - i,
    {
        out.push(b[i]);
        proof {
            assert(b@.take(i as int).push(b@[i as int]) =~= b@.take(i as int + 1));
        }
        i = i + 1;
    }
    proof {
        assert(b@.take(b@.len() as int) =~= b@);
    }
    out
}

} // verus!

verus! {

/// No byte string occurs twice.
pub open spec fn unique_bkeys(s: Seq<Vec<u8>>) -> bool {
    forall|i: int, j: int|
        #![trigger s[i], s[j]]
        0 <= i < j < s.len() ==> s[i]@ != s[j]@
}

/// The set of byte strings a sequence holds.
pub open spec fn key_set(s: Seq<Vec<u8>>) -> Set<Seq<u8>>
    decreases s.len(),
{
    if s.len() == 0 {
        Set::empty()
    } else {
        key_set(s.drop_last()).insert(s.last()@)
    }
}

/// A byte string is in the set exactly when the sequence holds it.
pub proof fn lemma_key_set_contains(s: Seq<Vec<u8>>)
    ensures
        forall|k: Seq<u8>|
            #[trigger] key_set(s).contains(k) <==> exists|i: int|
                0 <= i < s.len() && #[trigger] s[i]@ == k,
    decreases s.len(),
{
    if s.len() > 0 {
        lemma_key_set_contains(s.drop_last());
        assert forall|k: Seq<u8>| #[trigger] key_set(s).contains(k) implies exists|i: int|
            0 <= i < s.len() && #[trigger] s[i]@ == k by {
            if k == s.last()@ {
                assert(s[s.len() - 1]@ == k);
            } else {
                assert(key_set(s.drop_last()).contains(k));
                let i = choose|i: int| 0 <= i < s.drop_last().len() && #[trigger] s.drop_last()[i]@ == k;
                assert(s.drop_last()[i] == s[i]);
                assert(s[i]@ == k);
            }
        }
        assert forall|k: Seq<u8>|
            exists|i: int| 0 <= i < s.len() && #[trigger] s[i]@ == k implies #[trigger] key_set(
            s,
        ).contains(k) by {
            let i = choose|i: int| 0 <= i < s.len() && #[trigger] s[i]@ == k;
            if i < s.len() - 1 {
                assert(s.drop_last()[i]@ == k);
                assert(key_set(s.drop_last()).contains(k));
            } else {
                assert(k == s.last()@);
            }
        }
    }
}

/// The durable key/value view of one document: an in-memory image of the
/// persisted entries, and the set of keys mutated since the last
/// checkpoint.
pub struct SyncKv {
    pub data: MemStore,
    pub dirty: Vec<Vec<u8>>,
}

impl View for SyncKv {
    type V = Map<Seq<u8>, Seq<u8>>;

    open spec fn view(&self) -> Map<Seq<u8>, Seq<u8>> {
        self.data@
    }
}

impl SyncKv {
    /// The image names each key once, and so does the dirty list.
    pub open spec fn wf(&self) -> bool {
        self.data.wf() && unique_bkeys(self.dirty@)
    }

    /// The keys mutated since the last successful checkpoint.
    pub open spec fn dirty_set(&self) -> Set<Seq<u8>> {
        key_set(self.dirty@)
    }

    /// Creates an empty view with nothing dirty.
    pub fn new() -> (kv: SyncKv)
        ensures
            kv.wf(),
            kv@ == Map::<Seq<u8>, Seq<u8>>::empty(),
            kv.dirty_set() == Set::<Seq<u8>>::empty(),
    {
        SyncKv { data: MemStore::new(), dirty: Vec::new() }
    }

    /// Reads the in-memory image.
    pub fn get(&self, key: &Vec<u8>) -> (r: Option<Vec<u8>>)
        requires
            self.wf(),
        ensures
            match r {
                Some(v) => self@.contains_key(key@) && self@[key@] == v@,
                None => !self@.contains_key(key@),
            },
    {
        self.data.get(key)
    }

    /// Marks a key dirty.
    fn mark_dirty(&mut self, key: &Vec<u8>)
        requires
            old(self).wf(),
        ensures
            final(self).wf(),
            final(self).data == old(self).data,
            final(self).dirty_set() == old(self).dirty_set().insert(key@),
    {
        let mut i: usize = 0;
        let n = self.dirty.len();
        while i < n
            invariant
                self == old(self),
                self.wf(),
                n == self.dirty@.len(),
                i <= n,
                forall|j: int| 0 <= j < i ==> self.dirty@[j]@ != key@,
            decreases n - i,
        {
            if bytes_eq(&self.dirty[i], key) {
                proof {
                    lemma_key_set_contains(self.dirty@);
                    assert(self.dirty@[i as int]@ == key@);
                    assert(self.dirty_set().contains(key@));
                    assert(self.dirty_set() =~= old(self).dirty_set().insert(key@));
                }
                return ;
            }
            i = i + 1;
        }
        let ghost pre = self.dirty@;
        self.dirty.push(clone_vec(key));
        proof {
            assert(self.dirty@.drop_last() =~= pre);
            assert(forall|j: int| 0 <= j < pre.len() ==> self.dirty@[j] == pre[j]);
            assert(self.dirty@.last()@ == key@);
        }
    }

    /// Installs an entry read back from the store during hydration: the
    /// image gains the entry but nothing becomes dirty, since the store
    /// already holds it.
    pub fn load_entry(&mut self, key: &Vec<u8>, value: &Vec<u8>)
        requires
            old(self).wf(),
        ensures
            final(self).wf(),
            final(self)@ == old(self)@.insert(key@, value@),
            final(self).dirty_set() == old(self).dirty_set(),
            final(self).dirty == old(self).dirty,
    {
        self.data.set(key, value);
    }

    /// Writes `value` at `key` in the image and marks the key dirty.
    pub fn put(&mut self, key: &Vec<u8>, value: &Vec<u8>)
        requires
            old(self).wf(),
        ensures
            final(self).wf(),
            final(self)@ == old(self)@.insert(key@, value@),
            final(self).dirty_set() == old(self).dirty_set().insert(key@),
    {
        self.data.set(key, value);
        self.mark_dirty(key);
    }

    /// Deletes `key` from the image and marks the key dirty, so the
    /// deletion reaches the store at the next checkpoint.
    pub fn delete(&mut self, key: &Vec<u8>)
        requires
            old(self).wf(),
        ensures
            final(self).wf(),
            final(self)@ == old(self)@.remove(key@),
            final(self).dirty_set() == old(self).dirty_set().insert(key@),
    {
        self.data.remove(key);
        self.mark_dirty(key);
    }

    /// The writes a checkpoint must perform: each dirty key with the
    /// image's value, or nothing where it was deleted. The dirty set is
    /// left in place; the caller settles it after the writes land.
    pub fn persist_plan(&self) -> (plan: Vec<(Vec<u8>, Option<Vec<u8>>)>)
        requires
            self.wf(),
        ensures
            plan@.len() == self.dirty@.len(),
            forall|j: int|
                0 <= j < plan@.len() ==> {
                    let pk = (#[trigger] plan@[j]).0@;
                    &&& pk == self.dirty@[j]@
                    &&& self@.contains_key(pk) ==> (plan@[j].1 matches Some(v) && v@ == self@[pk])
                    &&& !self@.contains_key(pk) ==> plan@[j].1 is None
                },
    {
        let mut plan: Vec<(Vec<u8>, Option<Vec<u8>>)> = Vec::new();
        let n = self.dirty.len();
        let mut i: usize = 0;
        while i < n
            invariant
                self.wf(),
                n == self.dirty@.len(),
                i <= n,
                plan@.len() == i,
                forall|j: int|
                    0 <= j < i ==> {
                        let pk = (#[trigger] plan@[j]).0@;
                        &&& pk == self.dirty@[j]@
                        &&& self@.contains_key(pk) ==> (plan@[j].1 matches Some(v) && v@ == self@[pk])
                        &&& !self@.contains_key(pk) ==> plan@[j].1 is None
                    },
            decreases n - i,
        {
            let key = clone_vec(&self.dirty[i]);
            let value = self.data.get(&key);
            plan.push((key, value));
            i = i + 1;
        }
        plan
    }

    /// Checkpoints the dirty entries into the store and clears the dirty
    /// set: each dirty key ends at the store with the image's value (or
    /// absent, if deleted), every other key is untouched, and a call with
    /// nothing dirty performs no write at all.
    pub fn persist_to(&mut self, store: &mut MemStore) -> (writes: usize)
        requires
            old(self).wf(),
            old(store).wf(),
        ensures
            final(self).wf(),
            final(store).wf(),
            final(self).data == old(self).data,
            final(self).dirty_set() == Set::<Seq<u8>>::empty(),
            writes == old(self).dirty@.len(),
            forall|k: Seq<u8>|
                old(self).dirty_set().contains(k) && old(self)@.contains_key(k)
                    ==> #[trigger] final(store)@.contains_key(k) && final(store)@[k] == old(
                    self,
                )@[k],
            forall|k: Seq<u8>|
                old(self).dirty_set().contains(k) && !old(self)@.contains_key(k)
                    ==> !#[trigger] final(store)@.contains_key(k),
            forall|k: Seq<u8>|
                !old(self).dirty_set().contains(k) ==> (#[trigger] final(store)@.contains_key(k)
                    <==> old(store)@.contains_key(k)) && (old(store)@.contains_key(k)
                    ==> final(store)@[k] == old(store)@[k]),
            old(self).dirty_set().is_empty() ==> final(store)@ == old(store)@ && writes == 0,
    {
        proof {
            lemma_key_set_contains(self.dirty@);
        }
        let n = self.dirty.len();
        let mut i: usize = 0;
        while i < n
            invariant
                self.wf(),
                store.wf(),
                self == old(self),
                n == self.dirty@.len(),
                i <= n,
                forall|j: int|
                    0 <= j < i ==> (self@.contains_key((#[trigger] self.dirty@[j])@)
                        ==> store@.contains_key(self.dirty@[j]@) && store@[self.dirty@[j]@]
                        == self@[self.dirty@[j]@]) && (!self@.contains_key(self.dirty@[j]@)
                        ==> !store@.contains_key(self.dirty@[j]@)),
                forall|k: Seq<u8>|
                    !key_set(self.dirty@).contains(k) ==> (#[trigger] store@.contains_key(k)
                        <==> old(store)@.contains_key(k)) && (old(store)@.contains_key(k)
                        ==> store@[k] == old(store)@[k]),
            decreases n - i,
        {
            let key = clone_vec(&self.dirty[i]);
            let ghost store_pre = store@;
            match self.data.get(&key) {
                Some(v) => {
                    store.set(&key, &v);
                },
                None => {
                    store.remove(&key);
                },
            }
            proof {
                assert forall|j: int| 0 <= j < i + 1 implies {
                    let dk = (#[trigger] self.dirty@[j])@;
                    (self@.contains_key(dk) ==> store@.contains_key(dk) && store@[dk] == self@[dk])
                        && (!self@.contains_key(dk) ==> !store@.contains_key(dk))
                } by {
                    if j < i {
                        assert(self.dirty@[j]@ != self.dirty@[i as int]@);
                    }
                }
                lemma_key_set_contains(self.dirty@);
                assert(key_set(self.dirty@).contains(self.dirty@[i as int]@));
                assert forall|k: Seq<u8>| !key_set(self.dirty@).contains(k) implies ((
                #[trigger] store@.contains_key(k) <==> old(store)@.contains_key(k)) && (old(
                    store,
                )@.contains_key(k) ==> store@[k] == old(store)@[k])) by {
                    assert(k != self.dirty@[i as int]@);
                    assert(store@.contains_key(k) <==> store_pre.contains_key(k));
                    assert(store_pre.contains_key(k) ==> store@[k] == store_pre[k]);
                }
            }
            i = i + 1;
        }
        proof {
            lemma_key_set_contains(self.dirty@);
            assert forall|k: Seq<u8>| old(self).dirty_set().contains(k) implies ((old(
                self,
            )@.contains_key(k) ==> store@.contains_key(k) && store@[k] == old(self)@[k]) && (!old(
                self,
            )@.contains_key(k) ==> !store@.contains_key(k))) by {
                let j = choose|j: int| 0 <= j < self.dirty@.len() && #[trigger] self.dirty@[j]@ == k;
                assert(self@.contains_key(self.dirty@[j]@) ==> store@.contains_key(
                    self.dirty@[j]@,
                ));
            }
            assert(forall|k: Seq<u8>|
                !old(self).dirty_set().contains(k) ==> (#[trigger] store@.contains_key(k)
                    <==> old(store)@.contains_key(k)) && (old(store)@.contains_key(k) ==> store@[k]
                    == old(store)@[k]));
            if old(self).dirty_set().is_empty() {
                assert(n == 0) by {
                    if n > 0 {
                        assert(self.dirty@[0]@ == self.dirty@[0]@);
                        assert(key_set(self.dirty@).contains(self.dirty@[0]@));
                    }
                }
                assert(store@ =~= old(store)@);
            }
        }
        self.dirty.clear();
        n
    }
}

} // verus!
