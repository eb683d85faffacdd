//! The document registry: lazy hydration from a checkpoint, reference
//! counting, debounced alarm-driven checkpointing, poisoning on permanent
//! store failure, and safe eviction.

use vstd::prelude::*;

use crate::codec::{doc_checkpoint_bytes, doc_from_checkpoint, spec_decode_update};
use crate::crdt::{logs_model, spec_merge_model, Doc};
use crate::docstate::{has_peer, DocState};
use crate::errors::StoreError;
use crate::kv::{bytes_eq, MemStore, SyncKv};

verus! {

/// Default time between the first mutation and its checkpoint.
pub const DEFAULT_CHECKPOINT_INTERVAL_MS: u64 = 10000;

/// Smallest configurable checkpoint interval.
pub const MIN_CHECKPOINT_INTERVAL_MS: u64 = 1000;

/// The store key of a document's checkpoint blob: the document id is the
/// namespace of every key the document stores, and the blob sits at
/// "/data.bin" within it.
pub open spec fn spec_doc_data_key(doc_id: Seq<u8>) -> Seq<u8> {
    doc_id + seq![47u8, 100u8, 97u8, 116u8, 97u8, 46u8, 98u8, 105u8, 110u8]
}

/// The store key of a document's checkpoint blob.
pub fn doc_data_key(doc_id: &Vec<u8>) -> (k: Vec<u8>)
    ensures
        k@ == spec_doc_data_key(doc_id@),
{
    let mut k = crate::kv::clone_vec(doc_id);
    let mut tail: Vec<u8> = vec![47u8, 100u8, 97u8, 116u8, 97u8, 46u8, 98u8, 105u8, 110u8];
    k.append(&mut tail);
    proof {
        assert(k@ =~= spec_doc_data_key(doc_id@));
    }
    k
}

/// One resident document with its bookkeeping.
pub struct DocEntry {
    pub doc_id: Vec<u8>,
    pub state: DocState,
    pub kv: SyncKv,
    pub ref_count: u64,
    pub alarm_scheduled: bool,
}

impl DocEntry {
    /// Representation invariants of the parts.
    pub open spec fn wf(&self) -> bool {
        self.state.wf() && self.kv.wf()
    }
}

/// No document id occurs twice in the registry.
pub open spec fn unique_doc_ids(s: Seq<DocEntry>) -> bool {
    forall|i: int, j: int|
        #![trigger s[i].doc_id, s[j].doc_id]
        0 <= i < j < s.len() ==> s[i].doc_id@ != s[j].doc_id@
}

/// The process-wide document registry. For any document id at most one
/// entry is resident at any instant.
pub struct DocManager {
    pub checkpoint_interval_ms: u64,
    pub docs: Vec<DocEntry>,
}

impl DocManager {
    /// Registry invariants: unique ids, well-formed entries, a lawful
    /// interval.
    pub open spec fn wf(&self) -> bool {
        &&& unique_doc_ids(self.docs@)
        &&& forall|i: int| 0 <= i < self.docs@.len() ==> (#[trigger] self.docs@[i]).wf()
        &&& self.checkpoint_interval_ms >= MIN_CHECKPOINT_INTERVAL_MS
    }

    /// Creates an empty registry with the given checkpoint interval.
    pub fn new(checkpoint_interval_ms: u64) -> (m: DocManager)
        requires
            checkpoint_interval_ms >= MIN_CHECKPOINT_INTERVAL_MS,
        ensures
            m.wf(),
            m.docs@.len() == 0,
            m.checkpoint_interval_ms == checkpoint_interval_ms,
    {
        DocManager { checkpoint_interval_ms, docs: Vec::new() }
    }

    /// Index of the entry for `doc_id`, if the document is resident.
    pub fn find_doc(&self, doc_id: &Vec<u8>) -> (r: Option<usize>)
        ensures
            match r {
                Some(i) => i < self.docs@.len() && self.docs@[i as int].doc_id@ == doc_id@,
                None => forall|i: int|
                    0 <= i < self.docs@.len() ==> (#[trigger] self.docs@[i]).doc_id@ != doc_id@,
            },
    {
        let mut i: usize = 0;
        while i < self.docs.len()
            invariant
                i <= self.docs@.len(),
                forall|j: int| 0 <= j < i ==> (#[trigger] self.docs@[j]).doc_id@ != doc_id@,
            decreases self.docs@.len() - i,
        {
            if bytes_eq(&self.docs[i].doc_id, doc_id) {
                return Some(i);
            }
            i = i + 1;
        }
        None
    }

    /// Hydrates a document and inserts it: an empty document when the
    /// store held no checkpoint, else the checkpoint's decoded state.
    /// Fails exactly on a corrupt checkpoint. Creating a document that is
    /// already resident changes nothing.
    pub fn create_doc(&mut self, doc_id: &Vec<u8>, checkpoint: Option<&Vec<u8>>) -> (r: Result<
        usize,
        StoreError,
    >)
        requires
            old(self).wf(),
        ensures
            final(self).wf(),
            match r {
                Ok(i) => i < final(self).docs@.len() && final(self).docs@[i as int].doc_id@
                    == doc_id@,
                Err(e) => e == StoreError::Corrupt && *final(self) == *old(self) && (
                checkpoint matches Some(b) && spec_decode_update(b@) is None) && (forall|i: int|
                    0 <= i < old(self).docs@.len() ==> (#[trigger] old(self).docs@[i]).doc_id@
                        != doc_id@),
            },
            (exists|i: int|
                0 <= i < old(self).docs@.len() && (#[trigger] old(self).docs@[i]).doc_id@
                    == doc_id@) ==> *final(self) == *old(self),
            (forall|i: int|
                0 <= i < old(self).docs@.len() ==> (#[trigger] old(self).docs@[i]).doc_id@
                    != doc_id@) && (r is Ok) ==> {
                &&& final(self).docs@.len() == old(self).docs@.len() + 1
                &&& forall|j: int|
                    0 <= j < old(self).docs@.len() ==> final(self).docs@[j] == old(self).docs@[j]
                &&& {
                    let e = final(self).docs@.last();
                    &&& e.doc_id@ == doc_id@
                    &&& e.ref_count == 0
                    &&& !e.alarm_scheduled
                    &&& !e.state.poisoned
                    &&& e.state.subscribers@ == Seq::<u64>::empty()
                    &&& e.kv.dirty_set() == Set::<Seq<u8>>::empty()
                    &&& e.state.doc@ == (match checkpoint {
                        Some(b) => spec_merge_model(
                            Map::<u64, Seq<u8>>::empty(),
                            spec_decode_update(b@)->Some_0,
                        ),
                        None => Map::<u64, Seq<u8>>::empty(),
                    })
                }
            },
    {
        match self.find_doc(doc_id) {
            Some(i) => Ok(i),
            None => {
                let doc = match checkpoint {
                    Some(b) => match doc_from_checkpoint(b) {
                        Some(d) => d,
                        None => {
                            return Err(StoreError::Corrupt);
                        },
                    },
                    None => Doc::new(),
                };
                let mut kv = SyncKv::new();
                match checkpoint {
                    Some(b) => {
                        let k = doc_data_key(doc_id);
                        kv.load_entry(&k, b);
                    },
                    None => {},
                }
                let entry = DocEntry {
                    doc_id: crate::kv::clone_vec(doc_id),
                    state: DocState::new(doc),
                    kv,
                    ref_count: 0,
                    alarm_scheduled: false,
                };
                let ghost pre = self.docs@;
                let n = self.docs.len();
                self.docs.push(entry);
                proof {
                    assert(forall|j: int| 0 <= j < pre.len() ==> self.docs@[j] == pre[j]);
                    assert(self.docs@.last().doc_id@ == doc_id@);
                }
                Ok(n)
            },
        }
    }

    /// Attaches a connection to a resident document, refusing a poisoned
    /// one, whose clients must reconnect elsewhere.
    pub fn attach(&mut self, i: usize, peer: u64) -> (r: Result<(), StoreError>)
        requires
            old(self).wf(),
            i < old(self).docs@.len(),
            old(self).docs@[i as int].ref_count < u64::MAX,
        ensures
            final(self).wf(),
            final(self).docs@.len() == old(self).docs@.len(),
            forall|j: int|
                0 <= j < old(self).docs@.len() && j != i ==> final(self).docs@[j] == old(
                    self,
                ).docs@[j],
            match r {
                Ok(_) => {
                    let e0 = old(self).docs@[i as int];
                    let e1 = final(self).docs@[i as int];
                    &&& !e0.state.poisoned
                    &&& e1.ref_count == e0.ref_count + 1
                    &&& e1.doc_id == e0.doc_id
                    &&& e1.kv == e0.kv
                    &&& e1.alarm_scheduled == e0.alarm_scheduled
                    &&& e1.state.doc == e0.state.doc
                    &&& forall|p: u64|
                        has_peer(e1.state.subscribers@, p) <==> (has_peer(
                            e0.state.subscribers@,
                            p,
                        ) || p == peer)
                },
                Err(e) => e == StoreError::Permanent && old(
                    self,
                ).docs@[i as int].state.poisoned && final(self).docs@ == old(self).docs@,
            },
    {
        let ghost pre = self.docs@;
        let mut entry = self.docs.remove(i);
        if entry.state.poisoned {
            self.docs.insert(i, entry);
            proof {
                assert(self.docs@ =~= pre);
            }
            return Err(StoreError::Permanent);
        }
        entry.state.subscribe(peer);
        entry.ref_count = entry.ref_count + 1;
        self.docs.insert(i, entry);
        proof {
            assert(forall|j: int| 0 <= j < pre.len() && j != i ==> self.docs@[j] == pre[j]);
            assert(forall|j: int|
                0 <= j < self.docs@.len() ==> (#[trigger] self.docs@[j]).doc_id@ == pre[j].doc_id@);
        }
        Ok(())
    }

    /// Detaches a connection: unsubscribes the peer and releases one
    /// reference.
    pub fn detach(&mut self, i: usize, peer: u64)
        requires
            old(self).wf(),
            i < old(self).docs@.len(),
        ensures
            final(self).wf(),
            final(self).docs@.len() == old(self).docs@.len(),
            forall|j: int|
                0 <= j < old(self).docs@.len() && j != i ==> final(self).docs@[j] == old(
                    self,
                ).docs@[j],
            ({
                let e0 = old(self).docs@[i as int];
                let e1 = final(self).docs@[i as int];
                &&& e1.ref_count == (if e0.ref_count > 0 {
                    (e0.ref_count - 1) as u64
                } else {
                    0u64
                })
                &&& e1.doc_id == e0.doc_id
                &&& e1.kv == e0.kv
                &&& e1.alarm_scheduled == e0.alarm_scheduled
                &&& e1.state.doc == e0.state.doc
                &&& forall|p: u64|
                    has_peer(e1.state.subscribers@, p) <==> (has_peer(e0.state.subscribers@, p)
                        && p != peer)
            }),
    {
        let ghost pre = self.docs@;
        let mut entry = self.docs.remove(i);
        entry.state.unsubscribe(peer);
        if entry.ref_count > 0 {
            entry.ref_count = entry.ref_count - 1;
        }
        self.docs.insert(i, entry);
        proof {
            assert(forall|j: int| 0 <= j < pre.len() && j != i ==> self.docs@[j] == pre[j]);
            assert(forall|j: int|
                0 <= j < self.docs@.len() ==> (#[trigger] self.docs@[j]).doc_id@ == pre[j].doc_id@);
        }
    }

    /// Records that the document mutated: writes the fresh checkpoint blob
    /// into the durable view (dirtying it) and says whether the caller
    /// must schedule the checkpoint alarm. An alarm is requested exactly
    /// when none is pending, so at most one alarm per document is ever
    /// outstanding.
    pub fn note_mutation(&mut self, i: usize) -> (schedule: bool)
        requires
            old(self).wf(),
            i < old(self).docs@.len(),
        ensures
            final(self).wf(),
            final(self).docs@.len() == old(self).docs@.len(),
            forall|j: int|
                0 <= j < old(self).docs@.len() && j != i ==> final(self).docs@[j] == old(
                    self,
                ).docs@[j],
            schedule == !old(self).docs@[i as int].alarm_scheduled,
            ({
                let e0 = old(self).docs@[i as int];
                let e1 = final(self).docs@[i as int];
                &&& e1.alarm_scheduled
                &&& e1.doc_id == e0.doc_id
                &&& e1.ref_count == e0.ref_count
                &&& e1.state == e0.state
                &&& e1.kv@ == e0.kv@.insert(
                    spec_doc_data_key(e0.doc_id@),
                    crate::codec::spec_update_bytes(logs_model(e0.state.doc.spec_logs())),
                )
                &&& e1.kv.dirty_set() == e0.kv.dirty_set().insert(spec_doc_data_key(e0.doc_id@))
            }),
    {
        let ghost pre = self.docs@;
        let mut entry = self.docs.remove(i);
        let blob = doc_checkpoint_bytes(&entry.state.doc);
        let k = doc_data_key(&entry.doc_id);
        entry.kv.put(&k, &blob);
        let schedule = !entry.alarm_scheduled;
        entry.alarm_scheduled = true;
        self.docs.insert(i, entry);
        proof {
            assert(forall|j: int| 0 <= j < pre.len() && j != i ==> self.docs@[j] == pre[j]);
            assert(forall|j: int|
                0 <= j < self.docs@.len() ==> (#[trigger] self.docs@[j]).doc_id@ == pre[j].doc_id@);
        }
        schedule
    }

    /// The checkpoint alarm fired: flushes the dirty entries through the
    /// store and clears the pending-alarm mark. With nothing dirty the
    /// store is untouched.
    pub fn alarm_fired(&mut self, i: usize, store: &mut MemStore) -> (writes: usize)
        requires
            old(self).wf(),
            old(store).wf(),
            i < old(self).docs@.len(),
        ensures
            final(self).wf(),
            final(store).wf(),
            final(self).docs@.len() == old(self).docs@.len(),
            forall|j: int|
                0 <= j < old(self).docs@.len() && j != i ==> final(self).docs@[j] == old(
                    self,
                ).docs@[j],
            ({
                let e0 = old(self).docs@[i as int];
                let e1 = final(self).docs@[i as int];
                &&& !e1.alarm_scheduled
                &&& e1.doc_id == e0.doc_id
                &&& e1.ref_count == e0.ref_count
                &&& e1.state == e0.state
                &&& e1.kv@ == e0.kv@
                &&& e1.kv.dirty_set() == Set::<Seq<u8>>::empty()
                &&& writes == e0.kv.dirty@.len()
                &&& (forall|k: Seq<u8>|
                    e0.kv.dirty_set().contains(k) && e0.kv@.contains_key(k)
                        ==> #[trigger] final(store)@.contains_key(k) && final(store)@[k]
                        == e0.kv@[k])
                &&& (forall|k: Seq<u8>|
                    e0.kv.dirty_set().contains(k) && !e0.kv@.contains_key(k)
                        ==> !#[trigger] final(store)@.contains_key(k))
                &&& (forall|k: Seq<u8>|
                    !e0.kv.dirty_set().contains(k) ==> (#[trigger] final(store)@.contains_key(k)
                        <==> old(store)@.contains_key(k)) && (old(store)@.contains_key(k)
                        ==> final(store)@[k] == old(store)@[k]))
                &&& (e0.kv.dirty_set().is_empty() ==> final(store)@ == old(store)@ && writes == 0)
            }),
    {
        let ghost pre = self.docs@;
        let mut entry = self.docs.remove(i);
        let writes = entry.kv.persist_to(store);
        entry.alarm_scheduled = false;
        self.docs.insert(i, entry);
        proof {
            assert(forall|j: int| 0 <= j < pre.len() && j != i ==> self.docs@[j] == pre[j]);
            assert(forall|j: int|
                0 <= j < self.docs@.len() ==> (#[trigger] self.docs@[j]).doc_id@ == pre[j].doc_id@);
        }
        writes
    }

    /// Settles a checkpoint attempt made through an outside store:
    /// success clears the dirty set and the pending-alarm mark; a
    /// transient (or corrupt-response) failure keeps the dirty set and
    /// leaves the alarm mark standing, so a follow-up alarm retries; a
    /// permanent failure poisons the document and halts its persistence.
    pub fn persist_settled(&mut self, i: usize, failed: Option<StoreError>) -> (r: Result<
        (),
        StoreError,
    >)
        requires
            old(self).wf(),
            i < old(self).docs@.len(),
        ensures
            final(self).wf(),
            final(self).docs@.len() == old(self).docs@.len(),
            forall|j: int|
                0 <= j < old(self).docs@.len() && j != i ==> final(self).docs@[j] == old(
                    self,
                ).docs@[j],
            ({
                let e0 = old(self).docs@[i as int];
                let e1 = final(self).docs@[i as int];
                &&& e1.doc_id == e0.doc_id
                &&& e1.ref_count == e0.ref_count
                &&& match failed {
                    None => {
                        &&& r is Ok
                        &&& e1.kv@ == e0.kv@
                        &&& e1.kv.dirty_set() == Set::<Seq<u8>>::empty()
                        &&& !e1.alarm_scheduled
                        &&& e1.state == e0.state
                    },
                    Some(e) => {
                        &&& r matches Err(e2) && e2 == e
                        &&& e1.kv == e0.kv
                        &&& (e == StoreError::Permanent ==> e1.state.poisoned
                            && !e1.alarm_scheduled && e1.state.doc == e0.state.doc
                            && e1.state.subscribers == e0.state.subscribers && e1.state.awareness
                            == e0.state.awareness)
                        &&& (e != StoreError::Permanent ==> e1.state == e0.state
                            && e1.alarm_scheduled)
                    },
                }
            }),
    {
        let ghost pre = self.docs@;
        let mut entry = self.docs.remove(i);
        let r = match failed {
            None => {
                entry.kv.dirty.clear();
                entry.alarm_scheduled = false;
                proof {
                    assert(entry.kv.dirty_set() =~= Set::<Seq<u8>>::empty());
                }
                Ok(())
            },
            Some(StoreError::Permanent) => {
                entry.state.poisoned = true;
                entry.alarm_scheduled = false;
                Err(StoreError::Permanent)
            },
            Some(e) => {
                entry.alarm_scheduled = true;
                Err(e)
            },
        };
        self.docs.insert(i, entry);
        proof {
            assert(forall|j: int| 0 <= j < pre.len() && j != i ==> self.docs@[j] == pre[j]);
            assert(forall|j: int|
                0 <= j < self.docs@.len() ==> (#[trigger] self.docs@[j]).doc_id@ == pre[j].doc_id@);
        }
        r
    }

    /// Marks a document poisoned after a permanent store failure:
    /// in-memory merges may continue but new attachments are refused.
    pub fn mark_poisoned(&mut self, i: usize)
        requires
            old(self).wf(),
            i < old(self).docs@.len(),
        ensures
            final(self).wf(),
            final(self).docs@.len() == old(self).docs@.len(),
            forall|j: int|
                0 <= j < old(self).docs@.len() && j != i ==> final(self).docs@[j] == old(
                    self,
                ).docs@[j],
            ({
                let e0 = old(self).docs@[i as int];
                let e1 = final(self).docs@[i as int];
                &&& e1.state.poisoned
                &&& e1.doc_id == e0.doc_id
                &&& e1.kv == e0.kv
                &&& e1.ref_count == e0.ref_count
                &&& e1.alarm_scheduled == e0.alarm_scheduled
                &&& e1.state.doc == e0.state.doc
                &&& e1.state.subscribers == e0.state.subscribers
            }),
    {
        let ghost pre = self.docs@;
        let mut entry = self.docs.remove(i);
        entry.state.poisoned = true;
        self.docs.insert(i, entry);
        proof {
            assert(forall|j: int| 0 <= j < pre.len() && j != i ==> self.docs@[j] == pre[j]);
            assert(forall|j: int|
                0 <= j < self.docs@.len() ==> (#[trigger] self.docs@[j]).doc_id@ == pre[j].doc_id@);
        }
    }

    /// Evicts the entry only when nothing holds it and nothing is dirty:
    /// a document is never evicted while a connection is attached or a
    /// dirty entry exists.
    pub fn try_evict(&mut self, i: usize) -> (evicted: bool)
        requires
            old(self).wf(),
            i < old(self).docs@.len(),
        ensures
            final(self).wf(),
            evicted == (old(self).docs@[i as int].ref_count == 0 && old(self).docs@[
                i as int
            ].state.subscribers@.len() == 0 && old(self).docs@[i as int].kv.dirty@.len() == 0),
            !evicted ==> *final(self) == *old(self),
            evicted ==> {
                let e0 = old(self).docs@[i as int];
                &&& e0.kv.dirty_set() == Set::<Seq<u8>>::empty()
                &&& final(self).docs@ == old(self).docs@.remove(i as int)
            },
    {
        let ok = self.docs[i].ref_count == 0 && self.docs[i].state.subscribers.len() == 0
            && self.docs[i].kv.dirty.len() == 0;
        if ok {
            proof {
                crate::kv::lemma_key_set_contains(self.docs@[i as int].kv.dirty@);
                assert(self.docs@[i as int].kv.dirty_set() =~= Set::<Seq<u8>>::empty());
                let ghost t = self.docs@.remove(i as int);
                assert(forall|x: int|
                    0 <= x < t.len() ==> t[x] == (if x < i {
                        self.docs@[x]
                    } else {
                        self.docs@[x + 1]
                    }));
            }
            self.docs.remove(i);
            true
        } else {
            false
        }
    }
}

} // verus!
