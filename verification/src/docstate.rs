//! Per-document engine state: the CRDT document, the ephemeral awareness
//! table, and the set of subscribed connections with update fan-out.

use vstd::prelude::*;

use crate::crdt::{
    entries_map, lemma_entries_map_contains, lemma_entries_map_remove, lemma_entries_map_update,
    spec_merge, unique_clients, ClientLog, Doc, Update,
};

verus! {

/// Some element of the sequence is `p`.
pub open spec fn has_peer(s: Seq<u64>, p: u64) -> bool {
    exists|i: int| 0 <= i < s.len() && #[trigger] s[i] == p
}

/// No peer id occurs twice.
pub open spec fn unique_peers(s: Seq<u64>) -> bool {
    forall|i: int, j: int| #![trigger s[i], s[j]] 0 <= i < j < s.len() ==> s[i] != s[j]
}

/// The state of one resident document: CRDT state, awareness table,
/// subscriber set, and the poison mark set on a permanent store failure.
pub struct DocState {
    pub doc: Doc,
    pub awareness: Vec<ClientLog>,
    pub subscribers: Vec<u64>,
    pub poisoned: bool,
}

impl DocState {
    /// Representation invariants of every part.
    pub open spec fn wf(&self) -> bool {
        &&& self.doc.wf()
        &&& unique_clients(self.awareness@)
        &&& unique_peers(self.subscribers@)
    }

    /// The awareness table as a map from client id to latest presence.
    pub open spec fn awareness_map(&self) -> Map<u64, Seq<u8>> {
        entries_map(self.awareness@)
    }

    /// Creates a fresh state around an already-hydrated document.
    pub fn new(doc: Doc) -> (s: DocState)
        requires
            doc.wf(),
        ensures
            s.wf(),
            s.doc == doc,
            s.awareness_map() == Map::<u64, Seq<u8>>::empty(),
            s.subscribers@ == Seq::<u64>::empty(),
            !s.poisoned,
    {
        DocState { doc, awareness: Vec::new(), subscribers: Vec::new(), poisoned: false }
    }

    /// Registers a connection for update fan-out; attaching twice under
    /// one id is a no-op.
    pub fn subscribe(&mut self, peer: u64)
        requires
            old(self).wf(),
        ensures
            final(self).wf(),
            final(self).doc == old(self).doc,
            final(self).awareness == old(self).awareness,
            final(self).poisoned == old(self).poisoned,
            forall|p: u64|
                has_peer(final(self).subscribers@, p) <==> (has_peer(old(self).subscribers@, p)
                    || p == peer),
    {
        let mut i: usize = 0;
        let n = self.subscribers.len();
        while i < n
            invariant
                self == old(self),
                self.wf(),
                n == self.subscribers@.len(),
                i <= n,
                forall|j: int| 0 <= j < i ==> self.subscribers@[j] != peer,
            decreases n - i,
        {
            if self.subscribers[i] == peer {
                proof {
                    assert(has_peer(self.subscribers@, peer));
                }
                return ;
            }
            i = i + 1;
        }
        let ghost pre = self.subscribers@;
        self.subscribers.push(peer);
        proof {
            assert(forall|j: int| 0 <= j < pre.len() ==> self.subscribers@[j] == pre[j]);
            assert(self.subscribers@[pre.len() as int] == peer);
            assert forall|p: u64|
                has_peer(self.subscribers@, p) implies (has_peer(pre, p) || p == peer) by {
                let i = choose|i: int| 0 <= i < self.subscribers@.len() && #[trigger] self.subscribers@[i] == p;
                if i < pre.len() {
                    assert(pre[i] == p);
                }
            }
        }
    }

    /// Removes a connection from fan-out; detaching an unknown id is a
    /// no-op.
    pub fn unsubscribe(&mut self, peer: u64)
        requires
            old(self).wf(),
        ensures
            final(self).wf(),
            final(self).doc == old(self).doc,
            final(self).awareness == old(self).awareness,
            final(self).poisoned == old(self).poisoned,
            forall|p: u64|
                has_peer(final(self).subscribers@, p) <==> (has_peer(old(self).subscribers@, p)
                    && p != peer),
    {
        let mut i: usize = 0;
        let n = self.subscribers.len();
        while i < n
            invariant
                self == old(self),
                self.wf(),
                n == self.subscribers@.len(),
                i <= n,
                forall|j: int| 0 <= j < i ==> self.subscribers@[j] != peer,
            decreases n - i,
        {
            if self.subscribers[i] == peer {
                let ghost pre = self.subscribers@;
                self.subscribers.remove(i);
                proof {
                    assert(forall|x: int|
                        0 <= x < self.subscribers@.len() ==> self.subscribers@[x] == (if x < i {
                            pre[x]
                        } else {
                            pre[x + 1]
                        }));
                    assert forall|p: u64|
                        has_peer(self.subscribers@, p) implies (has_peer(pre, p) && p != peer) by {
                        let x = choose|x: int|
                            0 <= x < self.subscribers@.len() && #[trigger] self.subscribers@[x] == p;
                        if x < i {
                            assert(pre[x] == p);
                        } else {
                            assert(pre[x + 1] == p);
                        }
                    }
                    assert forall|p: u64|
                        has_peer(pre, p) && p != peer implies has_peer(self.subscribers@, p) by {
                        let x = choose|x: int| 0 <= x < pre.len() && #[trigger] pre[x] == p;
                        if x < i {
                            assert(self.subscribers@[x] == p);
                        } else {
                            assert(pre[i as int] == peer);
                            assert(x != i);
                            assert(self.subscribers@[x - 1] == p);
                        }
                    }
                }
                return ;
            }
            i = i + 1;
        }
        proof {
            assert forall|p: u64|
                has_peer(self.subscribers@, p) implies (has_peer(old(self).subscribers@, p) && p
                != peer) by {
                let x = choose|x: int|
                    0 <= x < self.subscribers@.len() && #[trigger] self.subscribers@[x] == p;
            }
        }
    }

    /// The subscribers owed a notification for a mutation from `origin`:
    /// everyone attached except the origin, each exactly once.
    fn fan_out(&self, origin: u64) -> (deliveries: Vec<u64>)
        requires
            self.wf(),
        ensures
            unique_peers(deliveries@),
            forall|k: int|
                0 <= k < deliveries@.len() ==> #[trigger] deliveries@[k] != origin && has_peer(
                    self.subscribers@,
                    deliveries@[k],
                ),
            forall|p: u64|
                has_peer(self.subscribers@, p) && p != origin ==> has_peer(deliveries@, p),
    {
        let mut out: Vec<u64> = Vec::new();
        let mut i: usize = 0;
        let n = self.subscribers.len();
        while i < n
            invariant
                self.wf(),
                n == self.subscribers@.len(),
                i <= n,
                unique_peers(out@),
                forall|k: int|
                    0 <= k < out@.len() ==> #[trigger] out@[k] != origin && has_peer(
                        self.subscribers@.take(i as int),
                        out@[k],
                    ),
                forall|j: int|
                    0 <= j < i && (#[trigger] self.subscribers@[j]) != origin ==> has_peer(
                        out@,
                        self.subscribers@[j],
                    ),
            decreases n - i,
        {
            let ghost pre = out@;
            let p = self.subscribers[i];
            proof {
                assert(forall|jj: int|
                    0 <= jj < i + 1 ==> self.subscribers@.take(i as int + 1)[jj]
                        == self.subscribers@[jj]);
                assert(forall|jj: int|
                    0 <= jj < i ==> self.subscribers@.take(i as int)[jj] == self.subscribers@[jj]);
            }
            if p != origin {
                out.push(p);
                proof {
                    assert(forall|k: int| 0 <= k < pre.len() ==> out@[k] == pre[k]);
                    assert forall|k: int| 0 <= k < pre.len() implies (#[trigger] pre[k]) != p by {
                        let jj = choose|jj: int|
                            0 <= jj < self.subscribers@.take(i as int).len()
                                && #[trigger] self.subscribers@.take(i as int)[jj] == pre[k];
                        assert(self.subscribers@[jj] == pre[k]);
                        assert(self.subscribers@[jj] != self.subscribers@[i as int]);
                    }
                    assert(out@[out@.len() - 1] == self.subscribers@[i as int]);
                }
            }
            proof {
                assert(forall|k: int| 0 <= k < pre.len() ==> out@[k] == pre[k]);
                assert forall|k: int| 0 <= k < out@.len() implies #[trigger] out@[k] != origin
                    && has_peer(self.subscribers@.take(i as int + 1), out@[k]) by {
                    if k < pre.len() {
                        let jj = choose|jj: int|
                            0 <= jj < self.subscribers@.take(i as int).len()
                                && #[trigger] self.subscribers@.take(i as int)[jj] == pre[k];
                        assert(self.subscribers@.take(i as int + 1)[jj] == out@[k]);
                    } else {
                        assert(self.subscribers@.take(i as int + 1)[i as int] == out@[k]);
                    }
                }
                assert forall|j: int|
                    0 <= j < i + 1 && (#[trigger] self.subscribers@[j]) != origin implies has_peer(
                    out@,
                    self.subscribers@[j],
                ) by {
                    if j < i {
                        let k = choose|k: int| 0 <= k < pre.len() && #[trigger] pre[k] == self.subscribers@[j];
                        assert(out@[k] == self.subscribers@[j]);
                    } else {
                        assert(out@[out@.len() - 1] == self.subscribers@[i as int]);
                    }
                }
            }
            i = i + 1;
        }
        proof {
            assert(self.subscribers@.take(n as int) =~= self.subscribers@);
        }
        out
    }

    /// Merges an update into the document and reports which subscribers
    /// must be notified: every attached peer except the origin, exactly
    /// once each. An update that changes nothing (a replay) notifies
    /// nobody.
    pub fn apply_update(&mut self, u: &Update, origin: u64) -> (deliveries: Vec<u64>)
        requires
            old(self).wf(),
        ensures
            final(self).wf(),
            final(self).doc@ == spec_merge(old(self).doc@, u@),
            final(self).awareness == old(self).awareness,
            final(self).subscribers == old(self).subscribers,
            final(self).poisoned == old(self).poisoned,
            unique_peers(deliveries@),
            final(self).doc@ == old(self).doc@ ==> deliveries@ == Seq::<u64>::empty(),
            final(self).doc@ != old(self).doc@ ==> {
                &&& forall|k: int|
                    0 <= k < deliveries@.len() ==> #[trigger] deliveries@[k] != origin && has_peer(
                        old(self).subscribers@,
                        deliveries@[k],
                    )
                &&& forall|p: u64|
                    has_peer(old(self).subscribers@, p) && p != origin ==> has_peer(deliveries@, p)
            },
    {
        let changed = self.doc.apply_update(u);
        if changed {
            self.fan_out(origin)
        } else {
            Vec::new()
        }
    }

    /// Records the latest presence payload for `client` and reports which
    /// subscribers must be told, as for updates.
    pub fn awareness_update(&mut self, client: u64, state: &Vec<u8>, origin: u64) -> (deliveries:
        Vec<u64>)
        requires
            old(self).wf(),
        ensures
            final(self).wf(),
            final(self).doc == old(self).doc,
            final(self).subscribers == old(self).subscribers,
            final(self).poisoned == old(self).poisoned,
            final(self).awareness_map() == old(self).awareness_map().insert(client, state@),
            unique_peers(deliveries@),
            forall|k: int|
                0 <= k < deliveries@.len() ==> #[trigger] deliveries@[k] != origin && has_peer(
                    old(self).subscribers@,
                    deliveries@[k],
                ),
            forall|p: u64|
                has_peer(old(self).subscribers@, p) && p != origin ==> has_peer(deliveries@, p),
    {
        proof {
            lemma_entries_map_contains(self.awareness@);
        }
        let found = find_client(&self.awareness, client);
        let entry = ClientLog { client, body: crate::kv::clone_vec(state) };
        match found {
            Some(fi) => {
                proof {
                    lemma_entries_map_update(self.awareness@, fi as int, entry);
                }
                self.awareness[fi] = entry;
            },
            None => {
                let ghost pre = self.awareness@;
                self.awareness.push(entry);
                proof {
                    assert(self.awareness@.drop_last() =~= pre);
                }
            },
        }
        self.fan_out(origin)
    }
}

/// Index of the entry for `client` in a log table, if any.
fn find_client(table: &Vec<ClientLog>, client: u64) -> (r: Option<usize>)
    ensures
        match r {
            Some(i) => i < table@.len() && table@[i as int].client == client,
            None => forall|i: int| 0 <= i < table@.len() ==> table@[i].client != client,
        },
{
    let mut i: usize = 0;
    while i < table.len()
        invariant
            i <= table@.len(),
            forall|j: int| 0 <= j < i ==> table@[j].client != client,
        decreases table@.len() - i,
    {
        if table[i].client == client {
            return Some(i);
        }
        i = i + 1;
    }
    None
}


impl DocState {
    /// Forgets a client's presence: awareness is ephemeral and expires
    /// when its connection goes away.
    pub fn awareness_clear(&mut self, client: u64)
        requires
            old(self).wf(),
        ensures
            final(self).wf(),
            final(self).doc == old(self).doc,
            final(self).subscribers == old(self).subscribers,
            final(self).poisoned == old(self).poisoned,
            final(self).awareness_map() == old(self).awareness_map().remove(client),
    {
        proof {
            lemma_entries_map_contains(self.awareness@);
        }
        match find_client(&self.awareness, client) {
            Some(i) => {
                proof {
                    lemma_entries_map_remove(self.awareness@, i as int);
                }
                self.awareness.remove(i);
            },
            None => {
                proof {
                    assert(self.awareness_map().remove(client) =~= self.awareness_map());
                }
            },
        }
    }
}

} // verus!
