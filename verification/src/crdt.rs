//! The embedded CRDT algebra: per-client append-only logs merged by a
//! longest-log-wins rule.
//!
//! A document is a map from client id to that client's log of bytes. An
//! update carries, for some set of clients, a snapshot of the client's whole
//! log; merging keeps, per client, the longer log. Under the coherence
//! condition that any two logs of one client are prefix-related (which every
//! honest client guarantees by only appending), the merge is commutative,
//! associative and idempotent.

use vstd::prelude::*;

verus! {

/// A snapshot of one client's append-only log.
pub struct ClientLog {
    pub client: u64,
    pub body: Vec<u8>,
}

/// An incremental state change: log snapshots for a set of clients,
/// at most one entry per client.
pub struct Update {
    pub entries: Vec<ClientLog>,
}

/// No client id occurs twice in the sequence.
pub open spec fn unique_clients(s: Seq<ClientLog>) -> bool {
    forall|i: int, j: int|
        #![trigger s[i].client, s[j].client]
        0 <= i < j < s.len() ==> s[i].client != s[j].client
}

/// The map a sequence of client logs denotes (later entries win).
pub open spec fn entries_map(s: Seq<ClientLog>) -> Map<u64, Seq<u8>>
    decreases s.len(),
{
    if s.len() == 0 {
        Map::empty()
    } else {
        entries_map(s.drop_last()).insert(s.last().client, s.last().body@)
    }
}

/// Two logs cohere when one is a prefix of the other.
pub open spec fn compat_bodies(b1: Seq<u8>, b2: Seq<u8>) -> bool {
    b1.is_prefix_of(b2) || b2.is_prefix_of(b1)
}

/// Merging one client's snapshot into a document state: longer log wins.
pub open spec fn merge_log(a: Map<u64, Seq<u8>>, c: u64, b: Seq<u8>) -> Map<u64, Seq<u8>> {
    if a.contains_key(c) && a[c].len() >= b.len() {
        a
    } else {
        a.insert(c, b)
    }
}

/// Folding a whole update into a document state, first entry first.
pub open spec fn spec_merge(a: Map<u64, Seq<u8>>, u: Seq<ClientLog>) -> Map<u64, Seq<u8>>
    decreases u.len(),
{
    if u.len() == 0 {
        a
    } else {
        spec_merge(merge_log(a, u[0].client, u[0].body@), u.drop_first())
    }
}

impl View for Update {
    type V = Seq<ClientLog>;

    open spec fn view(&self) -> Seq<ClientLog> {
        self.entries@
    }
}

impl Update {
    /// At most one entry per client.
    pub open spec fn wf(&self) -> bool {
        unique_clients(self.entries@)
    }

}

/// The in-memory CRDT document: one log per client.
pub struct Doc {
    pub logs: Vec<ClientLog>,
}

impl View for Doc {
    type V = Map<u64, Seq<u8>>;

    open spec fn view(&self) -> Map<u64, Seq<u8>> {
        entries_map(self.logs@)
    }
}

impl Doc {
    /// The internal representation names each client once.
    pub open spec fn wf(&self) -> bool {
        unique_clients(self.logs@)
    }

    /// The stored log sequence, for modules that serialize the document.
    pub open spec fn spec_logs(&self) -> Seq<ClientLog> {
        self.logs@
    }

    /// Creates an empty document.
    pub fn new() -> (d: Doc)
        ensures
            d.wf(),
            d@ == Map::<u64, Seq<u8>>::empty(),
            d.spec_logs() == Seq::<ClientLog>::empty(),
    {
        Doc { logs: Vec::new() }
    }

    /// Index of the log of `client`, if the document has one.
    fn find(&self, client: u64) -> (r: Option<usize>)
        ensures
            match r {
                Some(i) => i < self.logs@.len() && self.logs@[i as int].client == client,
                None => forall|i: int| 0 <= i < self.logs@.len() ==> self.logs@[i].client != client,
            },
    {
        let mut i: usize = 0;
        while i < self.logs.len()
            invariant
                i <= self.logs@.len(),
                forall|j: int| 0 <= j < i ==> self.logs@[j].client != client,
            decreases self.logs@.len() - i,
        {
            if self.logs[i].client == client {
                return Some(i);
            }
            i = i + 1;
        }
        None
    }

    /// Merges one client's log snapshot into the document; reports whether
    /// the document actually changed.
    pub fn apply_log(&mut self, client: u64, body: &Vec<u8>) -> (changed: bool)
        requires
            old(self).wf(),
        ensures
            final(self).wf(),
            final(self)@ == merge_log(old(self)@, client, body@),
            !changed ==> *final(self) == *old(self),
            changed ==> final(self)@.contains_key(client) && (!old(self)@.contains_key(client)
                || final(self)@[client].len() > old(self)@[client].len()),
    {
        proof {
            lemma_entries_map_contains(self.logs@);
        }
        match self.find(client) {
            Some(i) => {
                proof {
                    lemma_entries_map_get(self.logs@, i as int);
                }
                if self.logs[i].body.len() >= body.len() {
                    // The resident log already covers the snapshot.
                    false
                } else {
                    let entry = ClientLog { client, body: clone_bytes(body) };
                    proof {
                        lemma_entries_map_update(self.logs@, i as int, entry);
                    }
                    self.logs[i] = entry;
                    true
                }
            },
            None => {
                let ghost pre = self.logs@;
                let entry = ClientLog { client, body: clone_bytes(body) };
                self.logs.push(entry);
                proof {
                    assert(self.logs@.drop_last() =~= pre);
                }
                true
            },
        }
    }

    /// Merges a whole update into the document; reports whether the
    /// document actually changed, so a replayed update fans out to nobody.
    pub fn apply_update(&mut self, u: &Update) -> (changed: bool)
        requires
            old(self).wf(),
        ensures
            final(self).wf(),
            final(self)@ == spec_merge(old(self)@, u@),
            changed == (final(self)@ != old(self)@),
    {
        let ghost u0 = u.entries@;
        let ghost pre0 = self@;
        proof {
            assert(u0.skip(0) =~= u0);
        }
        let mut i: usize = 0;
        let mut changed = false;
        let ghost mut wit: Option<u64> = None;
        while i < u.entries.len()
            invariant
                self.wf(),
                i <= u0.len(),
                u.entries@ == u0,
                pre0 == old(self)@,
                spec_merge(self@, u0.skip(i as int)) == spec_merge(old(self)@, u0),
                changed == (wit is Some),
                !changed ==> self@ == pre0,
                match wit {
                    Some(c) => self@.contains_key(c) && (!pre0.contains_key(c) || self@[c].len()
                        > pre0[c].len()),
                    None => true,
                },
            decreases u0.len() - i,
        {
            let ghost pre = self@;
            let e = &u.entries[i];
            let step = self.apply_log(e.client, &e.body);
            proof {
                assert(u0.skip(i as int)[0] == u0[i as int]);
                assert(u0.skip(i as int).drop_first() =~= u0.skip(i as int + 1));
                assert(spec_merge(pre, u0.skip(i as int)) == spec_merge(
                    merge_log(pre, u0[i as int].client, u0[i as int].body@),
                    u0.skip(i as int + 1),
                ));
            }
            if step {
                if !changed {
                    proof {
                        wit = Some(e.client);
                    }
                    changed = true;
                }
            }
            i = i + 1;
        }
        proof {
            assert(u0.skip(u0.len() as int) =~= Seq::<ClientLog>::empty());
            if wit is Some {
                let c = wit->Some_0;
                assert(self@ != pre0) by {
                    if self@ == pre0 {
                        assert(self@.contains_key(c) == pre0.contains_key(c));
                    }
                }
            }
        }
        changed
    }
}

/// Copies a byte vector.
fn clone_bytes(b: &Vec<u8>) -> (r: Vec<u8>)
    ensures
        r@ == b@,
{
    let mut out: Vec<u8> = Vec::new();
    let mut i: usize = 0;
    while i < b.len()
        invariant
            i <= b@.len(),
            out@ == b@.take(i as int),
        decreases b@.len() - i,
    {
        out.push(b[i]);
        proof {
            assert(b@.take(i as int).push(b@[i as int]) =~= b@.take(i as int + 1));
        }
        i = i + 1;
    }
    proof {
        assert(b@.take(b@.len() as int) =~= b@);
    }
    out
}

/// A client id is in the denoted map exactly when some entry names it.
pub proof fn lemma_entries_map_contains(s: Seq<ClientLog>)
    ensures
        forall|c: u64|
            #[trigger] entries_map(s).contains_key(c) <==> exists|i: int|
                0 <= i < s.len() && #[trigger] s[i].client == c,
    decreases s.len(),
{
    if s.len() > 0 {
        lemma_entries_map_contains(s.drop_last());
        assert forall|c: u64| #[trigger] entries_map(s).contains_key(c) implies exists|i: int|
            0 <= i < s.len() && #[trigger] s[i].client == c by {
            if c == s.last().client {
                assert(s[s.len() - 1].client == c);
            } else {
                assert(entries_map(s.drop_last()).contains_key(c));
                let i = choose|i: int| 0 <= i < s.drop_last().len() && #[trigger] s.drop_last()[i].client == c;
                assert(s.drop_last()[i] == s[i]);
                assert(s[i].client == c);
            }
        }
        assert forall|c: u64|
            exists|i: int| 0 <= i < s.len() && #[trigger] s[i].client == c implies #[trigger] entries_map(
            s,
        ).contains_key(c) by {
            let i = choose|i: int| 0 <= i < s.len() && #[trigger] s[i].client == c;
            if i < s.len() - 1 {
                assert(s.drop_last()[i].client == c);
                assert(entries_map(s.drop_last()).contains_key(c));
            } else {
                assert(c == s.last().client);
            }
        }
    }
}

/// With unique clients, the denoted map carries each entry's own body.
pub proof fn lemma_entries_map_get(s: Seq<ClientLog>, i: int)
    requires
        unique_clients(s),
        0 <= i < s.len(),
    ensures
        entries_map(s).contains_key(s[i].client),
        entries_map(s)[s[i].client] == s[i].body@,
    decreases s.len(),
{
    if i == s.len() - 1 {
    } else {
        assert(unique_clients(s.drop_last())) by {
            assert(forall|x: int, y: int|
                0 <= x < y < s.drop_last().len() ==> s.drop_last()[x] == s[x] && s.drop_last()[y]
                    == s[y]);
        }
        lemma_entries_map_get(s.drop_last(), i);
        assert(s.drop_last()[i] == s[i]);
        assert(s[i].client != s.last().client);
    }
}

/// Replacing entry `i` with a log for the same client updates the map at
/// that client alone.
pub proof fn lemma_entries_map_update(s: Seq<ClientLog>, i: int, e: ClientLog)
    requires
        unique_clients(s),
        0 <= i < s.len(),
        s[i].client == e.client,
    ensures
        entries_map(s.update(i, e)) == entries_map(s).insert(e.client, e.body@),
        unique_clients(s.update(i, e)),
    decreases s.len(),
{
    let t = s.update(i, e);
    assert(unique_clients(t)) by {
        assert(forall|x: int| 0 <= x < t.len() ==> t[x].client == s[x].client);
    }
    if i == s.len() - 1 {
        assert(t.drop_last() =~= s.drop_last());
        assert(t.last() == e);
        assert(entries_map(t) == entries_map(s.drop_last()).insert(e.client, e.body@));
        assert(entries_map(s.drop_last()).insert(e.client, e.body@) =~= entries_map(s).insert(
            e.client,
            e.body@,
        ));
    } else {
        assert(unique_clients(s.drop_last())) by {
            assert(forall|x: int, y: int|
                0 <= x < y < s.drop_last().len() ==> s.drop_last()[x] == s[x] && s.drop_last()[y]
                    == s[y]);
        }
        assert(s.drop_last()[i] == s[i]);
        lemma_entries_map_update(s.drop_last(), i, e);
        assert(t.drop_last() =~= s.drop_last().update(i, e));
        assert(t.last() == s.last());
        assert(s[i].client != s.last().client);
        assert(entries_map(t) == entries_map(s.drop_last()).insert(e.client, e.body@).insert(
            s.last().client,
            s.last().body@,
        ));
        assert(entries_map(s.drop_last()).insert(e.client, e.body@).insert(
            s.last().client,
            s.last().body@,
        ) =~= entries_map(s).insert(e.client, e.body@));
    }
}

} // verus!

use vstd::prelude::*;

verus! {

/// Some entry of `u` names client `c`.
pub open spec fn has_client(u: Seq<ClientLog>, c: u64) -> bool {
    exists|i: int| 0 <= i < u.len() && #[trigger] u[i].client == c
}

/// The longer of two logs; the first wins a tie.
pub open spec fn longer(x: Seq<u8>, y: Seq<u8>) -> Seq<u8> {
    if x.len() >= y.len() {
        x
    } else {
        y
    }
}

/// The log a document holds for `c` after merging snapshot `b`.
pub open spec fn merged_val(a: Map<u64, Seq<u8>>, c: u64, b: Seq<u8>) -> Seq<u8> {
    if a.contains_key(c) {
        longer(a[c], b)
    } else {
        b
    }
}

/// Entries of the two updates that name one client carry coherent logs.
pub open spec fn compat_updates(u1: Seq<ClientLog>, u2: Seq<ClientLog>) -> bool {
    forall|i: int, j: int|
        #![trigger u1[i].client, u2[j].client]
        0 <= i < u1.len() && 0 <= j < u2.len() && u1[i].client == u2[j].client ==> compat_bodies(
            u1[i].body@,
            u2[j].body@,
        )
}

/// What merging an update does, client by client: clients the update does
/// not name keep their log, and each named client ends with the longer of
/// its resident log and the snapshot.
pub proof fn lemma_merge_pointwise(a: Map<u64, Seq<u8>>, u: Seq<ClientLog>)
    requires
        unique_clients(u),
    ensures
        forall|c: u64|
            !has_client(u, c) ==> (#[trigger] spec_merge(a, u).contains_key(c) <==> a.contains_key(
                c,
            )),
        forall|c: u64|
            !has_client(u, c) && a.contains_key(c) ==> #[trigger] spec_merge(a, u)[c] == a[c],
        forall|i: int|
            0 <= i < u.len() ==> spec_merge(a, u).contains_key(#[trigger] u[i].client),
        forall|i: int|
            0 <= i < u.len() ==> spec_merge(a, u)[#[trigger] u[i].client] == merged_val(
                a,
                u[i].client,
                u[i].body@,
            ),
    decreases u.len(),
{
    if u.len() > 0 {
        let a1 = merge_log(a, u[0].client, u[0].body@);
        let rest = u.drop_first();
        assert(forall|j: int| 0 <= j < rest.len() ==> #[trigger] rest[j] == u[j + 1]);
        assert(unique_clients(rest));
        lemma_merge_pointwise(a1, rest);
        assert(spec_merge(a, u) == spec_merge(a1, rest));
        let c0 = u[0].client;
        assert(!has_client(rest, c0)) by {
            if has_client(rest, c0) {
                let j = choose|j: int| 0 <= j < rest.len() && #[trigger] rest[j].client == c0;
                assert(u[j + 1].client == c0);
            }
        }
        assert(a1.contains_key(c0));
        assert(spec_merge(a1, rest).contains_key(c0));
        assert(spec_merge(a, u)[c0] == merged_val(a, c0, u[0].body@));
        assert forall|i: int| 0 < i < u.len() implies spec_merge(a, u).contains_key(
            #[trigger] u[i].client,
        ) && spec_merge(a, u)[u[i].client] == merged_val(a, u[i].client, u[i].body@) by {
            assert(rest[i - 1] == u[i]);
            assert(u[i].client != c0);
            assert(spec_merge(a1, rest)[u[i].client] == merged_val(a1, u[i].client, u[i].body@));
            assert(merged_val(a1, u[i].client, u[i].body@) == merged_val(a, u[i].client, u[i].body@));
        }
        assert forall|c: u64| !has_client(u, c) implies ((#[trigger] spec_merge(a, u).contains_key(c)
            <==> a.contains_key(c)) && (a.contains_key(c) ==> spec_merge(a, u)[c] == a[c])) by {
            assert(c != c0) by {
                assert(u[0].client == c0);
            }
            assert(!has_client(rest, c)) by {
                if has_client(rest, c) {
                    let j = choose|j: int| 0 <= j < rest.len() && #[trigger] rest[j].client == c;
                    assert(u[j + 1].client == c);
                }
            }
            assert(a1.contains_key(c) <==> a.contains_key(c));
            assert(a.contains_key(c) ==> a1[c] == a[c]);
        }
    }
}

/// Merging two coherent updates in either order yields the same state.
pub proof fn lemma_merge_commutes(a: Map<u64, Seq<u8>>, u1: Seq<ClientLog>, u2: Seq<ClientLog>)
    requires
        unique_clients(u1),
        unique_clients(u2),
        compat_updates(u1, u2),
    ensures
        spec_merge(spec_merge(a, u1), u2) == spec_merge(spec_merge(a, u2), u1),
{
    let m1 = spec_merge(a, u1);
    let m2 = spec_merge(a, u2);
    let l = spec_merge(m1, u2);
    let r = spec_merge(m2, u1);
    lemma_merge_pointwise(a, u1);
    lemma_merge_pointwise(m1, u2);
    lemma_merge_pointwise(a, u2);
    lemma_merge_pointwise(m2, u1);
    assert forall|c: u64| #[trigger] l.contains_key(c) <==> r.contains_key(c) by {
        if has_client(u1, c) {
            let i = choose|i: int| 0 <= i < u1.len() && #[trigger] u1[i].client == c;
            assert(m1.contains_key(c) && r.contains_key(c));
            if has_client(u2, c) {
                assert(l.contains_key(c));
            } else {
                assert(l.contains_key(c) <==> m1.contains_key(c));
            }
        } else if has_client(u2, c) {
            let j = choose|j: int| 0 <= j < u2.len() && #[trigger] u2[j].client == c;
            assert(m2.contains_key(c) && l.contains_key(c));
            assert(r.contains_key(c) <==> m2.contains_key(c));
        } else {
            assert(l.contains_key(c) <==> m1.contains_key(c));
            assert(m1.contains_key(c) <==> a.contains_key(c));
            assert(r.contains_key(c) <==> m2.contains_key(c));
            assert(m2.contains_key(c) <==> a.contains_key(c));
        }
    }
    assert forall|c: u64| l.contains_key(c) implies l[c] == r[c] by {
        if has_client(u1, c) && has_client(u2, c) {
            let i = choose|i: int| 0 <= i < u1.len() && #[trigger] u1[i].client == c;
            let j = choose|j: int| 0 <= j < u2.len() && #[trigger] u2[j].client == c;
            let b1 = u1[i].body@;
            let b2 = u2[j].body@;
            assert(compat_bodies(b1, b2));
            assert(m1[c] == merged_val(a, c, b1));
            assert(l[c] == merged_val(m1, c, b2));
            assert(m2[c] == merged_val(a, c, b2));
            assert(r[c] == merged_val(m2, c, b1));
            if b1.len() == b2.len() {
                assert(b1 =~= b2);
            }
        } else if has_client(u1, c) {
            let i = choose|i: int| 0 <= i < u1.len() && #[trigger] u1[i].client == c;
            assert(l[c] == m1[c]);
            assert(m1[c] == merged_val(a, c, u1[i].body@));
            assert(m2.contains_key(c) <==> a.contains_key(c));
            assert(a.contains_key(c) ==> m2[c] == a[c]);
            assert(r[c] == merged_val(m2, c, u1[i].body@));
        } else if has_client(u2, c) {
            let j = choose|j: int| 0 <= j < u2.len() && #[trigger] u2[j].client == c;
            assert(r[c] == m2[c]);
            assert(m2[c] == merged_val(a, c, u2[j].body@));
            assert(m1.contains_key(c) <==> a.contains_key(c));
            assert(a.contains_key(c) ==> m1[c] == a[c]);
            assert(l[c] == merged_val(m1, c, u2[j].body@));
        } else {
            assert(l[c] == m1[c] && m1[c] == a[c]);
            assert(r[c] == m2[c] && m2[c] == a[c]);
        }
    }
    assert(l =~= r);
}

/// Merging a concatenation equals merging the parts one after the other.
pub proof fn lemma_merge_append(a: Map<u64, Seq<u8>>, u1: Seq<ClientLog>, u2: Seq<ClientLog>)
    ensures
        spec_merge(a, u1 + u2) == spec_merge(spec_merge(a, u1), u2),
    decreases u1.len(),
{
    if u1.len() == 0 {
        assert(u1 + u2 =~= u2);
    } else {
        let a1 = merge_log(a, u1[0].client, u1[0].body@);
        assert((u1 + u2).drop_first() =~= u1.drop_first() + u2);
        lemma_merge_append(a1, u1.drop_first(), u2);
    }
}

/// Merging an update a second time changes nothing.
pub proof fn lemma_merge_idempotent(a: Map<u64, Seq<u8>>, u: Seq<ClientLog>)
    requires
        unique_clients(u),
    ensures
        spec_merge(spec_merge(a, u), u) == spec_merge(a, u),
{
    let m = spec_merge(a, u);
    let l = spec_merge(m, u);
    lemma_merge_pointwise(a, u);
    lemma_merge_pointwise(m, u);
    assert forall|c: u64| #[trigger] l.contains_key(c) <==> m.contains_key(c) by {
        if has_client(u, c) {
            let i = choose|i: int| 0 <= i < u.len() && #[trigger] u[i].client == c;
            assert(m.contains_key(c) && l.contains_key(c));
        }
    }
    assert forall|c: u64| l.contains_key(c) implies l[c] == m[c] by {
        if has_client(u, c) {
            let i = choose|i: int| 0 <= i < u.len() && #[trigger] u[i].client == c;
            assert(m[c] == merged_val(a, c, u[i].body@));
            assert(l[c] == merged_val(m, c, u[i].body@));
            assert(m[c].len() >= u[i].body@.len());
        }
    }
    assert(l =~= m);
}

} // verus!

verus! {

/// Compact summary of what a peer already has: one observed log length per
/// client id.
pub struct StateVector {
    pub entries: Vec<(u64, u64)>,
}

/// No client id occurs twice among the pairs.
pub open spec fn unique_sv(s: Seq<(u64, u64)>) -> bool {
    forall|i: int, j: int|
        #![trigger s[i].0, s[j].0]
        0 <= i < j < s.len() ==> s[i].0 != s[j].0
}

/// The map a sequence of (client, length) pairs denotes.
pub open spec fn sv_map(s: Seq<(u64, u64)>) -> Map<u64, nat>
    decreases s.len(),
{
    if s.len() == 0 {
        Map::empty()
    } else {
        sv_map(s.drop_last()).insert(s.last().0, s.last().1 as nat)
    }
}

impl View for StateVector {
    type V = Map<u64, nat>;

    open spec fn view(&self) -> Map<u64, nat> {
        sv_map(self.entries@)
    }
}

/// The state vector a document state denotes: each client's log length.
pub open spec fn doc_sv(m: Map<u64, Seq<u8>>) -> Map<u64, nat> {
    Map::new(|c: u64| m.contains_key(c), |c: u64| m[c].len())
}

/// A peer whose state vector is `svm` still needs a log of length `l` for
/// client `c`.
pub open spec fn spec_needs(svm: Map<u64, nat>, c: u64, l: nat) -> bool {
    !svm.contains_key(c) || svm[c] < l
}

/// A client id is in the denoted map exactly when some pair names it.
pub proof fn lemma_sv_map_contains(s: Seq<(u64, u64)>)
    ensures
        forall|c: u64|
            #[trigger] sv_map(s).contains_key(c) <==> exists|i: int|
                0 <= i < s.len() && #[trigger] s[i].0 == c,
    decreases s.len(),
{
    if s.len() > 0 {
        lemma_sv_map_contains(s.drop_last());
        assert forall|c: u64| #[trigger] sv_map(s).contains_key(c) implies exists|i: int|
            0 <= i < s.len() && #[trigger] s[i].0 == c by {
            if c == s.last().0 {
                assert(s[s.len() - 1].0 == c);
            } else {
                assert(sv_map(s.drop_last()).contains_key(c));
                let i = choose|i: int| 0 <= i < s.drop_last().len() && #[trigger] s.drop_last()[i].0 == c;
                assert(s.drop_last()[i] == s[i]);
                assert(s[i].0 == c);
            }
        }
        assert forall|c: u64|
            exists|i: int| 0 <= i < s.len() && #[trigger] s[i].0 == c implies #[trigger] sv_map(
            s,
        ).contains_key(c) by {
            let i = choose|i: int| 0 <= i < s.len() && #[trigger] s[i].0 == c;
            if i < s.len() - 1 {
                assert(s.drop_last()[i].0 == c);
                assert(sv_map(s.drop_last()).contains_key(c));
            } else {
                assert(c == s.last().0);
            }
        }
    }
}

/// With unique client ids, the denoted map carries each pair's own length.
pub proof fn lemma_sv_map_get(s: Seq<(u64, u64)>, i: int)
    requires
        unique_sv(s),
        0 <= i < s.len(),
    ensures
        sv_map(s).contains_key(s[i].0),
        sv_map(s)[s[i].0] == s[i].1 as nat,
    decreases s.len(),
{
    if i == s.len() - 1 {
    } else {
        assert(unique_sv(s.drop_last())) by {
            assert(forall|x: int, y: int|
                0 <= x < y < s.drop_last().len() ==> s.drop_last()[x] == s[x] && s.drop_last()[y]
                    == s[y]);
        }
        assert(s.drop_last()[i] == s[i]);
        lemma_sv_map_get(s.drop_last(), i);
        assert(s[i].0 != s.last().0);
    }
}

impl StateVector {
    /// Each client is summarized at most once.
    pub open spec fn wf(&self) -> bool {
        unique_sv(self.entries@)
    }

    /// The empty state vector: the peer has observed nothing.
    pub fn empty() -> (sv: StateVector)
        ensures
            sv.wf(),
            sv@ == Map::<u64, nat>::empty(),
    {
        StateVector { entries: Vec::new() }
    }

    /// The length this vector records for a client, if any.
    pub fn lookup(&self, client: u64) -> (r: Option<u64>)
        requires
            self.wf(),
        ensures
            match r {
                Some(v) => self@.contains_key(client) && self@[client] == v as nat,
                None => !self@.contains_key(client),
            },
    {
        proof {
            lemma_sv_map_contains(self.entries@);
        }
        let mut i: usize = 0;
        while i < self.entries.len()
            invariant
                self.wf(),
                i <= self.entries@.len(),
                forall|j: int| 0 <= j < i ==> self.entries@[j].0 != client,
            decreases self.entries@.len() - i,
        {
            if self.entries[i].0 == client {
                proof {
                    lemma_sv_map_get(self.entries@, i as int);
                }
                return Some(self.entries[i].1);
            }
            i = i + 1;
        }
        None
    }
}

impl Doc {
    /// Summarizes the document as a state vector.
    pub fn state_vector(&self) -> (sv: StateVector)
        requires
            self.wf(),
        ensures
            sv.wf(),
            sv@ == doc_sv(self@),
    {
        let mut out: Vec<(u64, u64)> = Vec::new();
        let mut i: usize = 0;
        proof {
            assert(sv_map(out@) =~= doc_sv(entries_map(self.logs@.take(0))));
        }
        while i < self.logs.len()
            invariant
                self.wf(),
                i <= self.logs@.len(),
                out@.len() == i,
                forall|j: int| 0 <= j < i ==> (#[trigger] out@[j]).0 == self.logs@[j].client,
                sv_map(out@) == doc_sv(entries_map(self.logs@.take(i as int))),
            decreases self.logs@.len() - i,
        {
            let ghost pre = out@;
            let c = self.logs[i].client;
            let l = self.logs[i].body.len() as u64;
            out.push((c, l));
            proof {
                assert(unique_sv(out@)) by {
                    assert(forall|j: int| 0 <= j < i ==> (#[trigger] pre[j]).0 == self.logs@[j].client);
                }
                assert(out@.drop_last() =~= pre);
                assert(self.logs@.take(i as int + 1).drop_last() =~= self.logs@.take(i as int));
                assert(self.logs@.take(i as int + 1).last() == self.logs@[i as int]);
                assert(sv_map(out@) =~= doc_sv(entries_map(self.logs@.take(i as int + 1))));
            }
            i = i + 1;
        }
        proof {
            assert(self.logs@.take(self.logs@.len() as int) =~= self.logs@);
        }
        StateVector { entries: out }
    }

    /// Computes the update that brings a peer with state vector `sv` up to
    /// date: a snapshot of every log the peer has not fully observed.
    #[verifier::rlimit(60)]
    pub fn diff_since(&self, sv: &StateVector) -> (u: Update)
        requires
            self.wf(),
            sv.wf(),
        ensures
            u.wf(),
            forall|i: int|
                0 <= i < u@.len() ==> self@.contains_key(#[trigger] u@[i].client) && self@[u@[
                    i
                ].client] == u@[i].body@ && spec_needs(sv@, u@[i].client, u@[i].body@.len()),
            forall|c: u64|
                #[trigger] self@.contains_key(c) && spec_needs(sv@, c, self@[c].len())
                    ==> has_client(u@, c),
    {
        let mut out: Vec<ClientLog> = Vec::new();
        let mut i: usize = 0;
        while i < self.logs.len()
            invariant
                self.wf(),
                sv.wf(),
                i <= self.logs@.len(),
                unique_clients(out@),
                forall|k: int|
                    0 <= k < out@.len() ==> self@.contains_key((#[trigger] out@[k]).client)
                        && self@[out@[k].client] == out@[k].body@ && spec_needs(
                        sv@,
                        out@[k].client,
                        out@[k].body@.len(),
                    ),
                forall|k: int|
                    0 <= k < out@.len() ==> has_client(
                        self.logs@.take(i as int),
                        (#[trigger] out@[k]).client,
                    ),
                forall|j: int|
                    0 <= j < i && spec_needs(
                        sv@,
                        (#[trigger] self.logs@[j]).client,
                        self.logs@[j].body@.len(),
                    ) ==> has_client(out@, self.logs@[j].client),
            decreases self.logs@.len() - i,
        {
            let ghost pre = out@;
            let c = self.logs[i].client;
            let need = match sv.lookup(c) {
                None => true,
                Some(v) => v < self.logs[i].body.len() as u64,
            };
            proof {
                assert(forall|jj: int|
                    0 <= jj < i + 1 ==> self.logs@.take(i as int + 1)[jj] == self.logs@[jj]);
                assert(forall|jj: int|
                    0 <= jj < i ==> self.logs@.take(i as int)[jj] == self.logs@[jj]);
            }
            if need {
                proof {
                    lemma_entries_map_get(self.logs@, i as int);
                }
                let entry = ClientLog { client: c, body: clone_bytes(&self.logs[i].body) };
                out.push(entry);
                proof {
                    assert(forall|k: int| 0 <= k < pre.len() ==> out@[k] == pre[k]);
                    assert forall|k: int| 0 <= k < pre.len() implies (#[trigger] pre[k]).client
                        != c by {
                        let jj = choose|jj: int|
                            0 <= jj < self.logs@.take(i as int).len()
                                && #[trigger] self.logs@.take(i as int)[jj].client == pre[k].client;
                        assert(self.logs@[jj].client == pre[k].client);
                        assert(self.logs@[jj].client != self.logs@[i as int].client);
                    }
                    assert(unique_clients(out@));
                    assert(out@[out@.len() - 1].client == self.logs@[i as int].client);
                    assert(self.logs@.take(i as int + 1)[i as int].client == c);
                }
            }
            proof {
                assert(forall|k: int| 0 <= k < pre.len() ==> out@[k] == pre[k]);
                assert forall|k: int| 0 <= k < out@.len() implies has_client(
                    self.logs@.take(i as int + 1),
                    (#[trigger] out@[k]).client,
                ) by {
                    if k < pre.len() {
                        let jj = choose|jj: int|
                            0 <= jj < self.logs@.take(i as int).len()
                                && #[trigger] self.logs@.take(i as int)[jj].client == pre[k].client;
                        assert(self.logs@.take(i as int + 1)[jj].client == out@[k].client);
                    } else {
                        assert(self.logs@.take(i as int + 1)[i as int].client == out@[k].client);
                    }
                }
                assert forall|j: int|
                    0 <= j < i + 1 && spec_needs(
                        sv@,
                        (#[trigger] self.logs@[j]).client,
                        self.logs@[j].body@.len(),
                    ) implies has_client(out@, self.logs@[j].client) by {
                    if j < i {
                        let k = choose|k: int|
                            0 <= k < pre.len() && #[trigger] pre[k].client == self.logs@[j].client;
                        assert(out@[k].client == self.logs@[j].client);
                    } else {
                        lemma_entries_map_get(self.logs@, i as int);
                        assert(out@[out@.len() - 1].client == self.logs@[i as int].client);
                    }
                }
            }
            i = i + 1;
        }
        proof {
            lemma_entries_map_contains(self.logs@);
            assert forall|c: u64|
                #[trigger] self@.contains_key(c) && spec_needs(sv@, c, self@[c].len()) implies has_client(
                out@,
                c,
            ) by {
                let j = choose|j: int| 0 <= j < self.logs@.len() && #[trigger] self.logs@[j].client == c;
                lemma_entries_map_get(self.logs@, j);
            }
        }
        Update { entries: out }
    }
}

/// The pointwise join of two document states: every client either side
/// knows, each with the longer of the two logs.
pub open spec fn map_join(p: Map<u64, Seq<u8>>, d: Map<u64, Seq<u8>>) -> Map<u64, Seq<u8>> {
    Map::new(
        |c: u64| p.contains_key(c) || d.contains_key(c),
        |c: u64|
            if p.contains_key(c) {
                if d.contains_key(c) {
                    longer(p[c], d[c])
                } else {
                    p[c]
                }
            } else {
                d[c]
            },
    )
}

/// Completeness of the state transfer: merging the update `diff_since`
/// computes against a peer's state vector into that peer's state yields
/// exactly the join of the two states — the peer ends up with everything
/// the document had, and loses nothing of its own.
pub proof fn lemma_sync_completeness(p: Map<u64, Seq<u8>>, d: Map<u64, Seq<u8>>, u: Seq<ClientLog>)
    requires
        unique_clients(u),
        forall|i: int|
            0 <= i < u.len() ==> d.contains_key(#[trigger] u[i].client) && d[u[i].client] == u[
                i
            ].body@ && spec_needs(doc_sv(p), u[i].client, u[i].body@.len()),
        forall|c: u64|
            #[trigger] d.contains_key(c) && spec_needs(doc_sv(p), c, d[c].len()) ==> has_client(
                u,
                c,
            ),
    ensures
        spec_merge(p, u) == map_join(p, d),
{
    lemma_merge_pointwise(p, u);
    let m = spec_merge(p, u);
    let j = map_join(p, d);
    assert forall|c: u64| #[trigger] m.contains_key(c) <==> j.contains_key(c) by {
        if has_client(u, c) {
            let i = choose|i: int| 0 <= i < u.len() && #[trigger] u[i].client == c;
            assert(d.contains_key(c));
            assert(m.contains_key(c));
        } else {
            assert(m.contains_key(c) <==> p.contains_key(c));
            if d.contains_key(c) && !p.contains_key(c) {
                assert(spec_needs(doc_sv(p), c, d[c].len()));
            }
        }
    }
    assert forall|c: u64| m.contains_key(c) implies m[c] == j[c] by {
        if has_client(u, c) {
            let i = choose|i: int| 0 <= i < u.len() && #[trigger] u[i].client == c;
            assert(m[c] == merged_val(p, c, u[i].body@));
            assert(u[i].body@ == d[c]);
        } else {
            assert(m[c] == p[c]);
            if d.contains_key(c) {
                assert(!spec_needs(doc_sv(p), c, d[c].len()));
                assert(p.contains_key(c) && p[c].len() >= d[c].len());
            }
        }
    }
    assert(m =~= j);
}

} // verus!

verus! {

/// The mathematical content of a log sequence: client ids and log bytes.
pub open spec fn logs_model(s: Seq<ClientLog>) -> Seq<(u64, Seq<u8>)> {
    Seq::new(s.len(), |i: int| (s[i].client, s[i].body@))
}

/// Folding an update given only its mathematical content.
pub open spec fn spec_merge_model(a: Map<u64, Seq<u8>>, m: Seq<(u64, Seq<u8>)>) -> Map<
    u64,
    Seq<u8>,
>
    decreases m.len(),
{
    if m.len() == 0 {
        a
    } else {
        spec_merge_model(merge_log(a, m[0].0, m[0].1), m.drop_first())
    }
}

/// Merging depends on an update only through its content.
pub proof fn lemma_merge_by_model(a: Map<u64, Seq<u8>>, s: Seq<ClientLog>)
    ensures
        spec_merge(a, s) == spec_merge_model(a, logs_model(s)),
    decreases s.len(),
{
    if s.len() > 0 {
        assert(logs_model(s).drop_first() =~= logs_model(s.drop_first()));
        assert(logs_model(s)[0] == (s[0].client, s[0].body@));
        lemma_merge_by_model(merge_log(a, s[0].client, s[0].body@), s.drop_first());
    }
}

/// Merging a whole-document snapshot into an empty document reproduces
/// the document.
pub proof fn lemma_empty_merge(s: Seq<ClientLog>)
    requires
        unique_clients(s),
    ensures
        spec_merge(Map::empty(), s) == entries_map(s),
{
    let e = Map::<u64, Seq<u8>>::empty();
    lemma_merge_pointwise(e, s);
    lemma_entries_map_contains(s);
    let m = spec_merge(e, s);
    assert forall|c: u64| #[trigger] m.contains_key(c) <==> entries_map(s).contains_key(c) by {
        if has_client(s, c) {
            let i = choose|i: int| 0 <= i < s.len() && #[trigger] s[i].client == c;
            assert(m.contains_key(c));
        } else {
            assert(m.contains_key(c) <==> e.contains_key(c));
        }
    }
    assert forall|c: u64| m.contains_key(c) implies m[c] == entries_map(s)[c] by {
        let i = choose|i: int| 0 <= i < s.len() && #[trigger] s[i].client == c;
        assert(m[s[i].client] == merged_val(e, s[i].client, s[i].body@));
        lemma_entries_map_get(s, i);
    }
    assert(m =~= entries_map(s));
}

impl Doc {
    /// A snapshot of the whole document as one update.
    pub fn to_update(&self) -> (u: Update)
        requires
            self.wf(),
        ensures
            u.wf(),
            logs_model(u@) == logs_model(self.spec_logs()),
    {
        let mut out: Vec<ClientLog> = Vec::new();
        let mut i: usize = 0;
        while i < self.logs.len()
            invariant
                self.wf(),
                i <= self.logs@.len(),
                out@.len() == i,
                forall|j: int|
                    0 <= j < i ==> (#[trigger] out@[j]).client == self.logs@[j].client && out@[
                        j
                    ].body@ == self.logs@[j].body@,
            decreases self.logs@.len() - i,
        {
            let e = &self.logs[i];
            out.push(ClientLog { client: e.client, body: clone_bytes(&e.body) });
            i = i + 1;
        }
        proof {
            assert(logs_model(out@) =~= logs_model(self.logs@));
        }
        Update { entries: out }
    }
}

} // verus!

verus! {

/// Delivery order does not matter: two coherent updates merged as one
/// batch produce the same state whichever comes first, so no update is
/// lost under any interleaving of writers.
pub proof fn lemma_merge_order_irrelevant(
    a: Map<u64, Seq<u8>>,
    u1: Seq<ClientLog>,
    u2: Seq<ClientLog>,
)
    requires
        unique_clients(u1),
        unique_clients(u2),
        compat_updates(u1, u2),
    ensures
        spec_merge(a, u1 + u2) == spec_merge(a, u2 + u1),
{
    lemma_merge_append(a, u1, u2);
    lemma_merge_append(a, u2, u1);
    lemma_merge_commutes(a, u1, u2);
}

} // verus!

verus! {

/// Dropping entry `i` removes exactly that client from the map.
pub proof fn lemma_entries_map_remove(s: Seq<ClientLog>, i: int)
    requires
        unique_clients(s),
        0 <= i < s.len(),
    ensures
        entries_map(s.remove(i)) == entries_map(s).remove(s[i].client),
        unique_clients(s.remove(i)),
    decreases s.len(),
{
    let t = s.remove(i);
    assert(unique_clients(t)) by {
        assert(forall|x: int|
            0 <= x < t.len() ==> t[x] == (if x < i {
                s[x]
            } else {
                s[x + 1]
            }));
    }
    assert(unique_clients(s.drop_last())) by {
        assert(forall|x: int, y: int|
            0 <= x < y < s.drop_last().len() ==> s.drop_last()[x] == s[x] && s.drop_last()[y]
                == s[y]);
    }
    if i == s.len() - 1 {
        assert(t =~= s.drop_last());
        lemma_entries_map_contains(s.drop_last());
        assert forall|c: u64| true implies #[trigger] entries_map(t).contains_key(c)
            == entries_map(s).remove(s[i].client).contains_key(c) && (entries_map(t).contains_key(
            c,
        ) ==> entries_map(t)[c] == entries_map(s).remove(s[i].client)[c]) by {
            if c != s[i].client && entries_map(t).contains_key(c) {
                let x = choose|x: int| 0 <= x < t.len() && #[trigger] t[x].client == c;
                lemma_entries_map_get(t, x);
                lemma_entries_map_get(s, x);
            }
            if c == s[i].client {
                if entries_map(t).contains_key(c) {
                    let x = choose|x: int| 0 <= x < t.len() && #[trigger] t[x].client == c;
                    assert(s[x].client == s[i].client && x < i);
                }
            }
        }
        assert(entries_map(t) =~= entries_map(s).remove(s[i].client));
    } else {
        assert(s.drop_last()[i] == s[i]);
        lemma_entries_map_remove(s.drop_last(), i);
        assert(t.drop_last() =~= s.drop_last().remove(i));
        assert(t.last() == s.last());
        assert(s[i].client != s.last().client);
        assert(entries_map(s.drop_last()).remove(s[i].client).insert(
            s.last().client,
            s.last().body@,
        ) =~= entries_map(s).remove(s[i].client));
    }
}

} // verus!
