//! Binary serialization of updates and state vectors.
//!
//! An update is laid out as a record count followed by the records, each a
//! client id, a body length and the body bytes, all integers little-endian
//! 64-bit. A state vector reuses the same layout with an eight-byte body
//! holding the observed length. Decoding is exact: it accepts precisely the
//! byte strings the encoder produces, with nothing left over.

use vstd::bytes::{spec_u64_from_le_bytes, spec_u64_to_le_bytes, u64_from_le_bytes, u64_to_le_bytes};
use vstd::prelude::*;
use vstd::slice::{slice_subrange, slice_to_vec};

use crate::crdt::{logs_model, ClientLog, Update};

verus! {

/// The bytes of one record: client id, body length, body.
pub open spec fn spec_log_bytes(e: (u64, Seq<u8>)) -> Seq<u8> {
    spec_u64_to_le_bytes(e.0) + spec_u64_to_le_bytes(e.1.len() as u64) + e.1
}

/// The bytes of a record sequence, first record first.
pub open spec fn spec_logs_bytes(m: Seq<(u64, Seq<u8>)>) -> Seq<u8>
    decreases m.len(),
{
    if m.len() == 0 {
        Seq::empty()
    } else {
        spec_log_bytes(m[0]) + spec_logs_bytes(m.drop_first())
    }
}

/// The bytes of a whole update: record count, then the records.
pub open spec fn spec_update_bytes(m: Seq<(u64, Seq<u8>)>) -> Seq<u8> {
    spec_u64_to_le_bytes(m.len() as u64) + spec_logs_bytes(m)
}

/// Every body length and the record count fit the length fields.
pub open spec fn bounded_model(m: Seq<(u64, Seq<u8>)>) -> bool {
    &&& m.len() <= u64::MAX
    &&& forall|i: int| 0 <= i < m.len() ==> (#[trigger] m[i].1).len() <= u64::MAX
}

/// Parses `n` records off the front of `b`; yields the records and the
/// unconsumed tail.
pub open spec fn spec_decode_logs(b: Seq<u8>, n: nat) -> Option<(Seq<(u64, Seq<u8>)>, Seq<u8>)>
    decreases n,
{
    if n == 0 {
        Some((Seq::empty(), b))
    } else if b.len() < 16 {
        None
    } else {
        let client = spec_u64_from_le_bytes(b.take(8));
        let l = spec_u64_from_le_bytes(b.skip(8).take(8)) as nat;
        if b.len() - 16 < l {
            None
        } else {
            let body = b.skip(16).take(l as int);
            match spec_decode_logs(b.skip(16 + l as int), (n - 1) as nat) {
                Some((rest, tail)) => Some((seq![(client, body)] + rest, tail)),
                None => None,
            }
        }
    }
}

/// Parses a whole update; fails on any malformed or surplus byte.
pub open spec fn spec_decode_update(b: Seq<u8>) -> Option<Seq<(u64, Seq<u8>)>> {
    if b.len() < 8 {
        None
    } else {
        let n = spec_u64_from_le_bytes(b.take(8)) as nat;
        match spec_decode_logs(b.skip(8), n) {
            Some((m, tail)) => if tail.len() == 0 {
                Some(m)
            } else {
                None
            },
            None => None,
        }
    }
}

/// Appending a record extends the encoding at its end.
pub proof fn lemma_logs_bytes_push(m: Seq<(u64, Seq<u8>)>, e: (u64, Seq<u8>))
    ensures
        spec_logs_bytes(m.push(e)) == spec_logs_bytes(m) + spec_log_bytes(e),
    decreases m.len(),
{
    if m.len() == 0 {
        let s1 = m.push(e);
        assert(s1[0] == e);
        assert(s1.drop_first() =~= Seq::<(u64, Seq<u8>)>::empty());
        assert(spec_logs_bytes(s1) == spec_log_bytes(e) + spec_logs_bytes(s1.drop_first()));
        assert(spec_logs_bytes(s1.drop_first()) == Seq::<u8>::empty());
        assert(spec_logs_bytes(m) == Seq::<u8>::empty());
        assert(spec_log_bytes(e) + Seq::<u8>::empty() =~= Seq::<u8>::empty() + spec_log_bytes(e));
    } else {
        assert(m.push(e)[0] == m[0]);
        assert(m.push(e).drop_first() =~= m.drop_first().push(e));
        lemma_logs_bytes_push(m.drop_first(), e);
        assert(spec_log_bytes(m[0]) + (spec_logs_bytes(m.drop_first()) + spec_log_bytes(e))
            =~= (spec_log_bytes(m[0]) + spec_logs_bytes(m.drop_first())) + spec_log_bytes(e));
    }
}

/// Decoding inverts encoding on the records, leaving the tail untouched.
pub proof fn lemma_decode_logs_round_trip(m: Seq<(u64, Seq<u8>)>, tail: Seq<u8>)
    requires
        bounded_model(m),
    ensures
        spec_decode_logs(spec_logs_bytes(m) + tail, m.len()) == Some((m, tail)),
    decreases m.len(),
{
    vstd::bytes::lemma_auto_spec_u64_to_from_le_bytes();
    if m.len() == 0 {
        assert(spec_logs_bytes(m) + tail =~= tail);
        assert(spec_decode_logs(tail, 0) == Some((Seq::<(u64, Seq<u8>)>::empty(), tail)));
        assert(m =~= Seq::<(u64, Seq<u8>)>::empty());
    } else {
        let e = m[0];
        let a = spec_u64_to_le_bytes(e.0);
        let lb = spec_u64_to_le_bytes(e.1.len() as u64);
        let rest_bytes = spec_logs_bytes(m.drop_first());
        let b = spec_logs_bytes(m) + tail;
        assert(b =~= a + lb + e.1 + (rest_bytes + tail));
        assert(b.len() >= 16 + e.1.len());
        assert(b.take(8) =~= a);
        assert(spec_u64_from_le_bytes(a) == e.0);
        assert(b.skip(8).take(8) =~= lb);
        assert(spec_u64_from_le_bytes(lb) == e.1.len() as u64);
        let l = e.1.len();
        assert(b.skip(16).take(l as int) =~= e.1);
        assert(b.skip(16 + l as int) =~= rest_bytes + tail);
        assert(bounded_model(m.drop_first())) by {
            assert(forall|i: int|
                0 <= i < m.drop_first().len() ==> #[trigger] m.drop_first()[i] == m[i + 1]);
        }
        lemma_decode_logs_round_trip(m.drop_first(), tail);
        assert(seq![(e.0, e.1)] + m.drop_first() =~= m);
    }
}

/// Decoding a whole encoded update yields exactly the encoded records.
pub proof fn lemma_update_round_trip(m: Seq<(u64, Seq<u8>)>)
    requires
        bounded_model(m),
    ensures
        spec_decode_update(spec_update_bytes(m)) == Some(m),
{
    vstd::bytes::lemma_auto_spec_u64_to_from_le_bytes();
    let c = spec_u64_to_le_bytes(m.len() as u64);
    let b = spec_update_bytes(m);
    assert(b.take(8) =~= c);
    assert(b.skip(8) =~= spec_logs_bytes(m) + Seq::<u8>::empty());
    lemma_decode_logs_round_trip(m, Seq::empty());
}

/// Serializes an update.
pub fn update_to_bytes(u: &Update) -> (b: Vec<u8>)
    ensures
        b@ == spec_update_bytes(logs_model(u@)),
        bounded_model(logs_model(u@)),
{
    let n = u.entries.len();
    let mut b = u64_to_le_bytes(n as u64);
    let mut i: usize = 0;
    proof {
        assert(logs_model(u.entries@.take(0)) =~= Seq::<(u64, Seq<u8>)>::empty());
    }
    while i < n
        invariant
            n == u.entries@.len(),
            i <= n,
            b@ == spec_u64_to_le_bytes(n as u64) + spec_logs_bytes(logs_model(u.entries@.take(i as int))),
            forall|j: int| 0 <= j < i ==> (#[trigger] u.entries@[j]).body@.len() <= u64::MAX,
        decreases n - i,
    {
        let e = &u.entries[i];
        let mut cb = u64_to_le_bytes(e.client);
        b.append(&mut cb);
        let mut lb = u64_to_le_bytes(e.body.len() as u64);
        b.append(&mut lb);
        let ghost pre = b@;
        b.extend_from_slice(e.body.as_slice());
        proof {
            assert(b@ =~= pre + e.body@);
            lemma_logs_bytes_push(
                logs_model(u.entries@.take(i as int)),
                (u.entries@[i as int].client, u.entries@[i as int].body@),
            );
            assert(logs_model(u.entries@.take(i as int + 1)) =~= logs_model(
                u.entries@.take(i as int),
            ).push((u.entries@[i as int].client, u.entries@[i as int].body@)));
            assert(b@ =~= spec_u64_to_le_bytes(n as u64) + spec_logs_bytes(
                logs_model(u.entries@.take(i as int + 1)),
            ));
        }
        i = i + 1;
    }
    proof {
        assert(u.entries@.take(n as int) =~= u.entries@);
        assert(logs_model(u@).len() == n);
        assert forall|i: int|
            0 <= i < n implies (#[trigger] logs_model(u@)[i]).1.len() <= u64::MAX by {
            assert(logs_model(u@)[i].1 == u.entries@[i].body@);
        }
    }
    b
}

/// Parses an update; returns nothing exactly when the bytes are not a
/// well-formed encoding.
pub fn update_from_bytes(b: &Vec<u8>) -> (r: Option<Update>)
    ensures
        match r {
            Some(u) => spec_decode_update(b@) == Some(logs_model(u@)),
            None => spec_decode_update(b@) is None,
        },
{
    if b.len() < 8 {
        return None;
    }
    let n = u64_from_le_bytes(slice_subrange(b.as_slice(), 0, 8));
    proof {
        assert(b@.subrange(0, 8) =~= b@.take(8));
    }
    let mut pos: usize = 8;
    let mut k: u64 = 0;
    let mut out: Vec<ClientLog> = Vec::new();
    proof {
        assert(logs_model(out@) =~= Seq::<(u64, Seq<u8>)>::empty());
        assert(spec_decode_logs(b@.skip(8), n as nat) == (match spec_decode_logs(
            b@.skip(pos as int),
            (n - k) as nat,
        ) {
            Some((m, t)) => Some((logs_model(out@) + m, t)),
            None => None::<(Seq<(u64, Seq<u8>)>, Seq<u8>)>,
        })) by {
            if spec_decode_logs(b@.skip(8), n as nat) is Some {
                let (m, t) = spec_decode_logs(b@.skip(8), n as nat)->Some_0;
                assert(logs_model(out@) + m =~= m);
            }
        }
    }
    while k < n
        invariant
            8 <= pos <= b@.len(),
            k <= n,
            out@.len() == k,
            n == spec_u64_from_le_bytes(b@.take(8)),
            spec_decode_logs(b@.skip(8), n as nat) == (match spec_decode_logs(
                b@.skip(pos as int),
                (n - k) as nat,
            ) {
                Some((m, t)) => Some((logs_model(out@) + m, t)),
                None => None::<(Seq<(u64, Seq<u8>)>, Seq<u8>)>,
            }),
        decreases n - k,
    {
        let remaining = b.len() - pos;
        if remaining < 16 {
            proof {
                assert(b@.skip(pos as int).len() < 16);
                assert(spec_decode_logs(b@.skip(pos as int), (n - k) as nat) is None);
            }
            return None;
        }
        let client = u64_from_le_bytes(slice_subrange(b.as_slice(), pos, pos + 8));
        let l64 = u64_from_le_bytes(slice_subrange(b.as_slice(), pos + 8, pos + 16));
        proof {
            assert(b@.subrange(pos as int, pos as int + 8) =~= b@.skip(pos as int).take(8));
            assert(b@.subrange(pos as int + 8, pos as int + 16) =~= b@.skip(pos as int).skip(
                8,
            ).take(8));
        }
        let avail: u64 = (remaining - 16) as u64;
        if avail < l64 {
            proof {
                assert(b@.skip(pos as int).len() - 16 < l64 as nat);
                assert(spec_decode_logs(b@.skip(pos as int), (n - k) as nat) is None);
            }
            return None;
        }
        let l = l64 as usize;
        let body = slice_to_vec(slice_subrange(b.as_slice(), pos + 16, pos + 16 + l));
        let ghost pre = out@;
        out.push(ClientLog { client, body });
        proof {
            assert(body@ =~= b@.skip(pos as int).skip(16).take(l64 as int));
            let suffix = b@.skip(pos as int);
            let next = b@.skip(pos as int + 16 + l as int);
            assert(suffix.skip(16 + l64 as int) =~= next);
            assert(spec_decode_logs(suffix, (n - k) as nat) == (match spec_decode_logs(
                next,
                (n - k - 1) as nat,
            ) {
                Some((rest, tail)) => Some((seq![(client, body@)] + rest, tail)),
                None => None::<(Seq<(u64, Seq<u8>)>, Seq<u8>)>,
            }));
            assert(logs_model(out@) =~= logs_model(pre).push((client, body@)));
            if spec_decode_logs(next, (n - k - 1) as nat) is Some {
                let (rest, tail) = spec_decode_logs(next, (n - k - 1) as nat)->Some_0;
                assert(logs_model(pre) + (seq![(client, body@)] + rest) =~= logs_model(out@)
                    + rest);
            }
        }
        pos = pos + 16 + l;
        k = k + 1;
    }
    proof {
        assert(spec_decode_logs(b@.skip(pos as int), 0) == Some(
            (Seq::<(u64, Seq<u8>)>::empty(), b@.skip(pos as int)),
        ));
        assert(logs_model(out@) + Seq::<(u64, Seq<u8>)>::empty() =~= logs_model(out@));
        assert(spec_decode_logs(b@.skip(8), n as nat) == Some(
            (logs_model(out@), b@.skip(pos as int)),
        ));
    }
    if pos != b.len() {
        proof {
            assert(b@.skip(pos as int).len() > 0);
        }
        return None;
    }
    proof {
        assert(b@.skip(pos as int).len() == 0);
    }
    Some(Update { entries: out })
}

} // verus!

use crate::crdt::{
    doc_sv, entries_map, lemma_empty_merge, lemma_merge_by_model, spec_merge_model, unique_clients,
    Doc,
};

verus! {

/// Serializes a whole document as its checkpoint blob.
pub fn doc_checkpoint_bytes(d: &Doc) -> (b: Vec<u8>)
    requires
        d.wf(),
    ensures
        b@ == spec_update_bytes(logs_model(d.spec_logs())),
        bounded_model(logs_model(d.spec_logs())),
{
    let u = d.to_update();
    update_to_bytes(&u)
}

/// Rebuilds a document from a checkpoint blob by merging the decoded
/// records into an empty document; fails exactly on malformed bytes.
pub fn doc_from_checkpoint(b: &Vec<u8>) -> (r: Option<Doc>)
    ensures
        match r {
            Some(d) => d.wf() && spec_decode_update(b@) is Some && d@ == spec_merge_model(
                Map::empty(),
                spec_decode_update(b@)->Some_0,
            ),
            None => spec_decode_update(b@) is None,
        },
{
    match update_from_bytes(b) {
        Some(u) => {
            let mut d = Doc::new();
            let _changed = d.apply_update(&u);
            proof {
                lemma_merge_by_model(Map::empty(), u.entries@);
            }
            Some(d)
        },
        None => None,
    }
}

/// Recovery: a checkpoint written after a successful persist decodes, and
/// merging it into an empty document reproduces the persisted document
/// state, hence its state vector.
pub proof fn lemma_recovery_round_trip(s: Seq<crate::crdt::ClientLog>)
    requires
        unique_clients(s),
        bounded_model(logs_model(s)),
    ensures
        spec_decode_update(spec_update_bytes(logs_model(s))) == Some(logs_model(s)),
        spec_merge_model(Map::empty(), logs_model(s)) == entries_map(s),
        doc_sv(spec_merge_model(Map::empty(), logs_model(s))) == doc_sv(entries_map(s)),
{
    lemma_update_round_trip(logs_model(s));
    lemma_merge_by_model(Map::empty(), s);
    lemma_empty_merge(s);
}

} // verus!
