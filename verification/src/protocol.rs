//! The wire protocol: length-delimited binary frames tagged by a message
//! byte, and the per-connection state machine that drives the initial
//! state transfer and steady-state update propagation.

use vstd::bytes::{spec_u64_from_le_bytes, spec_u64_to_le_bytes, u64_from_le_bytes, u64_to_le_bytes};
use vstd::prelude::*;
use vstd::slice::{slice_subrange, slice_to_vec};

use crate::codec::{spec_decode_update, spec_update_bytes, update_from_bytes, update_to_bytes};
use crate::crdt::{
    doc_sv, lemma_sv_map_contains, lemma_sv_map_get, logs_model, spec_merge, spec_merge_model,
    spec_needs, sv_map, unique_sv, ClientLog, StateVector, Update,
};
use crate::docstate::{has_peer, unique_peers, DocState};

verus! {

/// The close code sent on a protocol violation.
pub const CLOSE_PROTOCOL_ERROR: u16 = 1002;

/// A parsed inbound or outbound frame.
pub enum Frame {
    SyncStep1(StateVector),
    SyncStep2(Update),
    Update(Update),
    Awareness(Vec<u8>),
    Query,
}

/// Why a byte string was not accepted as a frame.
#[derive(Clone, Copy, PartialEq, Eq, Structural, Debug)]
pub enum FrameErr {
    /// The tag byte names no known frame; such frames are ignored.
    Unknown,
    /// A well-framed update message whose payload does not decode: the
    /// frame is dropped and the connection stays open.
    Corrupt,
    /// The framing itself is violated; the connection is closed with 1002.
    Malformed,
}

/// A state vector written as records whose body is the observed length in
/// eight little-endian bytes.
pub open spec fn sv_wire_model(s: Seq<(u64, u64)>) -> Seq<(u64, Seq<u8>)> {
    Seq::new(s.len(), |i: int| (s[i].0, spec_u64_to_le_bytes(s[i].1)))
}

/// No client id occurs twice among the records.
pub open spec fn unique_firsts(m: Seq<(u64, Seq<u8>)>) -> bool {
    forall|i: int, j: int| #![trigger m[i].0, m[j].0] 0 <= i < j < m.len() ==> m[i].0 != m[j].0
}

/// The records decode as a state vector: eight-byte bodies, unique ids.
pub open spec fn sv_wire_ok(m: Seq<(u64, Seq<u8>)>) -> bool {
    &&& forall|i: int| 0 <= i < m.len() ==> (#[trigger] m[i].1).len() == 8
    &&& unique_firsts(m)
}

/// The state vector a well-formed record sequence denotes: each record's
/// eight-byte body read back as the observed length.
pub open spec fn wire_sv_map(m: Seq<(u64, Seq<u8>)>) -> Map<u64, nat> {
    Map::new(
        |c: u64| exists|i: int| 0 <= i < m.len() && #[trigger] m[i].0 == c,
        |c: u64| spec_u64_from_le_bytes(m[choose|i: int| 0 <= i < m.len() && m[i].0 == c].1) as nat,
    )
}

/// Reading a state vector back out of its record layout loses nothing.
pub proof fn lemma_sv_map_as_wire(s: Seq<(u64, u64)>)
    requires
        unique_sv(s),
    ensures
        wire_sv_map(sv_wire_model(s)) == sv_map(s),
{
    let m = sv_wire_model(s);
    lemma_sv_map_contains(s);
    vstd::bytes::lemma_auto_spec_u64_to_from_le_bytes();
    assert forall|c: u64| #[trigger] wire_sv_map(m).contains_key(c) <==> sv_map(s).contains_key(
        c,
    ) by {
        if wire_sv_map(m).contains_key(c) {
            let i = choose|i: int| 0 <= i < m.len() && #[trigger] m[i].0 == c;
            assert(s[i].0 == c);
        }
        if sv_map(s).contains_key(c) {
            let i = choose|i: int| 0 <= i < s.len() && #[trigger] s[i].0 == c;
            assert(m[i].0 == c);
        }
    }
    assert forall|c: u64| wire_sv_map(m).contains_key(c) implies wire_sv_map(m)[c] == sv_map(s)[
        c
    ] by {
        let i = choose|i: int| 0 <= i < m.len() && m[i].0 == c;
        assert(0 <= i < m.len() && m[i].0 == c);
        assert(s[i].0 == c);
        lemma_sv_map_get(s, i);
        assert(m[i].1 == spec_u64_to_le_bytes(s[i].1));
        assert(spec_u64_from_le_bytes(m[i].1) == s[i].1);
    }
    assert(wire_sv_map(m) =~= sv_map(s));
}

/// The payload bytes after the tag parse for that tag.
pub open spec fn payload_ok(tag: u8, rest: Seq<u8>) -> bool {
    if tag == 0 {
        spec_decode_update(rest) is Some && sv_wire_ok(spec_decode_update(rest)->Some_0)
    } else if tag == 1 || tag == 2 {
        spec_decode_update(rest) is Some
    } else if tag == 3 {
        true
    } else if tag == 4 {
        rest.len() == 0
    } else {
        true
    }
}

/// Rewrites a state vector in the record layout updates use.
fn sv_to_wire(sv: &StateVector) -> (u: Update)
    ensures
        logs_model(u@) == sv_wire_model(sv.entries@),
{
    let mut out: Vec<ClientLog> = Vec::new();
    let mut i: usize = 0;
    while i < sv.entries.len()
        invariant
            i <= sv.entries@.len(),
            out@.len() == i,
            forall|j: int|
                0 <= j < i ==> (#[trigger] out@[j]).client == sv.entries@[j].0 && out@[j].body@
                    == spec_u64_to_le_bytes(sv.entries@[j].1),
        decreases sv.entries@.len() - i,
    {
        let e = sv.entries[i];
        out.push(ClientLog { client: e.0, body: u64_to_le_bytes(e.1) });
        i = i + 1;
    }
    proof {
        assert(logs_model(out@) =~= sv_wire_model(sv.entries@));
    }
    Update { entries: out }
}

/// Reads a state vector back out of the record layout; fails exactly when
/// a body is not eight bytes or a client id repeats.
fn wire_to_sv(u: &Update) -> (r: Option<StateVector>)
    ensures
        match r {
            Some(sv) => sv.wf() && sv_wire_model(sv.entries@) == logs_model(u@),
            None => !sv_wire_ok(logs_model(u@)),
        },
{
    if !clients_unique(&u.entries) {
        proof {
            let (x, y) = choose|x: int, y: int|
                0 <= x < y < u.entries@.len() && #[trigger] u.entries@[x].client == #[trigger] u.entries@[y].client;
            assert(logs_model(u@)[x].0 == logs_model(u@)[y].0);
            assert(!unique_firsts(logs_model(u@)));
        }
        return None;
    }
    let mut out: Vec<(u64, u64)> = Vec::new();
    let mut i: usize = 0;
    while i < u.entries.len()
        invariant
            crate::crdt::unique_clients(u.entries@),
            i <= u.entries@.len(),
            out@.len() == i,
            forall|j: int|
                0 <= j < i ==> (#[trigger] out@[j]).0 == u.entries@[j].client && u.entries@[
                    j
                ].body@.len() == 8 && spec_u64_to_le_bytes(out@[j].1) == u.entries@[j].body@,
        decreases u.entries@.len() - i,
    {
        let e = &u.entries[i];
        if e.body.len() != 8 {
            proof {
                assert(logs_model(u@)[i as int].1.len() != 8);
            }
            return None;
        }
        let l = u64_from_le_bytes(e.body.as_slice());
        proof {
            vstd::bytes::lemma_auto_spec_u64_to_from_le_bytes();
            assert(spec_u64_to_le_bytes(l) == e.body@);
        }
        out.push((e.client, l));
        i = i + 1;
    }
    proof {
        assert(unique_sv(out@));
        assert(sv_wire_model(out@) =~= logs_model(u@));
    }
    Some(StateVector { entries: out })
}

/// Each client id occurs at most once among the records.
fn clients_unique(v: &Vec<ClientLog>) -> (r: bool)
    ensures
        r == crate::crdt::unique_clients(v@),
{
    let n = v.len();
    let mut a: usize = 0;
    while a < n
        invariant
            n == v@.len(),
            a <= n,
            forall|x: int, y: int|
                #![trigger v@[x].client, v@[y].client]
                0 <= x < y < n && x < a ==> v@[x].client != v@[y].client,
        decreases n - a,
    {
        let mut b: usize = a + 1;
        while b < n
            invariant
                n == v@.len(),
                a < n,
                a + 1 <= b <= n,
                forall|y: int| a < y < b ==> v@[a as int].client != (#[trigger] v@[y]).client,
            decreases n - b,
        {
            if v[a].client == v[b].client {
                return false;
            }
            b = b + 1;
        }
        proof {
            assert(forall|y: int|
                a < y < n ==> v@[a as int].client != (#[trigger] v@[y]).client);
        }
        a = a + 1;
    }
    true
}

/// Serializes a frame: the tag byte, then the payload.
pub fn encode_frame(f: &Frame) -> (b: Vec<u8>)
    ensures
        match f {
            Frame::SyncStep1(sv) => b@ == seq![0u8] + spec_update_bytes(
                sv_wire_model(sv.entries@),
            ),
            Frame::SyncStep2(u) => b@ == seq![1u8] + spec_update_bytes(logs_model(u@)),
            Frame::Update(u) => b@ == seq![2u8] + spec_update_bytes(logs_model(u@)),
            Frame::Awareness(a) => b@ == seq![3u8] + a@,
            Frame::Query => b@ == seq![4u8],
        },
{
    let mut out: Vec<u8> = Vec::new();
    match f {
        Frame::SyncStep1(sv) => {
            out.push(0u8);
            let wire = sv_to_wire(sv);
            let mut payload = update_to_bytes(&wire);
            out.append(&mut payload);
            proof {
                assert(out@ =~= seq![0u8] + spec_update_bytes(sv_wire_model(sv.entries@)));
            }
        },
        Frame::SyncStep2(u) => {
            out.push(1u8);
            let mut payload = update_to_bytes(u);
            out.append(&mut payload);
            proof {
                assert(out@ =~= seq![1u8] + spec_update_bytes(logs_model(u@)));
            }
        },
        Frame::Update(u) => {
            out.push(2u8);
            let mut payload = update_to_bytes(u);
            out.append(&mut payload);
            proof {
                assert(out@ =~= seq![2u8] + spec_update_bytes(logs_model(u@)));
            }
        },
        Frame::Awareness(a) => {
            out.push(3u8);
            let mut payload = crate::kv::clone_vec(a);
            out.append(&mut payload);
            proof {
                assert(out@ =~= seq![3u8] + a@);
            }
        },
        Frame::Query => {
            out.push(4u8);
            proof {
                assert(out@ =~= seq![4u8]);
            }
        },
    }
    out
}

/// Parses a frame: accepts exactly well-formed payloads under known
/// tags, and tells three refusals apart — an unknown tag (ignored), a
/// well-framed update whose payload is corrupt (dropped, per the merge
/// error policy), and a violation of the framing itself (close 1002).
pub fn decode_frame(b: &Vec<u8>) -> (r: Result<Frame, FrameErr>)
    ensures
        match r {
            Ok(f) => b@.len() >= 1 && match f {
                Frame::SyncStep1(sv) => b@[0] == 0 && sv.wf() && spec_decode_update(b@.skip(1))
                    == Some(sv_wire_model(sv.entries@)),
                Frame::SyncStep2(u) => b@[0] == 1 && spec_decode_update(b@.skip(1)) == Some(
                    logs_model(u@),
                ),
                Frame::Update(u) => b@[0] == 2 && spec_decode_update(b@.skip(1)) == Some(
                    logs_model(u@),
                ),
                Frame::Awareness(a) => b@[0] == 3 && a@ == b@.skip(1),
                Frame::Query => b@[0] == 4 && b@.len() == 1,
            },
            Err(FrameErr::Unknown) => b@.len() >= 1 && b@[0] > 4,
            Err(FrameErr::Corrupt) => b@.len() >= 1 && (b@[0] == 1 || b@[0] == 2)
                && spec_decode_update(b@.skip(1)) is None,
            Err(FrameErr::Malformed) => b@.len() == 0 || (b@[0] == 0 && !payload_ok(
                0u8,
                b@.skip(1),
            )) || (b@[0] == 4 && b@.skip(1).len() != 0),
        },
{
    if b.len() == 0 {
        return Err(FrameErr::Malformed);
    }
    let tag = b[0];
    let rest = slice_to_vec(slice_subrange(b.as_slice(), 1, b.len()));
    proof {
        assert(rest@ =~= b@.skip(1));
    }
    if tag == 0 {
        match update_from_bytes(&rest) {
            Some(u) => match wire_to_sv(&u) {
                Some(sv) => Ok(Frame::SyncStep1(sv)),
                None => Err(FrameErr::Malformed),
            },
            None => Err(FrameErr::Malformed),
        }
    } else if tag == 1 {
        match update_from_bytes(&rest) {
            Some(u) => Ok(Frame::SyncStep2(u)),
            None => Err(FrameErr::Corrupt),
        }
    } else if tag == 2 {
        match update_from_bytes(&rest) {
            Some(u) => Ok(Frame::Update(u)),
            None => Err(FrameErr::Corrupt),
        }
    } else if tag == 3 {
        Ok(Frame::Awareness(rest))
    } else if tag == 4 {
        if rest.len() == 0 {
            Ok(Frame::Query)
        } else {
            Err(FrameErr::Malformed)
        }
    } else {
        Err(FrameErr::Unknown)
    }
}

} // verus!

verus! {

/// Where a connection stands in the initial state transfer.
#[derive(Clone, Copy, PartialEq, Eq, Structural, Debug)]
pub enum Phase {
    AwaitingPeerSv,
    Syncing,
    Steady,
    Closed,
}

/// What the transport must do after a frame is handled: send a reply to
/// this peer, and forward a frame to each listed subscriber.
pub struct Effects {
    pub reply: Option<Frame>,
    pub broadcast: Vec<u64>,
    pub forward: Option<Frame>,
}

/// A frame whose parts satisfy their own representation invariants, as
/// every frame the decoder yields does.
pub open spec fn frame_wf(f: Frame) -> bool {
    match f {
        Frame::SyncStep1(sv) => sv.wf(),
        _ => true,
    }
}

/// One client session attached to a document.
pub struct DocConnection {
    pub peer: u64,
    pub phase: Phase,
}

impl DocConnection {
    /// Attaches a new connection: subscribes the peer and produces the
    /// opening frame, a summary of the server's state.
    pub fn open(peer: u64, st: &mut DocState) -> (r: (DocConnection, Frame))
        requires
            old(st).wf(),
        ensures
            final(st).wf(),
            final(st).doc == old(st).doc,
            final(st).awareness == old(st).awareness,
            final(st).poisoned == old(st).poisoned,
            forall|p: u64|
                has_peer(final(st).subscribers@, p) <==> (has_peer(old(st).subscribers@, p) || p
                    == peer),
            r.0.peer == peer,
            r.0.phase == Phase::AwaitingPeerSv,
            r.1 matches Frame::SyncStep1(sv) && sv.wf() && sv@ == doc_sv(old(st).doc@),
    {
        st.subscribe(peer);
        let sv = st.doc.state_vector();
        (DocConnection { peer, phase: Phase::AwaitingPeerSv }, Frame::SyncStep1(sv))
    }

    /// Handles one parsed inbound frame, advancing the handshake and
    /// propagating updates.
    pub fn handle_frame(&mut self, st: &mut DocState, f: Frame) -> (eff: Effects)
        requires
            old(self).phase != Phase::Closed,
            old(st).wf(),
            frame_wf(f),
        ensures
            final(st).wf(),
            final(self).peer == old(self).peer,
            final(self).phase != Phase::Closed,
            final(st).poisoned == old(st).poisoned,
            match f {
                Frame::SyncStep1(sv) => {
                    &&& final(st).doc == old(st).doc
                    &&& final(st).awareness == old(st).awareness
                    &&& final(st).subscribers == old(st).subscribers
                    &&& eff.broadcast@ == Seq::<u64>::empty()
                    &&& eff.forward is None
                    &&& eff.reply matches Some(Frame::SyncStep2(du)) && du.wf() && (forall|i: int|
                        0 <= i < du@.len() ==> old(st).doc@.contains_key(
                            (#[trigger] du@[i]).client,
                        ) && old(st).doc@[du@[i].client] == du@[i].body@ && spec_needs(
                            sv@,
                            du@[i].client,
                            du@[i].body@.len(),
                        )) && (forall|c: u64|
                        #[trigger] old(st).doc@.contains_key(c) && spec_needs(
                            sv@,
                            c,
                            old(st).doc@[c].len(),
                        ) ==> crate::crdt::has_client(du@, c))
                    &&& final(self).phase == (if old(self).phase == Phase::AwaitingPeerSv {
                        Phase::Syncing
                    } else {
                        old(self).phase
                    })
                },
                Frame::SyncStep2(u) => {
                    &&& final(st).doc@ == spec_merge(old(st).doc@, u@)
                    &&& final(st).awareness == old(st).awareness
                    &&& final(st).subscribers == old(st).subscribers
                    &&& eff.reply is None
                    &&& unique_peers(eff.broadcast@)
                    &&& final(st).doc@ == old(st).doc@ ==> eff.broadcast@ == Seq::<u64>::empty()
                    &&& final(st).doc@ != old(st).doc@ ==> (forall|k: int|
                        0 <= k < eff.broadcast@.len() ==> #[trigger] eff.broadcast@[k] != old(
                            self,
                        ).peer && has_peer(old(st).subscribers@, eff.broadcast@[k])) && (forall|
                        p: u64,
                    |
                        has_peer(old(st).subscribers@, p) && p != old(self).peer ==> has_peer(
                            eff.broadcast@,
                            p,
                        ))
                    &&& eff.forward matches Some(Frame::Update(fu)) && fu@ == u@
                    &&& final(self).phase == (if old(self).phase == Phase::Syncing {
                        Phase::Steady
                    } else {
                        old(self).phase
                    })
                },
                Frame::Update(u) => {
                    &&& final(st).doc@ == spec_merge(old(st).doc@, u@)
                    &&& final(st).awareness == old(st).awareness
                    &&& final(st).subscribers == old(st).subscribers
                    &&& eff.reply is None
                    &&& unique_peers(eff.broadcast@)
                    &&& final(st).doc@ == old(st).doc@ ==> eff.broadcast@ == Seq::<u64>::empty()
                    &&& final(st).doc@ != old(st).doc@ ==> (forall|k: int|
                        0 <= k < eff.broadcast@.len() ==> #[trigger] eff.broadcast@[k] != old(
                            self,
                        ).peer && has_peer(old(st).subscribers@, eff.broadcast@[k])) && (forall|
                        p: u64,
                    |
                        has_peer(old(st).subscribers@, p) && p != old(self).peer ==> has_peer(
                            eff.broadcast@,
                            p,
                        ))
                    &&& eff.forward matches Some(Frame::Update(fu)) && fu@ == u@
                    &&& final(self).phase == old(self).phase
                },
                Frame::Awareness(a) => {
                    &&& final(st).doc == old(st).doc
                    &&& final(st).subscribers == old(st).subscribers
                    &&& final(st).awareness_map() == old(st).awareness_map().insert(
                        old(self).peer,
                        a@,
                    )
                    &&& eff.reply is None
                    &&& unique_peers(eff.broadcast@)
                    &&& forall|k: int|
                        0 <= k < eff.broadcast@.len() ==> #[trigger] eff.broadcast@[k] != old(
                            self,
                        ).peer && has_peer(old(st).subscribers@, eff.broadcast@[k])
                    &&& forall|p: u64|
                        has_peer(old(st).subscribers@, p) && p != old(self).peer ==> has_peer(
                            eff.broadcast@,
                            p,
                        )
                    &&& eff.forward matches Some(Frame::Awareness(fa)) && fa@ == a@
                    &&& final(self).phase == old(self).phase
                },
                Frame::Query => {
                    &&& final(st).doc == old(st).doc
                    &&& final(st).awareness == old(st).awareness
                    &&& final(st).subscribers == old(st).subscribers
                    &&& eff.broadcast@ == Seq::<u64>::empty()
                    &&& eff.forward is None
                    &&& eff.reply matches Some(Frame::SyncStep1(sv)) && sv.wf() && sv@ == doc_sv(
                        old(st).doc@,
                    )
                    &&& final(self).phase == old(self).phase
                },
            },
    {
        match f {
            Frame::SyncStep1(sv) => {
                let diff = st.doc.diff_since(&sv);
                if self.phase == Phase::AwaitingPeerSv {
                    self.phase = Phase::Syncing;
                }
                Effects { reply: Some(Frame::SyncStep2(diff)), broadcast: Vec::new(), forward: None }
            },
            Frame::SyncStep2(u) => {
                let broadcast = st.apply_update(&u, self.peer);
                if self.phase == Phase::Syncing {
                    self.phase = Phase::Steady;
                }
                Effects { reply: None, broadcast, forward: Some(Frame::Update(u)) }
            },
            Frame::Update(u) => {
                let broadcast = st.apply_update(&u, self.peer);
                Effects { reply: None, broadcast, forward: Some(Frame::Update(u)) }
            },
            Frame::Awareness(a) => {
                let broadcast = st.awareness_update(self.peer, &a, self.peer);
                Effects { reply: None, broadcast, forward: Some(Frame::Awareness(a)) }
            },
            Frame::Query => {
                let sv = st.doc.state_vector();
                Effects { reply: Some(Frame::SyncStep1(sv)), broadcast: Vec::new(), forward: None }
            },
        }
    }

    /// Handles one raw inbound binary frame. A framing violation closes
    /// the connection with the protocol-error code and detaches it,
    /// leaving every other subscriber attached; an unknown tag, or a
    /// well-framed update whose payload is corrupt, is dropped with the
    /// connection staying open; a well-formed frame has exactly the
    /// effects `handle_frame` states for its decoded form.
    pub fn handle_bytes(&mut self, st: &mut DocState, b: &Vec<u8>) -> (r: Result<Effects, u16>)
        requires
            old(self).phase != Phase::Closed,
            old(st).wf(),
        ensures
            final(st).wf(),
            final(self).peer == old(self).peer,
            final(st).poisoned == old(st).poisoned,
            match r {
                Ok(eff) => {
                    &&& b@.len() >= 1
                    &&& final(self).phase != Phase::Closed
                    &&& (b@[0] > 4 ==> *final(st) == *old(st) && *final(self) == *old(self)
                        && eff.reply is None && eff.forward is None && eff.broadcast@ == Seq::<
                        u64,
                    >::empty())
                    &&& ((b@[0] == 1 || b@[0] == 2) && spec_decode_update(b@.skip(1)) is None
                        ==> *final(st) == *old(st) && *final(self) == *old(self) && eff.reply
                        is None && eff.forward is None && eff.broadcast@ == Seq::<u64>::empty())
                    &&& ((b@[0] == 1 || b@[0] == 2) && spec_decode_update(b@.skip(1)) is Some
                        ==> {
                        let m = spec_decode_update(b@.skip(1))->Some_0;
                        &&& final(st).doc@ == spec_merge_model(old(st).doc@, m)
                        &&& final(st).awareness == old(st).awareness
                        &&& final(st).subscribers == old(st).subscribers
                        &&& eff.reply is None
                        &&& unique_peers(eff.broadcast@)
                        &&& (final(st).doc@ == old(st).doc@ ==> eff.broadcast@ == Seq::<
                            u64,
                        >::empty())
                        &&& (final(st).doc@ != old(st).doc@ ==> (forall|k: int|
                            0 <= k < eff.broadcast@.len() ==> #[trigger] eff.broadcast@[k] != old(
                                self,
                            ).peer && has_peer(old(st).subscribers@, eff.broadcast@[k])) && (
                        forall|p: u64|
                            has_peer(old(st).subscribers@, p) && p != old(self).peer ==> has_peer(
                                eff.broadcast@,
                                p,
                            )))
                        &&& (eff.forward matches Some(Frame::Update(fu)) && logs_model(fu@) == m)
                        &&& final(self).phase == (if b@[0] == 1 && old(self).phase
                            == Phase::Syncing {
                            Phase::Steady
                        } else {
                            old(self).phase
                        })
                    })
                    &&& (b@[0] == 0 && payload_ok(0u8, b@.skip(1)) ==> {
                        let svm = wire_sv_map(spec_decode_update(b@.skip(1))->Some_0);
                        &&& final(st).doc == old(st).doc
                        &&& final(st).awareness == old(st).awareness
                        &&& final(st).subscribers == old(st).subscribers
                        &&& eff.broadcast@ == Seq::<u64>::empty()
                        &&& eff.forward is None
                        &&& (eff.reply matches Some(Frame::SyncStep2(du)) && du.wf() && (forall|
                            i: int,
                        |
                            0 <= i < du@.len() ==> old(st).doc@.contains_key(
                                (#[trigger] du@[i]).client,
                            ) && old(st).doc@[du@[i].client] == du@[i].body@ && spec_needs(
                                svm,
                                du@[i].client,
                                du@[i].body@.len(),
                            )) && (forall|c: u64|
                            #[trigger] old(st).doc@.contains_key(c) && spec_needs(
                                svm,
                                c,
                                old(st).doc@[c].len(),
                            ) ==> crate::crdt::has_client(du@, c)))
                        &&& final(self).phase == (if old(self).phase == Phase::AwaitingPeerSv {
                            Phase::Syncing
                        } else {
                            old(self).phase
                        })
                    })
                    &&& (b@[0] == 3 ==> {
                        &&& final(st).doc == old(st).doc
                        &&& final(st).subscribers == old(st).subscribers
                        &&& final(st).awareness_map() == old(st).awareness_map().insert(
                            old(self).peer,
                            b@.skip(1),
                        )
                        &&& eff.reply is None
                        &&& unique_peers(eff.broadcast@)
                        &&& (forall|k: int|
                            0 <= k < eff.broadcast@.len() ==> #[trigger] eff.broadcast@[k] != old(
                                self,
                            ).peer && has_peer(old(st).subscribers@, eff.broadcast@[k]))
                        &&& (forall|p: u64|
                            has_peer(old(st).subscribers@, p) && p != old(self).peer ==> has_peer(
                                eff.broadcast@,
                                p,
                            ))
                        &&& (eff.forward matches Some(Frame::Awareness(fa)) && fa@ == b@.skip(1))
                        &&& final(self).phase == old(self).phase
                    })
                    &&& (b@[0] == 4 && b@.skip(1).len() == 0 ==> {
                        &&& final(st).doc == old(st).doc
                        &&& final(st).awareness == old(st).awareness
                        &&& final(st).subscribers == old(st).subscribers
                        &&& eff.broadcast@ == Seq::<u64>::empty()
                        &&& eff.forward is None
                        &&& (eff.reply matches Some(Frame::SyncStep1(sv)) && sv.wf() && sv@
                            == doc_sv(old(st).doc@))
                        &&& final(self).phase == old(self).phase
                    })
                },
                Err(code) => {
                    &&& code == CLOSE_PROTOCOL_ERROR
                    &&& b@.len() == 0 || (b@[0] == 0 && !payload_ok(0u8, b@.skip(1))) || (b@[0]
                        == 4 && b@.skip(1).len() != 0)
                    &&& final(self).phase == Phase::Closed
                    &&& final(st).doc == old(st).doc
                    &&& final(st).awareness_map() == old(st).awareness_map().remove(
                        old(self).peer,
                    )
                    &&& forall|p: u64|
                        has_peer(final(st).subscribers@, p) <==> (has_peer(
                            old(st).subscribers@,
                            p,
                        ) && p != old(self).peer)
                },
            },
    {
        let ghost pre = *st;
        match decode_frame(b) {
            Ok(f) => {
                let ghost gf = f;
                let eff = self.handle_frame(st, f);
                proof {
                    match gf {
                        Frame::SyncStep2(u) => {
                            crate::crdt::lemma_merge_by_model(pre.doc@, u.entries@);
                        },
                        Frame::Update(u) => {
                            crate::crdt::lemma_merge_by_model(pre.doc@, u.entries@);
                        },
                        Frame::SyncStep1(sv) => {
                            lemma_sv_map_as_wire(sv.entries@);
                        },
                        _ => {},
                    }
                }
                Ok(eff)
            },
            Err(FrameErr::Unknown) => Ok(
                Effects { reply: None, broadcast: Vec::new(), forward: None },
            ),
            Err(FrameErr::Corrupt) => Ok(
                Effects { reply: None, broadcast: Vec::new(), forward: None },
            ),
            Err(FrameErr::Malformed) => {
                st.unsubscribe(self.peer);
                st.awareness_clear(self.peer);
                self.phase = Phase::Closed;
                Err(CLOSE_PROTOCOL_ERROR)
            },
        }
    }

    /// A failed write to the peer's sink: the connection closes and
    /// detaches, its presence expires, and every other subscriber is
    /// untouched. No close code is owed to a sink that is already gone.
    pub fn on_write_error(&mut self, st: &mut DocState)
        requires
            old(st).wf(),
        ensures
            final(self).peer == old(self).peer,
            final(self).phase == Phase::Closed,
            final(st).wf(),
            final(st).doc == old(st).doc,
            final(st).awareness_map() == old(st).awareness_map().remove(old(self).peer),
            final(st).poisoned == old(st).poisoned,
            forall|p: u64|
                has_peer(final(st).subscribers@, p) <==> (has_peer(old(st).subscribers@, p) && p
                    != old(self).peer),
    {
        st.unsubscribe(self.peer);
        st.awareness_clear(self.peer);
        self.phase = Phase::Closed;
    }

    /// A text frame is never valid: the connection closes with the
    /// protocol-error code and detaches, leaving other subscribers alone.
    pub fn handle_text(&mut self, st: &mut DocState) -> (code: u16)
        requires
            old(st).wf(),
        ensures
            code == CLOSE_PROTOCOL_ERROR,
            final(self).peer == old(self).peer,
            final(self).phase == Phase::Closed,
            final(st).wf(),
            final(st).doc == old(st).doc,
            final(st).awareness_map() == old(st).awareness_map().remove(old(self).peer),
            final(st).poisoned == old(st).poisoned,
            forall|p: u64|
                has_peer(final(st).subscribers@, p) <==> (has_peer(old(st).subscribers@, p) && p
                    != old(self).peer),
    {
        st.unsubscribe(self.peer);
        st.awareness_clear(self.peer);
        self.phase = Phase::Closed;
        CLOSE_PROTOCOL_ERROR
    }
}

} // verus!
