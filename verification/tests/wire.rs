use docsync::codec::{doc_checkpoint_bytes, doc_from_checkpoint, update_from_bytes, update_to_bytes};
use docsync::crdt::{ClientLog, Doc, StateVector, Update};
use docsync::docstate::DocState;
use docsync::protocol::{decode_frame, encode_frame, DocConnection, Frame, FrameErr, Phase};

fn upd(entries: Vec<(u64, &[u8])>) -> Update {
    Update {
        entries: entries
            .into_iter()
            .map(|(client, body)| ClientLog { client, body: body.to_vec() })
            .collect(),
    }
}

#[test]
fn update_bytes_round_trip() {
    let u = upd(vec![(1, b"hello"), (42, b""), (7, b"\x00\xff")]);
    let bytes = update_to_bytes(&u);
    let back = update_from_bytes(&bytes).unwrap();
    assert_eq!(back.entries.len(), 3);
    assert_eq!(back.entries[0].client, 1);
    assert_eq!(back.entries[0].body, b"hello".to_vec());
    assert_eq!(back.entries[1].client, 42);
    assert_eq!(back.entries[1].body, Vec::<u8>::new());
    assert_eq!(back.entries[2].client, 7);
    assert_eq!(back.entries[2].body, vec![0u8, 255u8]);
}

#[test]
fn truncated_and_padded_updates_are_rejected() {
    let u = upd(vec![(1, b"hello")]);
    let bytes = update_to_bytes(&u);
    let mut cut = bytes.clone();
    cut.pop();
    assert!(update_from_bytes(&cut).is_none());
    let mut padded = bytes.clone();
    padded.push(0);
    assert!(update_from_bytes(&padded).is_none());
    assert!(update_from_bytes(&vec![1, 2, 3]).is_none());
}

#[test]
fn checkpoint_bytes_round_trip() {
    let mut d = Doc::new();
    d.apply_update(&upd(vec![(3, b"abc"), (9, b"z")]));
    let blob = doc_checkpoint_bytes(&d);
    let back = doc_from_checkpoint(&blob).unwrap();
    let mut sv1 = d.state_vector().entries;
    let mut sv2 = back.state_vector().entries;
    sv1.sort();
    sv2.sort();
    assert_eq!(sv1, sv2);
}

#[test]
fn frame_round_trips() {
    let cases = vec![
        Frame::SyncStep1(StateVector {
            entries: vec![(1, 4), (2, 0)],
        }),
        Frame::SyncStep2(upd(vec![(1, b"abcd")])),
        Frame::Update(upd(vec![(5, b"xy")])),
        Frame::Awareness(vec![9, 9, 9]),
        Frame::Query,
    ];
    for f in cases {
        let bytes = encode_frame(&f);
        match (f, decode_frame(&bytes).unwrap()) {
            (Frame::SyncStep1(a), Frame::SyncStep1(b)) => assert_eq!(a.entries, b.entries),
            (Frame::SyncStep2(a), Frame::SyncStep2(b)) => {
                assert_eq!(a.entries.len(), b.entries.len())
            }
            (Frame::Update(a), Frame::Update(b)) => {
                assert_eq!(a.entries[0].client, b.entries[0].client);
                assert_eq!(a.entries[0].body, b.entries[0].body);
            }
            (Frame::Awareness(a), Frame::Awareness(b)) => assert_eq!(a, b),
            (Frame::Query, Frame::Query) => {}
            _ => panic!("frame kind changed across the wire"),
        }
    }
}

#[test]
fn unknown_tags_are_ignored_and_malformed_frames_refused() {
    assert!(matches!(decode_frame(&vec![200u8, 1, 2]), Err(FrameErr::Unknown)));
    assert!(matches!(decode_frame(&Vec::new()), Err(FrameErr::Malformed)));
    assert!(matches!(decode_frame(&vec![0u8, 7]), Err(FrameErr::Malformed)));
    assert!(matches!(decode_frame(&vec![4u8, 1]), Err(FrameErr::Malformed)));
}

#[test]
fn two_peer_sync_transfers_hello() {
    let mut st = DocState::new(Doc::new());

    // peer A connects to the empty doc; the server opens with SyncStep1
    let (mut conn_a, hello_a) = DocConnection::open(1, &mut st);
    assert!(matches!(hello_a, Frame::SyncStep1(_)));

    // A sends SyncStep1 with an empty state vector; the reply is a
    // SyncStep2 carrying the (empty) catch-up update
    let eff = conn_a.handle_frame(
        &mut st,
        Frame::SyncStep1(StateVector { entries: Vec::new() }),
    );
    match eff.reply {
        Some(Frame::SyncStep2(u)) => assert!(u.entries.is_empty()),
        _ => panic!("expected a SyncStep2 reply"),
    }
    assert_eq!(conn_a.phase, Phase::Syncing);

    // A applies an update inserting "hello" and sends it
    let bytes = encode_frame(&Frame::Update(upd(vec![(1, b"hello")])));
    let eff = conn_a.handle_bytes(&mut st, &bytes).unwrap();
    assert!(eff.broadcast.is_empty());

    // peer B connects and performs its handshake
    let (mut conn_b, _hello_b) = DocConnection::open(2, &mut st);
    let eff = conn_b.handle_frame(
        &mut st,
        Frame::SyncStep1(StateVector { entries: Vec::new() }),
    );
    match eff.reply {
        Some(Frame::SyncStep2(u)) => {
            assert_eq!(u.entries.len(), 1);
            assert_eq!(u.entries[0].client, 1);
            assert_eq!(u.entries[0].body, b"hello".to_vec());
        }
        _ => panic!("expected a SyncStep2 reply"),
    }

    // an update from B fans out to A alone
    let eff = conn_b.handle_frame(&mut st, Frame::Update(upd(vec![(2, b"!")])));
    assert_eq!(eff.broadcast, vec![1]);
    assert!(matches!(eff.forward, Some(Frame::Update(_))));
}

#[test]
fn protocol_violation_closes_with_1002_and_spares_others() {
    let mut st = DocState::new(Doc::new());
    let (mut conn_a, _) = DocConnection::open(1, &mut st);
    let (mut conn_b, _) = DocConnection::open(2, &mut st);

    // a malformed binary frame closes A with 1002
    let r = conn_a.handle_bytes(&mut st, &vec![0u8, 1, 2]);
    assert_eq!(r.err(), Some(1002));
    assert_eq!(conn_a.phase, Phase::Closed);

    // B is unaffected and still receives fan-out
    let eff = conn_b.handle_frame(&mut st, Frame::SyncStep1(StateVector { entries: Vec::new() }));
    assert!(eff.reply.is_some());
    let mut st2 = DocState::new(Doc::new());
    let (mut conn_c, _) = DocConnection::open(3, &mut st2);
    // a text frame is never valid: immediate close with 1002
    let code = conn_c.handle_text(&mut st2);
    assert_eq!(code, 1002);
    assert_eq!(conn_c.phase, Phase::Closed);
}

#[test]
fn query_is_answered_with_sync_step1() {
    let mut st = DocState::new(Doc::new());
    st.apply_update(&upd(vec![(1, b"abc")]), 0);
    let (mut conn, _) = DocConnection::open(1, &mut st);
    let bytes = encode_frame(&Frame::Query);
    let eff = conn.handle_bytes(&mut st, &bytes).unwrap();
    match eff.reply {
        Some(Frame::SyncStep1(sv)) => assert_eq!(sv.entries, vec![(1, 3)]),
        _ => panic!("expected a SyncStep1 reply"),
    }
}

#[test]
fn awareness_is_forwarded_not_merged() {
    let mut st = DocState::new(Doc::new());
    let (mut conn_a, _) = DocConnection::open(1, &mut st);
    let (_conn_b, _) = DocConnection::open(2, &mut st);
    let eff = conn_a.handle_frame(&mut st, Frame::Awareness(vec![7, 7]));
    assert_eq!(eff.broadcast, vec![2]);
    assert!(matches!(eff.forward, Some(Frame::Awareness(_))));
    // the document itself is untouched
    assert!(st.doc.state_vector().entries.is_empty());
}

#[test]
fn awareness_expires_when_a_connection_closes() {
    let mut st = DocState::new(Doc::new());
    let (mut conn_a, _) = DocConnection::open(1, &mut st);
    conn_a.handle_frame(&mut st, Frame::Awareness(vec![1, 2, 3]));
    assert_eq!(st.awareness.len(), 1);
    conn_a.handle_text(&mut st);
    assert!(st.awareness.is_empty());
}

#[test]
fn corrupt_update_payloads_are_dropped_with_the_connection_open() {
    let mut st = DocState::new(Doc::new());
    let (mut conn_a, _) = DocConnection::open(1, &mut st);
    let (_conn_b, _) = DocConnection::open(2, &mut st);

    // a well-framed Update whose payload does not decode is dropped
    let r = conn_a.handle_bytes(&mut st, &vec![2u8, 9, 9, 9]);
    let eff = r.expect("a corrupt update must not close the connection");
    assert!(eff.reply.is_none());
    assert!(eff.forward.is_none());
    assert!(eff.broadcast.is_empty());
    assert_ne!(conn_a.phase, Phase::Closed);
    assert!(st.doc.state_vector().entries.is_empty());

    // the same holds for a corrupt SyncStep2
    assert!(conn_a.handle_bytes(&mut st, &vec![1u8, 1]).is_ok());

    // and the connection still processes good frames afterwards
    let good = encode_frame(&Frame::Update(upd(vec![(1, b"ok")])));
    let eff = conn_a.handle_bytes(&mut st, &good).unwrap();
    assert_eq!(eff.broadcast, vec![2]);
}

#[test]
fn a_write_error_detaches_the_connection() {
    let mut st = DocState::new(Doc::new());
    let (mut conn_a, _) = DocConnection::open(1, &mut st);
    let (mut conn_b, _) = DocConnection::open(2, &mut st);
    conn_a.handle_frame(&mut st, Frame::Awareness(vec![5]));

    conn_a.on_write_error(&mut st);
    assert_eq!(conn_a.phase, Phase::Closed);
    assert!(st.awareness.is_empty());

    // B no longer fans out to A
    let eff = conn_b.handle_frame(&mut st, Frame::Update(upd(vec![(2, b"x")])));
    assert!(eff.broadcast.is_empty());
}
