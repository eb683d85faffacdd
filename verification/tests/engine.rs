use docsync::crdt::{ClientLog, Doc, StateVector, Update};
use docsync::docstate::DocState;
use docsync::errors::StoreError;
use docsync::kv::MemStore;
use docsync::manager::{doc_data_key, DocManager};

fn upd(entries: Vec<(u64, &[u8])>) -> Update {
    Update {
        entries: entries
            .into_iter()
            .map(|(client, body)| ClientLog { client, body: body.to_vec() })
            .collect(),
    }
}

fn sorted_sv(doc: &Doc) -> Vec<(u64, u64)> {
    let mut v = doc.state_vector().entries;
    v.sort();
    v
}

#[test]
fn merge_commutes_across_delivery_orders() {
    let u1 = upd(vec![(1, b"abc"), (2, b"x")]);
    let u2 = upd(vec![(1, b"abcdef"), (3, b"q")]);

    let mut a = Doc::new();
    a.apply_update(&u1);
    a.apply_update(&u2);

    let mut b = Doc::new();
    b.apply_update(&u2);
    b.apply_update(&u1);

    assert_eq!(sorted_sv(&a), sorted_sv(&b));
    assert_eq!(sorted_sv(&a), vec![(1, 6), (2, 1), (3, 1)]);
}

#[test]
fn merge_is_idempotent() {
    let u = upd(vec![(5, b"hello")]);
    let mut d = Doc::new();
    assert!(d.apply_update(&u));
    assert!(!d.apply_update(&u));
    assert_eq!(sorted_sv(&d), vec![(5, 5)]);
}

#[test]
fn full_multiset_merges_the_same_under_interleavings() {
    let u1 = upd(vec![(1, b"aa")]);
    let u2 = upd(vec![(2, b"bb")]);
    let u3 = upd(vec![(1, b"aaaa"), (2, b"b")]);

    let mut a = Doc::new();
    a.apply_update(&u1);
    a.apply_update(&u2);
    a.apply_update(&u3);

    let mut b = Doc::new();
    b.apply_update(&u3);
    b.apply_update(&u1);
    b.apply_update(&u2);

    assert_eq!(sorted_sv(&a), sorted_sv(&b));
    assert_eq!(sorted_sv(&a), vec![(1, 4), (2, 2)]);
}

#[test]
fn diff_since_brings_a_peer_up_to_date() {
    let mut d = Doc::new();
    d.apply_update(&upd(vec![(1, b"abcd"), (2, b"xy")]));

    // a peer that has seen the first two bytes of client 1 only
    let peer_sv = StateVector {
        entries: vec![(1, 2)],
    };
    let diff = d.diff_since(&peer_sv);
    let mut clients: Vec<u64> = diff.entries.iter().map(|e| e.client).collect();
    clients.sort();
    assert_eq!(clients, vec![1, 2]);

    let mut peer = Doc::new();
    peer.apply_update(&upd(vec![(1, b"ab")]));
    peer.apply_update(&diff);
    assert_eq!(sorted_sv(&peer), sorted_sv(&d));
}

#[test]
fn subscribers_attached_before_an_update_hear_it_exactly_once() {
    let mut st = DocState::new(Doc::new());
    st.subscribe(1);
    st.subscribe(2);
    st.subscribe(3);

    let u = upd(vec![(9, b"hi")]);
    let mut deliveries = st.apply_update(&u, 2);
    deliveries.sort();
    assert_eq!(deliveries, vec![1, 3]);

    // a replay changes nothing and notifies nobody
    let replay = st.apply_update(&u, 2);
    assert!(replay.is_empty());

    // a later subscriber gets the state via the initial transfer instead
    st.subscribe(4);
    let empty = StateVector { entries: Vec::new() };
    let catchup = st.doc.diff_since(&empty);
    assert_eq!(catchup.entries.len(), 1);
    assert_eq!(catchup.entries[0].client, 9);
    assert_eq!(catchup.entries[0].body, b"hi".to_vec());
}

#[test]
fn unsubscribe_stops_delivery() {
    let mut st = DocState::new(Doc::new());
    st.subscribe(1);
    st.subscribe(2);
    st.unsubscribe(1);
    let deliveries = st.apply_update(&upd(vec![(1, b"z")]), 7);
    assert_eq!(deliveries, vec![2]);
}

#[test]
fn eviction_waits_for_detach_and_clean_state() {
    let mut m = DocManager::new(2000);
    let id = b"doc1".to_vec();
    let i = m.create_doc(&id, None).unwrap();
    m.attach(i, 1).unwrap();

    // attached: never evicted
    assert!(!m.try_evict(i));

    m.detach(i, 1);
    let schedule = m.note_mutation(i);
    assert!(schedule);

    // dirty: never evicted
    assert!(!m.try_evict(i));

    let mut store = MemStore::new();
    let writes = m.alarm_fired(i, &mut store);
    assert_eq!(writes, 1);

    // clean and unreferenced: eviction is allowed
    assert!(m.try_evict(i));
    assert!(m.find_doc(&id).is_none());
}

#[test]
fn checkpoint_debounce_requests_one_alarm_per_burst() {
    let mut m = DocManager::new(2000);
    let id = b"doc1".to_vec();
    let i = m.create_doc(&id, None).unwrap();

    let mut alarms = 0;
    for _ in 0..100 {
        if m.note_mutation(i) {
            alarms += 1;
        }
    }
    assert_eq!(alarms, 1);

    let mut store = MemStore::new();
    m.alarm_fired(i, &mut store);

    // after the flush a new burst schedules exactly one more alarm
    assert!(m.note_mutation(i));
    assert!(!m.note_mutation(i));
}

#[test]
fn crash_recovery_restores_the_state_vector() {
    let mut store = MemStore::new();
    let id = b"doc1".to_vec();

    let before;
    {
        let mut m = DocManager::new(2000);
        let i = m.create_doc(&id, None).unwrap();
        m.attach(i, 1).unwrap();
        {
            let entry = &mut m.docs[i];
            entry.state.apply_update(&upd(vec![(1, b"u1")]), 1);
            entry.state.apply_update(&upd(vec![(2, b"u2x")]), 1);
        }
        before = sorted_sv(&m.docs[i].state.doc);
        m.note_mutation(i);
        let writes = m.alarm_fired(i, &mut store);
        assert_eq!(writes, 1);
        // the process "dies" here: m is dropped
    }

    let mut m2 = DocManager::new(2000);
    let checkpoint = store.get(&doc_data_key(&id));
    let i = m2.create_doc(&id, checkpoint.as_ref()).unwrap();
    assert_eq!(sorted_sv(&m2.docs[i].state.doc), before);
    assert_eq!(before, vec![(1, 2), (2, 3)]);
}

#[test]
fn corrupt_checkpoint_is_rejected() {
    let mut m = DocManager::new(2000);
    let junk = vec![1u8, 2, 3];
    let r = m.create_doc(&b"doc1".to_vec(), Some(&junk));
    assert!(matches!(r, Err(StoreError::Corrupt)));
}

#[test]
fn poisoned_documents_refuse_new_attachments() {
    let mut m = DocManager::new(2000);
    let i = m.create_doc(&b"doc1".to_vec(), None).unwrap();
    m.attach(i, 1).unwrap();
    m.mark_poisoned(i);
    // in-memory merges still work
    {
        let entry = &mut m.docs[i];
        let deliveries = entry.state.apply_update(&upd(vec![(1, b"m")]), 1);
        assert!(deliveries.is_empty());
    }
    let r = m.attach(i, 2);
    assert!(matches!(r, Err(StoreError::Permanent)));
}

#[test]
fn backoff_schedule_is_exponential_from_100ms() {
    assert_eq!(docsync::errors::backoff_ms(1), 100);
    assert_eq!(docsync::errors::backoff_ms(2), 200);
    assert_eq!(docsync::errors::backoff_ms(3), 400);
    assert_eq!(docsync::errors::backoff_ms(4), 800);
    assert_eq!(docsync::errors::backoff_ms(5), 1600);
    // the cap binds eventually
    assert_eq!(docsync::errors::backoff_ms(10), 5000);
}

#[test]
fn two_documents_share_one_store_without_clobbering() {
    let mut store = MemStore::new();
    let id_a = b"doc-a".to_vec();
    let id_b = b"doc-b".to_vec();

    let mut m = DocManager::new(2000);
    let a = m.create_doc(&id_a, None).unwrap();
    m.docs[a].state.apply_update(&upd(vec![(1, b"aa")]), 1);
    m.note_mutation(a);
    m.alarm_fired(a, &mut store);

    let b = m.create_doc(&id_b, None).unwrap();
    m.docs[b].state.apply_update(&upd(vec![(2, b"bbb")]), 2);
    m.note_mutation(b);
    m.alarm_fired(b, &mut store);

    // each document recovers its own state from the shared store
    let mut m2 = DocManager::new(2000);
    let cp_a = store.get(&doc_data_key(&id_a));
    let cp_b = store.get(&doc_data_key(&id_b));
    let a2 = m2.create_doc(&id_a, cp_a.as_ref()).unwrap();
    let b2 = m2.create_doc(&id_b, cp_b.as_ref()).unwrap();
    assert_eq!(sorted_sv(&m2.docs[a2].state.doc), vec![(1, 2)]);
    assert_eq!(sorted_sv(&m2.docs[b2].state.doc), vec![(2, 3)]);
}

#[test]
fn persist_plan_lists_each_dirty_entry() {
    let mut m = DocManager::new(2000);
    let i = m.create_doc(&b"doc1".to_vec(), None).unwrap();
    m.docs[i].state.apply_update(&upd(vec![(1, b"x")]), 1);
    m.note_mutation(i);

    let plan = m.docs[i].kv.persist_plan();
    assert_eq!(plan.len(), 1);
    assert_eq!(plan[0].0, doc_data_key(&b"doc1".to_vec()));
    assert!(plan[0].1.is_some());
}

#[test]
fn transient_persist_failure_keeps_dirt_and_the_follow_up_alarm() {
    let mut m = DocManager::new(2000);
    let i = m.create_doc(&b"doc1".to_vec(), None).unwrap();
    m.docs[i].state.apply_update(&upd(vec![(1, b"x")]), 1);
    m.note_mutation(i);

    let r = m.persist_settled(i, Some(StoreError::Transient));
    assert_eq!(r, Err(StoreError::Transient));
    assert_eq!(m.docs[i].kv.dirty.len(), 1);
    assert!(m.docs[i].alarm_scheduled);
    assert!(!m.docs[i].state.poisoned);

    // the retried checkpoint succeeds and settles clean
    let r = m.persist_settled(i, None);
    assert_eq!(r, Ok(()));
    assert!(m.docs[i].kv.dirty.is_empty());
    assert!(!m.docs[i].alarm_scheduled);
}

#[test]
fn permanent_persist_failure_poisons_the_document() {
    let mut m = DocManager::new(2000);
    let i = m.create_doc(&b"doc1".to_vec(), None).unwrap();
    m.attach(i, 1).unwrap();
    m.docs[i].state.apply_update(&upd(vec![(1, b"x")]), 1);
    m.note_mutation(i);

    let r = m.persist_settled(i, Some(StoreError::Permanent));
    assert_eq!(r, Err(StoreError::Permanent));
    assert!(m.docs[i].state.poisoned);
    // new attach attempts now fail
    assert!(matches!(m.attach(i, 2), Err(StoreError::Permanent)));
}

#[test]
fn resident_documents_are_returned_even_with_a_corrupt_checkpoint() {
    let mut m = DocManager::new(2000);
    let id = b"doc1".to_vec();
    let i = m.create_doc(&id, None).unwrap();
    m.docs[i].state.apply_update(&upd(vec![(1, b"x")]), 1);
    // a second create with undecodable bytes still returns the cached doc
    let junk = vec![9u8, 9, 9];
    let j = m.create_doc(&id, Some(&junk)).unwrap();
    assert_eq!(i, j);
    assert_eq!(sorted_sv(&m.docs[j].state.doc), vec![(1, 1)]);
}
