use bus_persistence::codec::decode_frame;
use bus_persistence::codec::decode_message;
use bus_persistence::codec::encode_frame;
use bus_persistence::codec::encode_message;
use bus_persistence::msg::MessageToPersist;
use bus_persistence::msg::MsgHeader;
use bus_persistence::ops::compress_page_for_wire;
use bus_persistence::ops::derive_page_range;
use bus_persistence::ops::split_into_chunks;
use bus_persistence::retry::drive;
use bus_persistence::retry::decide;
use bus_persistence::retry::delay_for_attempt;
use bus_persistence::retry::AttemptOutcome;
use bus_persistence::retry::RetryDecision;
use bus_persistence::retry::RetryPolicy;
use bus_persistence::snapshot::with_topic;
use bus_persistence::snapshot::SnapshotStore;

fn sample(id: i64) -> MessageToPersist {
    MessageToPersist {
        message_id: id,
        created: 1000 + id,
        data: vec![1, 2, 3, id as u8],
        headers: vec![MsgHeader { key: b"kind".to_vec(), value: b"test".to_vec() }],
    }
}

#[test]
fn record_round_trip() {
    let m = sample(41);
    let bytes = encode_message(&m);
    let back = decode_message(&bytes).unwrap();
    assert_eq!(back.message_id, 41);
    assert_eq!(back.created, 1041);
    assert_eq!(back.data, m.data);
    assert_eq!(back.headers.len(), 1);
    assert_eq!(back.headers[0].key, b"kind".to_vec());
    assert_eq!(back.headers[0].value, b"test".to_vec());
    // A truncated record does not decode.
    assert!(decode_message(&bytes[..bytes.len() - 1].to_vec()).is_none());
}

#[test]
fn frame_round_trip_skips_bad_records() {
    let msgs = vec![sample(1), sample(2), sample(3)];
    let frame = encode_frame(&msgs);
    let back = decode_frame(&frame);
    assert_eq!(back.len(), 3);
    assert_eq!(back[1].message_id, 2);
    // Corrupt the second record's payload-length field: that record no
    // longer decodes, but its length framing still lets the third one
    // through.
    let mut corrupt = frame.clone();
    let rec_len = encode_message(&sample(1)).len();
    let second_rec = 4 + rec_len + 4;
    corrupt[second_rec + 16] = 0xFF;
    let partial = decode_frame(&corrupt);
    assert_eq!(partial.len(), 2);
    assert_eq!(partial[0].message_id, 1);
    assert_eq!(partial[1].message_id, 3);
}

#[test]
fn chunking_reassembles() {
    let payload: Vec<u8> = (0..10_000u32).map(|i| (i % 251) as u8).collect();
    let chunks = split_into_chunks(&payload, 1024);
    assert!(chunks.iter().all(|c| c.len() <= 1024 && !c.is_empty()));
    let joined: Vec<u8> = chunks.concat();
    assert_eq!(joined, payload);
}

#[test]
fn wire_page_compression() {
    let msgs = vec![sample(1), sample(2)];
    let chunks = compress_page_for_wire(&msgs, 16);
    assert!(chunks.iter().all(|c| c.len() <= 16));
    let joined: Vec<u8> = chunks.concat();
    let raw = miniz_oxide::inflate::decompress_to_vec(&joined).unwrap();
    let back = decode_frame(&raw);
    assert_eq!(back.len(), 2);
    assert_eq!(back[0].message_id, 1);
}

#[test]
fn page_range_derivation() {
    assert_eq!(derive_page_range(2, 0, 0), (200_000, 299_999));
    assert_eq!(derive_page_range(2, -1, -5), (200_000, 299_999));
    assert_eq!(derive_page_range(2, 5, 9), (5, 9));
}

#[test]
fn p6_retry_transparency() {
    let policy = RetryPolicy { max_attempts: 5, base_delay_ms: 100, max_delay_ms: 1000 };
    // Two transient faults, then success: the caller sees success.
    let outcomes = vec![
        AttemptOutcome::Transient,
        AttemptOutcome::Transient,
        AttemptOutcome::Success,
        AttemptOutcome::Fatal,
        AttemptOutcome::Fatal,
    ];
    assert_eq!(drive(&policy, &outcomes), Ok(2));
    // Nothing but transient faults: the budget runs out.
    let outcomes = vec![AttemptOutcome::Transient; 5];
    assert_eq!(drive(&policy, &outcomes), Err(4));
    // A definite answer ends the attempts at once.
    let outcomes = vec![
        AttemptOutcome::NotFound,
        AttemptOutcome::Success,
        AttemptOutcome::Success,
        AttemptOutcome::Success,
        AttemptOutcome::Success,
    ];
    assert_eq!(drive(&policy, &outcomes), Err(0));
    // Exponential backoff, capped.
    assert_eq!(delay_for_attempt(&policy, 0), 100);
    assert_eq!(delay_for_attempt(&policy, 1), 200);
    assert_eq!(delay_for_attempt(&policy, 3), 800);
    assert_eq!(delay_for_attempt(&policy, 4), 1000);
    assert_eq!(delay_for_attempt(&policy, 10), 1000);
    assert_eq!(
        decide(&policy, 1, AttemptOutcome::Transient),
        RetryDecision::RetryAfterMs(200)
    );
    assert_eq!(decide(&policy, 4, AttemptOutcome::Transient), RetryDecision::GiveUp);
    assert_eq!(decide(&policy, 0, AttemptOutcome::Fatal), RetryDecision::GiveUp);
}

#[test]
fn s6_cas_snapshot() {
    let mut store = SnapshotStore::new();
    // Two writers race to create their topics from the same version.
    let v0 = store.read_version();
    let w1 = with_topic(&store.read().records, &b"alpha".to_vec());
    let w2 = with_topic(&store.read().records, &b"beta".to_vec());
    assert!(store.cas_write(v0, w1));
    // The second write lost the race and must reload.
    assert!(!store.cas_write(v0, w2));
    let v1 = store.read_version();
    let w2 = with_topic(&store.read().records, &b"beta".to_vec());
    assert!(store.cas_write(v1, w2));
    // Both topics exactly once; the version advanced by two.
    assert_eq!(store.read_version(), v0 + 2);
    let records = &store.read().records;
    assert_eq!(records.len(), 2);
    assert_eq!(
        records.iter().filter(|r| r.topic_id == b"alpha".to_vec()).count(),
        1
    );
    assert_eq!(
        records.iter().filter(|r| r.topic_id == b"beta".to_vec()).count(),
        1
    );
}

#[test]
fn snapshot_topic_listed_once() {
    let records = Vec::new();
    let once = with_topic(&records, &b"t".to_vec());
    let twice = with_topic(&once, &b"t".to_vec());
    assert_eq!(once.len(), 1);
    assert_eq!(twice.len(), 1);
}
