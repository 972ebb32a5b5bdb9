//! Produce, Fetch, ListOffsets, OffsetForLeaderEpoch and DeleteRecords.

use bytes::{Buf, BufMut, Bytes, BytesMut};
use volant_kafka::api::KafkaErrorCode;
use volant_kafka::codec::{
    get_bytes, get_compact_array_len, get_compact_bytes, get_compact_string, get_string, put_bytes,
    put_compact_array_len, put_compact_string, put_empty_tag_buffer, put_nullable_string,
    put_string, put_unsigned_varint, put_uuid, read_unsigned_varint,
};
use volant_kafka::compress::CompressionCodec;
use volant_kafka::delete_records::{
    decode_delete_records, delete_records_row, deletion_asked, deletion_fanout,
    encode_delete_records, DeleteRecordsPart,
};
use volant_kafka::error::Error;
use volant_kafka::fetch::{
    decode_fetch, fetch_asks, forget_list, gather, parse_fetch_request_tags, peek_fetch_session,
    plan_fetch, topic_known, FetchAsk, FetchPart, FetchTopic, ForgottenTopic,
};
use volant_kafka::fetch_response::{
    aborted_until, drop_omitted, encode_diverging_epoch, encode_fetch, encode_fetch_record_batches,
    encode_fetch_record_set, fetch_epoch_end, fetch_failed, fetch_leaders, fetch_max_messages,
    fetch_preferred, fetch_records, fetch_refuse, fetch_start, fetch_topics, note_fetched,
    put_fetch_empty_response, put_fetch_partition_response, put_fetch_partition_response_full,
    put_fetch_response_header, put_tags, run_batch, select_records, times_encodable, FetchContext,
    FetchMeta, FetchStep, FetchTopicOut, LogEntry, Tag,
};
use volant_kafka::fetch_session::SessionPartition;
use volant_kafka::list_offsets::{
    decode_list_offsets, decode_offset_for_leader_epoch, encode_list_offsets,
    encode_offset_for_leader_epoch, fence, leader_epoch_row, list_offsets_row, offset_lookup, Fence,
    LeaderEpochPart, ListOffsetsPart, LookupError, OffsetAnswer, OffsetLookup,
};
use volant_kafka::message::TopicOut;
use volant_kafka::model::{Offset, Record};
use volant_kafka::produce::{
    acks_wait_ms, after_append, after_buffer, after_check, batch_action, decode_produce,
    distinct_leaders, encode_leader_id_and_epoch, encode_produce, kip951_leader_error,
    map_produce_ack_error, node_endpoints_for_leaders, produce_leaders, produce_log_start_offset,
    produce_partition_batches, produce_plan, produce_row, put_node_endpoints_tag,
    put_produce_empty_response, put_produce_partition_response, put_single_tag, refuse,
    resolve_current_leader, volant_acks, AckError, Addresses, BatchAction, IdempotentCheck,
    NodeEndpoint, ProducePart, ProducePartition, ProducePlan, ProduceTopicOut,
};
use volant_kafka::records::{
    decode_record_batches, decode_record_batches_detailed, decode_records, encode_message_set,
    encode_record_batch, encode_record_batch_idempotent, seal_record_batch, wrap_message_set,
    RecordBatchProducer,
};
use volant_kafka::session_manager::FetchSessionManager;
use volant_kafka::topic_id::{uuid_for_numeric_id, Catalog, TopicWireId};

fn record(offset: u64, value: &'static str) -> Record {
    Record {
        offset: Offset::new(offset),
        key: None,
        value: Bytes::from_static(value.as_bytes()),
        timestamp_ms: 1_000 + offset as i64,
        headers: vec![],
    }
}

fn catalog() -> Catalog {
    Catalog { topics: vec![("events".to_string(), 7)] }
}

fn name(t: &str) -> TopicWireId {
    TopicWireId::Name(t.to_string())
}

// ---------------------------------------------------------------------------
// Produce
// ---------------------------------------------------------------------------

#[test]
fn produce_request_v3() {
    let set = encode_record_batch(&[record(0, "a"), record(1, "b")]);
    let mut body = BytesMut::new();
    put_nullable_string(&mut body, None);
    body.put_i16(-1);
    body.put_i32(1_000);
    body.put_i32(1);
    put_string(&mut body, "events");
    body.put_i32(2);
    body.put_i32(4);
    put_bytes(&mut body, Some(&set));
    body.put_i32(5);
    put_bytes(&mut body, None);
    let req = decode_produce(&mut body.freeze(), 3).unwrap();
    assert_eq!(req.acks, -1);
    assert_eq!(req.declared, 1);
    assert_eq!(req.topics[0].declared, 2);
    assert_eq!(req.topics[0].parts[0].partition, 4);
    assert_eq!(req.topics[0].parts[1].records.as_ref().unwrap().len(), 0);
    match produce_plan(&req.topics[0].parts[0], true, true) {
        ProducePlan::Append(batches) => {
            assert_eq!(batches.len(), 1);
            assert_eq!(batches[0].messages.len(), 2);
            assert!(matches!(batch_action(&batches[0], false), BatchAction::Append));
        }
        other => panic!("{other:?}"),
    }
    assert!(matches!(
        produce_plan(&req.topics[0].parts[1], true, true),
        ProducePlan::Empty
    ));
    assert!(decode_produce(&mut Bytes::new(), 3).is_none());
}

#[test]
fn produce_plan_refusals() {
    let part = |records: Option<&'static [u8]>| ProducePart {
        partition: 2,
        records: records.map(Bytes::from_static),
    };
    let code = |p: ProducePlan| match p {
        ProducePlan::Answer(row) => {
            assert_eq!((row.partition, row.base_offset, row.log_start_offset), (2, -1, -1));
            row.error
        }
        other => panic!("{other:?}"),
    };
    assert_eq!(
        code(produce_plan(&part(None), true, true)),
        KafkaErrorCode::InvalidMessage.as_i16()
    );
    assert_eq!(
        code(produce_plan(&part(Some(b"")), false, true)),
        KafkaErrorCode::UnknownTopicId.as_i16()
    );
    assert_eq!(
        code(produce_plan(&part(Some(b"")), true, false)),
        KafkaErrorCode::TopicAuthorizationFailed.as_i16()
    );
    assert_eq!(
        code(produce_plan(&part(Some(&[0u8; 30])), true, true)),
        KafkaErrorCode::CorruptMessage.as_i16()
    );
}

#[test]
fn idempotent_batches_are_checked_or_buffered() {
    let set = encode_record_batch_idempotent(&[record(0, "a")], 9, 2, 5);
    let batches = decode_record_batches_detailed(&set).unwrap();
    assert!(matches!(
        batch_action(&batches[0], false),
        BatchAction::Check { producer_id: 9, epoch: 2, base_sequence: 5, count: 1 }
    ));
    assert!(matches!(
        batch_action(&batches[0], true),
        BatchAction::Buffer { producer_id: 9, epoch: 2, base_sequence: 5 }
    ));
}

#[test]
fn batch_outcomes() {
    let accept = IdempotentCheck::Accept { base_offset: 7 };
    assert_eq!(after_buffer(accept), Ok(Some(7)));
    assert_eq!(after_check(accept), Ok(None));
    let again = IdempotentCheck::Duplicate { base_offset: 3 };
    assert_eq!(after_check(again), Ok(Some(3)));
    assert_eq!(after_buffer(again), Ok(Some(3)));
    assert!(after_check(IdempotentCheck::Reject { error_code: 1 }).is_err());
    assert_eq!(after_append(Ok((Some(12), None))), Ok(Some(12)));
    assert_eq!(after_append(Ok((None, None))), Ok(Some(0)));
    assert_eq!(
        after_append(Ok((Some(1), Some(AckError::NotLeader)))),
        Err(KafkaErrorCode::NotLeaderForPartition.as_i16())
    );
    assert_eq!(map_produce_ack_error(AckError::Other), KafkaErrorCode::Unknown.as_i16());
    assert_eq!(
        after_append(Err(LookupError::NotFound)),
        Err(KafkaErrorCode::UnknownTopicOrPartition.as_i16())
    );
}

#[test]
fn the_first_base_offset_is_told_and_the_first_error_ends_it() {
    assert_eq!(produce_partition_batches(&vec![Ok(None), Ok(Some(4)), Ok(Some(9))]), Ok(4));
    assert_eq!(produce_partition_batches(&vec![Ok(Some(4)), Err(7), Err(8)]), Err(7));
    assert_eq!(produce_partition_batches(&vec![]), Ok(0));
    let mut p = ProducePartition::new();
    p.note(Ok(Some(4)));
    assert!(!p.is_refused());
    p.note(Err(6));
    assert!(p.is_refused());
    assert_eq!(p.outcome(), Err(6));
}

#[test]
fn acknowledgements() {
    assert_eq!((volant_acks(-1), volant_acks(0), volant_acks(1), volant_acks(7)), (255, 0, 1, 1));
    assert_eq!(produce_log_start_offset(&Ok(Some(5))), 5);
    assert_eq!(produce_log_start_offset(&Ok(None)), -1);
    assert_eq!(produce_log_start_offset(&Err(LookupError::Other)), -1);
}

#[test]
fn leaders_are_told_of_leader_errors() {
    let not_leader = KafkaErrorCode::NotLeaderForPartition.as_i16();
    assert!(kip951_leader_error(not_leader));
    assert!(kip951_leader_error(KafkaErrorCode::FencedLeaderEpoch.as_i16()));
    assert!(!kip951_leader_error(0));
    assert_eq!(resolve_current_leader(not_leader, Some((2, 5))), Some((2, 5)));
    assert_eq!(resolve_current_leader(0, Some((2, 5))), None);
    assert_eq!(produce_row(10, 0, Err(not_leader), 0, Some((2, 5))).current_leader, Some((2, 5)));
    assert_eq!(produce_row(9, 0, Err(not_leader), 0, Some((2, 5))).current_leader, None);
    assert_eq!(produce_row(10, 0, Ok(8), 3, Some((2, 5))).base_offset, 8);
    assert_eq!(distinct_leaders(&vec![3, 1, 3, 2, 1]), vec![3, 1, 2]);
    assert_eq!(&encode_leader_id_and_epoch(2, 5)[..], &[0, 0, 0, 2, 0, 0, 0, 5, 0]);
}

#[test]
fn endpoints_of_leaders() {
    let addresses = Addresses {
        brokers: vec![(1, "one".to_string(), 19), (2, "two".to_string(), 29)],
        host: "self".to_string(),
        port: 99,
        racks: vec![(2, "r2".to_string())],
    };
    let nodes = node_endpoints_for_leaders(&addresses, &vec![2, 2, 5]);
    assert_eq!(nodes.len(), 2);
    assert_eq!((nodes[0].id, nodes[0].host.as_str(), nodes[0].port), (2, "two", 29));
    assert_eq!(nodes[0].rack.as_deref(), Some("r2"));
    assert_eq!((nodes[1].id, nodes[1].host.as_str(), nodes[1].port), (5, "self", 99));
    assert_eq!(nodes[1].rack, None);
    let mut out = BytesMut::new();
    put_node_endpoints_tag(&mut out, &nodes);
    let mut tags = out.freeze();
    assert_eq!(read_unsigned_varint(&mut tags).unwrap(), 1);
    assert_eq!(read_unsigned_varint(&mut tags).unwrap(), 0);
    let size = read_unsigned_varint(&mut tags).unwrap();
    assert_eq!(size as usize, tags.remaining());
    assert_eq!(get_compact_array_len(&mut tags).unwrap(), Some(2));
    assert_eq!(tags.get_i32(), 2);
    assert_eq!(get_compact_string(&mut tags).unwrap(), "two");
}

#[test]
fn produce_responses() {
    let mut out = BytesMut::new();
    put_single_tag(&mut out, 3, b"ab");
    assert_eq!(&out[..], &[1, 3, 2, b'a', b'b']);
    let row = refuse(1, KafkaErrorCode::NotLeaderForPartition.as_i16(), Some((2, 5)));
    let mut out = BytesMut::new();
    assert!(put_produce_partition_response(&mut out, 10, &row));
    let mut out = BytesMut::new();
    assert!(!put_produce_partition_response(&mut out, 8, &row));

    let topics = vec![ProduceTopicOut {
        wire: name("events"),
        declared: 1,
        rows: vec![produce_row(3, 0, Ok(41), 0, None)],
    }];
    let mut out = BytesMut::new();
    encode_produce(&mut out, 3, 1, &topics, &vec![]);
    let mut resp = out.freeze();
    assert_eq!(resp.get_i32(), 1);
    assert_eq!(get_string(&mut resp).unwrap(), "events");
    assert_eq!(resp.get_i32(), 1);
    assert_eq!(resp.get_i32(), 0);
    assert_eq!(resp.get_i16(), 0);
    assert_eq!(resp.get_i64(), 41);
    assert_eq!(resp.get_i64(), -1);
    assert_eq!(resp.get_i32(), 0);
    assert_eq!(resp.remaining(), 0);

    let mut out = BytesMut::new();
    let nodes = vec![NodeEndpoint { id: 2, host: "h".to_string(), port: 1, rack: None }];
    encode_produce(&mut out, 10, 0, &vec![], &nodes);
    let mut resp = out.freeze();
    assert_eq!(get_compact_array_len(&mut resp).unwrap(), Some(0));
    assert_eq!(resp.get_i32(), 0);
    assert_eq!(read_unsigned_varint(&mut resp).unwrap(), 1);

    let mut out = BytesMut::new();
    put_produce_empty_response(&mut out, 1);
    assert_eq!(&out[..], &[0, 0, 0, 0, 0, 0, 0, 0]);
}

// ---------------------------------------------------------------------------
// Fetch
// ---------------------------------------------------------------------------

fn fetch_body_v11(session_id: i32, session_epoch: i32) -> Bytes {
    let mut body = BytesMut::new();
    body.put_i32(-1);
    body.put_i32(500);
    body.put_i32(1);
    body.put_i32(1 << 20);
    body.put_u8(1);
    body.put_i32(session_id);
    body.put_i32(session_epoch);
    body.put_i32(1);
    put_string(&mut body, "events");
    body.put_i32(1);
    body.put_i32(0);
    body.put_i32(-1);
    body.put_i64(10);
    body.put_i64(-1);
    body.put_i32(4096);
    body.put_i32(1);
    put_string(&mut body, "old");
    body.put_i32(1);
    body.put_i32(3);
    put_string(&mut body, "rack-a");
    body.freeze()
}

#[test]
fn fetch_request_v11() {
    let body = fetch_body_v11(5, 2);
    assert_eq!(peek_fetch_session(11, &body), Some((5, 2)));
    assert_eq!(peek_fetch_session(6, &body), None);
    assert_eq!(peek_fetch_session(11, &body[..20]), None);
    let req = decode_fetch(&mut body.clone(), 11).unwrap();
    assert_eq!((req.replica_id, req.read_committed), (-1, true));
    assert_eq!((req.session_id, req.session_epoch), (5, 2));
    assert_eq!(req.rack.as_deref(), Some("rack-a"));
    assert_eq!(req.topics.len(), 1);
    let part = &req.topics[0].parts[0];
    assert_eq!((part.partition, part.fetch_offset, part.max_bytes), (0, 10, 4096));
    assert_eq!(part.last_fetched_epoch, -1);
    assert_eq!(
        forget_list(&catalog(), &req.forgotten),
        vec![("old".to_string(), vec![3])]
    );
    assert!(decode_fetch(&mut Bytes::new(), 11).is_none());
}

#[test]
fn replica_id_from_the_tags() {
    let mut body = BytesMut::new();
    put_unsigned_varint(&mut body, 1);
    put_unsigned_varint(&mut body, 1);
    put_unsigned_varint(&mut body, 13);
    body.put_i32(6);
    body.put_i64(0);
    put_empty_tag_buffer(&mut body);
    let body = body.freeze();
    assert_eq!(parse_fetch_request_tags(&mut body.clone(), 15, -1), 6);
    assert_eq!(parse_fetch_request_tags(&mut body.clone(), 14, -1), -1);
}

fn asked(topic: &str, offset: i64) -> FetchTopic {
    FetchTopic {
        wire: name(topic),
        parts: vec![FetchPart {
            partition: 0,
            current_leader_epoch: -1,
            fetch_offset: offset,
            last_fetched_epoch: -1,
            max_bytes: 1024,
        }],
    }
}

#[test]
fn sessions_across_fetches() {
    let mut sessions = FetchSessionManager::with_limits(60_000, 10);
    let (topics, order) = gather(&catalog(), &vec![asked("events", 0)]);
    let first = plan_fetch(&mut sessions, 11, 0, 0, topics, order, &vec![], 1_000);
    assert_eq!(first.refused, None);
    assert_ne!(first.session_id, 0);
    assert!(!first.omit_unchanged);
    let id = first.session_id;

    let (topics, order) = gather(&catalog(), &vec![asked("logs", 7)]);
    let second = plan_fetch(&mut sessions, 11, id, 1, topics, order, &vec![], 2_000);
    assert_eq!(second.refused, None);
    assert!(!second.omit_unchanged);
    assert_eq!(second.order, vec!["logs".to_string()]);

    let (topics, order) = gather(&catalog(), &vec![]);
    let forgotten = forget_list(
        &catalog(),
        &vec![ForgottenTopic { wire: name("logs"), parts: vec![0] }],
    );
    let third = plan_fetch(&mut sessions, 11, id, 2, topics, order, &forgotten, 3_000);
    assert!(third.omit_unchanged);
    assert_eq!(third.order, vec!["events".to_string()]);

    let (topics, order) = gather(&catalog(), &vec![]);
    let wrong = plan_fetch(&mut sessions, 11, id, 9, topics, order, &vec![], 4_000);
    assert_eq!(wrong.refused, Some(KafkaErrorCode::InvalidFetchSessionEpoch.as_i16()));
    let (topics, order) = gather(&catalog(), &vec![]);
    let gone = plan_fetch(&mut sessions, 11, 9999, 1, topics, order, &vec![], 4_000);
    assert_eq!(gone.refused, Some(KafkaErrorCode::FetchSessionIdNotFound.as_i16()));

    let (topics, order) = gather(&catalog(), &vec![asked("events", 3)]);
    let last = plan_fetch(&mut sessions, 11, id, -1, topics, order, &vec![], 5_000);
    assert_eq!((last.refused, last.session_id), (None, 0));
    assert!(!sessions.contains(id));

    let (topics, order) = gather(&catalog(), &vec![asked("events", 3)]);
    let before_sessions = plan_fetch(&mut sessions, 6, 0, -1, topics, order, &vec![], 5_000);
    assert_eq!((before_sessions.refused, before_sessions.session_id), (None, 0));
}

fn context(version: i16) -> FetchContext {
    FetchContext { version, replica_id: -1, read_committed: false, omit_unchanged: false }
}

fn meta() -> Option<FetchMeta> {
    Some(FetchMeta { leader: 2, leader_epoch: 5, hwm: 50 })
}

fn done(s: FetchStep) -> volant_kafka::fetch_response::FetchRow {
    match s {
        FetchStep::Done(row) => row,
        _ => panic!("there is a question left"),
    }
}

#[test]
fn fetch_steps() {
    let part = SessionPartition::new(10, -1, -1, 1024);
    let code = |s: FetchStep| done(s).error;
    assert_eq!(
        code(fetch_start(&context(11), 0, &part, false, true, meta())),
        KafkaErrorCode::UnknownTopicId.as_i16()
    );
    assert_eq!(
        code(fetch_start(&context(11), 0, &part, true, false, meta())),
        KafkaErrorCode::TopicAuthorizationFailed.as_i16()
    );
    let ahead = SessionPartition::new(10, 6, -1, 1024);
    assert_eq!(
        code(fetch_start(&context(11), 0, &ahead, true, true, meta())),
        KafkaErrorCode::UnknownLeaderEpoch.as_i16()
    );
    let behind = SessionPartition::new(10, 4, -1, 1024);
    let fenced = done(fetch_start(&context(11), 0, &behind, true, true, meta()));
    assert_eq!(fenced.error, KafkaErrorCode::FencedLeaderEpoch.as_i16());
    assert_eq!(fenced.current_leader, Some((2, 5)));
    assert!(matches!(
        fetch_start(&context(11), 0, &part, true, true, meta()),
        FetchStep::AskPreferred
    ));
    assert!(matches!(
        fetch_start(&context(10), 0, &part, true, true, meta()),
        FetchStep::AskRecords
    ));
    let follower = FetchContext { replica_id: 3, ..context(11) };
    assert!(matches!(
        fetch_start(&follower, 0, &part, true, true, meta()),
        FetchStep::AskRecords
    ));
    let epoch = SessionPartition::new(10, -1, 4, 1024);
    assert!(matches!(
        fetch_start(&context(12), 0, &epoch, true, true, meta()),
        FetchStep::AskEpochEnd
    ));
    let row = done(fetch_epoch_end(&context(12), 0, &epoch, meta(), Some((4, 8)), 40, 1));
    assert_eq!(row.error, KafkaErrorCode::OffsetOutOfRange.as_i16());
    assert_eq!((row.diverging, row.hwm, row.lso, row.log_start), (Some((4, 8)), 50, 40, 1));
    assert!(matches!(
        fetch_epoch_end(&context(12), 0, &epoch, meta(), Some((4, 10)), 40, 1),
        FetchStep::AskPreferred
    ));
    let row = done(fetch_preferred(&context(11), 0, meta(), Some(3), 40, 1));
    assert_eq!((row.error, row.preferred_read_replica, row.hwm), (0, 3, 50));
    assert!(matches!(
        fetch_preferred(&context(11), 0, meta(), None, 40, 1),
        FetchStep::AskRecords
    ));
    assert_eq!(
        fetch_failed(1, LookupError::NotFound).error,
        KafkaErrorCode::UnknownTopicOrPartition.as_i16()
    );
}

#[test]
fn fetched_rows() {
    let part = SessionPartition::new(10, -1, -1, 1024);
    let set = encode_record_batch(&[record(10, "a")]);
    let row = fetch_records(&context(4), 0, &part, None, Some(10), set, 9, 2, vec![(1, 4)]);
    assert_eq!((row.hwm, row.lso, row.log_start), (11, 9, 2));
    assert!(row.aborted.is_empty());
    assert!(row.note_cache);
    let committed = FetchContext { read_committed: true, ..context(4) };
    let empty = BytesMut::new();
    let row = fetch_records(&committed, 0, &part, meta(), None, empty, 9, 2, vec![(1, 4)]);
    assert_eq!((row.hwm, row.lso), (50, 9));
    assert_eq!(row.aborted, vec![(1, 4)]);
    assert!(!row.omit);
    let mut told = SessionPartition::new(10, -1, -1, 1024);
    told.last_hwm = Some(50);
    told.last_lso = Some(9);
    let again = FetchContext { omit_unchanged: true, ..context(7) };
    let row = fetch_records(&again, 0, &told, meta(), None, BytesMut::new(), 9, 2, vec![]);
    assert!(row.omit);
    let kept = drop_omitted(vec![FetchTopicOut {
        key: "events".to_string(),
        wire: name("events"),
        rows: vec![row],
    }]);
    assert!(kept.is_empty());
}

#[test]
fn sessions_remember_what_clients_were_told() {
    let mut sessions = FetchSessionManager::with_limits(60_000, 10);
    let (topics, order) = gather(&catalog(), &vec![asked("events", 0)]);
    let plan = plan_fetch(&mut sessions, 11, 0, 0, topics, order, &vec![], 1_000);
    let part = SessionPartition::new(0, -1, -1, 1024);
    let row = fetch_records(&context(11), 0, &part, meta(), None, BytesMut::new(), 9, 0, vec![]);
    let told = vec![FetchTopicOut {
        key: plan.order[0].clone(),
        wire: name("events"),
        rows: vec![row],
    }];
    note_fetched(&mut sessions, plan.session_id, &told);
    let held = sessions.session(plan.session_id).unwrap();
    let (_, topic) = held.topics.at(0);
    let (_, p) = topic.partitions.at(0);
    assert_eq!((p.last_hwm, p.last_lso), (Some(50), Some(9)));
}

#[test]
fn how_much_is_returned() {
    let records = vec![record(0, "0123456789"), record(1, "0123456789"), record(2, "x")];
    assert_eq!(select_records(&records, 0), 1);
    assert_eq!(select_records(&records, 84), 2);
    assert_eq!(select_records(&records, 83), 1);
    assert_eq!(select_records(&records, 1_000), 3);
    assert_eq!(select_records(&vec![], 10), 0);
    assert!(fetch_max_messages(0) >= 1);
}

#[test]
fn record_sets_by_version() {
    let entries = || vec![LogEntry::Data(record(3, "a")), LogEntry::Data(record(4, "b"))];
    let batches = encode_fetch_record_set(entries(), 4, CompressionCodec::Uncompressed);
    assert_eq!(&batches[..], &encode_record_batch(&[record(3, "a"), record(4, "b")])[..]);
    let set = encode_fetch_record_set(entries(), 3, CompressionCodec::Uncompressed);
    assert_eq!(&set[..], &encode_message_set(&[record(3, "a"), record(4, "b")])[..]);
    let compressed = encode_fetch_record_set(entries(), 4, CompressionCodec::Lz4);
    let back = decode_records(&compressed).unwrap();
    assert_eq!(back.len(), 2);
    assert_eq!(&back[1].value[..], b"b");
    assert!(encode_fetch_record_set(vec![], 4, CompressionCodec::Gzip).is_empty());
    assert!(times_encodable(&entries()));
    let mut far = record(5, "c");
    far.timestamp_ms = i64::MIN;
    let mut late = record(6, "d");
    late.timestamp_ms = i64::MAX;
    assert!(!times_encodable(&vec![LogEntry::Data(far), LogEntry::Data(late)]));
}

#[test]
fn markers_stand_between_batches() {
    let marker = encode_record_batch(&[record(4, "m")]).freeze();
    let all = encode_fetch_record_batches(
        vec![
            LogEntry::Data(record(3, "a")),
            LogEntry::Control(marker.clone()),
            LogEntry::Data(record(5, "b")),
        ],
        CompressionCodec::Uncompressed,
    );
    let mut want = encode_record_batch(&[record(3, "a")]);
    want.extend_from_slice(&marker);
    want.extend_from_slice(&encode_record_batch(&[record(5, "b")]));
    assert_eq!(&all[..], &want[..]);
    assert_eq!(decode_record_batches(&all).unwrap().len(), 3);
    let old = encode_fetch_record_set(
        vec![LogEntry::Control(marker), LogEntry::Data(record(5, "b"))],
        2,
        CompressionCodec::Uncompressed,
    );
    assert_eq!(decode_records(&old).unwrap().len(), 1);
}

#[test]
fn fetch_responses() {
    let mut out = BytesMut::new();
    put_fetch_partition_response(&mut out, 5, 3, 0, 9, 1, BytesMut::from(&b"xy"[..]), None);
    let mut resp = out.freeze();
    assert_eq!((resp.get_i32(), resp.get_i16(), resp.get_i64()), (3, 0, 9));
    assert_eq!((resp.get_i64(), resp.get_i64()), (9, 1));
    assert_eq!(resp.get_i32(), 0);
    assert_eq!(&get_bytes(&mut resp).unwrap().unwrap()[..], b"xy");

    let mut out = BytesMut::new();
    let row = fetch_refuse(3, KafkaErrorCode::FencedLeaderEpoch.as_i16(), Some((2, 5)));
    put_fetch_partition_response_full(&mut out, 12, &row);
    let mut resp = out.freeze();
    assert_eq!(resp.get_i32(), 3);
    assert_eq!(resp.get_i16(), KafkaErrorCode::FencedLeaderEpoch.as_i16());
    assert_eq!((resp.get_i64(), resp.get_i64(), resp.get_i64()), (-1, -1, -1));
    assert_eq!(get_compact_array_len(&mut resp).unwrap(), Some(0));
    assert_eq!(resp.get_i32(), -1);
    assert_eq!(get_compact_bytes(&mut resp).unwrap().unwrap().len(), 0);
    assert_eq!(read_unsigned_varint(&mut resp).unwrap(), 1);
    assert_eq!(read_unsigned_varint(&mut resp).unwrap(), 1);
    assert_eq!(read_unsigned_varint(&mut resp).unwrap(), 9);
    assert_eq!((resp.get_i32(), resp.get_i32()), (2, 5));

    let mut out = BytesMut::new();
    put_fetch_empty_response(&mut out, 7, 70, 0);
    let mut resp = out.freeze();
    assert_eq!((resp.get_i32(), resp.get_i16(), resp.get_i32()), (0, 70, 0));
    assert_eq!(resp.get_i32(), 0);
    let mut out = BytesMut::new();
    put_fetch_response_header(&mut out, 0, 70, 4);
    assert!(out.is_empty());
    let mut out = BytesMut::new();
    encode_fetch(&mut out, 7, 0, 4, &vec![], &vec![]);
    let mut resp = out.freeze();
    assert_eq!((resp.get_i32(), resp.get_i16(), resp.get_i32()), (0, 0, 4));

    assert_eq!(&encode_diverging_epoch(1, 2)[..], &[0, 0, 0, 1, 0, 0, 0, 0, 0, 0, 0, 2]);
    let mut out = BytesMut::new();
    let tags = vec![Tag { tag: 1, value: BytesMut::from(&b"q"[..]) }];
    put_tags(&mut out, &tags);
    assert_eq!(&out[..], &[1, 1, 1, b'q']);
}

// ---------------------------------------------------------------------------
// ListOffsets and OffsetForLeaderEpoch
// ---------------------------------------------------------------------------

#[test]
fn special_timestamps_by_version() {
    assert_eq!(offset_lookup(0, -1), OffsetLookup::Latest);
    assert_eq!(offset_lookup(0, -2), OffsetLookup::Earliest);
    assert_eq!(offset_lookup(7, -3), OffsetLookup::MaxTimestamp);
    assert_eq!(offset_lookup(6, -3), OffsetLookup::Invalid);
    assert_eq!(offset_lookup(8, -4), OffsetLookup::Earliest);
    assert_eq!(offset_lookup(7, -4), OffsetLookup::Invalid);
    assert_eq!(offset_lookup(9, -5), OffsetLookup::Nothing);
    assert_eq!(offset_lookup(11, -6), OffsetLookup::Nothing);
    assert_eq!(offset_lookup(11, 1_000), OffsetLookup::Invalid);
    assert_eq!(fence(-1, 5), Fence::Pass);
    assert_eq!(fence(6, 5), Fence::Ahead);
    assert_eq!(fence(4, 5), Fence::Behind);
    assert_eq!(fence(4, -1), Fence::Pass);
}

fn answer() -> OffsetAnswer {
    OffsetAnswer {
        allowed: true,
        leader_epoch: 5,
        max_timestamp: Ok(Some((33, 77))),
        bounds: Ok(Some((3, 44))),
        last_stable: 40,
    }
}

#[test]
fn offset_rows() {
    let part = |timestamp: i64| ListOffsetsPart {
        partition: 1,
        current_leader_epoch: -1,
        timestamp,
    };
    let row = |timestamp: i64, committed: bool| {
        let r = list_offsets_row(9, committed, &part(timestamp), &answer());
        (r.error, r.timestamp, r.offset, r.leader_epoch)
    };
    assert_eq!(row(-1, false), (0, -1, 44, 5));
    assert_eq!(row(-1, true), (0, -1, 40, 5));
    assert_eq!(row(-2, false), (0, -2, 3, 5));
    assert_eq!(row(-3, false), (0, 77, 33, 5));
    assert_eq!(row(-5, false), (0, -1, -1, 5));
    assert_eq!(row(123, false).0, KafkaErrorCode::InvalidTimestamp.as_i16());
    let denied = OffsetAnswer { allowed: false, ..answer() };
    assert_eq!(
        list_offsets_row(9, false, &part(-1), &denied).error,
        KafkaErrorCode::TopicAuthorizationFailed.as_i16()
    );
    let missing = OffsetAnswer { bounds: Err(LookupError::NotFound), ..answer() };
    assert_eq!(
        list_offsets_row(9, false, &part(-1), &missing).error,
        KafkaErrorCode::UnknownTopicOrPartition.as_i16()
    );
    let ahead = ListOffsetsPart { partition: 1, current_leader_epoch: 9, timestamp: -1 };
    assert_eq!(
        list_offsets_row(9, false, &ahead, &answer()).error,
        KafkaErrorCode::UnknownLeaderEpoch.as_i16()
    );
}

#[test]
fn list_offsets_round() {
    let mut body = BytesMut::new();
    body.put_i32(-1);
    body.put_u8(1);
    body.put_i32(1);
    put_string(&mut body, "events");
    body.put_i32(1);
    body.put_i32(0);
    body.put_i32(5);
    body.put_i64(-1);
    let req = decode_list_offsets(&mut body.freeze(), 4).unwrap();
    assert!(req.read_committed);
    let part = &req.topics[0].parts[0];
    assert_eq!((part.partition, part.current_leader_epoch, part.timestamp), (0, 5, -1));
    let rows = vec![TopicOut {
        name: "events".to_string(),
        rows: vec![list_offsets_row(4, true, part, &answer())],
    }];
    let mut out = BytesMut::new();
    encode_list_offsets(&mut out, 4, &rows);
    let mut resp = out.freeze();
    assert_eq!(resp.get_i32(), 0);
    assert_eq!(resp.get_i32(), 1);
    assert_eq!(get_string(&mut resp).unwrap(), "events");
    assert_eq!(resp.get_i32(), 1);
    assert_eq!((resp.get_i32(), resp.get_i16()), (0, 0));
    assert_eq!((resp.get_i64(), resp.get_i64(), resp.get_i32()), (-1, 40, 5));
    assert_eq!(resp.remaining(), 0);
    assert!(decode_list_offsets(&mut Bytes::new(), 4).is_none());
}

#[test]
fn ends_of_leader_epochs() {
    let part = |current: i32, wanted: i32| LeaderEpochPart {
        partition: 0,
        current_leader_epoch: current,
        leader_epoch: wanted,
    };
    let row = |p: LeaderEpochPart, found: Option<(i32, i64)>| {
        let r = leader_epoch_row(&p, true, Some(5), found);
        (r.error, r.leader_epoch, r.end_offset)
    };
    assert_eq!(row(part(-1, 3), Some((3, 20))), (0, 3, 20));
    let unknown = KafkaErrorCode::UnknownLeaderEpoch.as_i16();
    assert_eq!(row(part(6, 3), Some((3, 20))), (unknown, 5, -1));
    assert_eq!(row(part(4, 3), None), (KafkaErrorCode::FencedLeaderEpoch.as_i16(), 5, -1));
    assert_eq!(row(part(-1, 6), None), (unknown, 5, -1));
    assert_eq!(row(part(-1, 3), None), (unknown, 5, -1));
    assert_eq!(
        leader_epoch_row(&part(-1, 3), false, Some(5), None).error,
        KafkaErrorCode::TopicAuthorizationFailed.as_i16()
    );
    assert_eq!(
        leader_epoch_row(&part(-1, 3), true, None, None).error,
        KafkaErrorCode::UnknownTopicOrPartition.as_i16()
    );
    let mut body = BytesMut::new();
    body.put_i32(-2);
    put_compact_array_len(&mut body, 1);
    put_compact_string(&mut body, "events");
    put_compact_array_len(&mut body, 1);
    body.put_i32(0);
    body.put_i32(5);
    body.put_i32(4);
    put_empty_tag_buffer(&mut body);
    put_empty_tag_buffer(&mut body);
    put_empty_tag_buffer(&mut body);
    let topics = decode_offset_for_leader_epoch(&mut body.freeze(), 4).unwrap();
    assert_eq!(topics[0].parts[0].leader_epoch, 4);
    let mut out = BytesMut::new();
    encode_offset_for_leader_epoch(&mut out, 4, &vec![]);
    assert_eq!(&out[..], &[0, 0, 0, 0, 1, 0]);
}

// ---------------------------------------------------------------------------
// DeleteRecords
// ---------------------------------------------------------------------------

#[test]
fn records_are_deleted_before_an_offset() {
    let part = |partition: i32, offset: i64| DeleteRecordsPart { partition, offset };
    assert_eq!(deletion_asked(&part(1, 9), true), Some((1, 9)));
    assert_eq!(deletion_asked(&part(1, 9), false), None);
    assert_eq!(deletion_asked(&part(-1, 9), true), None);
    let row = delete_records_row(&part(1, 9), true, &Ok((9, 0)));
    assert_eq!((row.partition, row.low_watermark, row.error), (1, 9, 0));
    assert_eq!(deletion_fanout(&part(1, 9), true, &Ok((9, 0))), Some((1, 9)));
    assert_eq!(deletion_fanout(&part(1, 9), true, &Ok((9, 6))), None);
    assert_eq!(
        delete_records_row(&part(1, 9), false, &Ok((9, 0))).error,
        KafkaErrorCode::TopicAuthorizationFailed.as_i16()
    );
    assert_eq!(
        delete_records_row(&part(1, -1), true, &Ok((9, 0))).error,
        KafkaErrorCode::InvalidRequest.as_i16()
    );
    assert_eq!(
        delete_records_row(&part(1, 9), true, &Err(LookupError::NotFound)).error,
        KafkaErrorCode::UnknownTopicOrPartition.as_i16()
    );
    let mut body = BytesMut::new();
    body.put_i32(1);
    put_string(&mut body, "events");
    body.put_i32(1);
    body.put_i32(0);
    body.put_i64(12);
    body.put_i32(1_000);
    let topics = decode_delete_records(&mut body.freeze(), 1).unwrap();
    assert_eq!(topics[0].parts[0].offset, 12);
    let mut out = BytesMut::new();
    let rows = vec![TopicOut {
        name: "events".to_string(),
        rows: vec![delete_records_row(&topics[0].parts[0], true, &Ok((12, 0)))],
    }];
    encode_delete_records(&mut out, 1, &rows);
    let mut resp = out.freeze();
    assert_eq!((resp.get_i32(), resp.get_i32()), (0, 1));
    assert_eq!(get_string(&mut resp).unwrap(), "events");
    assert_eq!(resp.get_i32(), 1);
    assert_eq!((resp.get_i32(), resp.get_i64(), resp.get_i16()), (0, 12, 0));
}

#[test]
fn topics_by_id_are_gathered_under_their_names() {
    let mut body = BytesMut::new();
    put_uuid(&mut body, &uuid_for_numeric_id(7));
    let known = FetchTopic { wire: TopicWireId::Uuid(uuid_for_numeric_id(7)), parts: vec![] };
    let unknown = FetchTopic { wire: TopicWireId::Uuid([0xab; 16]), parts: vec![] };
    let (topics, order) = gather(&catalog(), &vec![known, unknown]);
    assert_eq!(topics.len(), 2);
    assert_eq!(order[0], "events");
    assert_eq!(order[1], format!("id:{}", "ab".repeat(16)));
}

#[test]
fn responses_name_the_leaders_they_tell_of() {
    let not_leader = KafkaErrorCode::NotLeaderForPartition.as_i16();
    let told = |id: i32| produce_row(10, 0, Err(not_leader), 0, Some((id, 5)));
    let topics = vec![
        ProduceTopicOut {
            wire: name("a"),
            declared: 3,
            rows: vec![told(4), produce_row(10, 0, Ok(8), 3, Some((2, 5))), told(1)],
        },
        ProduceTopicOut { wire: name("b"), declared: 1, rows: vec![told(4)] },
    ];
    assert_eq!(produce_leaders(&topics), vec![4, 1, 4]);
    assert_eq!(produce_leaders(&vec![]), vec![]);

    let topics = vec![
        FetchTopicOut {
            key: "a".to_string(),
            wire: name("a"),
            rows: vec![fetch_refuse(0, not_leader, None), fetch_refuse(1, not_leader, Some((7, 5)))],
        },
        FetchTopicOut {
            key: "b".to_string(),
            wire: name("b"),
            rows: vec![fetch_refuse(0, not_leader, Some((2, 5)))],
        },
    ];
    assert_eq!(fetch_leaders(&topics), vec![7, 2]);
}

#[test]
fn only_full_acknowledgement_waits() {
    assert_eq!(acks_wait_ms(255), Some(5_000));
    assert_eq!(acks_wait_ms(0), None);
    assert_eq!(acks_wait_ms(1), None);
}

#[test]
fn topics_without_a_name_are_unknown() {
    let by_id = |id: u32| FetchTopic {
        wire: TopicWireId::Uuid(uuid_for_numeric_id(id)),
        parts: asked("events", 0).parts,
    };
    let known = |t: FetchTopic| topic_known(&asks_of(vec![t])[0]);
    assert!(known(by_id(7)));
    assert!(!known(by_id(8)));
    assert!(known(asked("absent", 0)));
}

#[test]
fn frames_hold_what_the_codec_gave() {
    let records = [record(7, "a"), record(8, "b")];
    let producer = || RecordBatchProducer { producer_id: 3, producer_epoch: 4, base_sequence: 5 };
    let out = seal_record_batch(&records, CompressionCodec::Gzip, producer(), Ok(vec![9, 9])).unwrap();
    assert_eq!(&out[..8], &[0, 0, 0, 0, 0, 0, 0, 7]);
    assert_eq!(&out[8..12], &51i32.to_be_bytes());
    assert_eq!(out[16], 2);
    assert_eq!(&out[21..23], &[0, 1]);
    assert_eq!(&out[23..27], &1i32.to_be_bytes());
    assert_eq!(&out[43..51], &3i64.to_be_bytes());
    assert_eq!(&out[57..], &[0, 0, 0, 2, 9, 9]);
    let failed = seal_record_batch(
        &records,
        CompressionCodec::Gzip,
        producer(),
        Err(Error::Protocol("x".to_string())),
    );
    assert_eq!(failed.unwrap_err().message(), "x");

    let out = wrap_message_set(&records, CompressionCodec::Lz4, Ok(vec![9])).unwrap();
    assert_eq!(&out[..8], &[0, 0, 0, 0, 0, 0, 0, 8]);
    assert_eq!(&out[16..18], &[1, 3]);
    assert_eq!(&out[26..], &[255, 255, 255, 255, 0, 0, 0, 1, 9]);
    let failed =
        wrap_message_set(&records, CompressionCodec::Lz4, Err(Error::Protocol("y".to_string())));
    assert_eq!(failed.unwrap_err().message(), "y");
}

#[test]
fn runs_are_sent_plain_where_compression_fails() {
    let records = [record(7, "a")];
    let kept = run_batch(&records, Ok(BytesMut::from(&b"packed"[..])));
    assert_eq!(&kept[..], b"packed");
    let plain = run_batch(&records, Err(Error::Protocol("x".to_string())));
    assert_eq!(plain, encode_record_batch(&records));
}

#[test]
fn a_refused_partition_takes_no_further_batch() {
    let batch = || decode_record_batches_detailed(&encode_record_batch(&[record(1, "a")])).unwrap();
    let mut batches = batch();
    batches.extend(batch());
    let mut progress = ProducePartition::new();
    assert_eq!(progress.next_batch(&mut batches).unwrap().messages.len(), 1);
    assert_eq!(batches.len(), 1);
    progress.note(Err(87));
    assert!(progress.next_batch(&mut batches).is_none());
    assert_eq!(batches.len(), 1);
    assert!(ProducePartition::new().next_batch(&mut vec![]).is_none());
}

#[test]
fn partitions_are_fetched_in_order() {
    let mut topic = asked("events", 0);
    let part = |partition: i32| FetchPart {
        partition,
        current_leader_epoch: -1,
        fetch_offset: 0,
        last_fetched_epoch: -1,
        max_bytes: 1024,
    };
    topic.parts = vec![part(7), part(0), part(3)];
    let order: Vec<i32> = asks_of(vec![topic])[0].parts.iter().map(|(id, _)| *id).collect();
    assert_eq!(order, vec![0, 3, 7]);
}

/// What is asked for a request without a session.
fn asks_of(request: Vec<FetchTopic>) -> Vec<FetchAsk> {
    let (topics, order) = gather(&catalog(), &request);
    let mut sessions = FetchSessionManager::with_limits(0, 0);
    fetch_asks(&plan_fetch(&mut sessions, 4, 0, -1, topics, order, &vec![], 1_000))
}

#[test]
fn a_response_covers_the_partitions_of_its_plan() {
    let mut zebra = asked("zebra", 0);
    let part = |partition: i32| FetchPart { partition, ..zebra.parts[0] };
    zebra.parts = vec![part(5), part(2), part(9)];
    let asks = asks_of(vec![zebra, asked("events", 0), asked("zebra", 0)]);
    let keys: Vec<&str> = asks.iter().map(|a| a.key.as_str()).collect();
    assert_eq!(keys, vec!["zebra", "events"]);
    let answers = asks
        .iter()
        .map(|a| {
            let rows = a.parts.iter().map(|(p, _)| {
                let mut row = fetch_refuse(-7, *p as i16, None);
                row.omit = *p == 5 || a.key == "events";
                row
            });
            rows.collect()
        })
        .collect();
    let told = fetch_topics(&asks, answers);
    let parts = |t: &FetchTopicOut| -> Vec<(i32, i16)> {
        t.rows.iter().map(|r| (r.partition, r.error)).collect()
    };
    assert_eq!(told.len(), 2);
    assert_eq!(told[0].key, "zebra");
    assert_eq!(parts(&told[0]), vec![(0, 0), (2, 2), (5, 5), (9, 9)]);
    assert_eq!((told[1].key.as_str(), parts(&told[1])), ("events", vec![(0, 0)]));
    let kept = drop_omitted(told);
    assert_eq!(kept.len(), 1);
    assert_eq!(kept[0].key, "zebra");
    assert_eq!(parts(&kept[0]), vec![(0, 0), (2, 2), (9, 9)]);
}

#[test]
fn aborted_transactions_are_told_of_from_v4_on() {
    let reads = |version: i16| FetchContext { read_committed: true, ..context(version) };
    assert_eq!(aborted_until(&reads(4), 9), Some(9));
    assert_eq!(aborted_until(&reads(4), u64::MAX), Some(0));
    assert_eq!(aborted_until(&reads(3), 9), None);
    assert_eq!(aborted_until(&context(11), 9), None);
}
