//! What clients may see and do, and the small decisions on the way of a request.

use bytes::{Bytes, BytesMut};
use volant_kafka::acl::{AclEntry, AclOperation, AclPermission, ResourceType};
use volant_kafka::acl_api::group_acls_by_resource;
use volant_kafka::cluster_admin::may_see_logs;
use volant_kafka::compress::{decompress, CompressionCodec};
use volant_kafka::fetch_response::{
    encode_fetch_record_set, fetch_from, times_encodable, LogEntry,
};
use volant_kafka::metadata::{encode_metadata, visible_metadata, MetadataTopic};
use volant_kafka::model::{Offset, Record};
use volant_kafka::offsets::{offset_to_check, OffsetRow};
use volant_kafka::produce::producer_to_ask;
use volant_kafka::records::{
    decode_record_batches_detailed, decode_records, encode_record_batch,
    encode_record_batch_idempotent,
};
use volant_kafka::sasl::fits_base64;
use volant_kafka::session_manager::FetchSessionManager;
use volant_kafka::table::SortedMap;
use volant_kafka::topic_admin::may_create;
use volant_kafka::transactions::txn_id_pattern_matches;

fn topic(name: &str) -> MetadataTopic {
    MetadataTopic { name: name.to_string(), topic_id: 1, partitions: vec![], ops: 0 }
}

fn record(offset: u64, timestamp_ms: i64) -> Record {
    Record {
        offset: Offset::new(offset),
        key: None,
        value: Bytes::from_static(b"v"),
        timestamp_ms,
        headers: vec![],
    }
}

#[test]
fn topics_that_may_not_be_described_stay_unseen() {
    let topics = || vec![topic("a"), topic("b"), topic("c")];
    let seen = visible_metadata(topics(), &vec![true, false, true]);
    let names: Vec<&str> = seen.iter().map(|t| t.name.as_str()).collect();
    assert_eq!(names, vec!["a", "c"]);
    assert!(visible_metadata(topics(), &vec![false; 3]).is_empty());
    assert_eq!(visible_metadata(topics(), &vec![true; 3]).len(), 3);
    let mut out = BytesMut::new();
    encode_metadata(&mut out, 1, 0, &vec![], &seen, &vec![], 0);
    assert!(out.windows(3).any(|w| w == [0, 1, b'c']));
    assert!(!out.windows(3).any(|w| w == [0, 1, b'b']));
}

#[test]
fn one_right_is_enough() {
    assert!(may_create(true, false));
    assert!(may_create(false, true));
    assert!(!may_create(false, false));
    assert!(may_see_logs(true, false));
    assert!(may_see_logs(false, true));
    assert!(!may_see_logs(false, false));
}

#[test]
fn only_numbered_producers_are_asked_about() {
    let set = encode_record_batch_idempotent(&[record(0, 1)], 9, 2, 5);
    let batches = decode_record_batches_detailed(&set).unwrap();
    assert_eq!(producer_to_ask(&batches[0]), Some(9));
    let plain = decode_record_batches_detailed(&encode_record_batch(&[record(0, 1)])).unwrap();
    assert_eq!(producer_to_ask(&plain[0]), None);
    let unnumbered = encode_record_batch_idempotent(&[record(0, 1)], 9, 2, -1);
    let unnumbered = decode_record_batches_detailed(&unnumbered).unwrap();
    assert_eq!(producer_to_ask(&unnumbered[0]), None);
}

#[test]
fn a_fetch_begins_at_zero_at_the_earliest() {
    assert_eq!(fetch_from(-1), 0);
    assert_eq!(fetch_from(i64::MIN), 0);
    assert_eq!(fetch_from(0), 0);
    assert_eq!(fetch_from(i64::MAX), i64::MAX as u64);
}

#[test]
fn offsets_are_checked_where_they_have_to_be_stable() {
    let row = |offset: i64| OffsetRow {
        partition: 0,
        offset,
        leader_epoch: -1,
        metadata: None,
        error: 0,
    };
    assert_eq!(offset_to_check(&row(7), true), Some(7));
    assert_eq!(offset_to_check(&row(7), false), None);
    assert_eq!(offset_to_check(&row(-1), true), None);
}

#[test]
fn what_is_at_hand_fits_in_base64() {
    assert!(fits_base64(&vec![]));
    assert!(fits_base64(&vec![1, 2, 3, 4]));
}

#[test]
fn a_marker_parts_the_times() {
    let marker = encode_record_batch(&[record(4, 5)]).freeze();
    let early = || LogEntry::Data(record(3, i64::MIN));
    let late = || LogEntry::Data(record(5, i64::MAX));
    assert!(!times_encodable(&vec![early(), late()]));
    let parted = || vec![early(), LogEntry::Control(marker.clone()), late()];
    assert!(times_encodable(&parted()));
    let set = encode_fetch_record_set(parted(), 4, CompressionCodec::Uncompressed);
    let back = decode_records(&set).unwrap();
    assert_eq!(back.len(), 3);
    let mut want = encode_record_batch(&[record(3, i64::MIN)]);
    want.extend_from_slice(&marker);
    want.extend_from_slice(&encode_record_batch(&[record(5, i64::MAX)]));
    assert_eq!(&set[..], &want[..]);
}

#[test]
fn announced_sizes_do_not_make_data() {
    assert!(decompress(CompressionCodec::Lz4, &[0, 0, 1, 0, 0]).unwrap().is_empty());
    assert_eq!(decompress(CompressionCodec::Lz4, &[0, 0, 1, 0, 0x10, b'x']).unwrap(), b"x");
    let snappy = [0x80, 0x80, 0x04];
    assert!(decompress(CompressionCodec::Snappy, &snappy).is_err());
    let beyond = [0xff, 0xff, 0xff, 0xff, 0x7f];
    assert!(decompress(CompressionCodec::Snappy, &beyond).is_err());
}

#[test]
fn groups_keep_the_order_of_their_entries() {
    let entry = |name: &str, operation: AclOperation| AclEntry {
        principal: "alice".to_string(),
        resource_type: ResourceType::Topic,
        resource: name.to_string(),
        operation,
        permission: AclPermission::Allow,
    };
    let groups = group_acls_by_resource(&vec![
        entry("b", AclOperation::Write),
        entry("a", AclOperation::Delete),
        entry("b", AclOperation::Read),
        entry("a", AclOperation::Alter),
    ]);
    let ops: Vec<(&str, Vec<AclOperation>)> = groups
        .iter()
        .map(|g| (g.name.as_str(), g.acls.iter().map(|e| e.operation).collect()))
        .collect();
    assert_eq!(
        ops,
        vec![
            ("a", vec![AclOperation::Delete, AclOperation::Alter]),
            ("b", vec![AclOperation::Write, AclOperation::Read]),
        ]
    );
    assert!(group_acls_by_resource(&vec![]).is_empty());
}

#[test]
fn new_sessions_have_new_ids() {
    for owner in [0u32, 3] {
        let mut sessions = FetchSessionManager::with_limits_and_owner(0, 2, owner);
        let mut seen: Vec<i32> = Vec::new();
        for i in 0..5 {
            let id = sessions.create_at(SortedMap::new(), 1_000 + i);
            assert!(id > 0 && !seen.contains(&id));
            seen.push(id);
        }
        assert_eq!(sessions.active_count(), 2);
    }
}

#[test]
fn patterns_match_whole_characters() {
    assert!(txn_id_pattern_matches("tä*", "täglich"));
    assert!(txn_id_pattern_matches("*é", "café"));
    assert!(txn_id_pattern_matches("*€*", "5€ each"));
    assert!(!txn_id_pattern_matches("*è", "café"));
    assert!(!txn_id_pattern_matches("a*é", "aè"));
}
