//! The cluster, its topics and transactions, and who may do what.

use bytes::{Buf, BufMut, Bytes, BytesMut};
use volant_kafka::acl::{
    kafka_op_to_volant, kafka_op_to_volant_filter, kafka_perm_to_volant,
    kafka_perm_to_volant_filter, kafka_principal, kafka_resource_name, kafka_rt_to_volant,
    kafka_rt_to_volant_filter, normalize_resource_name, parse_acl_creation, parse_acl_filter,
    strip_user_prefix, volant_op_to_kafka, volant_perm_to_kafka, volant_rt_to_kafka, AclEntry,
    AclFilter, AclOperation, AclPermission, ResourceType,
};
use volant_kafka::acl_api::{
    acl_failure, admin_gate, create_acls_rows, decode_create_acls, decode_delete_acls,
    decode_describe_acls, delete_acls_row, encode_create_acls, encode_delete_acls,
    encode_describe_acls, entries_to_create, filter_acl_entries, group_acls_by_resource, not_controller_message,
    AclOutcome, AdminGate, Creation, Deletion,
};
use volant_kafka::api::{supported_apis, KafkaErrorCode};
use volant_kafka::codec::{
    get_compact_array_len, get_compact_nullable_string, get_compact_string, get_nullable_string,
    get_string, get_uuid, put_compact_array_len, put_compact_nullable_string, put_compact_string,
    put_empty_tag_buffer, put_nullable_string, put_string, put_uuid, skip_tag_buffer,
};
use volant_kafka::error::Error;
use volant_kafka::glob::matches as glob_matches;
use volant_kafka::message::{LooseString, TopicOut};
use volant_kafka::metadata::{
    cluster_authorized_ops, coordinator, decode_describe_cluster, decode_metadata,
    encode_api_versions, encode_describe_cluster, encode_find_coordinator, encode_metadata,
    metadata_plan, resolve_metadata_topics, topic_authorized_ops, write_find_coordinator_error,
    write_metadata_brokers_header, write_metadata_empty, BrokerNode, ClusterOps, MetadataEntry,
    MetadataPartition, MetadataPlan, MetadataTopic, TopicOps, UnknownTopic,
};
use volant_kafka::topic_id::{
    echo_uuid, is_zero_uuid, kafka_uuid_zero, name_for_uuid, numeric_id_for_name,
    parse_volant_topic_uuid, read_and_resolve, resolve_delete_entry, resolve_metadata_entry,
    uuid_for_name, uuid_for_numeric_id, wire_id_for_name, write_wire_id, Catalog, ResolvedTopic,
    TopicWireId,
};
use volant_kafka::transactions::{
    decode_describe_producers, decode_describe_transactions, decode_list_transactions,
    describe_producers_row, describe_transaction_row, encode_describe_producers,
    encode_describe_transactions, encode_list_transactions, list_transactions,
    txn_id_pattern_matches, unknown_states, ActiveProducer, OpenTransaction, TransactionState,
};

fn catalog() -> Catalog {
    Catalog { topics: vec![("events".to_string(), 7), ("logs".to_string(), 9)] }
}

fn node(id: i32) -> BrokerNode {
    BrokerNode { id, host: format!("h{id}"), port: 9000 + id }
}

// ---------------------------------------------------------------------------
// TopicIds
// ---------------------------------------------------------------------------

#[test]
fn topic_ids_stand_for_numbers() {
    for id in [0, 1, 7, u32::MAX] {
        assert_eq!(parse_volant_topic_uuid(&uuid_for_numeric_id(id)), Some(id));
        assert!(!is_zero_uuid(&uuid_for_numeric_id(id)));
    }
    assert_eq!(parse_volant_topic_uuid(&[0x11; 16]), None);
    assert!(is_zero_uuid(&kafka_uuid_zero()));
    assert_eq!(name_for_uuid(&catalog(), &uuid_for_numeric_id(9)).as_deref(), Some("logs"));
    assert_eq!(name_for_uuid(&catalog(), &uuid_for_numeric_id(8)), None);
    assert_eq!(name_for_uuid(&catalog(), &kafka_uuid_zero()), None);
    assert_eq!(numeric_id_for_name(&catalog(), "logs"), Some(9));
    assert_eq!(uuid_for_name(&catalog(), "none"), kafka_uuid_zero());
}

#[test]
fn topics_on_the_wire() {
    let mut body = BytesMut::new();
    put_uuid(&mut body, &uuid_for_numeric_id(7));
    let t = read_and_resolve(&catalog(), &mut body.freeze(), true, true).unwrap();
    assert_eq!(t.name_or_empty(), "events");
    assert!(!t.is_unknown());
    let t = ResolvedTopic::from_uuid(&catalog(), [0x22; 16]);
    assert!(t.is_unknown());
    assert_eq!(t.name_or_empty(), "");
    assert!(!ResolvedTopic::from_name("x".to_string()).is_unknown());
    assert!(read_and_resolve(&catalog(), &mut Bytes::new(), true, true).is_err());
    let mut out = BytesMut::new();
    write_wire_id(&mut out, true, &wire_id_for_name(&catalog(), "events", false));
    assert_eq!(get_compact_string(&mut out.freeze()).unwrap(), "events");
    let mut out = BytesMut::new();
    write_wire_id(&mut out, true, &wire_id_for_name(&catalog(), "events", true));
    assert_eq!(get_uuid(&mut out.freeze()).unwrap(), uuid_for_numeric_id(7));
    assert!(matches!(wire_id_for_name(&catalog(), "e", false), TopicWireId::Name(n) if n == "e"));
}

#[test]
fn metadata_and_delete_entries() {
    let e = resolve_metadata_entry(&catalog(), kafka_uuid_zero(), Some("x".into()), true).unwrap();
    assert_eq!((e.name.as_deref(), e.unknown_id), (Some("x"), false));
    assert!(resolve_metadata_entry(&catalog(), kafka_uuid_zero(), None, true).is_none());
    let e = resolve_metadata_entry(&catalog(), uuid_for_numeric_id(9), None, true).unwrap();
    assert_eq!(e.name.as_deref(), Some("logs"));
    let e = resolve_metadata_entry(&catalog(), uuid_for_numeric_id(3), None, true).unwrap();
    assert!(e.unknown_id);
    let d = resolve_delete_entry(&catalog(), None, uuid_for_numeric_id(7));
    assert_eq!(d.resolved_name.as_deref(), Some("events"));
    assert_eq!(d.numeric_id, Some(7));
    let d = resolve_delete_entry(&catalog(), None, uuid_for_numeric_id(3));
    assert!(d.unknown_topic_id);
    assert_eq!(echo_uuid([1; 16], Some(7)), [1; 16]);
    assert_eq!(echo_uuid(kafka_uuid_zero(), Some(7)), uuid_for_numeric_id(7));
    assert_eq!(echo_uuid(kafka_uuid_zero(), None), kafka_uuid_zero());
}

// ---------------------------------------------------------------------------
// ApiVersions, Metadata, DescribeCluster, FindCoordinator
// ---------------------------------------------------------------------------

#[test]
fn api_versions_tell_what_is_served() {
    let mut out = BytesMut::new();
    encode_api_versions(&mut out, 0);
    let mut resp = out.freeze();
    assert_eq!(resp.get_i16(), 0);
    let served = supported_apis();
    assert_eq!(resp.get_i32() as usize, served.len());
    for (key, low, high) in served {
        assert_eq!((resp.get_i16(), resp.get_i16(), resp.get_i16()), (key.as_i16(), low, high));
    }
    assert_eq!(resp.remaining(), 0);
    let mut out = BytesMut::new();
    encode_api_versions(&mut out, 3);
    let mut resp = out.freeze();
    assert_eq!(resp.get_i16(), 0);
    assert_eq!(
        get_compact_array_len(&mut resp).unwrap(),
        Some(supported_apis().len())
    );
}

#[test]
fn operations_are_told_as_bits() {
    let none = TopicOps {
        read: false,
        write: false,
        create: false,
        delete: false,
        alter: false,
        describe: false,
    };
    assert_eq!(topic_authorized_ops(true, none), 0);
    assert_eq!(topic_authorized_ops(false, none), i32::MIN);
    let some = TopicOps { read: true, describe: true, ..none };
    assert_eq!(topic_authorized_ops(true, some), (1 << 3) | (1 << 8));
    let ops = ClusterOps { create: true, alter: false, describe: false, cluster_action: true };
    assert_eq!(cluster_authorized_ops(true, ops), (1 << 5) | (1 << 9));
}

#[test]
fn metadata_request_and_plan() {
    let mut body = BytesMut::new();
    put_compact_array_len(&mut body, 2);
    put_uuid(&mut body, &uuid_for_numeric_id(7));
    put_compact_nullable_string(&mut body, None);
    put_empty_tag_buffer(&mut body);
    put_uuid(&mut body, &[0x99; 16]);
    put_compact_nullable_string(&mut body, None);
    put_empty_tag_buffer(&mut body);
    body.put_u8(1);
    body.put_u8(1);
    put_empty_tag_buffer(&mut body);
    let req = decode_metadata(&mut body.freeze(), 12);
    assert!(req.include_topic_ops);
    assert!(!req.include_cluster_ops);
    match metadata_plan(&catalog(), 12, &req.topics, true) {
        MetadataPlan::Listed(names, unknown) => {
            assert_eq!(names, vec!["events".to_string()]);
            assert_eq!(unknown[0].uuid, [0x99; 16]);
        }
        _ => panic!("topics were listed"),
    }
    assert!(matches!(metadata_plan(&catalog(), 12, &None, true), MetadataPlan::All));
    assert!(matches!(metadata_plan(&catalog(), 12, &None, false), MetadataPlan::Denied));
    let all = decode_metadata(&mut Bytes::from_static(&[0, 0, 0, 0]), 0);
    assert!(all.topics.is_none());
    let entries = vec![MetadataEntry { uuid: kafka_uuid_zero(), name: Some("a".to_string()) }];
    let (names, unknown) = resolve_metadata_topics(&catalog(), 1, &entries);
    assert_eq!(names, vec!["a".to_string()]);
    assert!(unknown.is_empty());
}

#[test]
fn metadata_response_v1() {
    let topics = vec![MetadataTopic {
        name: "events".to_string(),
        topic_id: 7,
        partitions: vec![MetadataPartition {
            partition: 0,
            leader: 1,
            replicas: vec![1, 2],
            isr: vec![1],
        }],
        ops: 0,
    }];
    let mut out = BytesMut::new();
    encode_metadata(&mut out, 1, 1, &vec![node(1)], &topics, &vec![], 0);
    let mut resp = out.freeze();
    assert_eq!(resp.get_i32(), 1);
    assert_eq!(resp.get_i32(), 1);
    assert_eq!(get_string(&mut resp).unwrap(), "h1");
    assert_eq!(resp.get_i32(), 9001);
    assert_eq!(get_nullable_string(&mut resp).unwrap(), None);
    assert_eq!(resp.get_i32(), 1);
    assert_eq!(resp.get_i32(), 1);
    assert_eq!(resp.get_i16(), 0);
    assert_eq!(get_string(&mut resp).unwrap(), "events");
    assert_eq!(resp.get_u8(), 0);
    assert_eq!(resp.get_i32(), 1);
    assert_eq!((resp.get_i16(), resp.get_i32(), resp.get_i32()), (0, 0, 1));
    assert_eq!((resp.get_i32(), resp.get_i32(), resp.get_i32()), (2, 1, 2));
    assert_eq!((resp.get_i32(), resp.get_i32()), (1, 1));
    assert_eq!(resp.remaining(), 0);
    let mut head = BytesMut::new();
    write_metadata_brokers_header(&mut head, 0, 1, &vec![node(1)]);
    assert_eq!(head.len(), 4 + 4 + 2 + 2 + 4);
    let mut none = BytesMut::new();
    write_metadata_empty(&mut none, 0, false);
    assert_eq!(&none[..], &[0; 8]);
    let mut with_unknown = BytesMut::new();
    let unknown = vec![UnknownTopic { uuid: [0x99; 16] }];
    encode_metadata(&mut with_unknown, 12, 1, &vec![], &vec![], &unknown, 0);
    assert!(with_unknown.windows(16).any(|w| w == [0x99; 16]));
}

#[test]
fn describe_cluster_round() {
    let req = decode_describe_cluster(&mut Bytes::from_static(&[1, 2, 0]), 1);
    assert_eq!((req.include_ops, req.endpoint_type), (true, 2));
    let req = decode_describe_cluster(&mut Bytes::new(), 0);
    assert_eq!((req.include_ops, req.endpoint_type), (false, 1));
    let code = |endpoint: i8, allowed: bool| {
        let mut out = BytesMut::new();
        encode_describe_cluster(&mut out, 1, endpoint, allowed, 1, &vec![node(1)], 0);
        let mut resp = out.freeze();
        resp.advance(4);
        resp.get_i16()
    };
    assert_eq!(code(1, true), 0);
    assert_eq!(code(2, true), KafkaErrorCode::UnsupportedEndpointType.as_i16());
    assert_eq!(code(1, false), KafkaErrorCode::ClusterAuthorizationFailed.as_i16());
}

#[test]
fn the_coordinator_is_the_first_broker() {
    let own = node(5);
    assert_eq!(coordinator(&vec![node(1), node(2)], &own).id, 1);
    assert_eq!(coordinator(&vec![], &own).id, 5);
    let mut body = BytesMut::new();
    put_string(&mut body, "g");
    let mut out = BytesMut::new();
    encode_find_coordinator(&mut body.freeze(), &mut out, 0, &node(1));
    let mut resp = out.freeze();
    assert_eq!(resp.get_i16(), 0);
    assert_eq!(resp.get_i32(), 1);
    assert_eq!(get_string(&mut resp).unwrap(), "h1");
    assert_eq!(resp.get_i32(), 9001);

    let mut body = BytesMut::new();
    body.put_i8(0);
    put_compact_array_len(&mut body, 2);
    put_compact_string(&mut body, "g");
    put_compact_string(&mut body, "h");
    put_empty_tag_buffer(&mut body);
    let mut out = BytesMut::new();
    encode_find_coordinator(&mut body.freeze(), &mut out, 4, &node(2));
    let mut resp = out.freeze();
    assert_eq!(resp.get_i32(), 0);
    assert_eq!(get_compact_array_len(&mut resp).unwrap(), Some(2));
    assert_eq!(get_compact_string(&mut resp).unwrap(), "g");
    assert_eq!(resp.get_i32(), 2);

    let answer = |body: &'static [u8]| {
        let mut out = BytesMut::new();
        encode_find_coordinator(&mut Bytes::from_static(body), &mut out, 4, &node(2));
        out.freeze()
    };
    let mut resp = answer(&[2, 2, 2, b'g', 0]);
    assert_eq!(resp.get_i32(), 0);
    assert_eq!(get_compact_array_len(&mut resp).unwrap(), Some(1));
    assert_eq!(get_compact_string(&mut resp).unwrap(), "g");
    assert_eq!(resp.get_i32(), -1);
    assert_eq!(get_compact_string(&mut resp).unwrap(), "");
    assert_eq!(resp.get_i32(), -1);
    assert_eq!(resp.get_i16(), KafkaErrorCode::InvalidRequest.as_i16());
    assert_eq!(
        get_compact_nullable_string(&mut resp).unwrap().as_deref(),
        Some("unsupported key_type")
    );
    assert_eq!(&resp[..], &[0, 0]);
    assert_eq!(&answer(&[])[..], &[0, 0, 0, 0, 1, 0]);

    let mut out = BytesMut::new();
    write_find_coordinator_error(&mut out, 0, KafkaErrorCode::InvalidRequest, None);
    assert_eq!(out.freeze().get_i16(), KafkaErrorCode::InvalidRequest.as_i16());
}

// ---------------------------------------------------------------------------
// Transactions
// ---------------------------------------------------------------------------

#[test]
fn patterns_of_transactional_ids() {
    assert!(txn_id_pattern_matches("", "anything"));
    assert!(txn_id_pattern_matches("tx-*", "tx-"));
    assert!(txn_id_pattern_matches("*b*d", "abcd"));
    assert!(!txn_id_pattern_matches("a.c", "abc"));
    assert!(!txn_id_pattern_matches("a*b", "abc"));
    assert!(glob_matches(b"**", b""));
    assert!(!glob_matches(b"", b"x"));
}

fn open(id: &str, producer_id: u64, state: &str) -> OpenTransaction {
    OpenTransaction { id: id.to_string(), producer_id, state: state.to_string() }
}

#[test]
fn transactions_are_listed_by_what_is_asked() {
    let mut body = BytesMut::new();
    put_compact_array_len(&mut body, 2);
    put_compact_string(&mut body, "Ongoing");
    put_compact_string(&mut body, "Odd");
    put_compact_array_len(&mut body, 1);
    body.put_i64(4);
    body.put_i64(-1);
    put_compact_nullable_string(&mut body, Some("tx-*"));
    put_empty_tag_buffer(&mut body);
    let q = decode_list_transactions(&mut body.freeze(), 2);
    assert_eq!(q.pattern.as_deref(), Some("tx-*"));
    let all = vec![
        open("tx-1", 4, "Ongoing"),
        open("ty-1", 4, "Ongoing"),
        open("tx-2", 5, "Ongoing"),
        open("tx-3", 4, "Empty"),
    ];
    let listed = list_transactions(&q, all);
    assert_eq!(listed.len(), 1);
    assert_eq!(listed[0].id, "tx-1");
    let odd = unknown_states(q.states);
    assert_eq!(odd.len(), 1);
    assert_eq!(odd[0].text, "Odd");
    let mut out = BytesMut::new();
    encode_list_transactions(&mut out, 2, 0, &odd, &listed);
    let mut resp = out.freeze();
    assert_eq!((resp.get_i32(), resp.get_i16()), (0, 0));
    assert_eq!(get_compact_array_len(&mut resp).unwrap(), Some(1));
    assert_eq!(get_compact_string(&mut resp).unwrap(), "Odd");
    assert_eq!(get_compact_array_len(&mut resp).unwrap(), Some(1));
    assert_eq!(get_compact_string(&mut resp).unwrap(), "tx-1");
    assert_eq!(resp.get_i64(), 4);
    assert_eq!(get_compact_string(&mut resp).unwrap(), "Ongoing");
    assert!(unknown_states(vec![LooseString { text: "Dead".to_string() }]).is_empty());
}

fn state() -> TransactionState {
    TransactionState {
        state: "Ongoing".to_string(),
        timeout_ms: 60_000,
        start_ms: 5,
        producer_id: 4,
        epoch: 2,
        topics: vec![TopicOut { name: "events".to_string(), rows: vec![0, 1] }],
    }
}

#[test]
fn transactions_are_described() {
    let mut body = BytesMut::new();
    put_compact_array_len(&mut body, 1);
    put_compact_string(&mut body, "tx");
    put_empty_tag_buffer(&mut body);
    let ids = decode_describe_transactions(&mut body.freeze());
    assert_eq!(ids[0].text, "tx");
    let found = describe_transaction_row("tx".to_string(), true, Some(state()));
    assert_eq!(found.error, 0);
    let gone = describe_transaction_row("tx".to_string(), true, None);
    assert_eq!(gone.error, KafkaErrorCode::TransactionalIdNotFound.as_i16());
    let denied = describe_transaction_row("tx".to_string(), false, Some(state()));
    assert_ne!(denied.error, 0);
    assert!(denied.found.is_none());
    let mut out = BytesMut::new();
    encode_describe_transactions(&mut out, &vec![found]);
    let mut resp = out.freeze();
    assert_eq!(resp.get_i32(), 0);
    assert_eq!(get_compact_array_len(&mut resp).unwrap(), Some(1));
    assert_eq!(resp.get_i16(), 0);
    assert_eq!(get_compact_string(&mut resp).unwrap(), "tx");
    assert_eq!(get_compact_string(&mut resp).unwrap(), "Ongoing");
    assert_eq!((resp.get_i32(), resp.get_i64(), resp.get_i64(), resp.get_i16()), (60_000, 5, 4, 2));
    assert_eq!(get_compact_array_len(&mut resp).unwrap(), Some(1));
    assert_eq!(get_compact_string(&mut resp).unwrap(), "events");
}

#[test]
fn producers_are_described() {
    let mut body = BytesMut::new();
    put_compact_array_len(&mut body, 1);
    put_compact_string(&mut body, "events");
    put_compact_array_len(&mut body, 1);
    body.put_i32(3);
    put_empty_tag_buffer(&mut body);
    put_empty_tag_buffer(&mut body);
    let topics = decode_describe_producers(&mut body.freeze());
    assert_eq!(topics[0].parts, vec![3]);
    let active = ActiveProducer {
        producer_id: 4,
        epoch: 2,
        last_sequence: 8,
        last_timestamp: 9,
        coordinator_epoch: -1,
        txn_start_offset: -1,
    };
    let row = describe_producers_row(3, true, Some(vec![active]));
    assert_eq!((row.error, row.active.len()), (0, 1));
    assert_eq!(
        describe_producers_row(3, true, None).error,
        KafkaErrorCode::UnknownTopicOrPartition.as_i16()
    );
    assert_eq!(
        describe_producers_row(3, false, None).error,
        KafkaErrorCode::TopicAuthorizationFailed.as_i16()
    );
    let mut out = BytesMut::new();
    encode_describe_producers(
        &mut out,
        &vec![TopicOut { name: "events".to_string(), rows: vec![row] }],
    );
    let mut resp = out.freeze();
    assert_eq!(resp.get_i32(), 0);
    assert_eq!(get_compact_array_len(&mut resp).unwrap(), Some(1));
    assert_eq!(get_compact_string(&mut resp).unwrap(), "events");
    assert_eq!(get_compact_array_len(&mut resp).unwrap(), Some(1));
    assert_eq!((resp.get_i32(), resp.get_i16()), (3, 0));
    assert_eq!(get_compact_nullable_string(&mut resp).unwrap(), None);
    assert_eq!(get_compact_array_len(&mut resp).unwrap(), Some(1));
    assert_eq!((resp.get_i64(), resp.get_i32(), resp.get_i32()), (4, 2, 8));
}

// ---------------------------------------------------------------------------
// Access control
// ---------------------------------------------------------------------------

#[test]
fn numbers_of_access_control() {
    for rt in [ResourceType::Topic, ResourceType::Group, ResourceType::Cluster, ResourceType::User]
    {
        assert_eq!(kafka_rt_to_volant(volant_rt_to_kafka(rt), 3), Ok(rt));
    }
    assert!(kafka_rt_to_volant(7, 2).is_err());
    assert_eq!(kafka_rt_to_volant(5, 3).unwrap_err(), "unsupported resource type 5");
    assert_eq!(kafka_rt_to_volant_filter(1, 3), Ok(None));
    for n in 2..=9 {
        assert_eq!(volant_op_to_kafka(kafka_op_to_volant(n).unwrap()), n);
    }
    assert_eq!(kafka_op_to_volant(10), Ok(AclOperation::Describe));
    assert_eq!(kafka_op_to_volant(13).unwrap_err(), "unsupported operation 13");
    assert_eq!(kafka_op_to_volant_filter(1), Ok(None));
    assert_eq!(
        kafka_perm_to_volant(volant_perm_to_kafka(AclPermission::Deny)),
        Ok(AclPermission::Deny)
    );
    assert_eq!(kafka_perm_to_volant(9).unwrap_err(), "unsupported permission type 9");
    assert_eq!(kafka_perm_to_volant_filter(1), Ok(None));
}

#[test]
fn principals_and_names() {
    assert_eq!(strip_user_prefix("User:alice"), "alice");
    assert_eq!(strip_user_prefix("alice"), "alice");
    assert_eq!(kafka_principal("alice"), "User:alice");
    assert_eq!(kafka_principal("User:alice"), "User:alice");
    assert_eq!(
        normalize_resource_name(Some(ResourceType::Cluster), "anything", "volant"),
        "volant"
    );
    assert_eq!(normalize_resource_name(None, "kafka-cluster", "volant"), "volant");
    assert_eq!(normalize_resource_name(None, "t", "volant"), "t");
    assert_eq!(kafka_resource_name(ResourceType::Cluster, "volant"), "kafka-cluster");
    assert_eq!(kafka_resource_name(ResourceType::Topic, "t"), "t");
}

fn creation_body(rt: i8, resource: &str, principal: &str, op: i8, perm: i8) -> BytesMut {
    let mut body = BytesMut::new();
    body.put_i8(rt);
    put_string(&mut body, resource);
    body.put_i8(3);
    put_string(&mut body, principal);
    put_string(&mut body, "*");
    body.put_i8(op);
    body.put_i8(perm);
    body
}

#[test]
fn creations_are_read() {
    let read = |b: BytesMut| parse_acl_creation(&mut b.freeze(), 1, false, "volant");
    let e = read(creation_body(2, "t", "User:alice", 3, 3)).unwrap();
    assert_eq!((e.principal.as_str(), e.resource.as_str()), ("alice", "t"));
    assert_eq!((e.operation, e.permission), (AclOperation::Read, AclPermission::Allow));
    assert_eq!(read(creation_body(2, "", "User:a", 3, 3)).unwrap_err(), "empty resource name");
    assert_eq!(read(creation_body(2, "t", "", 3, 3)).unwrap_err(), "empty principal");
    assert_eq!(read(BytesMut::new()).unwrap_err(), "truncated ACL creation");
    let mut prefixed = BytesMut::new();
    prefixed.put_i8(2);
    put_string(&mut prefixed, "t");
    prefixed.put_i8(4);
    assert_eq!(read(prefixed).unwrap_err(), "unsupported pattern type 4 (only LITERAL)");
}

fn filter_body(op: i8) -> BytesMut {
    let mut body = BytesMut::new();
    body.put_i8(2);
    put_nullable_string(&mut body, Some("t"));
    body.put_i8(3);
    put_nullable_string(&mut body, None);
    put_nullable_string(&mut body, None);
    body.put_i8(op);
    body.put_i8(1);
    body
}

fn entry(rt: ResourceType, resource: &str, operation: AclOperation) -> AclEntry {
    AclEntry {
        principal: "alice".to_string(),
        resource_type: rt,
        resource: resource.to_string(),
        operation,
        permission: AclPermission::Allow,
    }
}

#[test]
fn filters_are_read_and_applied() {
    let f = parse_acl_filter(&mut filter_body(3).freeze(), 1, false, "volant").unwrap();
    assert_eq!(f.resource_type, Some(ResourceType::Topic));
    assert_eq!(f.resource_name.as_deref(), Some("t"));
    assert_eq!((f.operation, f.permission), (Some(AclOperation::Read), None));
    let all = vec![
        entry(ResourceType::Topic, "t", AclOperation::Read),
        entry(ResourceType::Topic, "t", AclOperation::Write),
    ];
    let kept = filter_acl_entries(&all, &f);
    assert_eq!(kept.len(), 1);
    assert_eq!(kept[0].operation, AclOperation::Read);
    let any = AclFilter {
        resource_type: None,
        resource_name: None,
        principal: None,
        operation: None,
        permission: None,
    };
    assert_eq!(filter_acl_entries(&all, &any).len(), 2);
}

#[test]
fn entries_are_grouped_by_resource() {
    let groups = group_acls_by_resource(&vec![
        entry(ResourceType::Group, "g", AclOperation::Read),
        entry(ResourceType::Topic, "b", AclOperation::Read),
        entry(ResourceType::Topic, "a", AclOperation::Read),
        entry(ResourceType::Topic, "b", AclOperation::Write),
    ]);
    let names: Vec<(i8, &str, usize)> =
        groups.iter().map(|g| (g.resource_type, g.name.as_str(), g.acls.len())).collect();
    assert_eq!(names, vec![(2, "a", 1), (2, "b", 2), (3, "g", 1)]);
    let mut out = BytesMut::new();
    encode_describe_acls(&mut out, 1, 0, None, &groups);
    let mut resp = out.freeze();
    assert_eq!((resp.get_i32(), resp.get_i16()), (0, 0));
    assert_eq!(get_nullable_string(&mut resp).unwrap(), None);
    assert_eq!(resp.get_i32(), 3);
    assert_eq!(resp.get_i8(), 2);
    assert_eq!(get_string(&mut resp).unwrap(), "a");
    let denied = decode_describe_acls(&mut Bytes::new(), 1, false, "volant").unwrap_err();
    assert_eq!(denied.0, KafkaErrorCode::ClusterAuthorizationFailed.as_i16());
    let broken = decode_describe_acls(&mut Bytes::new(), 1, true, "volant").unwrap_err();
    assert_eq!(
        broken,
        (KafkaErrorCode::InvalidRequest.as_i16(), "truncated ACL filter".to_string())
    );
}

#[test]
fn entries_are_created() {
    let mut body = BytesMut::new();
    body.put_i32(2);
    body.extend_from_slice(&creation_body(2, "t", "User:alice", 3, 3));
    body.extend_from_slice(&creation_body(2, "t", "User:alice", 13, 3));
    let items = decode_create_acls(&mut body.freeze(), 1, "volant").unwrap();
    assert_eq!(items.len(), 2);
    assert!(matches!(&items[1], Creation::Invalid(m) if m == "unsupported operation 13"));
    assert_eq!(entries_to_create(&items).len(), 1);
    let codes = |gate: AdminGate, outcome: AclOutcome| -> Vec<i16> {
        create_acls_rows(&items, gate, &outcome).iter().map(|r| r.error).collect()
    };
    let invalid = KafkaErrorCode::InvalidRequest.as_i16();
    assert_eq!(codes(AdminGate::Open, AclOutcome::Stored), vec![0, invalid]);
    assert_eq!(
        codes(AdminGate::Open, AclOutcome::Failed),
        vec![KafkaErrorCode::Unknown.as_i16(), invalid]
    );
    let denied = KafkaErrorCode::ClusterAuthorizationFailed.as_i16();
    assert_eq!(codes(AdminGate::Denied, AclOutcome::Stored), vec![denied, denied]);
    let elsewhere = KafkaErrorCode::NotController.as_i16();
    assert_eq!(
        codes(AdminGate::NotController(4), AclOutcome::Stored),
        vec![elsewhere, elsewhere]
    );
    assert_eq!(not_controller_message(4), "not controller; controller_id=4");
    assert!(matches!(acl_failure(&Error::Other("io".to_string())), AclOutcome::Failed));
    let mut out = BytesMut::new();
    encode_create_acls(&mut out, 1, &create_acls_rows(&items, AdminGate::Open, &AclOutcome::Stored));
    let mut resp = out.freeze();
    assert_eq!((resp.get_i32(), resp.get_i32(), resp.get_i16()), (0, 2, 0));
    assert!(decode_create_acls(&mut Bytes::new(), 1, "volant").is_none());
}

#[test]
fn entries_are_deleted() {
    let mut body = BytesMut::new();
    body.put_i32(1);
    body.extend_from_slice(&filter_body(1));
    let items = decode_delete_acls(&mut body.freeze(), 1, "volant").unwrap();
    assert!(matches!(&items[0], Deletion::Filter(_)));
    let matched = vec![entry(ResourceType::Topic, "t", AclOperation::Read)];
    let row = delete_acls_row(&items[0], AdminGate::Open, &matched, &AclOutcome::Stored);
    assert_eq!((row.error, row.matched.len()), (0, 1));
    let failed = delete_acls_row(&items[0], AdminGate::Open, &matched, &AclOutcome::Failed);
    assert_eq!(failed.error, KafkaErrorCode::Unknown.as_i16());
    assert_eq!(failed.message.as_deref(), Some("failed to delete ACLs"));
    assert!(failed.matched.is_empty());
    let bad = Deletion::Invalid("truncated ACL filter".to_string());
    assert_eq!(
        delete_acls_row(&bad, AdminGate::Open, &vec![], &AclOutcome::Stored).error,
        KafkaErrorCode::InvalidRequest.as_i16()
    );
    let mut out = BytesMut::new();
    encode_delete_acls(&mut out, 2, &vec![row]);
    let mut resp = out.freeze();
    assert_eq!(resp.get_i32(), 0);
    assert_eq!(get_compact_array_len(&mut resp).unwrap(), Some(1));
    assert_eq!(resp.get_i16(), 0);
    assert_eq!(get_compact_nullable_string(&mut resp).unwrap(), None);
    assert_eq!(get_compact_array_len(&mut resp).unwrap(), Some(1));
    assert_eq!(resp.get_i16(), 0);
    assert_eq!(get_compact_nullable_string(&mut resp).unwrap(), None);
    assert_eq!(resp.get_i8(), 2);
    assert_eq!(get_compact_string(&mut resp).unwrap(), "t");
    assert_eq!(resp.get_i8(), 3);
    assert_eq!(get_compact_string(&mut resp).unwrap(), "User:alice");
    assert_eq!(get_compact_string(&mut resp).unwrap(), "*");
    assert_eq!((resp.get_i8(), resp.get_i8()), (3, 3));
    skip_tag_buffer(&mut resp).unwrap();
}

#[test]
fn the_controller_is_asked_before_the_client() {
    assert!(admin_gate(Some(3), false) == AdminGate::NotController(3));
    assert!(admin_gate(Some(3), true) == AdminGate::NotController(3));
    assert!(admin_gate(None, false) == AdminGate::Denied);
    assert!(admin_gate(None, true) == AdminGate::Open);
}
