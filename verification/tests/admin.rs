//! Topics, settings, credentials, quotas and log directories.

use bytes::{Buf, BufMut, Bytes, BytesMut};
use volant_kafka::admin::{Majority, Verdict};
use volant_kafka::api::KafkaErrorCode;
use volant_kafka::cluster_admin::{
    encode_alter_client_quotas, encode_describe_client_quotas, log_dir_error,
    parse_alter_client_quotas_request, parse_describe_log_dirs_topics, quota_rows, visible_topics,
    write_describe_log_dirs, LogDirRow,
};
use volant_kafka::codec::{
    get_compact_array_len, get_compact_nullable_string, get_compact_string, get_nullable_string,
    get_string, get_uuid, put_compact_array_len, put_compact_bytes, put_compact_nullable_string,
    put_compact_string, put_empty_tag_buffer, put_nullable_string, put_string, put_uuid,
    skip_tag_buffer,
};
use volant_kafka::configs::{
    after_broker_alter, after_lookup, after_topic_alter, after_validation, alter_step,
    broker_resource_name_matches, config_documentation, config_rows, config_type_for_key,
    decode_alter_configs, decode_describe_configs, decode_incremental_alter_configs,
    described_resource, encode_alter_configs, encode_describe_configs,
    encode_incremental_alter_configs, invalid_broker_resource_name_msg, op_entries,
    refuse_describe, unsupported_config_resource_msg, AlterStep, AlteredRow, ConfigOp,
    ConfigResource, Setting, CFG_SRC_DEFAULT, CFG_SRC_DYNAMIC_BROKER, CFG_SRC_TOPIC,
    CFG_TYPE_LONG, CFG_TYPE_STRING, RES_BROKER, RES_TOPIC,
};
use volant_kafka::credentials::{
    after_scram_changes, decode_alter_user_scram_credentials,
    decode_describe_user_scram_credentials, encode_alter_user_scram_credentials,
    encode_describe_user_scram_credentials, kafka_scram_hash, scram_changes, scram_denied,
    scram_hash_to_kafka, scram_problem, scram_user, scram_users, AlterScram, HeldMechanisms,
    ScramChange, ScramDeletion, ScramHash, ScramInfo, ScramUpsertion,
};
use volant_kafka::error::Error;
use volant_kafka::message::TopicOut;
use volant_kafka::topic_admin::{
    after_creation, after_deletion, after_growth, decode_create_partitions, decode_create_topics,
    decode_delete_topics, deleted_topic, doomed_name, encode_create_partitions,
    encode_create_topics, encode_delete_topics, partitions_wished, put_unsigned_varint_null_array,
    refuse_creation, refuse_growth, NamedVerdict, NewTopic, TopicDeletion,
};
use volant_kafka::topic_id::{kafka_uuid_zero, uuid_for_numeric_id, Catalog};

fn catalog() -> Catalog {
    Catalog { topics: vec![("events".to_string(), 7)] }
}

fn told(v: Verdict) -> (i16, Option<String>) {
    (v.error, v.message)
}

fn says(code: KafkaErrorCode, text: &str) -> (i16, Option<String>) {
    (code.as_i16(), Some(text.to_string()))
}

// ---------------------------------------------------------------------------
// CreateTopics, DeleteTopics, CreatePartitions
// ---------------------------------------------------------------------------

#[test]
fn create_topics_v7_round() {
    let mut body = BytesMut::new();
    put_compact_array_len(&mut body, 1);
    put_compact_string(&mut body, "new");
    body.put_i32(-1);
    body.put_i16(1);
    put_compact_array_len(&mut body, 0);
    put_compact_array_len(&mut body, 1);
    put_compact_string(&mut body, "retention.ms");
    put_compact_nullable_string(&mut body, Some("1000"));
    put_empty_tag_buffer(&mut body);
    put_empty_tag_buffer(&mut body);
    body.put_i32(30_000);
    body.put_u8(1);
    put_empty_tag_buffer(&mut body);
    let (topics, validate) = decode_create_topics(&mut body.freeze(), 7);
    assert!(validate);
    assert_eq!(topics.len(), 1);
    assert_eq!(topics[0].name, "new");
    assert_eq!(topics[0].configs[0].key, "retention.ms");
    assert_eq!(topics[0].configs[0].value, "1000");
    let checked = refuse_creation(&topics[0], 7, true, false, true).unwrap();
    assert_eq!((checked.verdict.error, checked.partitions, checked.replication), (0, 1, 1));
    assert_eq!(checked.numeric_id, None);
    assert!(refuse_creation(&topics[0], 7, true, false, false).is_none());

    let made = after_creation("new".to_string(), 1, Ok((9, Majority::Reached)));
    let mut out = BytesMut::new();
    encode_create_topics(&mut out, 7, &vec![made]);
    let mut resp = out.freeze();
    assert_eq!(resp.get_i32(), 0);
    assert_eq!(get_compact_array_len(&mut resp).unwrap(), Some(1));
    assert_eq!(get_compact_string(&mut resp).unwrap(), "new");
    assert_eq!(get_uuid(&mut resp).unwrap(), uuid_for_numeric_id(9));
    assert_eq!(resp.get_i16(), 0);
    assert_eq!(get_compact_nullable_string(&mut resp).unwrap(), None);
    assert_eq!(resp.get_i32(), 1);
    assert_eq!(resp.get_i16(), 1);
    assert_eq!(resp.get_u8(), 0);
    skip_tag_buffer(&mut resp).unwrap();
    skip_tag_buffer(&mut resp).unwrap();
    assert_eq!(resp.remaining(), 0);
}

#[test]
fn creation_refusals() {
    let topic = |partitions: i32| NewTopic { name: "t".to_string(), partitions, configs: vec![] };
    let code = |partitions: i32, version: i16, allowed: bool, exists: bool| {
        told(refuse_creation(&topic(partitions), version, allowed, exists, false).unwrap().verdict)
    };
    assert_eq!(
        code(1, 5, false, false),
        says(KafkaErrorCode::TopicAuthorizationFailed, "topic authorization failed")
    );
    assert_eq!(
        code(0, 5, true, false),
        says(KafkaErrorCode::InvalidPartitions, "invalid partition count")
    );
    assert_eq!(
        code(-1, 3, true, false),
        says(KafkaErrorCode::InvalidPartitions, "invalid partition count")
    );
    assert_eq!(
        code(1, 5, true, true),
        says(KafkaErrorCode::TopicAlreadyExists, "topic already exists")
    );
    assert_eq!(partitions_wished(4, -1), Some(1));
    assert_eq!(partitions_wished(0, 12), Some(12));
    assert_eq!(partitions_wished(7, -2), None);
}

#[test]
fn creation_failures() {
    let failed = |e: Error| after_creation("t".to_string(), 1, Err(e));
    assert_eq!(
        told(failed(Error::InvalidArgument("topic t already exists".to_string())).verdict),
        says(KafkaErrorCode::TopicAlreadyExists, "topic already exists")
    );
    assert_eq!(
        told(failed(Error::InvalidArgument("bad name".to_string())).verdict),
        says(KafkaErrorCode::InvalidTopicException, "bad name")
    );
    let other = failed(Error::Other("io".to_string()));
    assert_eq!(other.partitions, -1);
    assert_eq!(told(other.verdict), (KafkaErrorCode::Unknown.as_i16(), None));
    let missed = after_creation("t".to_string(), 1, Ok((9, Majority::Missed)));
    assert_eq!(missed.numeric_id, None);
    assert_eq!(
        told(missed.verdict),
        says(KafkaErrorCode::NotEnoughReplicas, "assignment consensus majority failed")
    );
}

#[test]
fn null_array_is_one_zero_byte() {
    let mut out = BytesMut::new();
    put_unsigned_varint_null_array(&mut out);
    assert_eq!(&out[..], &[0]);
}

#[test]
fn delete_topics_v6_by_id() {
    let mut body = BytesMut::new();
    put_compact_array_len(&mut body, 2);
    put_compact_nullable_string(&mut body, None);
    put_uuid(&mut body, &uuid_for_numeric_id(7));
    put_empty_tag_buffer(&mut body);
    put_compact_nullable_string(&mut body, None);
    put_uuid(&mut body, &uuid_for_numeric_id(8));
    put_empty_tag_buffer(&mut body);
    body.put_i32(1_000);
    put_empty_tag_buffer(&mut body);
    let doomed = decode_delete_topics(&mut body.freeze(), 6);
    assert_eq!(doomed_name(&catalog(), &doomed[0]).as_deref(), Some("events"));
    assert_eq!(doomed_name(&catalog(), &doomed[1]), None);
    let rows: Vec<_> = doomed
        .into_iter()
        .map(|t| deleted_topic(&catalog(), t, TopicDeletion::Deleted(Majority::Reached)))
        .collect();
    assert_eq!(rows[0].name.as_deref(), Some("events"));
    assert_eq!(rows[0].verdict.error, 0);
    assert_eq!(rows[1].verdict.error, KafkaErrorCode::UnknownTopicId.as_i16());
    let mut out = BytesMut::new();
    encode_delete_topics(&mut out, 6, &rows);
    let mut resp = out.freeze();
    assert_eq!(resp.get_i32(), 0);
    assert_eq!(get_compact_array_len(&mut resp).unwrap(), Some(2));
    assert_eq!(get_compact_nullable_string(&mut resp).unwrap().as_deref(), Some("events"));
    assert_eq!(get_uuid(&mut resp).unwrap(), uuid_for_numeric_id(7));
    assert_eq!(resp.get_i16(), 0);
}

#[test]
fn delete_topics_errors() {
    let body = || {
        let mut body = BytesMut::new();
        body.put_i32(1);
        put_string(&mut body, "events");
        body.freeze()
    };
    let code = |d: TopicDeletion| {
        let t = decode_delete_topics(&mut body(), 0).into_iter().next().unwrap();
        assert_eq!(t.uuid, kafka_uuid_zero());
        deleted_topic(&catalog(), t, d).verdict.error
    };
    assert_eq!(
        code(TopicDeletion::Denied),
        KafkaErrorCode::TopicAuthorizationFailed.as_i16()
    );
    assert_eq!(
        code(TopicDeletion::NotFound),
        KafkaErrorCode::UnknownTopicOrPartition.as_i16()
    );
    assert_eq!(code(TopicDeletion::Failed), KafkaErrorCode::Unknown.as_i16());
    assert_eq!(
        code(TopicDeletion::Deleted(Majority::Missed)),
        KafkaErrorCode::NotEnoughReplicas.as_i16()
    );
}

#[test]
fn partitions_only_grow() {
    let code = |count: i32, allowed: bool, validate: bool, current: Option<usize>| {
        refuse_growth(count, allowed, validate, current).map(told)
    };
    assert_eq!(
        code(3, false, false, Some(1)),
        Some(says(KafkaErrorCode::TopicAuthorizationFailed, "topic authorization failed"))
    );
    assert_eq!(
        code(0, true, false, Some(1)),
        Some(says(KafkaErrorCode::InvalidPartitions, "invalid partition count"))
    );
    assert_eq!(
        code(3, true, true, None),
        Some(says(KafkaErrorCode::UnknownTopicOrPartition, "topic not found"))
    );
    assert_eq!(
        code(3, true, true, Some(4)),
        Some(says(KafkaErrorCode::InvalidPartitions, "partition count must not decrease"))
    );
    assert_eq!(code(3, true, true, Some(3)), Some((0, None)));
    assert_eq!(code(3, true, false, Some(4)), None);
    assert_eq!(
        told(after_growth(Err(Error::NotFound("t".to_string())))),
        says(KafkaErrorCode::UnknownTopicOrPartition, "topic not found")
    );
    assert_eq!(
        told(after_growth(Err(Error::InvalidArgument("shrinks".to_string())))),
        says(KafkaErrorCode::InvalidPartitions, "shrinks")
    );
    let mut body = BytesMut::new();
    body.put_i32(1);
    put_string(&mut body, "events");
    body.put_i32(4);
    body.put_i32(-1);
    body.put_i32(1_000);
    body.put_u8(1);
    let (topics, validate) = decode_create_partitions(&mut body.freeze(), 0);
    assert!(validate);
    assert_eq!((topics[0].name.as_str(), topics[0].count), ("events", 4));
    let mut out = BytesMut::new();
    let rows = vec![NamedVerdict { name: "events".to_string(), verdict: Verdict::fine() }];
    encode_create_partitions(&mut out, 0, &rows);
    let mut resp = out.freeze();
    assert_eq!(resp.get_i32(), 0);
    assert_eq!(resp.get_i32(), 1);
    assert_eq!(get_string(&mut resp).unwrap(), "events");
    assert_eq!(resp.get_i16(), 0);
    assert_eq!(get_nullable_string(&mut resp).unwrap(), None);
}

// ---------------------------------------------------------------------------
// Settings
// ---------------------------------------------------------------------------

fn setting(key: &str, value: &str, default: &str) -> Setting {
    Setting {
        key: key.to_string(),
        value: value.to_string(),
        default: default.to_string(),
        broker_doc: None,
        of_broker: false,
    }
}

fn resource(rtype: i8, name: &str, keys: Option<&[&str]>) -> ConfigResource {
    ConfigResource {
        rtype,
        name: name.to_string(),
        keys: keys.map(|k| k.iter().map(|s| s.to_string()).collect()),
    }
}

#[test]
fn setting_types_and_documentation() {
    assert_eq!(config_type_for_key("retention.ms", false), CFG_TYPE_LONG);
    assert_eq!(config_type_for_key("cleanup.policy", false), CFG_TYPE_STRING);
    assert_eq!(config_type_for_key("anything", true), CFG_TYPE_LONG);
    assert_eq!(
        config_documentation("cleanup.policy", None).as_deref(),
        Some("delete | compact")
    );
    assert_eq!(
        config_documentation("x", Some("what x does".to_string())).as_deref(),
        Some("what x does")
    );
    assert_eq!(config_documentation("x", None), None);
}

#[test]
fn broker_resources_are_this_broker() {
    assert!(broker_resource_name_matches(3, ""));
    assert!(broker_resource_name_matches(3, "3"));
    assert!(!broker_resource_name_matches(3, "4"));
    assert!(!broker_resource_name_matches(3, "03"));
    assert_eq!(
        invalid_broker_resource_name_msg(3),
        "BROKER resource name must be empty or \"3\" (this broker's node_id)"
    );
}

#[test]
fn describe_refusals() {
    assert_eq!(
        refuse_describe(RES_BROKER, "9", 1, true).map(told),
        Some(says(KafkaErrorCode::InvalidRequest, &invalid_broker_resource_name_msg(1)))
    );
    assert_eq!(
        refuse_describe(RES_BROKER, "1", 1, false).map(told),
        Some((KafkaErrorCode::ClusterAuthorizationFailed.as_i16(), None))
    );
    assert_eq!(
        refuse_describe(RES_TOPIC, "t", 1, false).map(told),
        Some((KafkaErrorCode::TopicAuthorizationFailed.as_i16(), None))
    );
    assert_eq!(
        refuse_describe(8, "t", 1, true).map(told),
        Some(says(KafkaErrorCode::InvalidRequest, unsupported_config_resource_msg()))
    );
    assert!(refuse_describe(RES_TOPIC, "t", 1, true).is_none());
    assert_eq!(
        told(after_lookup(&Error::NotFound("t".to_string()))),
        says(KafkaErrorCode::UnknownTopicOrPartition, "topic not found")
    );
}

#[test]
fn setting_rows_by_source() {
    let topic = resource(RES_TOPIC, "t", None);
    let rows = config_rows(
        &topic,
        vec![setting("retention.ms", "", ""), setting("cleanup.policy", "compact", "")],
        true,
    );
    assert_eq!(rows.len(), 2);
    assert_eq!((rows[0].is_default, rows[0].source), (true, CFG_SRC_DEFAULT));
    assert_eq!(rows[0].value, None);
    assert_eq!((rows[1].is_default, rows[1].source), (false, CFG_SRC_TOPIC));
    assert_eq!(rows[1].value.as_deref(), Some("compact"));
    assert_eq!(rows[1].documentation.as_deref(), Some("delete | compact"));
    let broker = resource(RES_BROKER, "", Some(&["b"]));
    let rows = config_rows(&broker, vec![setting("a", "1", "1"), setting("b", "2", "2")], false);
    assert_eq!(rows.len(), 1);
    assert_eq!(rows[0].key, "b");
    assert!(rows[0].is_default);
    assert_eq!(rows[0].value.as_deref(), Some("2"));
    assert_eq!(rows[0].source, CFG_SRC_DYNAMIC_BROKER);
    assert_eq!(rows[0].documentation, None);
}

#[test]
fn describe_configs_v1_round() {
    let mut body = BytesMut::new();
    body.put_i32(1);
    body.put_i8(RES_TOPIC);
    put_string(&mut body, "events");
    body.put_i32(1);
    put_string(&mut body, "retention.ms");
    body.put_u8(0);
    let (asked, docs) = decode_describe_configs(&mut body.freeze(), 1);
    assert!(!docs);
    assert_eq!(asked[0].keys, Some(vec!["retention.ms".to_string()]));
    let settings = vec![setting("retention.ms", "5", ""), setting("segment.bytes", "6", "")];
    let row = described_resource(asked.into_iter().next().unwrap(), 1, true, Ok(settings), docs);
    let mut out = BytesMut::new();
    encode_describe_configs(&mut out, 1, &vec![row]);
    let mut resp = out.freeze();
    assert_eq!(resp.get_i32(), 0);
    assert_eq!(resp.get_i32(), 1);
    assert_eq!(resp.get_i16(), 0);
    assert_eq!(get_nullable_string(&mut resp).unwrap(), None);
    assert_eq!(resp.get_i8(), RES_TOPIC);
    assert_eq!(get_string(&mut resp).unwrap(), "events");
    assert_eq!(resp.get_i32(), 1);
    assert_eq!(get_string(&mut resp).unwrap(), "retention.ms");
    assert_eq!(get_nullable_string(&mut resp).unwrap().as_deref(), Some("5"));
    assert_eq!(resp.get_u8(), 0);
    assert_eq!(resp.get_i8(), CFG_SRC_TOPIC);
    assert_eq!(resp.get_u8(), 0);
    assert_eq!(resp.get_i32(), 0);
    assert_eq!(resp.remaining(), 0);
    let gone = described_resource(
        resource(RES_TOPIC, "x", None),
        1,
        true,
        Err(Error::NotFound("x".to_string())),
        false,
    );
    assert_eq!(gone.verdict.error, KafkaErrorCode::UnknownTopicOrPartition.as_i16());
    assert!(gone.configs.is_empty());
}

#[test]
fn alter_steps() {
    let code = |s: AlterStep| match s {
        AlterStep::Refuse(v) => v.error,
        _ => panic!("it was not refused"),
    };
    assert_eq!(
        code(alter_step(Some("bad"), RES_TOPIC, "t", 1, true, false, None)),
        KafkaErrorCode::InvalidConfig.as_i16()
    );
    assert_eq!(
        code(alter_step(None, RES_TOPIC, "t", 1, false, false, None)),
        KafkaErrorCode::TopicAuthorizationFailed.as_i16()
    );
    assert_eq!(
        code(alter_step(None, RES_BROKER, "2", 1, true, false, None)),
        KafkaErrorCode::InvalidRequest.as_i16()
    );
    assert_eq!(
        code(alter_step(None, RES_BROKER, "1", 1, false, false, None)),
        KafkaErrorCode::ClusterAuthorizationFailed.as_i16()
    );
    assert_eq!(
        code(alter_step(None, RES_BROKER, "1", 1, true, false, Some(2))),
        KafkaErrorCode::NotController.as_i16()
    );
    assert_eq!(
        code(alter_step(None, 3, "1", 1, true, false, None)),
        KafkaErrorCode::InvalidRequest.as_i16()
    );
    assert!(matches!(
        alter_step(None, RES_BROKER, "1", 1, true, true, Some(2)),
        AlterStep::Validate
    ));
    assert!(matches!(
        alter_step(None, RES_TOPIC, "t", 1, true, true, None),
        AlterStep::Validate
    ));
    assert!(matches!(
        alter_step(None, RES_TOPIC, "t", 1, true, false, None),
        AlterStep::Apply
    ));
}

#[test]
fn alter_verdicts() {
    assert_eq!(told(after_validation(None)), (0, None));
    assert_eq!(
        told(after_validation(Some("bad".to_string()))),
        says(KafkaErrorCode::InvalidConfig, "bad")
    );
    assert_eq!(told(after_topic_alter(Ok(()))), (0, None));
    assert_eq!(
        told(after_topic_alter(Err(Error::NotFound("t".to_string())))),
        says(KafkaErrorCode::UnknownTopicOrPartition, "topic not found")
    );
    assert_eq!(
        told(after_topic_alter(Err(Error::Protocol("x".to_string())))),
        (KafkaErrorCode::Unknown.as_i16(), None)
    );
    let (v, generation) = after_broker_alter(Ok(Some(4)), "");
    assert_eq!((v.error, generation), (0, Some(4)));
    let (v, generation) =
        after_broker_alter(Err(Error::InvalidArgument("not controller: 2".to_string())), "");
    assert_eq!((v.error, generation), (KafkaErrorCode::NotController.as_i16(), None));
    let (v, _) = after_broker_alter(Err(Error::Other("io".to_string())), "io error");
    assert_eq!(told(v), says(KafkaErrorCode::Unknown, "io error"));
}

#[test]
fn operations_come_to_entries() {
    let set = |key: &str, op: i8, value: &str| ConfigOp::Entry {
        key: key.to_string(),
        op,
        value: value.to_string(),
    };
    let entries = op_entries(&vec![set("a", 0, "1"), set("b", 1, "2")]).unwrap();
    assert_eq!((entries[0].key.as_str(), entries[0].value.as_str()), ("a", "1"));
    assert_eq!((entries[1].key.as_str(), entries[1].value.as_str()), ("b", ""));
    assert_eq!(
        op_entries(&vec![set("a", 2, "1")]).unwrap_err(),
        "APPEND/SUBTRACT not supported (no list-typed configs)"
    );
    assert_eq!(op_entries(&vec![set("a", -7, "1")]).unwrap_err(), "unknown config operation -7");
    assert_eq!(
        op_entries(&vec![ConfigOp::Broken("invalid config name".to_string())]).unwrap_err(),
        "invalid config name"
    );
}

#[test]
fn alter_requests_are_read() {
    let mut body = BytesMut::new();
    body.put_i32(1);
    body.put_i8(RES_TOPIC);
    put_string(&mut body, "t");
    body.put_i32(1);
    put_string(&mut body, "retention.ms");
    put_nullable_string(&mut body, None);
    body.put_u8(1);
    let (resources, validate) = decode_alter_configs(&mut body.freeze(), 0);
    assert!(validate);
    assert_eq!(resources[0].entries[0].key, "retention.ms");
    assert_eq!(resources[0].entries[0].value, "");

    let mut body = BytesMut::new();
    body.put_i32(1);
    body.put_i8(RES_TOPIC);
    put_string(&mut body, "t");
    body.put_i32(1);
    put_string(&mut body, "retention.ms");
    let (resources, validate) = decode_incremental_alter_configs(&mut body.freeze(), 0);
    assert!(!validate);
    assert!(matches!(
        &resources[0].entries[0],
        ConfigOp::Broken(m) if m == "truncated config operation"
    ));

    let rows =
        vec![AlteredRow { verdict: Verdict::fine(), rtype: RES_TOPIC, name: "t".to_string() }];
    let mut out = BytesMut::new();
    encode_alter_configs(&mut out, 0, &rows);
    let mut classic = out.freeze();
    assert_eq!(classic.get_i32(), 0);
    assert_eq!(classic.get_i32(), 1);
    assert_eq!(classic.get_i16(), 0);
    assert_eq!(get_nullable_string(&mut classic).unwrap(), None);
    assert_eq!(classic.get_i8(), RES_TOPIC);
    assert_eq!(get_string(&mut classic).unwrap(), "t");
    let mut out = BytesMut::new();
    encode_incremental_alter_configs(&mut out, 1, &rows);
    let mut flexible = out.freeze();
    assert_eq!(flexible.get_i32(), 0);
    assert_eq!(get_compact_array_len(&mut flexible).unwrap(), Some(1));
}

// ---------------------------------------------------------------------------
// Credentials
// ---------------------------------------------------------------------------

#[test]
fn scram_numbers() {
    assert_eq!(kafka_scram_hash(1), Some(ScramHash::Sha256));
    assert_eq!(kafka_scram_hash(2), Some(ScramHash::Sha512));
    assert_eq!(kafka_scram_hash(0), None);
    assert_eq!(scram_hash_to_kafka(ScramHash::Sha512), 2);
}

#[test]
fn described_credentials() {
    let mut body = BytesMut::new();
    put_compact_array_len(&mut body, 1);
    put_compact_string(&mut body, "alice");
    put_empty_tag_buffer(&mut body);
    put_empty_tag_buffer(&mut body);
    let names = decode_describe_user_scram_credentials(&mut body.freeze()).unwrap();
    assert_eq!(names[0].name, "alice");
    assert!(decode_describe_user_scram_credentials(&mut Bytes::new()).is_none());
    let found = scram_user(
        "alice".to_string(),
        Some(vec![ScramInfo { hash: ScramHash::Sha256, iterations: 4096 }]),
    );
    let missing = scram_user("bob".to_string(), None);
    assert_eq!(missing.verdict.error, KafkaErrorCode::ResourceNotFound.as_i16());
    let mut out = BytesMut::new();
    encode_describe_user_scram_credentials(&mut out, true, &vec![found]);
    let mut resp = out.freeze();
    assert_eq!(resp.get_i32(), 0);
    assert_eq!(resp.get_i16(), 0);
    assert_eq!(get_compact_nullable_string(&mut resp).unwrap(), None);
    assert_eq!(get_compact_array_len(&mut resp).unwrap(), Some(1));
    assert_eq!(get_compact_string(&mut resp).unwrap(), "alice");
    assert_eq!(resp.get_i16(), 0);
    assert_eq!(get_compact_nullable_string(&mut resp).unwrap(), None);
    assert_eq!(get_compact_array_len(&mut resp).unwrap(), Some(1));
    assert_eq!(resp.get_i8(), 1);
    assert_eq!(resp.get_i32(), 4096);
    let mut out = BytesMut::new();
    encode_describe_user_scram_credentials(&mut out, false, &vec![]);
    let mut resp = out.freeze();
    resp.advance(4);
    assert_eq!(resp.get_i16(), KafkaErrorCode::ClusterAuthorizationFailed.as_i16());
}

fn upsertion(name: &str, mechanism: i8, iterations: i32, salt: &'static [u8]) -> ScramUpsertion {
    ScramUpsertion {
        name: name.to_string(),
        mechanism,
        iterations,
        salt: Bytes::from_static(salt),
        salted: Bytes::from_static(b"p"),
    }
}

#[test]
fn credential_problems() {
    let none = || HeldMechanisms { sha256: false, sha512: false };
    let delete = |mechanism: i8| AlterScram {
        deletions: vec![ScramDeletion { name: "u".to_string(), mechanism }],
        upsertions: vec![],
    };
    let upsert = |u: ScramUpsertion| AlterScram { deletions: vec![], upsertions: vec![u] };
    assert_eq!(
        scram_problem("u", &delete(9), none()).map(told),
        Some(says(KafkaErrorCode::InvalidRequest, "unsupported SCRAM mechanism"))
    );
    assert_eq!(
        scram_problem("u", &delete(1), none()).map(told),
        Some(says(KafkaErrorCode::ResourceNotFound, "user or mechanism not found"))
    );
    let held = HeldMechanisms { sha256: true, sha512: false };
    assert!(scram_problem("u", &delete(1), held).is_none());
    assert!(scram_problem("other", &delete(9), none()).is_none());
    for name in ["", "a,b", "a=b"] {
        assert_eq!(
            scram_problem(name, &upsert(upsertion(name, 1, 4096, b"s")), none()).map(told),
            Some(says(KafkaErrorCode::InvalidRequest, "invalid SCRAM username"))
        );
    }
    let bad = "invalid iterations, salt, or saltedPassword";
    assert_eq!(
        scram_problem("u", &upsert(upsertion("u", 1, 0, b"s")), none()).map(told),
        Some(says(KafkaErrorCode::InvalidRequest, bad))
    );
    assert_eq!(
        scram_problem("u", &upsert(upsertion("u", 2, 1, b"")), none()).map(told),
        Some(says(KafkaErrorCode::InvalidRequest, bad))
    );
    assert_eq!(
        scram_problem("u", &upsert(upsertion("u", 3, 1, b"s")), none()).map(told),
        Some(says(KafkaErrorCode::InvalidRequest, "unsupported SCRAM mechanism"))
    );
    assert!(scram_problem("u", &upsert(upsertion("u", 2, 1, b"s")), none()).is_none());
}

#[test]
fn credentials_are_altered_user_by_user() {
    let mut body = BytesMut::new();
    put_compact_array_len(&mut body, 2);
    for name in ["b", "a"] {
        put_compact_string(&mut body, name);
        body.put_i8(1);
        put_empty_tag_buffer(&mut body);
    }
    put_compact_array_len(&mut body, 2);
    for name in ["a", "c"] {
        put_compact_string(&mut body, name);
        body.put_i8(2);
        body.put_i32(8192);
        put_compact_bytes(&mut body, Some(b"salt"));
        put_compact_bytes(&mut body, Some(b"pass"));
        put_empty_tag_buffer(&mut body);
    }
    put_empty_tag_buffer(&mut body);
    let req = decode_alter_user_scram_credentials(&mut body.freeze());
    assert_eq!(req.upsertions[1].iterations, 8192);
    assert_eq!(&req.upsertions[1].salt[..], b"salt");
    assert_eq!(scram_users(&req), vec!["b".to_string(), "a".to_string(), "c".to_string()]);
    assert_eq!(told(after_scram_changes(None)), (0, None));
    assert_eq!(
        told(after_scram_changes(Some((true, "x".to_string())))),
        says(KafkaErrorCode::Unknown, "x")
    );
    assert_eq!(
        told(after_scram_changes(Some((false, "y".to_string())))),
        says(KafkaErrorCode::InvalidRequest, "y")
    );
    assert_eq!(scram_denied().error, KafkaErrorCode::ClusterAuthorizationFailed.as_i16());
    let mut out = BytesMut::new();
    encode_alter_user_scram_credentials(
        &mut out,
        &vec![NamedVerdict { name: "a".to_string(), verdict: scram_denied() }],
    );
    let mut resp = out.freeze();
    assert_eq!(resp.get_i32(), 0);
    assert_eq!(get_compact_array_len(&mut resp).unwrap(), Some(1));
    assert_eq!(get_compact_string(&mut resp).unwrap(), "a");
    assert_eq!(resp.get_i16(), KafkaErrorCode::ClusterAuthorizationFailed.as_i16());
}

// ---------------------------------------------------------------------------
// Log directories and quotas
// ---------------------------------------------------------------------------

#[test]
fn log_directories() {
    let mut body = BytesMut::new();
    body.put_i32(2);
    for name in ["a", "b"] {
        put_string(&mut body, name);
        body.put_i32(1);
        body.put_i32(0);
    }
    let asked = parse_describe_log_dirs_topics(&mut body.freeze(), false).unwrap();
    let seen = visible_topics(asked, &vec![false, true]);
    assert_eq!(seen.len(), 1);
    assert_eq!(seen[0].name, "b");
    assert_eq!(seen[0].parts, vec![0]);
    assert!(parse_describe_log_dirs_topics(&mut Bytes::new(), false).is_none());
    assert_eq!(log_dir_error(true, false), KafkaErrorCode::ClusterAuthorizationFailed.as_i16());
    assert_eq!(log_dir_error(false, false), 0);
    assert_eq!(log_dir_error(true, true), 0);
    let rows = vec![TopicOut {
        name: "b".to_string(),
        rows: vec![LogDirRow { partition: 0, size: 99, offset_lag: 0, is_future: false }],
    }];
    let mut out = BytesMut::new();
    write_describe_log_dirs(&mut out, false, 0, "/data", &rows);
    let mut resp = out.freeze();
    assert_eq!(resp.get_i32(), 0);
    assert_eq!(resp.get_i32(), 1);
    assert_eq!(resp.get_i16(), 0);
    assert_eq!(get_string(&mut resp).unwrap(), "/data");
    assert_eq!(resp.get_i32(), 1);
    assert_eq!(get_string(&mut resp).unwrap(), "b");
    assert_eq!(resp.get_i32(), 1);
    assert_eq!(resp.get_i32(), 0);
    assert_eq!(resp.get_i64(), 99);
    assert_eq!(resp.get_i64(), 0);
    assert_eq!(resp.get_u8(), 0);
    assert_eq!(resp.remaining(), 0);
}

#[test]
fn quotas_are_not_supported() {
    let mut body = BytesMut::new();
    put_compact_array_len(&mut body, 1);
    put_compact_array_len(&mut body, 1);
    put_compact_string(&mut body, "user");
    put_compact_nullable_string(&mut body, None);
    put_empty_tag_buffer(&mut body);
    put_compact_array_len(&mut body, 1);
    put_compact_string(&mut body, "producer_byte_rate");
    body.put_f64(1.0);
    body.put_u8(0);
    put_empty_tag_buffer(&mut body);
    put_empty_tag_buffer(&mut body);
    body.put_u8(0);
    put_empty_tag_buffer(&mut body);
    let entries = parse_alter_client_quotas_request(&mut body.freeze());
    assert_eq!(entries.len(), 1);
    assert_eq!(entries[0].entity[0].entity_type, "user");
    let mut out = BytesMut::new();
    encode_alter_client_quotas(&mut out, &quota_rows(entries, false));
    let mut resp = out.freeze();
    assert_eq!(resp.get_i32(), 0);
    assert_eq!(get_compact_array_len(&mut resp).unwrap(), Some(1));
    assert_eq!(resp.get_i16(), KafkaErrorCode::InvalidRequest.as_i16());
    assert_eq!(
        get_compact_nullable_string(&mut resp).unwrap().as_deref(),
        Some("quotas not supported")
    );
    assert_eq!(get_compact_array_len(&mut resp).unwrap(), Some(1));
    assert_eq!(get_compact_string(&mut resp).unwrap(), "user");
    let code = |allowed: bool| {
        let mut out = BytesMut::new();
        encode_describe_client_quotas(&mut out, allowed);
        let mut resp = out.freeze();
        resp.advance(4);
        resp.get_i16()
    };
    assert_eq!(code(true), 0);
    assert_eq!(code(false), KafkaErrorCode::ClusterAuthorizationFailed.as_i16());
}

#[test]
fn credential_changes_delete_first() {
    let deletion = |name: &str, mechanism: i8| ScramDeletion { name: name.to_string(), mechanism };
    let req = AlterScram {
        deletions: vec![deletion("u", 2), deletion("v", 1), deletion("u", 9), deletion("u", 1)],
        upsertions: vec![
            upsertion("v", 1, 4096, b"s"),
            upsertion("u", 1, 4096, b"s"),
            upsertion("u", 2, 4096, b"s"),
        ],
    };
    assert_eq!(
        scram_changes("u", &req),
        vec![
            ScramChange::Delete(ScramHash::Sha512),
            ScramChange::Delete(ScramHash::Sha256),
            ScramChange::Upsert(ScramHash::Sha256, 1),
            ScramChange::Upsert(ScramHash::Sha512, 2),
        ]
    );
    assert_eq!(scram_changes("w", &req), vec![]);
}

#[test]
fn what_came_of_a_deletion() {
    assert!(matches!(after_deletion(Ok(Majority::Reached)), TopicDeletion::Deleted(_)));
    assert!(matches!(
        after_deletion(Err(Error::NotFound("t".to_string()))),
        TopicDeletion::NotFound
    ));
    assert!(matches!(
        after_deletion(Err(Error::Protocol("t".to_string()))),
        TopicDeletion::Failed
    ));
}
