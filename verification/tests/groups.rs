//! Consumer groups: members, offsets, and what is told of groups.

use bytes::{Buf, BufMut, Bytes, BytesMut};
use volant_kafka::api::KafkaErrorCode;
use volant_kafka::codec::{
    get_bytes, get_compact_array_len, get_compact_nullable_string, get_compact_string,
    get_nullable_string, get_string, get_uuid, put_bytes, put_compact_array_len,
    put_compact_bytes, put_compact_nullable_string, put_compact_string, put_empty_tag_buffer,
    put_nullable_string, put_string, put_uuid, read_unsigned_varint, skip_tag_buffer,
};
use volant_kafka::consumer_protocol::{
    decode_consumer_assignment, encode_consumer_assignment, encode_consumer_subscription,
};
use volant_kafka::group_admin::{
    assigned_topics, authorized_ops_field, decode_consumer_group_describe, decode_delete_groups,
    decode_describe_groups, decode_list_groups, deleted_group, described_consumer_group,
    described_group, encode_consumer_group_describe, encode_delete_groups,
    encode_describe_groups, encode_list_groups, group_authorized_ops, group_standing,
    listed_groups,
    parse_consumer_group_heartbeat_request, parse_initialize_share_group_state_request,
    write_consumer_group_heartbeat, write_initialize_share_group_state, GroupDescription,
    GroupFilter, GroupMember, GroupOps, GroupStanding, ListedGroup,
};
use volant_kafka::membership::{
    decode_heartbeat, decode_join_group, decode_leave_group, decode_sync_group,
    decode_sync_member_assignment, encode_heartbeat, encode_join_group, encode_leave_group,
    encode_sync_group, join_refusal, join_reply, join_subscription, leave_denied_row, leave_error,
    leave_row, static_instance, static_member_id, JoinResult,
};
use volant_kafka::offsets::{
    all_offsets, asked_offsets, commit_entries, commit_error, commit_rows, decode_offset_commit,
    decode_offset_delete, decode_offset_fetch, decode_offset_fetch_multi, delete_pairs,
    delete_rows, encode_offset_commit, encode_offset_delete, encode_offset_fetch,
    encode_offset_fetch_multi, group_refusal, offset_fetch_refusal, offset_query,
    require_stable_offset, stable_row, FetchedOffset, GroupOffsets, OffsetAsk, OffsetDeletion,
};
use volant_kafka::topic_id::{uuid_for_numeric_id, Catalog, TopicWireId};

fn catalog() -> Catalog {
    Catalog { topics: vec![("events".to_string(), 7), ("logs".to_string(), 9)] }
}

// ---------------------------------------------------------------------------
// ConsumerGroupHeartbeat and InitializeShareGroupState
// ---------------------------------------------------------------------------

fn heartbeat_v0_body(group: &str, member: &str, epoch: i32) -> Bytes {
    let mut body = BytesMut::new();
    put_compact_string(&mut body, group);
    put_compact_string(&mut body, member);
    body.put_i32(epoch);
    put_compact_nullable_string(&mut body, None);
    put_compact_nullable_string(&mut body, Some("rack-a"));
    body.put_i32(150);
    put_compact_array_len(&mut body, 1);
    put_compact_string(&mut body, "events");
    put_compact_nullable_string(&mut body, None);
    put_compact_array_len(&mut body, 1);
    put_uuid(&mut body, &[0u8; 16]);
    put_compact_array_len(&mut body, 1);
    body.put_i32(0);
    put_empty_tag_buffer(&mut body);
    put_empty_tag_buffer(&mut body);
    body.freeze()
}

type Heartbeat = (i32, i16, Option<String>, Option<String>, i32, i32, u32);

fn read_heartbeat(src: &mut Bytes) -> Heartbeat {
    let throttle = src.get_i32();
    let error = src.get_i16();
    let err_msg = get_compact_nullable_string(src).unwrap();
    let member = get_compact_nullable_string(src).unwrap();
    let epoch = src.get_i32();
    let interval = src.get_i32();
    let assignment = read_unsigned_varint(src).unwrap();
    skip_tag_buffer(src).unwrap();
    assert_eq!(src.remaining(), 0);
    (throttle, error, err_msg, member, epoch, interval, assignment)
}

/// Serves a ConsumerGroupHeartbeat request; the groups that may be read are given.
fn consumer_heartbeat(mut src: Bytes, readable: Option<&str>) -> Bytes {
    let group = parse_consumer_group_heartbeat_request(&mut src);
    let denied = readable.is_some_and(|r| r != group);
    let mut out = BytesMut::new();
    write_consumer_group_heartbeat(&mut out, denied);
    out.freeze()
}

#[test]
fn kafka_consumer_group_heartbeat_rejects_42() {
    let mut resp = consumer_heartbeat(heartbeat_v0_body("cg-v269", "m1", 1), None);
    let (throttle, error, err_msg, member, epoch, interval, assignment) =
        read_heartbeat(&mut resp);
    assert_eq!(throttle, 0);
    assert_eq!(error, KafkaErrorCode::InvalidRequest.as_i16());
    assert_eq!(err_msg.as_deref(), Some("not KIP-848 consumer protocol"));
    assert_eq!(member, None);
    assert_eq!(epoch, -1);
    assert_eq!(interval, 0);
    assert_eq!(assignment, 0);
}

#[test]
fn kafka_consumer_group_heartbeat_truncated_still_42() {
    let mut resp = consumer_heartbeat(Bytes::new(), None);
    let (throttle, error, err_msg, member, epoch, interval, assignment) =
        read_heartbeat(&mut resp);
    assert_eq!(throttle, 0);
    assert_eq!(error, KafkaErrorCode::InvalidRequest.as_i16());
    assert_eq!(err_msg.as_deref(), Some("not KIP-848 consumer protocol"));
    assert_eq!(member, None);
    assert_eq!(epoch, -1);
    assert_eq!(interval, 0);
    assert_eq!(assignment, 0);
}

#[test]
fn kafka_consumer_group_heartbeat_acl_deny_is_30() {
    let mut resp = consumer_heartbeat(heartbeat_v0_body("cg-v269", "m1", 0), Some("other"));
    let (throttle, error, err_msg, member, epoch, interval, assignment) =
        read_heartbeat(&mut resp);
    assert_eq!(throttle, 0);
    assert_eq!(error, KafkaErrorCode::GroupAuthorizationFailed.as_i16());
    assert_eq!(err_msg, None);
    assert_eq!(member, None);
    assert_eq!(epoch, -1);
    assert_eq!(interval, 0);
    assert_eq!(assignment, 0);
}

fn isgs_v0_body(group: &str, topic_id: &[u8; 16], partition: i32) -> Bytes {
    let mut body = BytesMut::new();
    put_compact_string(&mut body, group);
    put_compact_array_len(&mut body, 1);
    put_uuid(&mut body, topic_id);
    put_compact_array_len(&mut body, 1);
    body.put_i32(partition);
    body.put_i32(1);
    body.put_i64(42);
    put_empty_tag_buffer(&mut body);
    put_empty_tag_buffer(&mut body);
    put_empty_tag_buffer(&mut body);
    body.freeze()
}

type ShareResult = ([u8; 16], Vec<(i32, i16, Option<String>)>);

fn read_isgs(src: &mut Bytes) -> Vec<ShareResult> {
    let n = get_compact_array_len(src).unwrap().unwrap_or(0);
    let mut results = Vec::new();
    for _ in 0..n {
        let topic_id = get_uuid(src).unwrap();
        let pn = get_compact_array_len(src).unwrap().unwrap_or(0);
        let mut parts = Vec::new();
        for _ in 0..pn {
            let partition = src.get_i32();
            let error = src.get_i16();
            let err_msg = get_compact_nullable_string(src).unwrap();
            skip_tag_buffer(src).unwrap();
            parts.push((partition, error, err_msg));
        }
        skip_tag_buffer(src).unwrap();
        results.push((topic_id, parts));
    }
    skip_tag_buffer(src).unwrap();
    assert_eq!(src.remaining(), 0);
    results
}

fn initialize_share(mut src: Bytes, alterable: Option<&str>) -> Bytes {
    let (group, topics) = parse_initialize_share_group_state_request(&mut src);
    let denied = alterable.is_some_and(|r| r != group);
    let mut out = BytesMut::new();
    write_initialize_share_group_state(&mut out, &topics, denied);
    out.freeze()
}

#[test]
fn kafka_initialize_share_group_state_rejects_42() {
    let topic_id = [0x22u8; 16];
    let mut resp = initialize_share(isgs_v0_body("sg-v279", &topic_id, 7), None);
    let results = read_isgs(&mut resp);
    assert_eq!(results.len(), 1);
    assert_eq!(results[0].0, topic_id);
    assert_eq!(results[0].1.len(), 1);
    assert_eq!(results[0].1[0].0, 7);
    assert_eq!(results[0].1[0].1, KafkaErrorCode::InvalidRequest.as_i16());
    assert_eq!(results[0].1[0].2.as_deref(), Some("not KIP-932 share state"));
}

#[test]
fn kafka_initialize_share_group_state_truncated_is_empty_results() {
    let mut resp = initialize_share(Bytes::new(), None);
    let results = read_isgs(&mut resp);
    assert!(results.is_empty());
}

#[test]
fn kafka_initialize_share_group_state_acl_deny_is_30() {
    let topic_id = [0x33u8; 16];
    let mut resp = initialize_share(isgs_v0_body("sg-v279", &topic_id, 1), Some("other"));
    let results = read_isgs(&mut resp);
    assert_eq!(results.len(), 1);
    assert_eq!(results[0].0, topic_id);
    assert_eq!(results[0].1.len(), 1);
    assert_eq!(results[0].1[0].0, 1);
    assert_eq!(results[0].1[0].1, KafkaErrorCode::GroupAuthorizationFailed.as_i16());
    assert_eq!(results[0].1[0].2, None);
}

// ---------------------------------------------------------------------------
// JoinGroup
// ---------------------------------------------------------------------------

fn join_body_v5(group: &str, member: &str, instance: Option<&str>) -> Bytes {
    let mut body = BytesMut::new();
    put_string(&mut body, group);
    body.put_i32(10_000);
    body.put_i32(-5);
    put_string(&mut body, member);
    put_nullable_string(&mut body, instance);
    put_string(&mut body, "consumer");
    body.put_i32(2);
    put_string(&mut body, "roundrobin");
    put_bytes(&mut body, Some(&encode_consumer_subscription(&["events", "logs"])));
    put_string(&mut body, "range");
    put_bytes(&mut body, Some(&encode_consumer_subscription(&["other"])));
    body.freeze()
}

#[test]
fn static_members_keep_their_instance() {
    assert_eq!(static_member_id("i-1"), "static:i-1");
    assert_eq!(static_instance("static:i-1").as_deref(), Some("i-1"));
    assert_eq!(static_instance("static:").as_deref(), Some(""));
    assert_eq!(static_instance("member-1"), None);
}

#[test]
fn join_reads_the_first_protocol() {
    let mut src = join_body_v5("g", "", Some("inst"));
    let req = decode_join_group(&mut src, 5).unwrap();
    assert_eq!(req.group_id, "g");
    assert_eq!(req.session_timeout, 10_000);
    assert_eq!(req.rebalance_timeout, 0);
    assert_eq!(req.instance_id, "inst");
    assert_eq!(req.protocol_type, "consumer");
    let (protocol, topics) = join_subscription(req.protocols.as_ref().unwrap());
    assert_eq!(protocol, "roundrobin");
    assert_eq!(topics, vec!["events".to_string(), "logs".to_string()]);
    assert_eq!(join_subscription(&vec![]), ("range".to_string(), vec![]));
}

#[test]
fn join_refusals() {
    let mut src = Bytes::new();
    let unread = decode_join_group(&mut src, 5);
    assert!(unread.is_none());
    let r = join_refusal(&unread, true).unwrap();
    assert_eq!(r.error, KafkaErrorCode::InvalidRequest.as_i16());
    assert_eq!(r.protocol_type, "");

    let mut src = join_body_v5("g", "", None);
    let req = decode_join_group(&mut src, 5);
    let r = join_refusal(&req, false).unwrap();
    assert_eq!(r.error, KafkaErrorCode::GroupAuthorizationFailed.as_i16());
    assert_eq!(r.protocol_type, "consumer");
    assert!(join_refusal(&req, true).is_none());

    // Protocols that cannot be counted: the client is told only if it may read the group.
    let mut body = BytesMut::new();
    put_string(&mut body, "g");
    body.put_i32(1);
    put_string(&mut body, "m");
    put_string(&mut body, "consumer");
    body.put_u8(0);
    let mut src = body.freeze();
    let req = decode_join_group(&mut src, 0);
    assert!(req.as_ref().unwrap().protocols.is_none());
    assert_eq!(
        join_refusal(&req, true).unwrap().error,
        KafkaErrorCode::InvalidRequest.as_i16()
    );
    assert_eq!(
        join_refusal(&req, false).unwrap().error,
        KafkaErrorCode::GroupAuthorizationFailed.as_i16()
    );
}

fn joined(member: &str) -> Option<JoinResult> {
    Some(JoinResult { error_code: 0, generation: 3, member_id: member.to_string() })
}

#[test]
fn the_leader_is_the_least_member_and_knows_the_others() {
    let members = vec!["static:b".to_string(), "m-2".to_string(), "m-1".to_string()];
    let r = join_reply("consumer".into(), "range".into(), "", joined("m-1"), &members);
    assert_eq!(r.error, 0);
    assert_eq!(r.generation, 3);
    assert_eq!(r.leader, "m-1");
    assert_eq!(r.members.len(), 3);
    assert_eq!(r.members[0].instance_id.as_deref(), Some("b"));
    assert_eq!(r.members[1].instance_id, None);
    assert_eq!(r.members[2].instance_id, None);

    let r = join_reply("consumer".into(), "range".into(), "", joined("m-2"), &members);
    assert_eq!(r.leader, "m-1");
    assert!(r.members.is_empty());

    let r = join_reply("consumer".into(), "range".into(), "", joined("m-9"), &vec![]);
    assert_eq!(r.leader, "m-9");

    let r = join_reply("consumer".into(), "range".into(), "", None, &members);
    assert_eq!(r.error, KafkaErrorCode::Unknown.as_i16());
    assert_eq!(r.protocol, "range");
}

#[test]
fn join_response_v5_and_v9() {
    let members = vec!["static:i".to_string()];
    let r = join_reply("consumer".into(), "range".into(), "i", joined("static:i"), &members);
    let mut out = BytesMut::new();
    encode_join_group(&mut out, 5, &r);
    let mut resp = out.freeze();
    assert_eq!(resp.get_i32(), 0);
    assert_eq!(resp.get_i16(), 0);
    assert_eq!(resp.get_i32(), 3);
    assert_eq!(get_string(&mut resp).unwrap(), "range");
    assert_eq!(get_string(&mut resp).unwrap(), "static:i");
    assert_eq!(get_string(&mut resp).unwrap(), "static:i");
    assert_eq!(resp.get_i32(), 1);
    assert_eq!(get_string(&mut resp).unwrap(), "static:i");
    assert_eq!(get_nullable_string(&mut resp).unwrap().as_deref(), Some("i"));
    assert_eq!(get_bytes(&mut resp).unwrap().unwrap().len(), 0);
    assert_eq!(resp.remaining(), 0);

    let mut out = BytesMut::new();
    encode_join_group(&mut out, 9, &r);
    let mut resp = out.freeze();
    assert_eq!(resp.get_i32(), 0);
    assert_eq!(resp.get_i16(), 0);
    assert_eq!(resp.get_i32(), 3);
    assert_eq!(get_compact_nullable_string(&mut resp).unwrap().as_deref(), Some("consumer"));
    assert_eq!(get_compact_nullable_string(&mut resp).unwrap().as_deref(), Some("range"));
    assert_eq!(get_compact_string(&mut resp).unwrap(), "static:i");
    assert_eq!(resp.get_u8(), 0);
    assert_eq!(get_compact_string(&mut resp).unwrap(), "static:i");
    assert_eq!(get_compact_array_len(&mut resp).unwrap(), Some(1));
}

// ---------------------------------------------------------------------------
// SyncGroup, Heartbeat, LeaveGroup
// ---------------------------------------------------------------------------

#[test]
fn sync_assignment_prefers_the_consumer_protocol() {
    let parts = vec![("events".to_string(), 0), ("events".to_string(), 2)];
    let bytes = encode_consumer_assignment(&parts);
    assert_eq!(decode_sync_member_assignment(&bytes, None), Some(parts.clone()));
    assert_eq!(decode_sync_member_assignment(&[], Some(parts.clone())), None);
    assert_eq!(decode_sync_member_assignment(&[0xff], None), None);
    assert_eq!(decode_sync_member_assignment(&[0xff], Some(parts.clone())), Some(parts));
}

#[test]
fn sync_echoes_protocol_and_hands_out_the_assignment() {
    let mut body = BytesMut::new();
    put_compact_string(&mut body, "g");
    body.put_i32(4);
    put_compact_string(&mut body, "");
    put_compact_nullable_string(&mut body, Some("inst"));
    put_compact_nullable_string(&mut body, Some("consumer"));
    put_compact_nullable_string(&mut body, Some("range"));
    put_compact_array_len(&mut body, 1);
    put_compact_string(&mut body, "static:inst");
    put_compact_bytes(&mut body, Some(b"x"));
    put_empty_tag_buffer(&mut body);
    put_empty_tag_buffer(&mut body);
    let mut src = body.freeze();
    let req = decode_sync_group(&mut src, 5);
    {
        let r = req.as_ref().unwrap();
        assert_eq!(r.head.generation, 4);
        assert_eq!(r.head.member_id, "static:inst");
        assert_eq!(r.assignments.len(), 1);
        assert_eq!(&r.assignments[0].assignment[..], b"x");
    }
    let parts = vec![("events".to_string(), 1)];
    let mut out = BytesMut::new();
    encode_sync_group(&mut out, 5, &req, true, 0, &parts);
    let mut resp = out.freeze();
    assert_eq!(resp.get_i32(), 0);
    assert_eq!(resp.get_i16(), 0);
    assert_eq!(get_compact_nullable_string(&mut resp).unwrap().as_deref(), Some("consumer"));
    assert_eq!(get_compact_nullable_string(&mut resp).unwrap().as_deref(), Some("range"));
    let assignment = volant_kafka::codec::get_compact_bytes(&mut resp).unwrap().unwrap();
    assert_eq!(decode_consumer_assignment(&assignment).unwrap(), parts);

    let mut out = BytesMut::new();
    encode_sync_group(&mut out, 5, &req, false, 0, &parts);
    let mut resp = out.freeze();
    resp.advance(4);
    assert_eq!(resp.get_i16(), KafkaErrorCode::GroupAuthorizationFailed.as_i16());
}

#[test]
fn heartbeat_errors() {
    let mut body = BytesMut::new();
    put_string(&mut body, "g");
    body.put_i32(1);
    put_string(&mut body, "m");
    let mut src = body.freeze();
    let head = decode_heartbeat(&mut src, 0).unwrap();
    assert_eq!((head.group_id.as_str(), head.generation, head.member_id.as_str()), ("g", 1, "m"));
    let code = |readable: bool, allowed: bool, group: u16| {
        let mut out = BytesMut::new();
        encode_heartbeat(&mut out, 0, readable, allowed, group);
        out.freeze().get_i16()
    };
    assert_eq!(code(true, true, 0), 0);
    assert_eq!(code(false, true, 0), KafkaErrorCode::InvalidRequest.as_i16());
    assert_eq!(code(true, false, 0), KafkaErrorCode::GroupAuthorizationFailed.as_i16());
    assert!(decode_heartbeat(&mut Bytes::new(), 0).is_none());
}

#[test]
fn leave_resolves_static_members_and_tells_the_first_error() {
    let mut body = BytesMut::new();
    put_string(&mut body, "g");
    body.put_i32(3);
    put_string(&mut body, "m-1");
    put_nullable_string(&mut body, None);
    put_string(&mut body, "");
    put_nullable_string(&mut body, Some("inst"));
    put_string(&mut body, "");
    put_nullable_string(&mut body, Some(""));
    let mut src = body.freeze();
    let req = decode_leave_group(&mut src, 3).unwrap();
    let ids: Vec<&str> = req.members.iter().map(|m| m.member_id.as_str()).collect();
    assert_eq!(ids, vec!["m-1", "static:inst"]);
    let mut rows = Vec::new();
    for (i, m) in req.members.into_iter().enumerate() {
        rows.push(leave_row(m, if i == 1 { 9999 } else { 0 }));
    }
    assert_eq!(rows[0].error, 0);
    assert_ne!(rows[1].error, 0);
    let top = leave_error(&rows);
    assert_eq!(top, rows[1].error);
    let mut out = BytesMut::new();
    encode_leave_group(&mut out, 3, top, &rows);
    let mut resp = out.freeze();
    assert_eq!(resp.get_i32(), 0);
    assert_eq!(resp.get_i16(), top);
    assert_eq!(resp.get_i32(), 2);
    assert_eq!(get_string(&mut resp).unwrap(), "m-1");
    assert_eq!(get_nullable_string(&mut resp).unwrap(), None);
    assert_eq!(resp.get_i16(), 0);
    assert_eq!(get_string(&mut resp).unwrap(), "static:inst");
    assert_eq!(get_nullable_string(&mut resp).unwrap().as_deref(), Some("inst"));
    assert_eq!(resp.get_i16(), top);
    assert_eq!(resp.remaining(), 0);

    let mut body = BytesMut::new();
    put_string(&mut body, "g");
    put_string(&mut body, "m-1");
    let req = decode_leave_group(&mut body.freeze(), 0).unwrap();
    let row = leave_denied_row(req.members.into_iter().next().unwrap());
    assert_eq!(row.error, KafkaErrorCode::GroupAuthorizationFailed.as_i16());
    assert!(decode_leave_group(&mut Bytes::new(), 0).is_none());
}

// ---------------------------------------------------------------------------
// OffsetCommit
// ---------------------------------------------------------------------------

#[test]
fn commit_by_topic_id_leaves_out_unknown_topics() {
    let mut body = BytesMut::new();
    put_compact_string(&mut body, "g");
    body.put_i32(2);
    put_compact_string(&mut body, "m");
    put_compact_nullable_string(&mut body, None);
    put_compact_array_len(&mut body, 2);
    for (uuid, offset) in [(uuid_for_numeric_id(7), 41i64), ([0x55u8; 16], -3)] {
        put_uuid(&mut body, &uuid);
        put_compact_array_len(&mut body, 1);
        body.put_i32(0);
        body.put_i64(offset);
        body.put_i32(6);
        put_compact_nullable_string(&mut body, Some("note"));
        put_empty_tag_buffer(&mut body);
        put_empty_tag_buffer(&mut body);
    }
    put_empty_tag_buffer(&mut body);
    let mut src = body.freeze();
    let req = decode_offset_commit(&mut src, 10).unwrap();
    assert_eq!((req.generation, req.member_id.as_str()), (2, "m"));
    assert_eq!(req.topics[1].parts[0].offset, 0);
    let entries = commit_entries(&catalog(), &req.topics);
    assert_eq!(entries.len(), 1);
    assert_eq!(entries[0].topic, "events");
    assert_eq!(entries[0].offset, 41);
    assert_eq!(entries[0].leader_epoch, 6);
    assert_eq!(entries[0].metadata, "note");

    let rows = commit_rows(&catalog(), &req.topics, commit_error(true, 1, Some(0)));
    let mut out = BytesMut::new();
    encode_offset_commit(&mut out, 10, &rows);
    let mut resp = out.freeze();
    assert_eq!(resp.get_i32(), 0);
    assert_eq!(get_compact_array_len(&mut resp).unwrap(), Some(2));
    assert_eq!(get_uuid(&mut resp).unwrap(), uuid_for_numeric_id(7));
    assert_eq!(get_compact_array_len(&mut resp).unwrap(), Some(1));
    assert_eq!((resp.get_i32(), resp.get_i16()), (0, 0));
    skip_tag_buffer(&mut resp).unwrap();
    skip_tag_buffer(&mut resp).unwrap();
    assert_eq!(get_uuid(&mut resp).unwrap(), [0x55u8; 16]);
    assert_eq!(get_compact_array_len(&mut resp).unwrap(), Some(1));
    assert_eq!(
        (resp.get_i32(), resp.get_i16()),
        (0, KafkaErrorCode::UnknownTopicId.as_i16())
    );
}

#[test]
fn commit_errors() {
    assert_eq!(commit_error(false, 1, None), KafkaErrorCode::GroupAuthorizationFailed.as_i16());
    assert_eq!(commit_error(true, 0, None), 0);
    assert_eq!(commit_error(true, 1, None), KafkaErrorCode::Unknown.as_i16());
    assert_eq!(commit_error(true, 1, Some(0)), 0);
    assert!(decode_offset_commit(&mut Bytes::new(), 2).is_none());
    let mut out = BytesMut::new();
    encode_offset_commit(&mut out, 2, &vec![]);
    assert_eq!(&out[..], &[0, 0, 0, 0]);
}

// ---------------------------------------------------------------------------
// OffsetFetch and OffsetDelete
// ---------------------------------------------------------------------------

fn remembered(topic: &str, partition: u32, offset: u64) -> FetchedOffset {
    FetchedOffset {
        topic: topic.to_string(),
        partition,
        offset,
        leader_epoch: 4,
        metadata: String::new(),
    }
}

#[test]
fn offsets_of_records_that_may_be_aborted_are_held_back() {
    let unstable = KafkaErrorCode::UnstableOffsetCommit.as_i16();
    assert_eq!(unstable, 81);
    assert_eq!(require_stable_offset(5, true, true), (-1, unstable));
    assert_eq!(require_stable_offset(5, true, false), (5, 0));
    assert_eq!(require_stable_offset(5, false, true), (5, 0));
    assert_eq!(require_stable_offset(-1, true, true), (-1, 0));
}

#[test]
fn asked_offsets_tell_what_was_committed() {
    let mut body = BytesMut::new();
    put_compact_string(&mut body, "g");
    put_compact_array_len(&mut body, 1);
    put_compact_string(&mut body, "events");
    put_compact_array_len(&mut body, 2);
    body.put_i32(0);
    body.put_i32(3);
    put_empty_tag_buffer(&mut body);
    body.put_u8(1);
    put_empty_tag_buffer(&mut body);
    let mut src = body.freeze();
    let req = decode_offset_fetch(&mut src, 7);
    assert!(req.as_ref().unwrap().require_stable);
    assert!(offset_fetch_refusal(&req, 7, true).is_none());
    assert_eq!(
        offset_fetch_refusal(&req, 7, false),
        Some(KafkaErrorCode::GroupAuthorizationFailed.as_i16())
    );
    let topics = match req.unwrap().ask {
        OffsetAsk::Listed(t) => t,
        _ => panic!("topics were listed"),
    };
    assert_eq!(
        offset_query(&catalog(), &topics),
        vec![("events".to_string(), 0), ("events".to_string(), 3)]
    );
    let told = asked_offsets(
        &catalog(),
        &topics,
        &vec![remembered("events", 0, 17), remembered("events", 3, u64::MAX)],
    );
    assert_eq!(told.len(), 1);
    assert_eq!(told[0].rows[0].offset, 17);
    assert_eq!(told[0].rows[0].leader_epoch, 4);
    assert_eq!(told[0].rows[1].offset, -1);
    let mut rows = told.into_iter().next().unwrap().rows.into_iter();
    let held = stable_row(rows.next().unwrap(), true, true);
    assert_eq!((held.offset, held.error), (-1, 81));
}

#[test]
fn offset_fetch_response_v7() {
    let told = all_offsets(&catalog(), &vec![remembered("logs", 2, 5)], false);
    assert_eq!(told.len(), 1);
    let mut out = BytesMut::new();
    encode_offset_fetch(&mut out, 7, 0, &told);
    let mut resp = out.freeze();
    assert_eq!(resp.get_i32(), 0);
    assert_eq!(get_compact_array_len(&mut resp).unwrap(), Some(1));
    assert_eq!(get_compact_string(&mut resp).unwrap(), "logs");
    assert_eq!(get_compact_array_len(&mut resp).unwrap(), Some(1));
    assert_eq!(resp.get_i32(), 2);
    assert_eq!(resp.get_i64(), 5);
    assert_eq!(resp.get_i32(), 4);
    let _ = get_compact_nullable_string(&mut resp).unwrap();
    assert_eq!(resp.get_i16(), 0);
    skip_tag_buffer(&mut resp).unwrap();
    skip_tag_buffer(&mut resp).unwrap();
    assert_eq!(resp.get_i16(), 0);
    skip_tag_buffer(&mut resp).unwrap();
    assert_eq!(resp.remaining(), 0);
}

#[test]
fn offset_fetch_about_several_groups() {
    let mut body = BytesMut::new();
    put_compact_array_len(&mut body, 1);
    put_compact_string(&mut body, "g");
    put_compact_array_len(&mut body, 0);
    put_empty_tag_buffer(&mut body);
    body.put_u8(1);
    put_empty_tag_buffer(&mut body);
    let mut src = body.freeze();
    let (groups, stable) = decode_offset_fetch_multi(&mut src, 8).unwrap();
    assert!(stable);
    assert_eq!(groups.len(), 1);
    assert_eq!(
        group_refusal(&groups[0], false),
        Some(KafkaErrorCode::GroupAuthorizationFailed.as_i16())
    );
    assert_eq!(group_refusal(&groups[0], true), Some(0));
    let mut out = BytesMut::new();
    let told = vec![GroupOffsets { group_id: "g".to_string(), topics: vec![], error: 0 }];
    encode_offset_fetch_multi(&mut out, 8, &told);
    let mut resp = out.freeze();
    assert_eq!(resp.get_i32(), 0);
    assert_eq!(get_compact_array_len(&mut resp).unwrap(), Some(1));
    assert_eq!(get_compact_string(&mut resp).unwrap(), "g");
    assert_eq!(get_compact_array_len(&mut resp).unwrap(), Some(0));
    assert_eq!(resp.get_i16(), 0);
}

#[test]
fn unknown_topic_ids_are_told_in_an_offset_fetch() {
    let mut body = BytesMut::new();
    put_compact_array_len(&mut body, 1);
    put_compact_string(&mut body, "g");
    put_compact_nullable_string(&mut body, None);
    body.put_i32(-1);
    put_compact_array_len(&mut body, 1);
    put_uuid(&mut body, &[0x44; 16]);
    put_compact_array_len(&mut body, 1);
    body.put_i32(6);
    put_empty_tag_buffer(&mut body);
    put_empty_tag_buffer(&mut body);
    body.put_u8(0);
    put_empty_tag_buffer(&mut body);
    let mut src = body.freeze();
    let (groups, _) = decode_offset_fetch_multi(&mut src, 10).unwrap();
    let topics = match &groups[0].ask {
        OffsetAsk::Listed(t) => t,
        _ => panic!("topics were listed"),
    };
    assert!(matches!(topics[0].wire, TopicWireId::Uuid(u) if u == [0x44; 16]));
    assert!(offset_query(&catalog(), topics).is_empty());
    let told = asked_offsets(&catalog(), topics, &vec![]);
    assert_eq!(told[0].rows[0].partition, 6);
    assert_eq!(told[0].rows[0].offset, -1);
    assert_eq!(told[0].rows[0].error, KafkaErrorCode::UnknownTopicId.as_i16());
}

#[test]
fn offset_delete_rows() {
    let mut body = BytesMut::new();
    put_string(&mut body, "g");
    body.put_i32(1);
    put_string(&mut body, "events");
    body.put_i32(2);
    body.put_i32(0);
    body.put_i32(1);
    let mut src = body.freeze();
    let req = decode_offset_delete(&mut src).unwrap();
    assert_eq!(req.group_id, "g");
    assert_eq!(
        delete_pairs(&req.topics),
        vec![("events".to_string(), 0), ("events".to_string(), 1)]
    );
    let code = |d: OffsetDeletion| delete_rows(&req.topics, d)[0].rows[1].error;
    assert_eq!(code(OffsetDeletion::Done), 0);
    assert_eq!(code(OffsetDeletion::Failed), KafkaErrorCode::Unknown.as_i16());
    assert_eq!(
        code(OffsetDeletion::Denied),
        KafkaErrorCode::GroupAuthorizationFailed.as_i16()
    );
    let mut out = BytesMut::new();
    encode_offset_delete(&mut out, 0, &delete_rows(&req.topics, OffsetDeletion::Done));
    let mut resp = out.freeze();
    assert_eq!(resp.get_i16(), 0);
    assert_eq!(resp.get_i32(), 0);
    assert_eq!(resp.get_i32(), 1);
    assert_eq!(get_string(&mut resp).unwrap(), "events");
    assert_eq!(resp.get_i32(), 2);
    assert!(decode_offset_delete(&mut Bytes::new()).is_none());
}

// ---------------------------------------------------------------------------
// ListGroups, DescribeGroups, ConsumerGroupDescribe, DeleteGroups
// ---------------------------------------------------------------------------

fn some_groups() -> Vec<ListedGroup> {
    vec![
        ListedGroup { group_id: "a".to_string(), state: "Stable".to_string() },
        ListedGroup { group_id: "b".to_string(), state: "Empty".to_string() },
    ]
}

fn filter(states: &[&str], types: &[&str]) -> GroupFilter {
    GroupFilter {
        states: states.iter().map(|s| s.to_string()).collect(),
        types: types.iter().map(|s| s.to_string()).collect(),
    }
}

#[test]
fn groups_are_listed_by_state_and_type() {
    assert_eq!(listed_groups(some_groups(), &filter(&[], &[])).len(), 2);
    let stable = listed_groups(some_groups(), &filter(&["stable"], &[]));
    assert_eq!(stable.len(), 1);
    assert_eq!(stable[0].group_id, "a");
    assert!(listed_groups(some_groups(), &filter(&[], &["share"])).is_empty());
    assert_eq!(listed_groups(some_groups(), &filter(&[], &["Classic"])).len(), 2);

    let mut out = BytesMut::new();
    encode_list_groups(&mut out, 0, true, &some_groups());
    let mut resp = out.freeze();
    assert_eq!(resp.get_i16(), 0);
    assert_eq!(resp.get_i32(), 2);
    assert_eq!(get_string(&mut resp).unwrap(), "a");
    assert_eq!(get_string(&mut resp).unwrap(), "consumer");

    let mut out = BytesMut::new();
    encode_list_groups(&mut out, 0, false, &some_groups());
    let mut resp = out.freeze();
    assert_eq!(resp.get_i16(), KafkaErrorCode::ClusterAuthorizationFailed.as_i16());
    assert_eq!(resp.get_i32(), 0);

    let mut body = BytesMut::new();
    put_compact_array_len(&mut body, 1);
    put_compact_string(&mut body, "Empty");
    put_empty_tag_buffer(&mut body);
    let read = decode_list_groups(&mut body.freeze(), 4);
    assert_eq!(read.states, vec!["Empty".to_string()]);
    assert!(read.types.is_empty());
}

fn active(group: &str) -> GroupStanding {
    GroupStanding::Active(GroupDescription {
        group_id: group.to_string(),
        state: "Stable".to_string(),
        generation: 5,
        members: vec![GroupMember {
            member_id: "m".to_string(),
            topics: vec!["events".to_string()],
            assignment: vec![("logs".to_string(), 1), ("events".to_string(), 0)],
        }],
    })
}

#[test]
fn described_groups() {
    let d = described_group("g".to_string(), active("g"), -1);
    assert_eq!(d.error, 0);
    assert_eq!(d.state, "Stable");
    assert_eq!(d.protocol_type, "consumer");
    assert_eq!(d.members.len(), 1);
    let d = described_group("g".to_string(), GroupStanding::Empty, -1);
    assert_eq!((d.error, d.state.as_str()), (0, "Empty"));
    let d = described_group("g".to_string(), GroupStanding::Denied, -1);
    assert_eq!(d.error, KafkaErrorCode::GroupAuthorizationFailed.as_i16());
    let absent = described_group("g".to_string(), GroupStanding::Absent, -1);
    assert_eq!(absent.state, "Dead");

    let mut body = BytesMut::new();
    body.put_i32(2);
    put_string(&mut body, "a");
    put_string(&mut body, "b");
    body.put_u8(1);
    let (ids, wanted) = decode_describe_groups(&mut body.freeze(), 3);
    assert_eq!(ids, vec!["a".to_string(), "b".to_string()]);
    assert!(wanted);

    let mut out = BytesMut::new();
    encode_describe_groups(&mut out, 3, &vec![described_group("g".into(), active("g"), 8)]);
    let mut resp = out.freeze();
    assert_eq!(resp.get_i32(), 0);
    assert_eq!(resp.get_i32(), 1);
    assert_eq!(resp.get_i16(), 0);
    assert_eq!(get_string(&mut resp).unwrap(), "g");
    assert_eq!(get_string(&mut resp).unwrap(), "Stable");
}

#[test]
fn authorized_operations_are_bits() {
    let all = GroupOps { read: true, delete: true, describe: true };
    assert_eq!(group_authorized_ops(true, all), (1 << 3) | (1 << 6) | (1 << 8));
    let read = GroupOps { read: true, delete: false, describe: false };
    assert_eq!(group_authorized_ops(true, read), 1 << 3);
    let read = GroupOps { read: true, delete: false, describe: false };
    assert_eq!(group_authorized_ops(false, read), i32::MIN);
    assert_eq!(authorized_ops_field(false), i32::MIN);
}

#[test]
fn consumer_groups_are_described_with_topic_ids() {
    let assigned = assigned_topics(
        &catalog(),
        &vec![("logs".into(), 1), ("events".into(), 0), ("logs".into(), 0)],
    );
    assert_eq!(assigned.len(), 2);
    assert_eq!(assigned[0].name, "events");
    assert_eq!(assigned[0].topic_id, uuid_for_numeric_id(7));
    assert_eq!(assigned[0].parts, vec![0]);
    assert_eq!(assigned[1].name, "logs");
    let d = described_consumer_group(&catalog(), "g".to_string(), active("g"), false);
    assert_eq!(d.error, 0);
    assert_eq!(d.epoch, 5);
    assert_eq!(d.members[0].assignment.len(), 2);
    let gone = described_consumer_group(&catalog(), "g".to_string(), GroupStanding::Absent, false);
    assert_eq!(gone.error, KafkaErrorCode::GroupIdNotFound.as_i16());
    let denied =
        described_consumer_group(&catalog(), "g".to_string(), GroupStanding::Denied, false);
    assert_eq!(denied.error, KafkaErrorCode::GroupAuthorizationFailed.as_i16());
    let mut body = BytesMut::new();
    put_compact_array_len(&mut body, 1);
    put_compact_string(&mut body, "g");
    body.put_u8(0);
    put_empty_tag_buffer(&mut body);
    let (ids, wanted) = decode_consumer_group_describe(&mut body.freeze());
    assert_eq!((ids, wanted), (vec!["g".to_string()], false));
    let mut out = BytesMut::new();
    encode_consumer_group_describe(&mut out, &vec![d]);
    let mut resp = out.freeze();
    assert_eq!(resp.get_i32(), 0);
    assert_eq!(get_compact_array_len(&mut resp).unwrap(), Some(1));
    assert_eq!(resp.get_i16(), 0);
    assert_eq!(get_compact_nullable_string(&mut resp).unwrap(), None);
    assert_eq!(get_compact_string(&mut resp).unwrap(), "g");
    assert_eq!(get_compact_string(&mut resp).unwrap(), "Stable");
    assert_eq!(resp.get_i32(), 5);
}

#[test]
fn groups_are_deleted() {
    let mut body = BytesMut::new();
    body.put_i32(1);
    put_string(&mut body, "g");
    assert_eq!(decode_delete_groups(&mut body.freeze(), 0), vec!["g".to_string()]);
    let done = deleted_group("g".to_string(), true, Some(0));
    assert_eq!(done.error, 0);
    assert_eq!(done.message, None);
    let denied = deleted_group("g".to_string(), false, None);
    assert_eq!(denied.error, KafkaErrorCode::GroupAuthorizationFailed.as_i16());
    let failed = deleted_group("g".to_string(), true, None);
    assert_ne!(failed.error, 0);
    let mut out = BytesMut::new();
    encode_delete_groups(&mut out, 0, &vec![done, denied]);
    let mut resp = out.freeze();
    assert_eq!(resp.get_i32(), 0);
    assert_eq!(resp.get_i32(), 2);
    assert_eq!(get_string(&mut resp).unwrap(), "g");
    assert_eq!(resp.get_i16(), 0);
}

#[test]
fn what_is_known_of_a_group() {
    let held = || GroupDescription {
        group_id: "g".to_string(),
        state: "Stable".to_string(),
        generation: 5,
        members: vec![],
    };
    assert!(matches!(group_standing(false, Some(held()), true), GroupStanding::Denied));
    assert!(matches!(group_standing(true, Some(held()), false), GroupStanding::Active(_)));
    assert!(matches!(group_standing(true, None, true), GroupStanding::Empty));
    assert!(matches!(group_standing(true, None, false), GroupStanding::Absent));
}
