//! Reassignments, elections, and brokers that leave.

use bytes::{Buf, BufMut, Bytes, BytesMut};
use volant_kafka::admin::{Majority, Verdict};
use volant_kafka::api::KafkaErrorCode;
use volant_kafka::cluster_admin::{
    decode_update_features, encode_update_features, features_verdict,
};
use volant_kafka::codec::{
    get_compact_array_len, get_compact_nullable_string, get_compact_string, put_compact_array_len,
    put_compact_string, put_empty_tag_buffer, put_unsigned_varint, skip_tag_buffer,
};
use volant_kafka::error::Error;
use volant_kafka::message::TopicOut;
use volant_kafka::reassignment::{
    after_election, after_reassign, after_unregister, check_controller,
    decode_alter_partition_reassignments, decode_elect_leaders,
    decode_list_partition_reassignments, decode_unregister_broker, election_plan,
    encode_alter_partition_reassignments, encode_elect_leaders,
    encode_list_partition_reassignments, encode_unregister_broker, held_rows,
    list_partition_indexes, list_verdict, named_rows, reassign_step, refuse_election,
    refuse_unregister, Election, ElectionPlan, HeldPartition, PartVerdict, ReassignPart, ReassignRow,
    ReassignStep,
};

/// The topic of a broker whose only topics are these, each held by the broker 1.
fn held(topic: &str, known: &[(&str, u32)]) -> Option<Vec<HeldPartition>> {
    known.iter().find(|t| t.0 == topic).map(|t| {
        (0..t.1)
            .map(|p| HeldPartition { partition: p, replicas: vec![1] })
            .collect()
    })
}

fn alter_body(topic: &str, partition: i32, replicas: Option<&[i32]>) -> Bytes {
    let mut body = BytesMut::new();
    body.put_i32(5_000);
    put_compact_array_len(&mut body, 1);
    put_compact_string(&mut body, topic);
    put_compact_array_len(&mut body, 1);
    body.put_i32(partition);
    match replicas {
        None => put_unsigned_varint(&mut body, 0),
        Some(ids) => {
            put_compact_array_len(&mut body, ids.len());
            for &id in ids {
                body.put_i32(id);
            }
        }
    }
    put_empty_tag_buffer(&mut body);
    put_empty_tag_buffer(&mut body);
    put_empty_tag_buffer(&mut body);
    body.freeze()
}

fn read_part_result(src: &mut Bytes) -> (i16, i16, Option<String>) {
    assert_eq!(src.get_i32(), 0);
    let top = src.get_i16();
    let _ = get_compact_nullable_string(src).unwrap();
    assert_eq!(get_compact_array_len(src).unwrap(), Some(1));
    let _name = get_compact_string(src).unwrap();
    assert_eq!(get_compact_array_len(src).unwrap(), Some(1));
    let _pid = src.get_i32();
    let code = src.get_i16();
    let msg = get_compact_nullable_string(src).unwrap();
    (top, code, msg)
}

/// A broker with the topic `events` of one partition, in a cluster of the broker 1 alone.
fn alter(mut src: Bytes, moved: &mut Vec<(String, i32, Vec<u32>)>) -> Bytes {
    let topics = decode_alter_partition_reassignments(&mut src);
    let top = check_controller(None);
    let mut rows = Vec::new();
    for t in topics {
        let known = held(&t.name, &[("events", 1)]).map(|h| h.len());
        let mut parts = Vec::new();
        for p in t.parts {
            let verdict = match reassign_step(&p, true, known) {
                ReassignStep::Refuse(v) => v,
                ReassignStep::Move(ids) => after_reassign(if known.is_none() {
                    Err(Error::NotFound(t.name.clone()))
                } else if ids != [1] {
                    Err(Error::InvalidArgument("replica 99 is not a broker".to_string()))
                } else {
                    moved.push((t.name.clone(), p.partition, ids));
                    Ok(Majority::Reached)
                }),
            };
            parts.push(PartVerdict { partition: p.partition, verdict });
        }
        rows.push(TopicOut { name: t.name, rows: parts });
    }
    let mut out = BytesMut::new();
    encode_alter_partition_reassignments(&mut out, &top, &rows);
    out.freeze()
}

#[test]
fn kafka_alter_reassign_hits_native_path() {
    let mut moved = Vec::new();
    let mut resp = alter(alter_body("events", 0, Some(&[1])), &mut moved);
    let (top, code, _) = read_part_result(&mut resp);
    assert_eq!(top, 0);
    assert_eq!(code, 0);
    assert_eq!(moved, vec![("events".to_string(), 0, vec![1])]);
}

#[test]
fn kafka_alter_reassign_cancel_is_83() {
    let mut moved = Vec::new();
    let mut resp = alter(alter_body("events", 0, None), &mut moved);
    let (top, code, _) = read_part_result(&mut resp);
    assert_eq!(top, 0);
    assert_eq!(code, KafkaErrorCode::NoReassignmentInProgress.as_i16());
    assert_eq!(code, 83);
    assert!(moved.is_empty());
}

#[test]
fn kafka_alter_reassign_unknown_topic_and_bad_replica() {
    let mut moved = Vec::new();
    let mut resp = alter(alter_body("missing", 0, Some(&[1])), &mut moved);
    let (top, code, _) = read_part_result(&mut resp);
    assert_eq!(top, 0);
    assert_eq!(code, KafkaErrorCode::UnknownTopicOrPartition.as_i16());

    let mut resp = alter(alter_body("events", 0, Some(&[99])), &mut moved);
    let (top, code, msg) = read_part_result(&mut resp);
    assert_eq!(top, 0);
    assert_eq!(code, KafkaErrorCode::InvalidReplicaAssignment.as_i16());
    assert_eq!(msg.as_deref(), Some("replica 99 is not a broker"));
    assert!(moved.is_empty());
}

fn list_body_topic(topic: &str, partitions: &[i32]) -> Bytes {
    let mut body = BytesMut::new();
    body.put_i32(5_000);
    put_compact_array_len(&mut body, 1);
    put_compact_string(&mut body, topic);
    put_compact_array_len(&mut body, partitions.len());
    for &p in partitions {
        body.put_i32(p);
    }
    put_empty_tag_buffer(&mut body);
    put_empty_tag_buffer(&mut body);
    body.freeze()
}

fn list_body_all() -> Bytes {
    let mut body = BytesMut::new();
    body.put_i32(5_000);
    put_unsigned_varint(&mut body, 0);
    put_empty_tag_buffer(&mut body);
    body.freeze()
}

fn read_ids(src: &mut Bytes) -> Vec<i32> {
    let n = get_compact_array_len(src).unwrap().unwrap_or(0);
    (0..n).map(|_| src.get_i32()).collect()
}

fn read_list_part(src: &mut Bytes) -> (i32, Vec<i32>, Vec<i32>, Vec<i32>, i16) {
    let pid = src.get_i32();
    let replicas = read_ids(src);
    let adding = read_ids(src);
    let removing = read_ids(src);
    let code = src.get_i16();
    let _ = get_compact_nullable_string(src).unwrap();
    let _ = skip_tag_buffer(src);
    (pid, replicas, adding, removing, code)
}

fn list(mut src: Bytes, known: &[(&str, u32)], controller: Option<u32>) -> Bytes {
    let asked = decode_list_partition_reassignments(&mut src);
    let top = list_verdict(controller, asked.is_none(), true);
    let mut rows: Vec<TopicOut<ReassignRow>> = Vec::new();
    if top.error == 0 {
        match asked {
            None => {
                for (name, _) in known {
                    rows.push(TopicOut {
                        name: name.to_string(),
                        rows: held_rows(held(name, known).unwrap()),
                    });
                }
            }
            Some(topics) => {
                for t in topics {
                    let found = held(&t.name, known);
                    rows.push(TopicOut { rows: named_rows(&t.parts, true, &found), name: t.name });
                }
            }
        }
    }
    let mut out = BytesMut::new();
    encode_list_partition_reassignments(&mut out, &top, &rows);
    out.freeze()
}

#[test]
fn kafka_list_reassign_current_replicas_empty_adding_removing() {
    let mut resp = list(list_body_topic("events", &[0]), &[("events", 1)], None);
    assert_eq!(resp.get_i32(), 0);
    assert_eq!(resp.get_i16(), 0);
    assert_eq!(get_compact_nullable_string(&mut resp).unwrap(), None);
    assert_eq!(get_compact_array_len(&mut resp).unwrap(), Some(1));
    assert_eq!(get_compact_string(&mut resp).unwrap(), "events");
    assert_eq!(get_compact_array_len(&mut resp).unwrap(), Some(1));
    let (pid, replicas, adding, removing, code) = read_list_part(&mut resp);
    assert_eq!(pid, 0);
    assert_eq!(replicas, vec![1]);
    assert!(adding.is_empty());
    assert!(removing.is_empty());
    assert_eq!(code, 0);
}

#[test]
fn kafka_list_reassign_topics_null_lists_all() {
    let mut resp = list(list_body_all(), &[("events", 1), ("logs", 2)], None);
    assert_eq!(resp.get_i32(), 0);
    assert_eq!(resp.get_i16(), 0);
    let _ = get_compact_nullable_string(&mut resp).unwrap();
    let n = get_compact_array_len(&mut resp).unwrap().unwrap();
    let mut seen = std::collections::HashSet::new();
    for _ in 0..n {
        let name = get_compact_string(&mut resp).unwrap();
        let pc = get_compact_array_len(&mut resp).unwrap().unwrap();
        for _ in 0..pc {
            let (pid, _r, adding, removing, code) = read_list_part(&mut resp);
            assert!(adding.is_empty());
            assert!(removing.is_empty());
            assert_eq!(code, 0);
            seen.insert((name.clone(), pid));
        }
        let _ = skip_tag_buffer(&mut resp);
    }
    assert!(seen.contains(&("events".into(), 0)));
    assert!(seen.contains(&("logs".into(), 0)));
    assert!(seen.contains(&("logs".into(), 1)));
}

#[test]
fn kafka_list_reassign_unknown_topic_is_3() {
    let mut resp = list(list_body_topic("missing", &[0]), &[], None);
    assert_eq!(resp.get_i32(), 0);
    assert_eq!(resp.get_i16(), 0);
    let _ = get_compact_nullable_string(&mut resp).unwrap();
    assert_eq!(get_compact_array_len(&mut resp).unwrap(), Some(1));
    assert_eq!(get_compact_string(&mut resp).unwrap(), "missing");
    assert_eq!(get_compact_array_len(&mut resp).unwrap(), Some(1));
    let (_pid, replicas, adding, removing, code) = read_list_part(&mut resp);
    assert!(replicas.is_empty());
    assert!(adding.is_empty());
    assert!(removing.is_empty());
    assert_eq!(code, KafkaErrorCode::UnknownTopicOrPartition.as_i16());
}

#[test]
fn kafka_list_reassign_not_controller_is_41() {
    let mut resp = list(list_body_all(), &[("events", 1)], Some(1));
    assert_eq!(resp.get_i32(), 0);
    assert_eq!(resp.get_i16(), KafkaErrorCode::NotController.as_i16());
    let _ = get_compact_nullable_string(&mut resp).unwrap();
    assert_eq!(get_compact_array_len(&mut resp).unwrap(), Some(0));
}

fn elect_body_v1(topic: &str, partition: i32, election_type: i8) -> Bytes {
    let mut body = BytesMut::new();
    body.put_i8(election_type);
    body.put_i32(5_000);
    put_compact_array_len(&mut body, 1);
    put_compact_string(&mut body, topic);
    put_compact_array_len(&mut body, 1);
    body.put_i32(partition);
    put_empty_tag_buffer(&mut body);
    put_empty_tag_buffer(&mut body);
    body.freeze()
}

fn read_elect_part_v1(src: &mut Bytes) -> (i16, i32, i16) {
    assert_eq!(src.get_i32(), 0);
    let top = src.get_i16();
    assert_eq!(get_compact_array_len(src).unwrap(), Some(1));
    let _name = get_compact_string(src).unwrap();
    assert_eq!(get_compact_array_len(src).unwrap(), Some(1));
    let pid = src.get_i32();
    let code = src.get_i16();
    let _ = get_compact_nullable_string(src).unwrap();
    (top, pid, code)
}

fn elect(mut src: Bytes, elections: &mut usize) -> Bytes {
    let req = decode_elect_leaders(&mut src, 1);
    let mut rows = Vec::new();
    for t in req.topics.unwrap() {
        let mut parts = Vec::new();
        for p in t.parts {
            let known = t.name == "events" && p == 0;
            let verdict = match refuse_election(p, req.election_type, true, known) {
                Some(v) => v,
                None => {
                    *elections += 1;
                    after_election(Ok(Election::Unchanged))
                }
            };
            parts.push(PartVerdict { partition: p, verdict });
        }
        rows.push(TopicOut { name: t.name, rows: parts });
    }
    let mut out = BytesMut::new();
    encode_elect_leaders(&mut out, 1, 0, &rows);
    out.freeze()
}

#[test]
fn kafka_elect_leaders_preferred_already_leader() {
    let mut elections = 0;
    let mut resp = elect(elect_body_v1("events", 0, 0), &mut elections);
    let (top, pid, code) = read_elect_part_v1(&mut resp);
    assert_eq!(top, 0);
    assert_eq!(pid, 0);
    assert_eq!(code, 0);
    assert_eq!(elections, 1);
}

#[test]
fn kafka_elect_leaders_unclean_is_87() {
    let mut elections = 0;
    let mut resp = elect(elect_body_v1("events", 0, 1), &mut elections);
    let (top, pid, code) = read_elect_part_v1(&mut resp);
    assert_eq!(top, 0);
    assert_eq!(pid, 0);
    assert_eq!(code, KafkaErrorCode::EligibleLeadersNotAvailable.as_i16());
    assert_eq!(elections, 0);
}

fn unregister_body(broker_id: i32) -> Bytes {
    let mut body = BytesMut::new();
    body.put_i32(broker_id);
    put_empty_tag_buffer(&mut body);
    body.freeze()
}

fn unregister(
    mut src: Bytes,
    cluster: bool,
    controller: Option<u32>,
    members: &mut Vec<u32>,
) -> Bytes {
    let broker = decode_unregister_broker(&mut src);
    let verdict = match refuse_unregister(broker, true, cluster, controller) {
        Some(v) => v,
        None => {
            let id = broker.unwrap() as u32;
            let found = members.contains(&id);
            members.retain(|m| *m != id);
            if found {
                after_unregister(Ok(()), "")
            } else {
                after_unregister(Err(Error::NotFound(format!("{id}"))), "not found")
            }
        }
    };
    let mut out = BytesMut::new();
    encode_unregister_broker(&mut out, &verdict);
    out.freeze()
}

#[test]
fn kafka_unregister_broker_extra_id() {
    let mut members = vec![1, 2, 3];
    let mut resp = unregister(unregister_body(3), true, None, &mut members);
    assert_eq!(resp.get_i32(), 0);
    assert_eq!(resp.get_i16(), 0);
    assert_eq!(get_compact_nullable_string(&mut resp).unwrap(), None);
    assert!(!members.contains(&3));
}

#[test]
fn kafka_unregister_broker_not_controller_is_41() {
    let mut members = vec![1, 2];
    let mut resp = unregister(unregister_body(1), true, Some(1), &mut members);
    assert_eq!(resp.get_i32(), 0);
    assert_eq!(resp.get_i16(), KafkaErrorCode::NotController.as_i16());
    assert_eq!(members, vec![1, 2]);
}

#[test]
fn kafka_unregister_broker_no_cluster_is_42() {
    let mut members = Vec::new();
    let mut resp = unregister(unregister_body(2), false, None, &mut members);
    assert_eq!(resp.get_i32(), 0);
    assert_eq!(resp.get_i16(), KafkaErrorCode::InvalidRequest.as_i16());
    assert_eq!(
        get_compact_nullable_string(&mut resp).unwrap().as_deref(),
        Some("unregister requires cluster")
    );
}

#[test]
fn kafka_update_features_rejects_and_does_not_persist() {
    let mut body = BytesMut::new();
    body.put_i32(5_000);
    put_compact_array_len(&mut body, 1);
    put_compact_string(&mut body, "metadata.version");
    body.put_i16(1);
    body.put_u8(0);
    put_empty_tag_buffer(&mut body);
    put_empty_tag_buffer(&mut body);
    let mut src = body.freeze();
    let features = decode_update_features(&mut src);
    let mut out = BytesMut::new();
    encode_update_features(&mut out, &features_verdict(None, true), &features);
    let mut resp = out.freeze();
    assert_eq!(resp.get_i32(), 0);
    assert_eq!(resp.get_i16(), 0);
    let _ = get_compact_nullable_string(&mut resp).unwrap();
    assert_eq!(get_compact_array_len(&mut resp).unwrap(), Some(1));
    assert_eq!(get_compact_string(&mut resp).unwrap(), "metadata.version");
    assert_eq!(resp.get_i16(), KafkaErrorCode::FeatureUpdateFailed.as_i16());
}

fn shown(v: Verdict) -> (i16, Option<String>) {
    (v.error, v.message)
}

#[test]
fn features_are_refused_by_verdict() {
    assert_eq!(features_verdict(None, true).error, 0);
    assert_eq!(
        features_verdict(Some(4), true).error,
        KafkaErrorCode::NotController.as_i16()
    );
    assert_eq!(
        features_verdict(None, false).error,
        KafkaErrorCode::ClusterAuthorizationFailed.as_i16()
    );
}

#[test]
fn reassign_errors_by_text() {
    let code = |text: &str| after_reassign(Err(Error::InvalidArgument(text.to_string()))).error;
    assert_eq!(code("not controller (controller id 2)"), KafkaErrorCode::NotController.as_i16());
    assert_eq!(
        code("partition 7 out of range"),
        KafkaErrorCode::UnknownTopicOrPartition.as_i16()
    );
    assert_eq!(code("reassign requires cluster"), KafkaErrorCode::InvalidRequest.as_i16());
    assert_eq!(
        code("a not controller text"),
        KafkaErrorCode::InvalidReplicaAssignment.as_i16()
    );
    assert_eq!(
        shown(after_reassign(Err(Error::Other("disk".to_string())))),
        (KafkaErrorCode::Unknown.as_i16(), None)
    );
    assert_ne!(after_reassign(Ok(Majority::Missed)).error, 0);
    assert_ne!(after_reassign(Ok(Majority::Failed)).error, 0);
}

#[test]
fn reassign_steps_before_the_broker_is_told() {
    let part = |partition: i32, replicas: Option<Vec<i32>>| ReassignPart { partition, replicas };
    let refused = |s: ReassignStep| match s {
        ReassignStep::Refuse(v) => v.error,
        ReassignStep::Move(ids) => panic!("{ids:?}"),
    };
    assert_eq!(
        refused(reassign_step(&part(0, Some(vec![1])), false, Some(1))),
        KafkaErrorCode::TopicAuthorizationFailed.as_i16()
    );
    assert_eq!(
        refused(reassign_step(&part(-1, Some(vec![1])), true, Some(1))),
        KafkaErrorCode::UnknownTopicOrPartition.as_i16()
    );
    assert_eq!(
        refused(reassign_step(&part(1, None), true, Some(1))),
        KafkaErrorCode::UnknownTopicOrPartition.as_i16()
    );
    assert_eq!(
        refused(reassign_step(&part(0, Some(vec![1, -2])), true, Some(1))),
        KafkaErrorCode::InvalidReplicaAssignment.as_i16()
    );
    assert!(matches!(
        reassign_step(&part(5, Some(vec![3, 1])), true, None),
        ReassignStep::Move(ids) if ids == [3, 1]
    ));
}

#[test]
fn asked_partitions_or_all_of_them() {
    let known = held("logs", &[("logs", 3)]).unwrap();
    assert_eq!(list_partition_indexes(&vec![], &known), vec![0, 1, 2]);
    assert_eq!(list_partition_indexes(&vec![2, 9], &known), vec![2, 9]);
    let rows = named_rows(&vec![2, 9, -1], true, &Some(known));
    assert_eq!(rows[0].replicas, vec![1]);
    assert_eq!(rows[0].verdict.error, 0);
    assert_eq!(rows[1].verdict.error, KafkaErrorCode::UnknownTopicOrPartition.as_i16());
    assert_eq!(rows[2].verdict.error, KafkaErrorCode::UnknownTopicOrPartition.as_i16());
    let rows = named_rows(&vec![0], false, &held("logs", &[("logs", 3)]));
    assert_eq!(rows[0].verdict.error, KafkaErrorCode::TopicAuthorizationFailed.as_i16());
    assert!(rows[0].replicas.is_empty());
}

#[test]
fn elections_refused_and_carried_out() {
    let code = |v: Option<Verdict>| v.unwrap().error;
    assert_eq!(
        code(refuse_election(0, 0, false, true)),
        KafkaErrorCode::TopicAuthorizationFailed.as_i16()
    );
    assert_eq!(
        code(refuse_election(-1, 0, true, true)),
        KafkaErrorCode::UnknownTopicOrPartition.as_i16()
    );
    assert!(refuse_election(0, 0, true, true).is_none());
    assert_eq!(after_election(Ok(Election::Changed(Majority::Reached))).error, 0);
    assert_ne!(after_election(Ok(Election::Changed(Majority::Missed))).error, 0);
    assert_ne!(after_election(Err(Error::Other("x".to_string()))).error, 0);
}

#[test]
fn all_topics_are_meant_where_none_are_named() {
    let mut body = BytesMut::new();
    body.put_i32(1_000);
    body.put_i32(-1);
    let mut src = body.freeze();
    let req = decode_elect_leaders(&mut src, 0);
    assert!(req.topics.is_none());
    assert_eq!(req.election_type, 0);
}

#[test]
fn unregister_errors() {
    assert_eq!(
        refuse_unregister(Some(2), false, true, None).unwrap().error,
        KafkaErrorCode::ClusterAuthorizationFailed.as_i16()
    );
    assert_eq!(
        refuse_unregister(None, true, true, None).unwrap().error,
        KafkaErrorCode::InvalidRequest.as_i16()
    );
    assert!(refuse_unregister(Some(2), true, true, None).is_none());
    let failed = after_unregister(Err(Error::Other("boom".to_string())), "storage: boom");
    assert_ne!(failed.error, 0);
}

#[test]
fn elections_are_for_the_topics_asked_or_all() {
    let topic = |name: &str| volant_kafka::message::LooseTopic {
        name: name.to_string(),
        parts: vec![0, 1],
    };
    let names = |p: ElectionPlan| match p {
        ElectionPlan::Elect(topics) => topics.into_iter().map(|t| t.name).collect::<Vec<String>>(),
        ElectionPlan::Refuse(code) => vec![code.to_string()],
    };
    let elsewhere = election_plan(Some(3), Some(vec![topic("a")]), vec![topic("b")]);
    assert_eq!(names(elsewhere), vec!["41"]);
    assert_eq!(names(election_plan(None, Some(vec![topic("a")]), vec![topic("b")])), vec!["a"]);
    assert_eq!(names(election_plan(None, None, vec![topic("b"), topic("c")])), vec!["b", "c"]);
}
