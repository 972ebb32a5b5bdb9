//! Fetch sessions: epochs, eviction, mirrors and what is written down of them.

use serde_json::Value;
use volant_kafka::fetch_session::{
    decode_session_owner, encode_session_id, next_epoch, session_claim_wins, session_is_newer,
    session_local_part, FetchSession, SessionMirrorOp, SessionPartition, SessionTopic, Topics,
    DEFAULT_IDLE_TIMEOUT_MS, DEFAULT_MAX_SESSIONS, FETCH_SESSIONS_FILE_VERSION,
};
use volant_kafka::hex;
use volant_kafka::session_manager::FetchSessionManager;
use volant_kafka::stored_session::{
    session_to_stored, stored_to_session, StoredFetchSession, StoredFetchSessionsFile,
    StoredSessionPartition, StoredSessionTopic,
};
use volant_kafka::table::SortedMap;
use volant_kafka::topic_id::TopicWireId;

fn part(offset: i64) -> SessionPartition {
    SessionPartition::new(offset, -1, -1, 1_000_000)
}

fn no_topics() -> Topics {
    SortedMap::new()
}

fn topic_map(name: &str, offset: i64) -> Topics {
    let mut topics: Topics = SortedMap::new();
    let mut parts = SortedMap::new();
    parts.insert(0, part(offset));
    topics.insert(
        name.into(),
        SessionTopic {
            wire: TopicWireId::Name(name.into()),
            name: name.into(),
            partitions: parts,
        },
    );
    topics
}

fn partition<'a>(topics: &'a Topics, name: &str) -> &'a SessionPartition {
    topics.get(&name.to_string()).unwrap().partitions.get(&0).unwrap()
}

fn num<T: Into<serde_json::Number>>(n: T) -> Value {
    Value::Number(n.into())
}

fn opt<T: Into<serde_json::Number>>(n: Option<T>) -> Value {
    match n {
        Some(v) => num(v),
        None => Value::Null,
    }
}

fn text(s: &Option<String>) -> Value {
    match s {
        Some(v) => Value::String(v.clone()),
        None => Value::Null,
    }
}

fn to_json(s: &StoredFetchSession) -> Vec<u8> {
    let mut topics = Vec::new();
    for t in &s.topics {
        let mut parts = Vec::new();
        for p in &t.partitions {
            let mut o = serde_json::Map::new();
            o.insert("id".into(), num(p.id));
            o.insert("fetch_offset".into(), num(p.fetch_offset));
            o.insert("current_leader_epoch".into(), num(p.current_leader_epoch));
            o.insert("last_fetched_epoch".into(), num(p.last_fetched_epoch));
            o.insert("max_bytes".into(), num(p.max_bytes));
            o.insert("last_hwm".into(), opt(p.last_hwm));
            o.insert("last_lso".into(), opt(p.last_lso));
            parts.push(Value::Object(o));
        }
        let mut o = serde_json::Map::new();
        o.insert("key".into(), Value::String(t.key.clone()));
        o.insert("wire_kind".into(), Value::String(t.wire_kind.clone()));
        o.insert("wire_name".into(), text(&t.wire_name));
        o.insert("wire_uuid_hex".into(), text(&t.wire_uuid_hex));
        o.insert("name".into(), Value::String(t.name.clone()));
        o.insert("partitions".into(), Value::Array(parts));
        topics.push(Value::Object(o));
    }
    let mut o = serde_json::Map::new();
    o.insert("id".into(), num(s.id));
    o.insert("epoch".into(), num(s.epoch));
    o.insert("last_activity_ms".into(), num(s.last_activity_ms));
    o.insert("mirror_gen".into(), num(s.mirror_gen));
    o.insert("promoted_by".into(), num(s.promoted_by));
    o.insert("topics".into(), Value::Array(topics));
    serde_json::to_vec(&Value::Object(o)).unwrap()
}

fn whole(v: &Value, key: &str) -> Result<i64, String> {
    v[key].as_i64().ok_or_else(|| format!("missing field {key}"))
}

fn items(v: &Value, key: &str) -> Vec<Value> {
    v[key].as_array().cloned().unwrap_or_default()
}

fn from_json(bytes: &[u8]) -> Result<StoredFetchSession, String> {
    let v: Value = serde_json::from_slice(bytes).map_err(|e| e.to_string())?;
    let mut topics = Vec::new();
    for t in items(&v, "topics") {
        let mut partitions = Vec::new();
        for p in items(&t, "partitions") {
            partitions.push(StoredSessionPartition {
                id: whole(&p, "id")? as i32,
                fetch_offset: whole(&p, "fetch_offset")?,
                current_leader_epoch: whole(&p, "current_leader_epoch")? as i32,
                last_fetched_epoch: whole(&p, "last_fetched_epoch")? as i32,
                max_bytes: whole(&p, "max_bytes")? as usize,
                last_hwm: p["last_hwm"].as_i64(),
                last_lso: p["last_lso"].as_i64(),
            });
        }
        topics.push(StoredSessionTopic {
            key: t["key"].as_str().unwrap_or("").to_string(),
            wire_kind: t["wire_kind"].as_str().unwrap_or("").to_string(),
            wire_name: t["wire_name"].as_str().map(|s| s.to_string()),
            wire_uuid_hex: t["wire_uuid_hex"].as_str().map(|s| s.to_string()),
            name: t["name"].as_str().unwrap_or("").to_string(),
            partitions,
        });
    }
    Ok(StoredFetchSession {
        id: whole(&v, "id")? as i32,
        epoch: whole(&v, "epoch")? as i32,
        last_activity_ms: whole(&v, "last_activity_ms")?,
        mirror_gen: v["mirror_gen"].as_u64().unwrap_or(0),
        promoted_by: v["promoted_by"].as_u64().unwrap_or(0) as u32,
        topics,
    })
}

fn export(m: &FetchSessionManager, id: i32) -> Vec<u8> {
    to_json(&m.export_session(id).unwrap())
}

fn put(m: &mut FetchSessionManager, bytes: &[u8]) -> Result<(), String> {
    let stored = from_json(bytes)?;
    m.apply_mirror_put(&stored)
}

/// Puts a mirror in place whatever is there already.
fn inject(m: &mut FetchSessionManager, bytes: &[u8]) {
    let file = StoredFetchSessionsFile {
        version: FETCH_SESSIONS_FILE_VERSION,
        next_id: 1,
        sessions: vec![from_json(bytes).unwrap()],
    };
    m.restore_mirrors(&file, 0);
}

#[test]
fn create_and_incremental_epoch() {
    let mut mgr = FetchSessionManager::with_limits(0, 0);
    let id = mgr.create_at(no_topics(), 1_000);
    assert!(id > 0);
    assert!(mgr.begin_incremental_at(id, 1, 1_100).is_ok());
    assert!(mgr.begin_incremental_at(id, 2, 1_200).is_ok());
    assert_eq!(mgr.begin_incremental_at(id, 2, 1_300), Err(71));
    assert_eq!(mgr.begin_incremental_at(id + 99, 1, 1_400), Err(70));
    mgr.close(id);
    assert_eq!(mgr.begin_incremental_at(id, 3, 1_500), Err(70));
}

#[test]
fn next_epoch_wrap() {
    assert_eq!(next_epoch(0), 1);
    assert_eq!(next_epoch(1), 2);
    assert_eq!(next_epoch(i32::MAX), 1);
    assert_eq!(next_epoch(-1), -1);
}

#[test]
fn omit_unchanged_requires_matching_hwm_lso() {
    let mut p = part(0);
    assert!(!p.should_omit_unchanged(1, 1, true, 0));
    p.last_hwm = Some(1);
    p.last_lso = Some(1);
    assert!(p.should_omit_unchanged(1, 1, true, 0));
    assert!(!p.should_omit_unchanged(2, 1, true, 0));
    assert!(!p.should_omit_unchanged(1, 2, true, 0));
    assert!(!p.should_omit_unchanged(1, 1, false, 0));
    assert!(!p.should_omit_unchanged(1, 1, true, 1));
}

#[test]
fn note_returned_and_merge_preserves_cache() {
    let mut mgr = FetchSessionManager::with_limits(0, 0);
    let id = mgr.create_at(topic_map("t", 0), 1_000);
    mgr.note_returned(id, "t", 0, 5, 5);
    let snap = mgr.snapshot_topics(id);
    assert_eq!(partition(&snap, "t").last_hwm, Some(5));
    assert_eq!(partition(&snap, "t").last_lso, Some(5));

    mgr.merge_topics(id, &topic_map("t", 5));
    let snap = mgr.snapshot_topics(id);
    assert_eq!(partition(&snap, "t").fetch_offset, 5);
    assert_eq!(partition(&snap, "t").last_hwm, Some(5));
}

#[test]
fn idle_ttl_evicts_then_incremental_is_70() {
    let mut mgr = FetchSessionManager::with_limits(100, 0);
    let id = mgr.create_at(no_topics(), 1_000);
    assert_eq!(mgr.active_count(), 1);
    assert!(mgr.begin_incremental_at(id, 1, 1_050).is_ok());
    assert_eq!(mgr.begin_incremental_at(id, 2, 1_200), Err(70));
    assert_eq!(mgr.active_count(), 0);
    assert!(mgr.evicted_total() >= 1);
}

#[test]
fn max_sessions_evicts_lru() {
    let mut mgr = FetchSessionManager::with_limits(0, 2);
    let a = mgr.create_at(no_topics(), 1_000);
    let b = mgr.create_at(no_topics(), 1_100);
    assert_eq!(mgr.active_count(), 2);
    assert!(mgr.begin_incremental_at(b, 1, 1_200).is_ok());
    let c = mgr.create_at(no_topics(), 1_300);
    assert_eq!(mgr.active_count(), 2);
    assert_eq!(mgr.begin_incremental_at(a, 1, 1_400), Err(70));
    assert!(mgr.begin_incremental_at(b, 2, 1_500).is_ok());
    assert!(mgr.begin_incremental_at(c, 1, 1_600).is_ok());
    assert!(mgr.evicted_total() >= 1);
}

#[test]
fn idle_disabled_with_zero() {
    let mut mgr = FetchSessionManager::with_limits(0, 0);
    let id = mgr.create_at(no_topics(), 1_000);
    assert!(mgr.begin_incremental_at(id, 1, 9_999_999).is_ok());
}

#[test]
fn durable_roundtrip_restores_epoch_and_omit_cache() {
    let mut mgr = FetchSessionManager::with_limits(0, 0);
    let id = mgr.create_at(topic_map("orders", 1), 1_000);
    mgr.note_returned(id, "orders", 0, 7, 7);
    assert!(mgr.begin_incremental_at(id, 1, 1_100).is_ok());
    assert_eq!(mgr.active_count(), 1);
    let file = mgr.take_sessions_snapshot().unwrap();
    assert_eq!(file.version, FETCH_SESSIONS_FILE_VERSION);
    assert!(mgr.take_sessions_snapshot().is_none());

    let mut mgr2 = FetchSessionManager::with_limits(0, 0);
    mgr2.restore_sessions(&file, 1_500);
    assert_eq!(mgr2.restored(), 1);
    assert_eq!(mgr2.active_count(), 1);
    assert!(mgr2.begin_incremental_at(id, 2, 2_000).is_ok());
    let snap = mgr2.snapshot_topics(id);
    assert_eq!(partition(&snap, "orders").last_hwm, Some(7));
    assert_eq!(partition(&snap, "orders").last_lso, Some(7));
    assert_eq!(partition(&snap, "orders").fetch_offset, 1);
}

#[test]
fn a_table_that_is_opened_again_is_the_same() {
    for owner in [0u32, 5] {
        let mut mgr = FetchSessionManager::open_at(None, 0, 0, owner, 500);
        assert_eq!(mgr.active_count(), 0);
        let gone = mgr.create_at(topic_map("old", 0), 1_000);
        let kept = mgr.create_at(topic_map("orders", 3), 1_000);
        mgr.note_returned(kept, "orders", 0, 7, 6);
        assert!(mgr.begin_incremental_at(kept, 1, 1_100).is_ok());
        assert!(mgr.take_sessions_snapshot().is_some());
        mgr.close(gone);
        let file = mgr.take_sessions_snapshot().unwrap();
        assert!(mgr.take_sessions_snapshot().is_none());

        let mut again = FetchSessionManager::open_at(Some(file), 0, 0, owner, 9_000);
        assert_eq!((again.restored(), again.active_count()), (1, 1));
        assert!(again.session(gone).is_none());
        let (was, is) = (mgr.session(kept).unwrap(), again.session(kept).unwrap());
        assert_eq!((was.epoch, was.last_activity_ms, was.mirror_gen), (2, 1_100, 3));
        assert_eq!(
            (is.epoch, is.last_activity_ms, is.mirror_gen, is.promoted_by),
            (was.epoch, was.last_activity_ms, was.mirror_gen, was.promoted_by)
        );
        let topics = again.snapshot_topics(kept);
        let part = partition(&topics, "orders");
        assert_eq!((part.fetch_offset, part.last_hwm, part.last_lso), (3, Some(7), Some(6)));
        assert!(again.take_sessions_snapshot().is_none());
        assert!(again.create_at(no_topics(), 9_100) > kept);
    }
}

#[test]
fn durable_close_not_restored() {
    let mut mgr = FetchSessionManager::with_limits(0, 0);
    let id = mgr.create_at(topic_map("t", 0), 1_000);
    mgr.close(id);
    assert_eq!(mgr.active_count(), 0);
    let file = mgr.take_sessions_snapshot().unwrap();
    let mut mgr2 = FetchSessionManager::with_limits(0, 0);
    mgr2.restore_sessions(&file, 2_000);
    assert_eq!(mgr2.restored(), 0);
    assert_eq!(mgr2.active_count(), 0);
}

#[test]
fn durable_idle_filtered_on_load() {
    let mut mgr = FetchSessionManager::with_limits(0, 0);
    let id = mgr.create_at(topic_map("t", 0), 1_000);
    assert!(id > 0);
    assert_eq!(mgr.active_count(), 1);
    assert_eq!(mgr.persist_errors_total(), 0, "persist failed");
    let mut file = mgr.take_sessions_snapshot().unwrap();
    assert_eq!(file.sessions.len(), 1);
    file.sessions[0].last_activity_ms = 1;

    let mut mgr3 = FetchSessionManager::new();
    mgr3.restore_sessions(&file, 1_700_000_000_000);
    assert_eq!(mgr3.restored(), 0);
    assert_eq!(mgr3.active_count(), 0);
    assert_eq!(mgr3.idle_evicted_total(), 1);
}

#[test]
fn next_id_continues_after_restore() {
    let mut mgr = FetchSessionManager::with_limits(0, 0);
    let first = mgr.create_at(no_topics(), 1_000);
    let file = mgr.take_sessions_snapshot().unwrap();
    let mut mgr2 = FetchSessionManager::with_limits(0, 0);
    mgr2.restore_sessions(&file, 1_500);
    let second = mgr2.create_at(no_topics(), 2_000);
    assert!(second > first);
    assert_ne!(second, first);
}

#[test]
fn owner_encode_decode_roundtrip() {
    let id = encode_session_id(2, 7);
    assert_eq!(decode_session_owner(id), Some(2));
    assert_eq!(session_local_part(id), 7);
    assert_eq!(decode_session_owner(3), None);
    assert_eq!(decode_session_owner(0), None);
}

#[test]
fn cluster_alloc_embeds_owner() {
    let mut mgr = FetchSessionManager::with_limits_and_owner(0, 0, 3);
    let id = mgr.create_at(no_topics(), 1_000);
    assert_eq!(decode_session_owner(id), Some(3));
    assert!(session_local_part(id) > 0);
    assert!(mgr.contains(id));
    assert!(mgr.begin_incremental_at(id, 1, 1_100).is_ok());
}

#[test]
fn phase138_export_apply_mirror_put_contains() {
    let mut owner = FetchSessionManager::with_limits_and_owner(0, 0, 1);
    let id = owner.create_at(topic_map("orders", 3), 1_000);
    owner.note_returned(id, "orders", 0, 9, 9);
    let bytes = export(&owner, id);

    let mut peer = FetchSessionManager::with_limits(0, 0);
    assert!(!peer.mirror_contains(id));
    put(&mut peer, &bytes).expect("put");
    assert!(peer.mirror_contains(id));
    assert_eq!(peer.mirrored_count(), 1);
    assert_eq!(peer.mirror_puts_applied_total(), 1);
    assert!(!peer.contains(id));
    assert!(put(&mut peer, b"not-json").is_err());
}

#[test]
fn phase138_promote_moves_mirror_to_primary() {
    let mut owner = FetchSessionManager::with_limits_and_owner(0, 0, 2);
    let id = owner.create_at(topic_map("t", 1), 1_000);
    let bytes = export(&owner, id);

    let mut peer = FetchSessionManager::with_limits(0, 0);
    put(&mut peer, &bytes).unwrap();
    assert!(peer.mirror_contains(id));
    assert!(!peer.contains(id));

    assert!(peer.promote_from_mirror(id));
    assert!(peer.contains(id));
    assert!(!peer.mirror_contains(id));
    assert_eq!(peer.mirrored_count(), 0);
    assert_eq!(peer.promote_total(), 1);
    assert!(peer.promote_from_mirror(id));
    assert_eq!(peer.promote_total(), 1);
    assert!(!peer.promote_from_mirror(id + 99));
}

#[test]
fn phase138_apply_mirror_delete() {
    let mut owner = FetchSessionManager::with_limits_and_owner(0, 0, 1);
    let id = owner.create_at(no_topics(), 1_000);
    let bytes = export(&owner, id);

    let mut peer = FetchSessionManager::with_limits(0, 0);
    put(&mut peer, &bytes).unwrap();
    assert!(peer.mirror_contains(id));
    peer.apply_mirror_delete(id);
    assert!(!peer.mirror_contains(id));
    assert_eq!(peer.mirror_deletes_applied_total(), 1);
    peer.apply_mirror_delete(id);
    assert_eq!(peer.mirror_deletes_applied_total(), 1);
}

#[test]
fn phase138_drain_mirror_ops_put_on_create() {
    let mut mgr = FetchSessionManager::with_limits_and_owner(0, 0, 1);
    let id = mgr.create_at(no_topics(), 1_000);
    let ops = mgr.drain_mirror_ops();
    assert!(
        ops.iter().any(|op| *op == SessionMirrorOp::Put(id)),
        "expected Put({id}), got {ops:?}"
    );
    assert!(mgr.drain_mirror_ops().is_empty());
    let mut single = FetchSessionManager::with_limits(0, 0);
    let _ = single.create_at(no_topics(), 1_000);
    assert!(single.drain_mirror_ops().is_empty());
}

#[test]
fn phase138_close_yields_delete() {
    let mut mgr = FetchSessionManager::with_limits_and_owner(0, 0, 1);
    let id = mgr.create_at(no_topics(), 1_000);
    let _ = mgr.drain_mirror_ops();
    mgr.close(id);
    let ops = mgr.drain_mirror_ops();
    assert_eq!(ops, vec![SessionMirrorOp::Delete(id)]);
    assert!(!mgr.contains(id));
}

#[test]
fn phase139_coalesce_puts_same_session() {
    let mut mgr = FetchSessionManager::with_limits_and_owner(0, 0, 1);
    let id = mgr.create_at(no_topics(), 1_000);
    assert!(mgr.begin_incremental_at(id, 1, 1_100).is_ok());
    mgr.note_returned(id, "x", 0, 1, 1);
    mgr.merge_topics(id, &topic_map("t", 0));
    mgr.forget(id, &[]);
    let ops = mgr.drain_mirror_ops();
    assert_eq!(ops, vec![SessionMirrorOp::Put(id)]);
    assert!(mgr.mirror_puts_coalesced_total() >= 1);
}

#[test]
fn phase139_delete_supersedes_put() {
    let mut mgr = FetchSessionManager::with_limits_and_owner(0, 0, 1);
    let id = mgr.create_at(no_topics(), 1_000);
    assert!(mgr.has_pending_mirror_ops());
    mgr.close(id);
    let ops = mgr.drain_mirror_ops();
    assert_eq!(ops, vec![SessionMirrorOp::Delete(id)]);
    assert!(mgr.mirror_puts_coalesced_total() >= 1);
    assert!(!mgr.has_pending_mirror_delete());
}

#[test]
fn phase139_drain_deletes_before_puts() {
    let mut mgr = FetchSessionManager::with_limits_and_owner(0, 0, 1);
    let a = mgr.create_at(no_topics(), 1_000);
    let b = mgr.create_at(no_topics(), 1_100);
    let _ = mgr.drain_mirror_ops();
    mgr.close(a);
    assert!(mgr.begin_incremental_at(b, 1, 1_200).is_ok());
    let ops = mgr.drain_mirror_ops();
    assert_eq!(ops, vec![SessionMirrorOp::Delete(a), SessionMirrorOp::Put(b)]);
}

#[test]
fn phase139_apply_put_rejects_stale_gen() {
    let mut owner = FetchSessionManager::with_limits_and_owner(0, 0, 1);
    let id = owner.create_at(topic_map("t", 0), 1_000);
    let older = export(&owner, id);
    assert!(owner.begin_incremental_at(id, 1, 1_100).is_ok());
    let newer = export(&owner, id);

    let mut peer = FetchSessionManager::with_limits(0, 0);
    put(&mut peer, &newer).unwrap();
    assert_eq!(peer.mirror_puts_applied_total(), 1);
    put(&mut peer, &older).unwrap();
    assert_eq!(peer.mirror_puts_applied_total(), 1);
    assert_eq!(peer.mirror_stale_put_rejects_total(), 1);
    let mirror_gen = peer.mirror(id).unwrap().mirror_gen;
    assert!(mirror_gen >= 2);
}

#[test]
fn phase139_promote_supersede_and_keep_newer_primary() {
    let mut owner = FetchSessionManager::with_limits_and_owner(0, 0, 2);
    let id = owner.create_at(topic_map("t", 1), 1_000);
    let v1 = export(&owner, id);
    assert!(owner.begin_incremental_at(id, 1, 1_100).is_ok());
    let v2 = export(&owner, id);

    let mut peer = FetchSessionManager::with_limits(0, 0);
    put(&mut peer, &v1).unwrap();
    assert!(peer.promote_from_mirror(id));
    assert!(peer.contains(id));
    put(&mut peer, &v2).unwrap();
    assert!(!peer.mirror_contains(id));
    assert_eq!(peer.mirror_puts_applied_total(), 2);

    let mut peer2 = FetchSessionManager::with_limits(0, 0);
    put(&mut peer2, &v2).unwrap();
    assert!(peer2.promote_from_mirror(id));
    let promote_before = peer2.promote_total();
    inject(&mut peer2, &v1);
    assert!(peer2.promote_from_mirror(id));
    assert_eq!(peer2.promote_total(), promote_before);
    assert!(!peer2.mirror_contains(id));
    let primary_gen = peer2.session(id).unwrap().mirror_gen;
    assert!(primary_gen >= 2);

    let mut peer3 = FetchSessionManager::with_limits(0, 0);
    put(&mut peer3, &v1).unwrap();
    assert!(peer3.promote_from_mirror(id));
    inject(&mut peer3, &v2);
    let super_before = peer3.promote_supersede_total();
    assert!(peer3.promote_from_mirror(id));
    assert_eq!(peer3.promote_supersede_total(), super_before + 1);
    assert!(!peer3.mirror_contains(id));
    let primary_gen = peer3.session(id).unwrap().mirror_gen;
    assert!(primary_gen >= 2);
}

#[test]
fn phase139_durable_mirror_roundtrip() {
    let mut owner = FetchSessionManager::with_limits_and_owner(0, 0, 1);
    let id = owner.create_at(topic_map("orders", 2), 1_000);
    owner.note_returned(id, "orders", 0, 3, 3);
    let bytes = export(&owner, id);
    let mut peer = FetchSessionManager::with_limits(0, 0);
    put(&mut peer, &bytes).unwrap();
    assert!(peer.mirror_contains(id));
    let file = peer.take_mirrors_snapshot().unwrap();

    let mut peer2 = FetchSessionManager::with_limits(0, 0);
    peer2.restore_mirrors(&file, 2_000);
    assert_eq!(peer2.mirror_restored(), 1);
    assert!(peer2.mirror_contains(id));
    assert!(peer2.promote_from_mirror(id));
    assert!(peer2.contains(id));
    assert!(!peer2.mirror_contains(id));
}

fn session(epoch: i32, last_activity_ms: i64, mirror_gen: u64, promoted_by: u32) -> FetchSession {
    FetchSession { epoch, topics: no_topics(), last_activity_ms, mirror_gen, promoted_by }
}

#[test]
fn phase139_session_is_newer_order() {
    let base = session(2, 100, 5, 0);
    let higher_gen = session(2, 100, 6, 0);
    assert!(session_is_newer(&higher_gen, &base));
    assert!(!session_is_newer(&base, &higher_gen));
    let higher_epoch = session(3, 100, 5, 0);
    assert!(session_is_newer(&higher_epoch, &base));
    let higher_act = session(2, 200, 5, 0);
    assert!(session_is_newer(&higher_act, &base));
    assert!(!session_is_newer(&base, &base));
}

#[test]
fn phase143_session_claim_wins_lowest_id() {
    let base = session(1, 100, 3, 0);
    let claim2 = session(1, 100, 3, 2);
    let claim3 = session(1, 100, 3, 3);
    assert!(session_claim_wins(&claim2, &claim3));
    assert!(!session_claim_wins(&claim3, &claim2));
    assert!(session_claim_wins(&claim2, &base));
    assert!(!session_claim_wins(&base, &claim2));
    assert!(!session_claim_wins(&base, &base));
    let high_claim_new = session(1, 100, 4, 9);
    assert!(session_claim_wins(&high_claim_new, &claim2));
    assert!(!session_claim_wins(&claim2, &high_claim_new));
}

#[test]
fn phase143_promoted_by_default_on_old_json() {
    let raw = r#"{"id":1,"epoch":1,"last_activity_ms":100,"mirror_gen":1,"topics":[]}"#;
    let stored = from_json(raw.as_bytes()).unwrap();
    assert_eq!(stored.promoted_by, 0);
    let (id, sess) = stored_to_session(&stored).unwrap();
    assert_eq!(id, 1);
    assert_eq!(sess.promoted_by, 0);
}

#[test]
fn new_managers_have_the_default_limits() {
    let m = FetchSessionManager::default();
    assert_eq!(m.idle_timeout_ms(), DEFAULT_IDLE_TIMEOUT_MS);
    assert_eq!(m.max_sessions(), DEFAULT_MAX_SESSIONS);
    assert_eq!(m.owner_node_id(), 0);
}

#[test]
fn puts_converge_whatever_their_order() {
    let mut owner = FetchSessionManager::with_limits_and_owner(0, 0, 1);
    let id = owner.create_at(topic_map("t", 0), 1_000);
    let a = export(&owner, id);
    assert!(owner.begin_incremental_at(id, 1, 1_100).is_ok());
    let b = export(&owner, id);

    let mut forth = FetchSessionManager::with_limits(0, 0);
    put(&mut forth, &a).unwrap();
    put(&mut forth, &b).unwrap();
    let mut back = FetchSessionManager::with_limits(0, 0);
    put(&mut back, &b).unwrap();
    put(&mut back, &a).unwrap();
    assert_eq!(forth.mirror(id).unwrap().mirror_gen, back.mirror(id).unwrap().mirror_gen);
    assert_eq!(forth.mirror(id).unwrap().epoch, back.mirror(id).unwrap().epoch);
}

#[test]
fn puts_of_impossible_sessions_are_refused() {
    let mut m = FetchSessionManager::with_limits(0, 0);
    let mut s = session_to_stored(5, &session(1, 100, 1, 0));
    s.id = 0;
    assert_eq!(m.apply_mirror_put(&s), Err("invalid session id".to_string()));
    s.id = 5;
    s.topics.push(StoredSessionTopic {
        key: "k".into(),
        wire_kind: "uuid".into(),
        wire_name: None,
        wire_uuid_hex: Some("xyz".into()),
        name: "".into(),
        partitions: vec![],
    });
    assert_eq!(m.apply_mirror_put(&s), Err("invalid session snapshot".to_string()));
    assert_eq!(m.mirrored_count(), 0);
}

#[test]
fn forgotten_partitions_leave_the_session() {
    let mut m = FetchSessionManager::with_limits(0, 0);
    let id = m.create_at(topic_map("t", 0), 1_000);
    m.forget(id, &[("t".to_string(), vec![0])]);
    let left = m.snapshot_topics(id);
    assert!(match left.get(&"t".to_string()) {
        Some(t) => t.partitions.get(&0).is_none(),
        None => true,
    });
}

#[test]
fn debounce_is_armed_once() {
    let mut m = FetchSessionManager::with_limits(0, 0);
    assert!(m.try_arm_mirror_put_debounce());
    assert!(!m.try_arm_mirror_put_debounce());
    m.clear_mirror_put_debounce_armed();
    assert!(m.try_arm_mirror_put_debounce());
}

#[test]
fn topic_keys_are_names_or_ids() {
    let by_name = TopicWireId::Name("orders".into());
    assert_eq!(FetchSessionManager::topic_key(&by_name, "orders"), "orders");
    let by_id = TopicWireId::Uuid([0xab; 16]);
    let key = FetchSessionManager::topic_key(&by_id, "");
    assert!(key.contains(&hex::encode(&[0xab; 16])), "{key}");
}

#[test]
fn hexadecimal_goes_there_and_back() {
    let id = [0u8, 1, 2, 15, 16, 127, 128, 255, 9, 10, 11, 12, 13, 14, 200, 171];
    let text = hex::encode(&id);
    assert_eq!(text, "0001020f107f80ff090a0b0c0d0ec8ab");
    assert_eq!(hex::decode_16(&text), Some(id));
    assert_eq!(hex::decode_16("00"), None);
    assert_eq!(hex::decode_16("zz01020f107f80ff090a0b0c0d0ec8ab"), None);
}

#[test]
fn the_longest_ttl_keeps_sessions() {
    let mut m = FetchSessionManager::with_limits(u64::MAX, 0);
    let id = m.create_at(no_topics(), 1_000);
    assert_eq!(m.evict_idle_at(1_000), 0);
    assert_eq!(m.evict_idle_at(i64::MAX), 0);
    assert!(m.contains(id));
    m.set_idle_timeout_ms(i64::MAX as u64 + 1);
    assert_eq!(m.evict_idle_at(2_000), 0);
    assert!(m.contains(id));
    m.set_idle_timeout_ms(999);
    assert_eq!(m.evict_idle_at(1_999), 0);
    assert_eq!(m.evict_idle_at(2_000), 1);
    assert!(!m.contains(id));
}

#[test]
fn tables_come_back_as_they_were() {
    let mut m = FetchSessionManager::with_limits(0, 0);
    let a = m.create_at(topic_map("a", 3), 10);
    let b = m.create_at(topic_map("b", 4), 20);
    let c = m.create_at(no_topics(), 30);
    m.note_returned(a, &"a".to_string(), 0, 7, 6);
    m.close(b);
    let file = m.take_sessions_snapshot().unwrap();
    assert!(m.take_sessions_snapshot().is_none());
    let mut n = FetchSessionManager::with_limits(0, 0);
    n.restore_sessions(&file, 1_000_000);
    assert_eq!((n.restored(), n.active_count()), (2, 2));
    assert!(n.contains(a) && !n.contains(b) && n.contains(c));
    let held = n.session(a).unwrap();
    assert_eq!((held.epoch, held.last_activity_ms), (1, 10));
    assert_eq!(partition(&held.topics, "a").last_hwm, Some(7));
    assert_eq!(partition(&held.topics, "a").last_lso, Some(6));
    assert_eq!(partition(&held.topics, "a").fetch_offset, 3);
    assert!(n.create_at(no_topics(), 1_000_000) > c);
}

#[test]
fn draining_leaves_nothing() {
    let mut m = FetchSessionManager::with_limits_and_owner(0, 0, 5);
    let a = m.create_at(no_topics(), 1);
    let b = m.create_at(no_topics(), 2);
    m.close(a);
    assert!(m.has_pending_mirror_ops());
    assert_eq!(m.drain_mirror_ops(), vec![SessionMirrorOp::Delete(a), SessionMirrorOp::Put(b)]);
    assert!(!m.has_pending_mirror_ops());
    assert_eq!(m.drain_mirror_ops(), vec![]);

    let mut quiet = FetchSessionManager::with_limits(0, 0);
    let a = quiet.create_at(no_topics(), 1);
    quiet.close(a);
    assert!(!quiet.has_pending_mirror_ops());
}

#[test]
fn digits_come_back_in_lower_case() {
    let text = "0001020F107F80fF090A0b0c0D0eC8aB";
    let bytes = hex::decode_16(text).unwrap();
    assert_eq!(hex::encode(&bytes), text.to_ascii_lowercase());
}
