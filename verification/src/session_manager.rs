//! The table of fetch sessions of a broker: idle TTL, a bound on their number,
//! ids that carry the owner, mirrors of the sessions of peers, and the queue of
//! what peers are to be told.

use vstd::prelude::*;
use vstd::string::*;

use crate::fetch_session;
use crate::fetch_session::{
    encode_session_id, idle, next_epoch, session_claim_wins, session_is_newer, FetchSession,
    SessionMirrorOp, SessionPartition, SessionTopic, SessionView, TopicView, Topics, TopicsView,
    DEFAULT_IDLE_TIMEOUT_MS, DEFAULT_MAX_SESSIONS, DEFAULT_MIRROR_PUT_MIN_INTERVAL_MS,
    FETCH_SESSIONS_FILE_VERSION, SESSION_LOCAL_MASK,
};
use crate::hex;
use crate::stored_session;
use crate::stored_session::{
    restore, restore_counter, session_to_stored, snapshot_file, stored_to_session,
    StoredFetchSession, StoredFetchSessionsFile, StoredView,
};
use crate::table;
use crate::table::{Duplicate, Key, SortedMap};
use crate::text;
use crate::topic_id::TopicWireId;

verus! {

/// What peers are to be told about a session.
#[derive(Debug, Clone, Copy, PartialEq, Eq, Structural)]
pub enum Pending {
    /// Its snapshot.
    Put,
    /// That it is gone.
    Delete,
}

impl DeepView for Pending {
    type V = Pending;

    open spec fn deep_view(&self) -> Pending {
        *self
    }
}

/// Fetch session table with idle TTL + max concurrent + cluster owner encoding +
/// peer mirror + promote claim fence.
#[derive(Debug)]
pub struct FetchSessionManager {
    sessions: SortedMap<i32, FetchSession>,
    mirrors: SortedMap<i32, FetchSession>,
    pending: SortedMap<i32, Pending>,
    next_id: i32,
    idle_timeout_ms: u64,
    max_sessions: usize,
    owner_node_id: u32,
    min_interval_ms: u64,
    debounce_armed: bool,
    sessions_dirty: bool,
    mirrors_dirty: bool,
    counts: Counts,
}

/// How often things have happened.
#[derive(Debug, Clone, Copy)]
pub struct Counts {
    /// Sessions removed by idle TTL or LRU pressure.
    pub evicted: u64,
    /// Sessions removed by idle TTL only.
    pub idle_evicted: u64,
    /// Sessions restored when the table was opened.
    pub restored: u64,
    /// Failed durable write attempts.
    pub persist_errors: u64,
    /// Fetches forwarded to their owner.
    pub forwards: u64,
    /// Fetches whose forwarding failed.
    pub forward_errors: u64,
    /// Mirror puts that were installed.
    pub puts_applied: u64,
    /// Mirror deletes that removed a mirror.
    pub deletes_applied: u64,
    /// Mirrors that became primary.
    pub promotes: u64,
    /// Puts dropped because one was pending or a delete superseded it.
    pub coalesced: u64,
    /// Mirror puts that were refused as stale.
    pub stale_rejects: u64,
    /// Mirrors that superseded an older primary.
    pub supersedes: u64,
    /// Mirrors restored when the table was opened.
    pub mirrors_restored: u64,
    /// Puts and promotions refused for their claim.
    pub claim_rejects: u64,
}

/// What a [`FetchSessionManager`] holds.
#[verifier::ext_equal]
pub struct ManagerView {
    /// Sessions that this broker serves.
    pub sessions: Map<i32, SessionView>,
    /// Mirrors of the sessions of peers, which are not served.
    pub mirrors: Map<i32, SessionView>,
    /// What peers are to be told, by session.
    pub pending: Map<i32, Pending>,
    /// The number of the next session.
    pub next_id: i32,
    /// How long a session may be idle; zero is for ever.
    pub idle_timeout_ms: u64,
    /// How many sessions there may be; zero is any number.
    pub max_sessions: usize,
    /// The node id that ids carry; zero is none.
    pub owner: u32,
    /// How far apart puts to peers are kept.
    pub min_interval_ms: u64,
    /// Whether a delayed put to peers is under way.
    pub debounce_armed: bool,
    /// Whether the sessions differ from what was last written down.
    pub sessions_dirty: bool,
    /// Whether the mirrors differ from what was last written down.
    pub mirrors_dirty: bool,
    /// How often things have happened.
    pub counts: Counts,
}

impl View for FetchSessionManager {
    type V = ManagerView;

    closed spec fn view(&self) -> ManagerView {
        ManagerView {
            sessions: self.sessions.deep_view(),
            mirrors: self.mirrors.deep_view(),
            pending: self.pending.deep_view(),
            next_id: self.next_id,
            idle_timeout_ms: self.idle_timeout_ms,
            max_sessions: self.max_sessions,
            owner: self.owner_node_id,
            min_interval_ms: self.min_interval_ms,
            debounce_armed: self.debounce_armed,
            sessions_dirty: self.sessions_dirty,
            mirrors_dirty: self.mirrors_dirty,
            counts: self.counts,
        }
    }
}

/// A counter after `n` more: it starts again at zero after the largest number.
pub open spec fn counted(a: u64, n: nat) -> u64 {
    ((a + n) % 0x1_0000_0000_0000_0000) as u64
}

/// `a + 1`, where the largest number stays.
pub open spec fn bumped(a: u64) -> u64 {
    if a == u64::MAX {
        a
    } else {
        (a + 1) as u64
    }
}

/// `v` with the counters `counts`.
pub open spec fn with_counts(v: ManagerView, counts: Counts) -> ManagerView {
    ManagerView { counts, ..v }
}

/// `v` after a put of the session `id` is queued: one is enough, and without an
/// owner there are no peers.
pub open spec fn put_queued(v: ManagerView, id: i32) -> ManagerView {
    if v.owner == 0 {
        v
    } else if v.pending.contains_key(id) && v.pending[id] == Pending::Put {
        with_counts(v, Counts { coalesced: counted(v.counts.coalesced, 1), ..v.counts })
    } else {
        ManagerView { pending: v.pending.insert(id, Pending::Put), ..v }
    }
}

/// `v` after deletes of the sessions `gone` are queued: a delete takes the place of
/// a put, and without an owner there are no peers.
pub open spec fn deletes_queued(v: ManagerView, gone: Set<i32>) -> ManagerView {
    if v.owner == 0 {
        v
    } else {
        ManagerView {
            pending: Map::new(
                |id: i32| v.pending.contains_key(id) || gone.contains(id),
                |id: i32|
                    if gone.contains(id) {
                        Pending::Delete
                    } else {
                        v.pending[id]
                    },
            ),
            counts: Counts {
                coalesced: counted(v.counts.coalesced, puts_pending(v.pending, gone)),
                ..v.counts
            },
            ..v
        }
    }
}

/// For how many of the sessions `gone` a put is pending.
pub open spec fn puts_pending(pending: Map<i32, Pending>, gone: Set<i32>) -> nat {
    gone.filter(|id: i32| pending.contains_key(id) && pending[id] == Pending::Put).len()
}

/// `v` without the sessions `gone`, of which peers are to be told.
pub open spec fn without(v: ManagerView, gone: Set<i32>) -> ManagerView {
    deletes_queued(ManagerView { sessions: v.sessions.remove_keys(gone), ..v }, gone)
}

/// The sessions of `v` that have been idle for too long at `now`.
pub open spec fn idle_ids(v: ManagerView, now: i64) -> Set<i32> {
    v.sessions.dom().filter(
        |id: i32|
            fetch_session::is_idle(v.idle_timeout_ms, v.sessions[id].last_activity_ms, now),
    )
}

/// `v` after the idle sessions are evicted.
pub open spec fn idle_evicted(v: ManagerView, now: i64) -> ManagerView {
    let gone = idle_ids(v, now);
    let w = without(v, gone);
    with_counts(
        w,
        Counts {
            evicted: counted(w.counts.evicted, gone.len()),
            idle_evicted: counted(w.counts.idle_evicted, gone.len()),
            ..w.counts
        },
    )
}

/// Whether `id` is the session that has been inactive for longest; of several, the
/// one with the lowest id.
pub open spec fn is_lru(sessions: Map<i32, SessionView>, id: i32) -> bool {
    &&& sessions.contains_key(id)
    &&& forall|o: i32|
        #[trigger] sessions.contains_key(o) && o != id ==> sessions[id].last_activity_ms
            < sessions[o].last_activity_ms || (sessions[id].last_activity_ms
            == sessions[o].last_activity_ms && id < o)
}

/// The session that has been inactive for longest.
pub open spec fn lru(sessions: Map<i32, SessionView>) -> i32 {
    choose|id: i32| is_lru(sessions, id)
}

/// Whether there is no room for one session more.
pub open spec fn full(v: ManagerView) -> bool {
    v.max_sessions > 0 && v.sessions.dom().len() >= v.max_sessions
}

/// `v` after the session that has been inactive for longest is evicted, where there
/// is no room for one more.
pub open spec fn lru_evicted(v: ManagerView) -> ManagerView {
    if full(v) {
        let w = without(v, set![lru(v.sessions)]);
        with_counts(w, Counts { evicted: counted(w.counts.evicted, 1), ..w.counts })
    } else {
        v
    }
}

/// The number that the next session gets: the counter, or 1 where the counter has
/// run out of its range.
pub open spec fn next_local(v: ManagerView) -> int {
    if v.next_id > 0 && (v.owner == 0 || v.next_id <= SESSION_LOCAL_MASK) {
        v.next_id as int
    } else {
        1
    }
}

/// The id of the session with the number `n` of the broker `owner`.
pub open spec fn id_at(owner: u32, n: int) -> i32 {
    if owner == 0 {
        n as i32
    } else {
        fetch_session::session_id_of(owner, n) as i32
    }
}

/// The id that the next session gets.
pub open spec fn fresh_id(v: ManagerView) -> i32 {
    id_at(v.owner, next_local(v))
}

/// The counter after the next session got its number.
pub open spec fn counter_after(v: ManagerView) -> i32 {
    if next_local(v) == i32::MAX {
        i32::MIN
    } else {
        (next_local(v) + 1) as i32
    }
}

/// A session as it is created.
pub open spec fn new_session(topics: TopicsView, now: i64) -> SessionView {
    SessionView { epoch: 1, topics, last_activity_ms: now, mirror_gen: 1, promoted_by: 0 }
}

/// `v` after a session is created at `now`.
pub open spec fn created(v: ManagerView, topics: TopicsView, now: i64) -> ManagerView {
    let w = lru_evicted(idle_evicted(v, now));
    put_queued(
        ManagerView {
            sessions: w.sessions.insert(fresh_id(w), new_session(topics, now)),
            next_id: counter_after(w),
            sessions_dirty: true,
            ..w
        },
        fresh_id(w),
    )
}

/// `v` after the idle sessions are evicted, and marked where there were any.
pub open spec fn swept(v: ManagerView, now: i64) -> ManagerView {
    let w = idle_evicted(v, now);
    ManagerView { sessions_dirty: v.sessions_dirty || idle_ids(v, now).len() > 0, ..w }
}

/// `v` with `s` for the session `id`, changed once more, marked, and queued.
pub open spec fn touched(v: ManagerView, id: i32, s: SessionView) -> ManagerView {
    put_queued(
        ManagerView {
            sessions: v.sessions.insert(
                id,
                SessionView { mirror_gen: bumped(s.mirror_gen), ..s },
            ),
            sessions_dirty: true,
            ..v
        },
        id,
    )
}

/// What an incremental fetch is answered: 70 for an unknown session, 71 for a
/// wrong epoch.
pub open spec fn incremental_result(v: ManagerView, id: i32, epoch: i32, now: i64)
    -> core::result::Result<(), i16> {
    let w = swept(v, now);
    if !w.sessions.contains_key(id) {
        Err(70)
    } else if w.sessions[id].epoch != epoch {
        Err(71)
    } else {
        Ok(())
    }
}

/// `v` after an incremental fetch began at `now`.
pub open spec fn incremented(v: ManagerView, id: i32, epoch: i32, now: i64) -> ManagerView {
    let w = swept(v, now);
    if incremental_result(v, id, epoch, now) is Ok {
        touched(
            w,
            id,
            SessionView {
                epoch: fetch_session::epoch_after(epoch),
                last_activity_ms: now,
                ..w.sessions[id]
            },
        )
    } else {
        w
    }
}

/// `v` after the session `id` is closed.
pub open spec fn closed(v: ManagerView, id: i32) -> ManagerView {
    if id != 0 && v.sessions.contains_key(id) {
        without(ManagerView { sessions_dirty: true, ..v }, set![id])
    } else {
        v
    }
}

/// The parameters `p` of a partition with what was last returned for it, unless
/// they bring that along.
pub open spec fn merged_part(prev: Option<SessionPartition>, p: SessionPartition)
    -> SessionPartition {
    match prev {
        Some(q) => if p.last_hwm is None {
            SessionPartition { last_hwm: q.last_hwm, last_lso: q.last_lso, ..p }
        } else {
            p
        },
        None => p,
    }
}

/// The value for `k`, if there is one.
pub open spec fn look_up<A, B>(m: Map<A, B>, k: A) -> Option<B> {
    if m.contains_key(k) {
        Some(m[k])
    } else {
        None
    }
}

/// The partitions `a` with the partitions `b` merged in.
pub open spec fn merged_parts(
    a: Map<i32, SessionPartition>,
    b: Map<i32, SessionPartition>,
) -> Map<i32, SessionPartition> {
    Map::new(
        |k: i32| a.contains_key(k) || b.contains_key(k),
        |k: i32|
            if b.contains_key(k) {
                merged_part(look_up(a, k), b[k])
            } else {
                a[k]
            },
    )
}

/// A topic of a session after a request named it: the latest wire identity, the
/// latest name that is not empty, and the partitions of both.
pub open spec fn merged_topic(prev: Option<TopicView>, t: TopicView) -> TopicView {
    TopicView {
        wire: t.wire,
        name: match prev {
            Some(p) => if t.name.len() > 0 {
                t.name
            } else {
                p.name
            },
            None => t.name,
        },
        partitions: merged_parts(
            match prev {
                Some(p) => p.partitions,
                None => Map::empty(),
            },
            t.partitions,
        ),
    }
}

/// The topics `a` with the topics `b` merged in.
pub open spec fn merged_topics(a: TopicsView, b: TopicsView) -> TopicsView {
    Map::new(
        |k: Seq<char>| a.contains_key(k) || b.contains_key(k),
        |k: Seq<char>|
            if b.contains_key(k) {
                merged_topic(look_up(a, k), b[k])
            } else {
                a[k]
            },
    )
}

/// `v` after the topics of a request are merged into the session `id`.
pub open spec fn merged(v: ManagerView, id: i32, topics: TopicsView) -> ManagerView {
    if v.sessions.contains_key(id) {
        let s = v.sessions[id];
        touched(v, id, SessionView { topics: merged_topics(s.topics, topics), ..s })
    } else {
        v
    }
}

/// The topics after the partitions `parts` of the topic `key` are forgotten. No
/// partitions stand for all of them, and a topic without partitions goes.
pub open spec fn forgot_one(topics: TopicsView, key: Seq<char>, parts: Seq<i32>) -> TopicsView {
    if parts.len() == 0 {
        topics.remove(key)
    } else if topics.contains_key(key) {
        let left = topics[key].partitions.remove_keys(parts.to_set());
        if left.dom().len() == 0 {
            topics.remove(key)
        } else {
            topics.insert(key, TopicView { partitions: left, ..topics[key] })
        }
    } else {
        topics
    }
}

/// The topics after everything in `forgotten` is forgotten, in order.
pub open spec fn forgot(topics: TopicsView, forgotten: Seq<(Seq<char>, Seq<i32>)>) -> TopicsView
    decreases forgotten.len(),
{
    if forgotten.len() == 0 {
        topics
    } else {
        forgot_one(
            forgot(topics, forgotten.drop_last()),
            forgotten.last().0,
            forgotten.last().1,
        )
    }
}

/// `v` after the session `id` forgets what a request says.
pub open spec fn forgetting(
    v: ManagerView,
    id: i32,
    forgotten: Seq<(Seq<char>, Seq<i32>)>,
) -> ManagerView {
    if id != 0 && forgotten.len() > 0 && v.sessions.contains_key(id) {
        let s = v.sessions[id];
        touched(v, id, SessionView { topics: forgot(s.topics, forgotten), ..s })
    } else {
        v
    }
}

/// Whether the session `id` follows the partition `partition` of the topic `key`.
pub open spec fn follows(v: ManagerView, id: i32, key: Seq<char>, partition: i32) -> bool {
    &&& v.sessions.contains_key(id)
    &&& v.sessions[id].topics.contains_key(key)
    &&& v.sessions[id].topics[key].partitions.contains_key(partition)
}

/// `v` after the client was told the offsets of a partition that it follows.
pub open spec fn noted(
    v: ManagerView,
    id: i32,
    key: Seq<char>,
    partition: i32,
    hwm: i64,
    lso: i64,
) -> ManagerView {
    if id != 0 && follows(v, id, key, partition) {
        let s = v.sessions[id];
        let t = s.topics[key];
        let p = SessionPartition {
            last_hwm: Some(hwm),
            last_lso: Some(lso),
            ..t.partitions[partition]
        };
        touched(
            v,
            id,
            SessionView {
                topics: s.topics.insert(
                    key,
                    TopicView { partitions: t.partitions.insert(partition, p), ..t },
                ),
                ..s
            },
        )
    } else {
        v
    }
}

/// `v` after a put of `incoming` lost against `existing`.
pub open spec fn put_rejected(
    v: ManagerView,
    existing: SessionView,
    incoming: SessionView,
) -> ManagerView {
    if fetch_session::newer(existing, incoming) {
        with_counts(v, Counts { stale_rejects: counted(v.counts.stale_rejects, 1), ..v.counts })
    } else {
        with_counts(v, Counts { claim_rejects: counted(v.counts.claim_rejects, 1), ..v.counts })
    }
}

/// `v` after a peer sent the snapshot `s` of the session `id`: it replaces the
/// primary or else the mirror where it wins over it, and is a new mirror where
/// there is neither.
pub open spec fn put_applied(v: ManagerView, id: i32, s: SessionView) -> ManagerView {
    let counts = Counts { puts_applied: counted(v.counts.puts_applied, 1), ..v.counts };
    if v.sessions.contains_key(id) {
        if fetch_session::claim_wins(s, v.sessions[id]) {
            ManagerView {
                sessions: v.sessions.insert(id, s),
                sessions_dirty: true,
                mirrors: v.mirrors.remove(id),
                mirrors_dirty: v.mirrors_dirty || v.mirrors.contains_key(id),
                counts,
                ..v
            }
        } else {
            put_rejected(v, v.sessions[id], s)
        }
    } else if v.mirrors.contains_key(id) && !fetch_session::claim_wins(s, v.mirrors[id]) {
        put_rejected(v, v.mirrors[id], s)
    } else {
        ManagerView { mirrors: v.mirrors.insert(id, s), mirrors_dirty: true, counts, ..v }
    }
}

/// `v` after a peer said that the session `id` is gone.
pub open spec fn delete_applied(v: ManagerView, id: i32) -> ManagerView {
    if v.mirrors.contains_key(id) {
        ManagerView {
            mirrors: v.mirrors.remove(id),
            mirrors_dirty: true,
            counts: Counts {
                deletes_applied: counted(v.counts.deletes_applied, 1),
                ..v.counts
            },
            ..v
        }
    } else {
        v
    }
}

/// A mirror as it becomes primary: it keeps its claim, and without one gets that of
/// this broker.
pub open spec fn stamped(v: ManagerView, s: SessionView) -> SessionView {
    if s.promoted_by == 0 {
        SessionView { promoted_by: v.owner, ..s }
    } else {
        s
    }
}

/// `v` after the mirror of the session `id`, where there is one, is made primary:
/// in place of nothing, or of a primary that it wins over.
pub open spec fn promoted(v: ManagerView, id: i32) -> ManagerView {
    if !v.mirrors.contains_key(id) {
        v
    } else {
        let m = v.mirrors[id];
        let w = ManagerView { mirrors: v.mirrors.remove(id), mirrors_dirty: true, ..v };
        if v.sessions.contains_key(id) && !fetch_session::claim_wins(m, v.sessions[id]) {
            if fetch_session::newer(v.sessions[id], m) {
                w
            } else {
                with_counts(
                    w,
                    Counts { claim_rejects: counted(v.counts.claim_rejects, 1), ..v.counts },
                )
            }
        } else {
            let counts = Counts {
                supersedes: if v.sessions.contains_key(id) {
                    counted(v.counts.supersedes, 1)
                } else {
                    v.counts.supersedes
                },
                promotes: counted(v.counts.promotes, 1),
                ..v.counts
            };
            put_queued(
                ManagerView {
                    sessions: w.sessions.insert(id, stamped(v, m)),
                    sessions_dirty: true,
                    counts,
                    ..w
                },
                id,
            )
        }
    }
}

/// The session that an operation for peers is about.
pub open spec fn op_id(op: SessionMirrorOp) -> i32 {
    match op {
        SessionMirrorOp::Put(id) => id,
        SessionMirrorOp::Delete(id) => id,
    }
}

/// Whether `a` is sent before `b`: deletes before puts, and lower ids first.
pub open spec fn op_before(a: SessionMirrorOp, b: SessionMirrorOp) -> bool {
    match (a, b) {
        (SessionMirrorOp::Delete(_), SessionMirrorOp::Put(_)) => true,
        (SessionMirrorOp::Put(_), SessionMirrorOp::Delete(_)) => false,
        _ => op_id(a) < op_id(b),
    }
}

/// Whether `op` is what is pending for its session.
pub open spec fn is_pending(pending: Map<i32, Pending>, op: SessionMirrorOp) -> bool {
    pending.contains_key(op_id(op)) && (pending[op_id(op)] == Pending::Put) == (op is Put)
}

/// Whether `ops` is everything that is pending, each once, in the order in which
/// it is sent.
pub open spec fn drains(ops: Seq<SessionMirrorOp>, pending: Map<i32, Pending>) -> bool {
    &&& pending.dom().finite()
    &&& ops.len() == pending.dom().len()
    &&& forall|i: int| 0 <= i < ops.len() ==> is_pending(pending, #[trigger] ops[i])
    &&& forall|id: i32| #[trigger]
        pending.contains_key(id) ==> exists|i: int|
            0 <= i < ops.len() && op_id(#[trigger] ops[i]) == id
    &&& forall|i: int, j: int|
        0 <= i < j < ops.len() ==> op_before(#[trigger] ops[i], #[trigger] ops[j])
}

/// Whether one of the operations is about the session `id`.
spec fn has_op(ops: Seq<SessionMirrorOp>, id: i32) -> bool {
    exists|k: int| 0 <= k < ops.len() && op_id(#[trigger] ops[k]) == id
}

proof fn lemma_has_op(ops: Seq<SessionMirrorOp>, more: Seq<SessionMirrorOp>, id: i32)
    requires
        ops.len() <= more.len(),
        more.take(ops.len() as int) == ops,
    ensures
        has_op(ops, id) ==> has_op(more, id),
{
    if has_op(ops, id) {
        let k = choose|k: int| 0 <= k < ops.len() && op_id(#[trigger] ops[k]) == id;
        assert(more.take(ops.len() as int)[k] == more[k]);
        assert(op_id(more[k]) == id);
    }
}

/// A counter after `n` more.
fn count(a: u64, n: u64) -> (c: u64)
    ensures
        c == counted(a, n as nat),
{
    if n <= u64::MAX - a {
        a + n
    } else {
        n - (u64::MAX - a) - 1
    }
}

proof fn lemma_counted(a: u64, m: nat, n: nat)
    ensures
        counted(counted(a, m), n) == counted(a, m + n),
        counted(a, 0) == a,
{
}

proof fn lemma_puts_pending_one(pending: Map<i32, Pending>, id: i32)
    ensures
        puts_pending(pending, set![id]) == (if pending.contains_key(id) && pending[id]
            == Pending::Put {
            1nat
        } else {
            0
        }),
{
    let f = set![id].filter(
        |id: i32| pending.contains_key(id) && pending[id] == Pending::Put,
    );
    if pending.contains_key(id) && pending[id] == Pending::Put {
        assert(f =~= Set::empty().insert(id));
    } else {
        assert(f =~= Set::empty());
    }
}

/// Queueing the delete of one session more.
proof fn lemma_deletes_queued(v: ManagerView, gone: Set<i32>, id: i32)
    requires
        gone.finite(),
        !gone.contains(id),
    ensures
        deletes_queued(deletes_queued(v, gone), set![id]) == deletes_queued(v, gone.insert(id)),
{
    let w = deletes_queued(v, gone);
    let is_put = |id: i32| v.pending.contains_key(id) && v.pending[id] == Pending::Put;
    lemma_puts_pending_one(w.pending, id);
    if v.owner != 0 {
        assert(deletes_queued(w, set![id]).pending =~= deletes_queued(
            v,
            gone.insert(id),
        ).pending);
        let a = gone.filter(is_put);
        let b = gone.insert(id).filter(is_put);
        if is_put(id) {
            assert(b =~= a.insert(id));
        } else {
            assert(b =~= a);
        }
        lemma_counted(
            v.counts.coalesced,
            puts_pending(v.pending, gone),
            puts_pending(w.pending, set![id]),
        );
    }
}

/// Taking one session more out.
proof fn lemma_without(v: ManagerView, gone: Set<i32>, id: i32)
    requires
        gone.finite(),
        !gone.contains(id),
    ensures
        without(without(v, gone), set![id]) == without(v, gone.insert(id)),
{
    let a = ManagerView { sessions: v.sessions.remove_keys(gone), ..v };
    let w = without(v, gone);
    let b = ManagerView { sessions: w.sessions.remove_keys(set![id]), ..w };
    let c = ManagerView { sessions: v.sessions.remove_keys(gone.insert(id)), ..v };
    assert(v.sessions.remove_keys(gone).remove_keys(set![id]) =~= v.sessions.remove_keys(
        gone.insert(id),
    ));
    lemma_deletes_queued(c, gone, id);
    assert(b =~= deletes_queued(c, gone));
}

proof fn lemma_without_none(v: ManagerView)
    ensures
        without(v, Set::empty()) == v,
{
    assert(v.sessions.remove_keys(Set::empty()) =~= v.sessions);
    let none = Set::<i32>::empty().filter(
        |id: i32| v.pending.contains_key(id) && v.pending[id] == Pending::Put,
    );
    assert(none =~= Set::empty());
    lemma_counted(v.counts.coalesced, 0, 0);
    assert(deletes_queued(v, Set::empty()).pending =~= v.pending);
    assert(deletes_queued(v, Set::empty()) =~= v);
}

proof fn lemma_lru(sessions: Map<i32, SessionView>, id: i32)
    requires
        is_lru(sessions, id),
    ensures
        lru(sessions) == id,
{
    let o = lru(sessions);
    assert(is_lru(sessions, o));
    if o != id {
        assert(sessions.contains_key(o) && sessions.contains_key(id));
    }
}

impl FetchSessionManager {
    /// Manager with limits and optional cluster owner encoding.
    pub fn with_limits_and_owner(
        idle_timeout_ms: u64,
        max_sessions: usize,
        owner_node_id: u32,
    ) -> (m: FetchSessionManager)
        ensures
            m@ == fresh(idle_timeout_ms, max_sessions, owner_node_id),
    {
        FetchSessionManager {
            sessions: SortedMap::new(),
            mirrors: SortedMap::new(),
            pending: SortedMap::new(),
            next_id: 1,
            idle_timeout_ms,
            max_sessions,
            owner_node_id,
            min_interval_ms: DEFAULT_MIRROR_PUT_MIN_INTERVAL_MS,
            debounce_armed: false,
            sessions_dirty: false,
            mirrors_dirty: false,
            counts: Counts {
                evicted: 0,
                idle_evicted: 0,
                restored: 0,
                persist_errors: 0,
                forwards: 0,
                forward_errors: 0,
                puts_applied: 0,
                deletes_applied: 0,
                promotes: 0,
                coalesced: 0,
                stale_rejects: 0,
                supersedes: 0,
                mirrors_restored: 0,
                claim_rejects: 0,
            },
        }
    }

    /// Queue Put for peer fan-out when this broker is a cluster owner.
    ///
    /// One slot per `session_id`; a second Put coalesces (counts drop). Put after
    /// Delete wins the slot.
    fn queue_mirror_put(&mut self, session_id: i32)
        ensures
            final(self)@ == put_queued(old(self)@, session_id),
    {
        if self.owner_node_id == 0 {
            return;
        }
        let put = match self.pending.get(&session_id) {
            Some(Pending::Put) => true,
            _ => false,
        };
        if put {
            self.counts.coalesced = count(self.counts.coalesced, 1);
        } else {
            self.pending.insert(session_id, Pending::Put);
        }
    }

    /// Queue Delete for peer fan-out when this broker is a cluster owner.
    ///
    /// Delete supersedes a pending Put (counts as a coalesced put drop).
    fn queue_mirror_delete(&mut self, session_id: i32)
        ensures
            final(self)@ == deletes_queued(old(self)@, set![session_id]),
            final(self).sessions == old(self).sessions,
    {
        if self.owner_node_id == 0 {
            return;
        }
        proof {
            lemma_puts_pending_one(self@.pending, session_id);
            lemma_counted(self@.counts.coalesced, 0, 0);
        }
        let put = match self.pending.get(&session_id) {
            Some(Pending::Put) => true,
            _ => false,
        };
        if put {
            self.counts.coalesced = count(self.counts.coalesced, 1);
        }
        self.pending.insert(session_id, Pending::Delete);
        assert(self@.pending =~= deletes_queued(old(self)@, set![session_id]).pending);
    }

    /// Drop idle sessions. Counts each removal as an eviction.
    fn evict_idle(&mut self, now_ms: i64) -> (removed: usize)
        ensures
            final(self)@ == idle_evicted(old(self)@, now_ms),
            removed == idle_ids(old(self)@, now_ms).len(),
    {
        let ghost v = self@;
        let ghost mut gone: Set<i32> = Set::empty();
        let mut removed: usize = 0;
        let mut i: usize = 0;
        proof {
            lemma_without_none(v);
        }
        let total: usize = self.sessions.len();
        while i < self.sessions.len()
            invariant
                v == old(self)@,
                self@ == without(v, gone),
                gone.finite(),
                gone.len() == removed,
                gone.subset_of(idle_ids(v, now_ms)),
                i <= self.sessions.pairs().len(),
                removed + self.sessions.pairs().len() == total,
                forall|j: int|
                    0 <= j < i ==> !fetch_session::is_idle(
                        v.idle_timeout_ms,
                        (#[trigger] self.sessions.pairs()[j]).1.last_activity_ms,
                        now_ms,
                    ),
            decreases self.sessions.pairs().len() - i,
        {
            let (id, s) = self.sessions.at(i);
            let id: i32 = *id;
            let last: i64 = s.last_activity_ms;
            assert(self.idle_timeout_ms == v.idle_timeout_ms);
            if idle(self.idle_timeout_ms, last, now_ms) {
                let ghost before = self@;
                proof {
                    assert(!gone.contains(id));
                    assert(v.sessions.contains_key(id));
                    assert(idle_ids(v, now_ms).contains(id));
                    lemma_without(v, gone, id);
                }
                let _entry = self.sessions.remove_at(i);
                assert(before.sessions.remove_keys(set![id]) =~= before.sessions.remove(id));
                self.queue_mirror_delete(id);
                removed += 1;
                proof {
                    gone = gone.insert(id);
                }
            } else {
                i += 1;
            }
        }
        proof {
            assert(table::sorted::<i32, SessionView>(self.sessions.pairs()));
            SortedMap::lemma_pairs(&self.sessions);
            assert forall|id: i32| idle_ids(v, now_ms).contains(id) implies gone.contains(id) by {
                if !gone.contains(id) {
                    assert(self@.sessions.contains_key(id));
                    let j = choose|j: int|
                        0 <= j < self.sessions.pairs().len() && (
                        #[trigger] self.sessions.pairs()[j]).0 == id;
                    assert(self.sessions.pairs()[j].1 == v.sessions[id]);
                }
            }
            assert(gone =~= idle_ids(v, now_ms));
        }
        self.counts.evicted = count(self.counts.evicted, removed as u64);
        self.counts.idle_evicted = count(self.counts.idle_evicted, removed as u64);
        removed
    }

    /// If at max capacity, remove one LRU session. Counts as eviction.
    fn evict_lru_if_full(&mut self)
        ensures
            final(self)@ == lru_evicted(old(self)@),
    {
        let ghost v = self@;
        if self.max_sessions == 0 || self.sessions.len() < self.max_sessions {
            return;
        }
        let ghost p = self.sessions.pairs();
        let mut best: usize = 0;
        let mut i: usize = 1;
        let n: usize = self.sessions.len();
        assert(n > 0);
        let (first, s) = self.sessions.at(0);
        let mut best_id: i32 = *first;
        let mut best_last: i64 = s.last_activity_ms;
        while i < n
            invariant
                1 <= i <= n,
                n == p.len(),
                p == self.sessions.pairs(),
                table::sorted::<i32, SessionView>(p),
                best < i,
                best_id == p[best as int].0,
                best_last == p[best as int].1.last_activity_ms,
                forall|j: int|
                    0 <= j < i && j != best ==> best_last < (#[trigger] p[j]).1.last_activity_ms
                        || (best_last == p[j].1.last_activity_ms && best_id < p[j].0),
            decreases n - i,
        {
            let (id, s) = self.sessions.at(i);
            assert(i32::precedes(p[best as int].0, p[i as int].0));
            if s.last_activity_ms < best_last {
                best = i;
                best_id = *id;
                best_last = s.last_activity_ms;
            }
            i += 1;
        }
        proof {
            SortedMap::lemma_pairs(&self.sessions);
            assert(is_lru(v.sessions, best_id)) by {
                assert forall|o: i32| #[trigger] v.sessions.contains_key(o) && o != best_id implies
                    v.sessions[best_id].last_activity_ms < v.sessions[o].last_activity_ms || (
                v.sessions[best_id].last_activity_ms == v.sessions[o].last_activity_ms && best_id
                    < o) by {
                    let j = choose|j: int| 0 <= j < p.len() && (#[trigger] p[j]).0 == o;
                    assert(p[j].1 == v.sessions[o]);
                }
            }
            lemma_lru(v.sessions, best_id);
        }
        let _entry = self.sessions.remove_at(best);
        assert(v.sessions.remove_keys(set![best_id]) =~= v.sessions.remove(best_id));
        self.queue_mirror_delete(best_id);
        self.counts.evicted = count(self.counts.evicted, 1);
    }

    /// The id of a new session.
    fn alloc_id(&mut self) -> (id: i32)
        ensures
            id == fresh_id(old(self)@),
            final(self)@ == (ManagerView { next_id: counter_after(old(self)@), ..old(self)@ }),
    {
        let in_range = self.next_id > 0 && (self.owner_node_id == 0 || self.next_id
            <= SESSION_LOCAL_MASK);
        let local: i32 = if in_range {
            self.next_id
        } else {
            1
        };
        self.next_id = if local == i32::MAX {
            i32::MIN
        } else {
            local + 1
        };
        if self.owner_node_id == 0 {
            local
        } else {
            encode_session_id(self.owner_node_id, local)
        }
    }

    /// Create a session at the given time, with `expected_epoch = 1`. Returns the
    /// assigned id.
    ///
    /// Lazy-evicts idle sessions, then LRU-evicts if at max capacity.
    pub fn create_at(&mut self, topics: Topics, now_ms: i64) -> (id: i32)
        ensures
            id == fresh_id(lru_evicted(idle_evicted(old(self)@, now_ms))),
            final(self)@ == created(old(self)@, topics.deep_view(), now_ms),
    {
        let _removed: usize = self.evict_idle(now_ms);
        self.evict_lru_if_full();
        let id: i32 = self.alloc_id();
        self.sessions.insert(
            id,
            FetchSession {
                epoch: 1,
                topics,
                last_activity_ms: now_ms,
                mirror_gen: 1,
                promoted_by: 0,
            },
        );
        self.sessions_dirty = true;
        self.queue_mirror_put(id);
        id
    }

    /// Evict idle sessions at an explicit timestamp. Returns the number of sessions
    /// removed.
    pub fn evict_idle_at(&mut self, now_ms: i64) -> (removed: usize)
        ensures
            final(self)@ == swept(old(self)@, now_ms),
            removed == idle_ids(old(self)@, now_ms).len(),
    {
        let removed: usize = self.evict_idle(now_ms);
        if removed > 0 {
            self.sessions_dirty = true;
        }
        removed
    }

    /// Puts `s` in as the session `id`, with the next generation.
    fn touch(&mut self, id: i32, s: FetchSession)
        ensures
            final(self)@ == touched(old(self)@, id, s.deep_view()),
    {
        let mut s = s;
        if s.mirror_gen < u64::MAX {
            s.mirror_gen = s.mirror_gen + 1;
        }
        self.sessions.insert(id, s);
        self.sessions_dirty = true;
        self.queue_mirror_put(id);
    }

    /// Validate incremental request epoch and advance expected epoch.
    ///
    /// Lazy-evicts idle sessions first. Returns `Ok(())` or Kafka top-level
    /// error code (70 / 71). Touches activity on success.
    pub fn begin_incremental_at(&mut self, session_id: i32, epoch: i32, now_ms: i64) -> (r:
        core::result::Result<(), i16>)
        ensures
            r == incremental_result(old(self)@, session_id, epoch, now_ms),
            final(self)@ == incremented(old(self)@, session_id, epoch, now_ms),
    {
        let _removed: usize = self.evict_idle_at(now_ms);
        let ghost w = self@;
        match self.sessions.get(&session_id) {
            None => return Err(70),
            Some(s) => {
                if s.epoch != epoch {
                    return Err(71);
                }
            },
        }
        if let Some(mut session) = self.sessions.remove(&session_id) {
            session.epoch = next_epoch(epoch);
            session.last_activity_ms = now_ms;
            let ghost s = session.deep_view();
            assert(s =~= (SessionView {
                epoch: fetch_session::epoch_after(epoch),
                last_activity_ms: now_ms,
                ..w.sessions[session_id]
            }));
            self.touch(session_id, session);
            assert(self@.sessions =~= touched(w, session_id, s).sessions);
        }
        Ok(())
    }

    /// Close a session (no-op for id 0 / missing). Not counted as eviction.
    pub fn close(&mut self, session_id: i32)
        ensures
            final(self)@ == closed(old(self)@, session_id),
    {
        let ghost v = self@;
        if session_id != 0 {
            if self.sessions.remove(&session_id).is_some() {
                self.sessions_dirty = true;
                assert(v.sessions.remove_keys(set![session_id]) =~= v.sessions.remove(session_id));
                self.queue_mirror_delete(session_id);
            } else {
                assert(v.sessions.remove(session_id) =~= v.sessions);
            }
        }
    }
}

/// What is merged in last is merged in on top.
proof fn lemma_merged_parts(
    a: Map<i32, SessionPartition>,
    b: Map<i32, SessionPartition>,
    k: i32,
    p: SessionPartition,
)
    requires
        !b.contains_key(k),
    ensures
        merged_parts(a, b.insert(k, p)) == merged_parts(a, b).insert(
            k,
            merged_part(look_up(a, k), p),
        ),
        look_up(merged_parts(a, b), k) == look_up(a, k),
{
    assert(merged_parts(a, b.insert(k, p)) =~= merged_parts(a, b).insert(
        k,
        merged_part(look_up(a, k), p),
    ));
}

proof fn lemma_merged_topics(a: TopicsView, b: TopicsView, k: Seq<char>, t: TopicView)
    requires
        !b.contains_key(k),
    ensures
        merged_topics(a, b.insert(k, t)) == merged_topics(a, b).insert(
            k,
            merged_topic(look_up(a, k), t),
        ),
        look_up(merged_topics(a, b), k) == look_up(a, k),
{
    assert(merged_topics(a, b.insert(k, t)) =~= merged_topics(a, b).insert(
        k,
        merged_topic(look_up(a, k), t),
    ));
}

/// The parameters of a partition with what was last returned for it.
fn merge_part(prev: Option<&SessionPartition>, p: &SessionPartition) -> (m: SessionPartition)
    ensures
        m == merged_part(prev.deep_view(), *p),
{
    let mut m = *p;
    if m.last_hwm.is_none() {
        if let Some(q) = prev {
            m.last_hwm = q.last_hwm;
            m.last_lso = q.last_lso;
        }
    }
    m
}

/// Merges the topic `t` of a request into `entry`, which may be new.
fn merge_topic(entry: Option<SessionTopic>, t: &SessionTopic) -> (m: SessionTopic)
    ensures
        m.deep_view() == merged_topic(entry.deep_view(), t.deep_view()),
{
    let ghost prev = entry.deep_view();
    let (name, mut partitions): (String, SortedMap<i32, SessionPartition>) = match entry {
        Some(e) => {
            let name = if t.name.as_str().is_empty() {
                e.name
            } else {
                t.name.clone()
            };
            (name, e.partitions)
        },
        None => (t.name.clone(), SortedMap::new()),
    };
    let ghost a = partitions.deep_view();
    let ghost p = t.partitions.pairs();
    let n: usize = t.partitions.len();
    let mut i: usize = 0;
    proof {
        assert(p.take(0).len() == 0);
        assert(merged_parts(a, Map::empty()) =~= a);
    }
    while i < n
        invariant
            i <= n,
            n == p.len(),
            p == t.partitions.pairs(),
            table::sorted::<i32, SessionPartition>(p),
            partitions.deep_view() == merged_parts(a, table::map_of(p.take(i as int))),
        decreases n - i,
    {
        let (pid, part) = t.partitions.at(i);
        let pid: i32 = *pid;
        proof {
            table::lemma_prefix::<i32, SessionPartition>(p, i as int);
            lemma_merged_parts(a, table::map_of(p.take(i as int)), pid, *part);
        }
        let merged = merge_part(partitions.get(&pid), part);
        partitions.insert(pid, merged);
        i += 1;
    }
    assert(p.take(n as int) =~= p);
    SessionTopic { wire: t.wire.clone(), name, partitions }
}

/// Removes the listed partitions.
fn remove_parts(partitions: &mut SortedMap<i32, SessionPartition>, parts: &Vec<i32>)
    ensures
        final(partitions).deep_view() == old(partitions).deep_view().remove_keys(parts@.to_set()),
{
    let ghost a = partitions.deep_view();
    let mut i: usize = 0;
    assert(a.remove_keys(parts@.take(0).to_set()) =~= a);
    while i < parts.len()
        invariant
            i <= parts@.len(),
            partitions.deep_view() == a.remove_keys(parts@.take(i as int).to_set()),
        decreases parts@.len() - i,
    {
        let _gone = partitions.remove(&parts[i]);
        proof {
            let t = parts@.take(i as int);
            let u = parts@.take(i + 1);
            assert(u =~= t.push(parts@[i as int]));
            assert(u.to_set() =~= t.to_set().insert(parts@[i as int])) by {
                assert forall|x: i32| u.to_set().contains(x) == t.to_set().insert(
                    parts@[i as int],
                ).contains(x) by {
                    if u.contains(x) {
                        let k = choose|k: int| 0 <= k < u.len() && u[k] == x;
                        if k < t.len() {
                            assert(t[k] == x);
                        }
                    }
                    if t.contains(x) {
                        let k = choose|k: int| 0 <= k < t.len() && t[k] == x;
                        assert(u[k] == x);
                    }
                    assert(u[i as int] == parts@[i as int]);
                }
            }
            assert(a.remove_keys(t.to_set()).remove(parts@[i as int]) =~= a.remove_keys(
                u.to_set(),
            ));
        }
        i += 1;
    }
    assert(parts@.take(parts@.len() as int) =~= parts@);
}

/// Forgets the listed partitions of a topic.
pub(crate) fn forget_one(topics: &mut Topics, key: &String, parts: &Vec<i32>)
    ensures
        final(topics).deep_view() == forgot_one(
            old(topics).deep_view(),
            key.deep_view(),
            parts.deep_view(),
        ),
{
    let ghost a = topics.deep_view();
    assert(parts.deep_view() =~= parts@);
    match topics.remove(key) {
        None => {
            assert(a.remove(key@) =~= a);
        },
        Some(t) => {
            let mut t = t;
            if parts.len() > 0 {
                remove_parts(&mut t.partitions, parts);
                if t.partitions.len() > 0 {
                    let ghost tv = t.deep_view();
                    topics.insert(key.clone(), t);
                    assert(tv =~= (TopicView {
                        partitions: a[key@].partitions.remove_keys(parts@.to_set()),
                        ..a[key@]
                    }));
                    assert(topics.deep_view() =~= a.insert(key@, tv));
                }
            }
        },
    }
}

impl FetchSessionManager {
    /// Merge request topics/partitions into an existing session.
    ///
    /// New or updated partitions keep/replace fetch params; `last_hwm`/`last_lso`
    /// are preserved when the same partition already existed (offset updates do
    /// not clear the omit cache — empty-records + same HWM still omits).
    pub fn merge_topics(&mut self, session_id: i32, topics: &Topics)
        ensures
            final(self)@ == merged(old(self)@, session_id, topics.deep_view()),
    {
        let ghost v = self@;
        let mut session = match self.sessions.remove(&session_id) {
            None => {
                assert(v.sessions.remove(session_id) =~= v.sessions);
                return;
            },
            Some(s) => s,
        };
        let ghost a = session.topics.deep_view();
        let ghost p = topics.pairs();
        let n: usize = topics.len();
        let mut i: usize = 0;
        proof {
            assert(p.take(0).len() == 0);
            assert(merged_topics(a, Map::empty()) =~= a);
        }
        while i < n
            invariant
                i <= n,
                n == p.len(),
                p == topics.pairs(),
                table::sorted::<String, TopicView>(p),
                session.epoch == v.sessions[session_id].epoch,
                session.last_activity_ms == v.sessions[session_id].last_activity_ms,
                session.mirror_gen == v.sessions[session_id].mirror_gen,
                session.promoted_by == v.sessions[session_id].promoted_by,
                session.topics.deep_view() == merged_topics(a, table::map_of(p.take(i as int))),
            decreases n - i,
        {
            let (key, topic) = topics.at(i);
            proof {
                table::lemma_prefix::<String, TopicView>(p, i as int);
                lemma_merged_topics(
                    a,
                    table::map_of(p.take(i as int)),
                    key@,
                    topic.deep_view(),
                );
            }
            let ghost cur = session.topics.deep_view();
            let entry = session.topics.remove(key);
            assert(entry.deep_view() == look_up(a, key@));
            let merged = merge_topic(entry, topic);
            let ghost mv = merged.deep_view();
            session.topics.insert(key.clone(), merged);
            assert(cur.remove(key@).insert(key@, mv) =~= cur.insert(key@, mv));
            i += 1;
        }
        assert(p.take(n as int) =~= p);
        let ghost s = session.deep_view();
        assert(s =~= (SessionView {
            topics: merged_topics(a, topics.deep_view()),
            ..v.sessions[session_id]
        }));
        self.touch(session_id, session);
        assert(self@.sessions =~= touched(v, session_id, s).sessions);
    }

    /// Apply forgotten_topics_data removals.
    pub fn forget(&mut self, session_id: i32, forgotten: &[(String, Vec<i32>)])
        ensures
            final(self)@ == forgetting(old(self)@, session_id, forgotten.deep_view()),
    {
        let ghost v = self@;
        let ghost f = forgotten.deep_view();
        if session_id == 0 || forgotten.len() == 0 {
            return;
        }
        let mut session = match self.sessions.remove(&session_id) {
            None => {
                assert(v.sessions.remove(session_id) =~= v.sessions);
                return;
            },
            Some(s) => s,
        };
        let ghost a = session.topics.deep_view();
        let mut i: usize = 0;
        assert(f.take(0).len() == 0);
        while i < forgotten.len()
            invariant
                i <= forgotten@.len(),
                f == forgotten.deep_view(),
                session.epoch == v.sessions[session_id].epoch,
                session.last_activity_ms == v.sessions[session_id].last_activity_ms,
                session.mirror_gen == v.sessions[session_id].mirror_gen,
                session.promoted_by == v.sessions[session_id].promoted_by,
                session.topics.deep_view() == forgot(a, f.take(i as int)),
            decreases forgotten@.len() - i,
        {
            assert(f.take(i + 1).drop_last() =~= f.take(i as int));
            assert(f[i as int] == (
                forgotten@[i as int].0.deep_view(),
                forgotten@[i as int].1.deep_view(),
            ));
            forget_one(&mut session.topics, &forgotten[i].0, &forgotten[i].1);
            i += 1;
        }
        assert(f.take(f.len() as int) =~= f);
        let ghost s = session.deep_view();
        assert(s =~= (SessionView { topics: forgot(a, f), ..v.sessions[session_id] }));
        self.touch(session_id, session);
        assert(self@.sessions =~= touched(v, session_id, s).sessions);
    }

    /// Snapshot topics currently in the session (for empty-topics incremental).
    pub fn snapshot_topics(&self, session_id: i32) -> (t: Topics)
        ensures
            t.deep_view() == (if self@.sessions.contains_key(session_id) {
                self@.sessions[session_id].topics
            } else {
                Map::empty()
            }),
    {
        match self.sessions.get(&session_id) {
            Some(s) => s.topics.duplicate(),
            None => SortedMap::new(),
        }
    }

    /// Record HWM/LSO returned for a partition after it was included in a response.
    ///
    /// Only call for `error == 0` includes.
    pub fn note_returned(
        &mut self,
        session_id: i32,
        topic_key: &str,
        partition: i32,
        hwm: i64,
        lso: i64,
    )
        ensures
            final(self)@ == noted(old(self)@, session_id, topic_key@, partition, hwm, lso),
    {
        let ghost v = self@;
        if session_id == 0 {
            return;
        }
        let key = topic_key.to_owned();
        let followed = match self.sessions.get(&session_id) {
            None => false,
            Some(s) => match s.topics.get(&key) {
                None => false,
                Some(t) => t.partitions.contains_key(&partition),
            },
        };
        if !followed {
            return;
        }
        if let Some(mut session) = self.sessions.remove(&session_id) {
            if let Some(mut topic) = session.topics.remove(&key) {
                if let Some(mut part) = topic.partitions.remove(&partition) {
                    let ghost s = v.sessions[session_id];
                    let ghost t = s.topics[key@];
                    part.last_hwm = Some(hwm);
                    part.last_lso = Some(lso);
                    topic.partitions.insert(partition, part);
                    assert(topic.partitions.deep_view() =~= t.partitions.insert(partition, part));
                    let ghost tv = topic.deep_view();
                    session.topics.insert(key, topic);
                    assert(session.topics.deep_view() =~= s.topics.insert(key@, tv));
                    let ghost sv = session.deep_view();
                    self.touch(session_id, session);
                    assert(self@.sessions =~= touched(v, session_id, sv).sessions);
                }
            }
        }
    }

    /// Drain pending mirror put/delete ops for peer fan-out.
    ///
    /// Returns **Deletes first**, then Puts, each group sorted by `session_id`.
    pub fn drain_mirror_ops(&mut self) -> (ops: Vec<SessionMirrorOp>)
        ensures
            drains(ops@, old(self)@.pending),
            final(self)@ == (ManagerView { pending: Map::empty(), ..old(self)@ }),
    {
        let ghost v = self@;
        let ghost p = self.pending.pairs();
        let n: usize = self.pending.len();
        let mut deletes: Vec<SessionMirrorOp> = Vec::new();
        let mut puts: Vec<SessionMirrorOp> = Vec::new();
        let mut i: usize = 0;
        while i < n
            invariant
                i <= n,
                n == p.len(),
                p == self.pending.pairs(),
                table::sorted::<i32, Pending>(p),
                v == self@,
                v == old(self)@,
                deletes@.len() + puts@.len() == i,
                forall|j: int|
                    0 <= j < i ==> has_op(deletes@, (#[trigger] p[j]).0) || has_op(puts@, p[j].0),
                forall|k: int|
                    0 <= k < deletes@.len() ==> (#[trigger] deletes@[k]) is Delete && is_pending(
                        v.pending,
                        deletes@[k],
                    ),
                forall|k: int|
                    0 <= k < puts@.len() ==> (#[trigger] puts@[k]) is Put && is_pending(
                        v.pending,
                        puts@[k],
                    ),
                forall|k: int, j: int|
                    0 <= k < deletes@.len() && i <= j < n ==> op_id(#[trigger] deletes@[k])
                        < (#[trigger] p[j]).0,
                forall|k: int, j: int|
                    0 <= k < puts@.len() && i <= j < n ==> op_id(#[trigger] puts@[k]) < (
                    #[trigger] p[j]).0,
                forall|a: int, b: int|
                    0 <= a < b < deletes@.len() ==> op_before(
                        #[trigger] deletes@[a],
                        #[trigger] deletes@[b],
                    ),
                forall|a: int, b: int|
                    0 <= a < b < puts@.len() ==> op_before(
                        #[trigger] puts@[a],
                        #[trigger] puts@[b],
                    ),
            decreases n - i,
        {
            let (id, op) = self.pending.at(i);
            assert(forall|j: int| i < j < n ==> i32::precedes(p[i as int].0, #[trigger] p[j].0));
            let ghost d = deletes@;
            let ghost q = puts@;
            match op {
                Pending::Delete => deletes.push(SessionMirrorOp::Delete(*id)),
                Pending::Put => puts.push(SessionMirrorOp::Put(*id)),
            }
            proof {
                assert(deletes@.take(d.len() as int) =~= d);
                assert(puts@.take(q.len() as int) =~= q);
                assert forall|j: int| 0 <= j <= i implies has_op(deletes@, (#[trigger] p[j]).0)
                    || has_op(puts@, p[j].0) by {
                    if j < i {
                        lemma_has_op(d, deletes@, p[j].0);
                        lemma_has_op(q, puts@, p[j].0);
                    } else if op == Pending::Delete {
                        assert(op_id(deletes@[d.len() as int]) == p[j].0);
                    } else {
                        assert(op_id(puts@[q.len() as int]) == p[j].0);
                    }
                }
            }
            i += 1;
        }
        let ghost d = deletes@;
        let ghost q = puts@;
        deletes.append(&mut puts);
        proof {
            let ops = deletes@;
            assert(ops =~= d + q);
            SortedMap::lemma_pairs(&self.pending);
            assert forall|id: i32| #[trigger] v.pending.contains_key(id) implies exists|i: int|
                0 <= i < ops.len() && op_id(#[trigger] ops[i]) == id by {
                let j = choose|j: int| 0 <= j < p.len() && (#[trigger] p[j]).0 == id;
                if has_op(d, p[j].0) {
                    let k = choose|k: int| 0 <= k < d.len() && op_id(#[trigger] d[k]) == p[j].0;
                    assert(op_id(ops[k]) == id);
                } else {
                    let k = choose|k: int| 0 <= k < q.len() && op_id(#[trigger] q[k]) == p[j].0;
                    assert(op_id(ops[d.len() + k]) == id);
                }
            }
            assert forall|i: int| 0 <= i < ops.len() implies is_pending(
                v.pending,
                #[trigger] ops[i],
            ) by {
                if i < d.len() {
                    assert(ops[i] == d[i]);
                } else {
                    assert(ops[i] == q[i - d.len()]);
                }
            }
            assert forall|i: int, j: int| 0 <= i < j < ops.len() implies op_before(
                #[trigger] ops[i],
                #[trigger] ops[j],
            ) by {
                if i < d.len() {
                    assert(ops[i] == d[i]);
                } else {
                    assert(ops[i] == q[i - d.len()]);
                }
                if j < d.len() {
                    assert(ops[j] == d[j]);
                } else {
                    assert(ops[j] == q[j - d.len()]);
                }
            }
        }
        self.pending = SortedMap::new();
        deletes
    }

    /// Whether any mirror ops are pending fan-out.
    pub fn has_pending_mirror_ops(&self) -> (b: bool)
        ensures
            b == (self@.pending.dom().len() > 0),
            self@.pending.dom().finite(),
    {
        self.pending.len() > 0
    }

    /// Whether a Delete is pending (flushes immediately).
    pub fn has_pending_mirror_delete(&self) -> (b: bool)
        ensures
            b == exists|id: i32| #[trigger]
                self@.pending.contains_key(id) && self@.pending[id] == Pending::Delete,
    {
        let ghost p = self.pending.pairs();
        let n: usize = self.pending.len();
        let mut i: usize = 0;
        while i < n
            invariant
                i <= n,
                n == p.len(),
                p == self.pending.pairs(),
                table::sorted::<i32, Pending>(p),
                forall|j: int| 0 <= j < i ==> (#[trigger] p[j]).1 == Pending::Put,
            decreases n - i,
        {
            let (id, op) = self.pending.at(i);
            if let Pending::Delete = op {
                assert(self@.pending.contains_key(*id));
                return true;
            }
            i += 1;
        }
        proof {
            SortedMap::lemma_pairs(&self.pending);
            assert forall|id: i32| #[trigger] self@.pending.contains_key(id) implies
                self@.pending[id] == Pending::Put by {
                let j = choose|j: int| 0 <= j < p.len() && (#[trigger] p[j]).0 == id;
                assert(p[j].1 == self@.pending[id]);
            }
        }
        false
    }

    /// Classify a losing put as stale-gen vs claim-fence reject.
    fn record_put_reject(&mut self, stale: bool)
        ensures
            final(self)@ == with_counts(
                old(self)@,
                (if stale {
                    Counts {
                        stale_rejects: counted(old(self)@.counts.stale_rejects, 1),
                        ..old(self)@.counts
                    }
                } else {
                    Counts {
                        claim_rejects: counted(old(self)@.counts.claim_rejects, 1),
                        ..old(self)@.counts
                    }
                }),
            ),
    {
        if stale {
            self.counts.stale_rejects = count(self.counts.stale_rejects, 1);
        } else {
            self.counts.claim_rejects = count(self.counts.claim_rejects, 1);
        }
    }

    /// Install/replace a foreign mirror from a snapshot.
    ///
    /// Fencing: [`session_claim_wins`] — newer `mirror_gen`/epoch/activity, else
    /// lowest non-zero `promoted_by` on equal freshness. Stale or claim-losing puts
    /// do not clobber primary or mirror. When primary exists and the incoming
    /// snapshot wins, primary is replaced (converge).
    pub fn put_mirror(&mut self, id: i32, session: FetchSession)
        ensures
            final(self)@ == put_applied(old(self)@, id, session.deep_view()),
    {
        let ghost v = self@;
        let ghost s = session.deep_view();
        if let Some(primary) = self.sessions.get(&id) {
            if !session_claim_wins(&session, primary) {
                let stale = session_is_newer(primary, &session);
                self.record_put_reject(stale);
                return;
            }
            self.sessions.insert(id, session);
            self.sessions_dirty = true;
            if self.mirrors.remove(&id).is_some() {
                self.mirrors_dirty = true;
            }
            self.counts.puts_applied = count(self.counts.puts_applied, 1);
            return;
        }
        if let Some(existing) = self.mirrors.get(&id) {
            if !session_claim_wins(&session, existing) {
                let stale = session_is_newer(existing, &session);
                self.record_put_reject(stale);
                return;
            }
        }
        self.mirrors.insert(id, session);
        self.mirrors_dirty = true;
        self.counts.puts_applied = count(self.counts.puts_applied, 1);
    }

    /// Remove a foreign mirror. No-op if missing.
    pub fn apply_mirror_delete(&mut self, session_id: i32)
        ensures
            final(self)@ == delete_applied(old(self)@, session_id),
    {
        let ghost v = self@;
        if self.mirrors.remove(&session_id).is_some() {
            self.mirrors_dirty = true;
            self.counts.deletes_applied = count(self.counts.deletes_applied, 1);
        } else {
            assert(v.mirrors.remove(session_id) =~= v.mirrors);
        }
    }

    /// Move mirror → primary, or supersede primary when mirror wins claim.
    ///
    /// Returns `true` if primary ends up holding the id (already present, promoted,
    /// or superseded). Returns `false` when neither primary nor mirror has the id.
    ///
    /// On promote, stamps `promoted_by` with the local node id where the mirror is
    /// unclaimed.
    pub fn promote_from_mirror(&mut self, session_id: i32) -> (held: bool)
        ensures
            held == final(self)@.sessions.contains_key(session_id),
            held == (old(self)@.sessions.contains_key(session_id)
                || old(self)@.mirrors.contains_key(session_id)),
            final(self)@ == promoted(old(self)@, session_id),
    {
        let ghost v = self@;
        let mut m = match self.mirrors.remove(&session_id) {
            None => {
                assert(v.mirrors.remove(session_id) =~= v.mirrors);
                return self.sessions.contains_key(&session_id);
            },
            Some(m) => m,
        };
        let ghost mv = m.deep_view();
        self.mirrors_dirty = true;
        if let Some(primary) = self.sessions.get(&session_id) {
            if !session_claim_wins(&m, primary) {
                if !session_is_newer(primary, &m) {
                    self.counts.claim_rejects = count(self.counts.claim_rejects, 1);
                }
                return true;
            }
            self.counts.supersedes = count(self.counts.supersedes, 1);
        }
        if m.promoted_by == 0 {
            m.promoted_by = self.owner_node_id;
        }
        assert(m.deep_view() =~= stamped(v, mv));
        self.sessions.insert(session_id, m);
        self.sessions_dirty = true;
        self.counts.promotes = count(self.counts.promotes, 1);
        self.queue_mirror_put(session_id);
        true
    }
}

/// `v` after the stored sessions `f` are read at `now`.
pub open spec fn sessions_restored(
    v: ManagerView,
    f: Seq<StoredView>,
    next_id: i32,
    now: i64,
) -> ManagerView {
    let r = stored_session::restored(f, v.idle_timeout_ms, now);
    ManagerView {
        sessions: r.sessions,
        next_id: stored_session::restored_counter(next_id, r.max_local, v.owner) as i32,
        sessions_dirty: v.sessions_dirty || r.idle_dropped > 0,
        counts: Counts {
            evicted: counted(v.counts.evicted, r.idle_dropped),
            idle_evicted: counted(v.counts.idle_evicted, r.idle_dropped),
            restored: r.sessions.dom().len() as u64,
            ..v.counts
        },
        ..v
    }
}

/// `v` after the stored mirrors `f` are read at `now`.
pub open spec fn mirrors_restored(v: ManagerView, f: Seq<StoredView>, now: i64) -> ManagerView {
    let r = stored_session::restored(f, v.idle_timeout_ms, now);
    ManagerView {
        mirrors: r.sessions,
        mirrors_dirty: v.mirrors_dirty || r.idle_dropped > 0,
        counts: Counts { mirrors_restored: r.sessions.dom().len() as u64, ..v.counts },
        ..v
    }
}

/// A manager as it is made: the given limits, and nothing in it.
pub open spec fn fresh(idle_timeout_ms: u64, max_sessions: usize, owner: u32) -> ManagerView {
    ManagerView {
        sessions: Map::empty(),
        mirrors: Map::empty(),
        pending: Map::empty(),
        next_id: 1,
        idle_timeout_ms,
        max_sessions,
        owner,
        min_interval_ms: DEFAULT_MIRROR_PUT_MIN_INTERVAL_MS,
        debounce_armed: false,
        sessions_dirty: false,
        mirrors_dirty: false,
        counts: no_counts(),
    }
}

impl Default for FetchSessionManager {
    fn default() -> (m: FetchSessionManager)
        ensures
            m@ == fresh(DEFAULT_IDLE_TIMEOUT_MS, DEFAULT_MAX_SESSIONS, 0),
    {
        FetchSessionManager::new()
    }
}

impl FetchSessionManager {
    /// Manager with the default limits and ids that name no owner.
    pub fn new() -> (m: FetchSessionManager)
        ensures
            m@ == fresh(DEFAULT_IDLE_TIMEOUT_MS, DEFAULT_MAX_SESSIONS, 0),
    {
        FetchSessionManager::with_limits(DEFAULT_IDLE_TIMEOUT_MS, DEFAULT_MAX_SESSIONS)
    }

    /// Manager with explicit limits and ids that name no owner.
    pub fn with_limits(idle_timeout_ms: u64, max_sessions: usize) -> (m: FetchSessionManager)
        ensures
            m@ == fresh(idle_timeout_ms, max_sessions, 0),
    {
        FetchSessionManager::with_limits_and_owner(idle_timeout_ms, max_sessions, 0)
    }

    /// One primary session as it is sent to peers.
    pub fn export_session(&self, session_id: i32) -> (r: Option<StoredFetchSession>)
        ensures
            match r {
                Some(st) => self@.sessions.contains_key(session_id) && stored_session::is_stored(
                    st.deep_view(),
                    session_id,
                    self@.sessions[session_id],
                ),
                None => !self@.sessions.contains_key(session_id),
            },
    {
        match self.sessions.get(&session_id) {
            Some(s) => Some(session_to_stored(session_id, s)),
            None => None,
        }
    }

    /// Install/replace a foreign mirror from a stored session.
    pub fn apply_mirror_put(&mut self, stored: &StoredFetchSession) -> (r: core::result::Result<
        (),
        String,
    >)
        ensures
            match stored_session::session_of(stored.deep_view()) {
                Some(s) => if stored.id > 0 {
                    r is Ok && final(self)@ == put_applied(old(self)@, stored.id, s)
                } else {
                    r matches Err(e) && e@ == "invalid session id"@ && final(self)@ == old(self)@
                },
                None => r matches Err(e) && e@ == (if stored.id > 0 {
                    "invalid session snapshot"@
                } else {
                    "invalid session id"@
                }) && final(self)@ == old(self)@,
            },
    {
        if stored.id <= 0 {
            return Err("invalid session id".to_owned());
        }
        match stored_to_session(stored) {
            None => Err("invalid session snapshot".to_owned()),
            Some((id, session)) => {
                self.put_mirror(id, session);
                Ok(())
            },
        }
    }

    /// Manager with explicit limits and owner that starts with what lies on disk, where
    /// anything does, without the sessions that are idle by now.
    pub fn open_at(
        file: Option<StoredFetchSessionsFile>,
        idle_timeout_ms: u64,
        max_sessions: usize,
        owner_node_id: u32,
        now_ms: i64,
    ) -> (m: FetchSessionManager)
        ensures
            m@ == opened(
                match file {
                    Some(f) => Some(
                        FileView { next_id: f.next_id, sessions: f.sessions.deep_view() },
                    ),
                    None => None,
                },
                idle_timeout_ms,
                max_sessions,
                owner_node_id,
                now_ms,
            ),
    {
        let mut m = FetchSessionManager::with_limits_and_owner(
            idle_timeout_ms,
            max_sessions,
            owner_node_id,
        );
        if let Some(f) = file {
            m.restore_sessions(&f, now_ms);
        }
        m
    }

    /// Takes over stored sessions at start, without those that are idle by now.
    pub fn restore_sessions(&mut self, file: &StoredFetchSessionsFile, now_ms: i64)
        ensures
            final(self)@ == sessions_restored(
                old(self)@,
                file.sessions.deep_view(),
                file.next_id,
                now_ms,
            ),
    {
        let (loaded, idle_dropped, max_local) = restore(
            &file.sessions,
            self.idle_timeout_ms,
            now_ms,
        );
        proof {
            lemma_counted(self.counts.evicted, 0, 0);
            lemma_counted(self.counts.idle_evicted, 0, 0);
        }
        self.counts.evicted = count(self.counts.evicted, idle_dropped as u64);
        self.counts.idle_evicted = count(self.counts.idle_evicted, idle_dropped as u64);
        self.next_id = restore_counter(file.next_id, max_local, self.owner_node_id);
        self.counts.restored = loaded.len() as u64;
        self.sessions = loaded;
        if idle_dropped > 0 {
            self.sessions_dirty = true;
        }
    }

    /// Takes over stored mirrors at start, without those that are idle by now.
    pub fn restore_mirrors(&mut self, file: &StoredFetchSessionsFile, now_ms: i64)
        ensures
            final(self)@ == mirrors_restored(old(self)@, file.sessions.deep_view(), now_ms),
    {
        let (loaded, idle_dropped, _max_local) = restore(
            &file.sessions,
            self.idle_timeout_ms,
            now_ms,
        );
        self.counts.mirrors_restored = loaded.len() as u64;
        self.mirrors = loaded;
        if idle_dropped > 0 {
            self.mirrors_dirty = true;
        }
    }

    /// The sessions as they are to be written down, where that is due, after which
    /// it is due no more.
    pub fn take_sessions_snapshot(&mut self) -> (r: Option<StoredFetchSessionsFile>)
        ensures
            match r {
                Some(f) => old(self)@.sessions_dirty && f.version == FETCH_SESSIONS_FILE_VERSION
                    && f.next_id == old(self)@.next_id && stored_session::is_snapshot(
                    f.sessions.deep_view(),
                    old(self)@.sessions,
                ),
                None => !old(self)@.sessions_dirty,
            },
            final(self)@ == (ManagerView { sessions_dirty: false, ..old(self)@ }),
    {
        if self.sessions_dirty {
            self.sessions_dirty = false;
            Some(snapshot_file(&self.sessions, self.next_id))
        } else {
            None
        }
    }

    /// The mirrors as they are to be written down, where that is due, after which it
    /// is due no more.
    pub fn take_mirrors_snapshot(&mut self) -> (r: Option<StoredFetchSessionsFile>)
        ensures
            match r {
                Some(f) => old(self)@.mirrors_dirty && f.version == FETCH_SESSIONS_FILE_VERSION
                    && f.next_id == 1 && stored_session::is_snapshot(
                    f.sessions.deep_view(),
                    old(self)@.mirrors,
                ),
                None => !old(self)@.mirrors_dirty,
            },
            final(self)@ == (ManagerView { mirrors_dirty: false, ..old(self)@ }),
    {
        if self.mirrors_dirty {
            self.mirrors_dirty = false;
            Some(snapshot_file(&self.mirrors, 1))
        } else {
            None
        }
    }

    /// Whether a live session exists for `session_id` (after prior evictions on ops).
    pub fn contains(&self, session_id: i32) -> (b: bool)
        ensures
            b == self@.sessions.contains_key(session_id),
    {
        self.sessions.contains_key(&session_id)
    }

    /// Whether a foreign mirror exists for `session_id`.
    pub fn mirror_contains(&self, session_id: i32) -> (b: bool)
        ensures
            b == self@.mirrors.contains_key(session_id),
    {
        self.mirrors.contains_key(&session_id)
    }

    /// Number of foreign mirrors.
    pub fn mirrored_count(&self) -> (n: usize)
        ensures
            n == self@.mirrors.dom().len(),
            self@.mirrors.dom().finite(),
    {
        self.mirrors.len()
    }

    /// Live session count (after any prior eviction on this manager).
    pub fn active_count(&self) -> (n: usize)
        ensures
            n == self@.sessions.dom().len(),
            self@.sessions.dom().finite(),
    {
        self.sessions.len()
    }

    /// A copy of a live session.
    pub fn session(&self, session_id: i32) -> (r: Option<FetchSession>)
        ensures
            r.deep_view() == look_up(self@.sessions, session_id),
    {
        match self.sessions.get(&session_id) {
            Some(s) => Some(s.duplicate()),
            None => None,
        }
    }

    /// A copy of a foreign mirror.
    pub fn mirror(&self, session_id: i32) -> (r: Option<FetchSession>)
        ensures
            r.deep_view() == look_up(self@.mirrors, session_id),
    {
        match self.mirrors.get(&session_id) {
            Some(s) => Some(s.duplicate()),
            None => None,
        }
    }

    /// Cluster owner node id used for session_id encoding (`0` = sequential).
    pub fn owner_node_id(&self) -> (n: u32)
        ensures
            n == self@.owner,
    {
        self.owner_node_id
    }

    /// Set cluster owner for subsequent allocations.
    pub fn set_owner_node_id(&mut self, owner_node_id: u32)
        ensures
            final(self)@ == (ManagerView { owner: owner_node_id, ..old(self)@ }),
    {
        self.owner_node_id = owner_node_id;
    }

    /// Current idle timeout in milliseconds (`0` = disabled).
    pub fn idle_timeout_ms(&self) -> (ms: u64)
        ensures
            ms == self@.idle_timeout_ms,
    {
        self.idle_timeout_ms
    }

    /// Override idle timeout (`0` disables idle eviction).
    pub fn set_idle_timeout_ms(&mut self, ms: u64)
        ensures
            final(self)@ == (ManagerView { idle_timeout_ms: ms, ..old(self)@ }),
    {
        self.idle_timeout_ms = ms;
    }

    /// Current max concurrent sessions (`0` = unlimited).
    pub fn max_sessions(&self) -> (max: usize)
        ensures
            max == self@.max_sessions,
    {
        self.max_sessions
    }

    /// Override max concurrent sessions (`0` = unlimited).
    pub fn set_max_sessions(&mut self, max: usize)
        ensures
            final(self)@ == (ManagerView { max_sessions: max, ..old(self)@ }),
    {
        self.max_sessions = max;
    }

    /// Put fan-out min interval ms (`0` = immediate after coalesce).
    pub fn mirror_put_min_interval_ms(&self) -> (ms: u64)
        ensures
            ms == self@.min_interval_ms,
    {
        self.min_interval_ms
    }

    /// Override Put fan-out min interval ms.
    pub fn set_mirror_put_min_interval_ms(&mut self, ms: u64)
        ensures
            final(self)@ == (ManagerView { min_interval_ms: ms, ..old(self)@ }),
    {
        self.min_interval_ms = ms;
    }

    /// Try to arm single-flight Put debounce. Returns `true` if this caller armed it.
    pub fn try_arm_mirror_put_debounce(&mut self) -> (armed: bool)
        ensures
            armed == !old(self)@.debounce_armed,
            final(self)@ == (ManagerView { debounce_armed: true, ..old(self)@ }),
    {
        let armed = !self.debounce_armed;
        self.debounce_armed = true;
        armed
    }

    /// Clear Put debounce arm after a delayed flush.
    pub fn clear_mirror_put_debounce_armed(&mut self)
        ensures
            final(self)@ == (ManagerView { debounce_armed: false, ..old(self)@ }),
    {
        self.debounce_armed = false;
    }

    /// Record a successful multi-broker Fetch forward.
    pub fn record_forward_ok(&mut self)
        ensures
            final(self)@ == with_counts(
                old(self)@,
                (Counts {
                    forwards: counted(old(self)@.counts.forwards, 1),
                    ..old(self)@.counts
                }),
            ),
    {
        self.counts.forwards = count(self.counts.forwards, 1);
    }

    /// Record a failed multi-broker Fetch forward.
    pub fn record_forward_error(&mut self)
        ensures
            final(self)@ == with_counts(
                old(self)@,
                (Counts {
                    forward_errors: counted(old(self)@.counts.forward_errors, 1),
                    ..old(self)@.counts
                }),
            ),
    {
        self.counts.forward_errors = count(self.counts.forward_errors, 1);
    }

    /// Record a failed durable write.
    pub fn record_persist_error(&mut self)
        ensures
            final(self)@ == with_counts(
                old(self)@,
                (Counts {
                    persist_errors: counted(old(self)@.counts.persist_errors, 1),
                    ..old(self)@.counts
                }),
            ),
    {
        self.counts.persist_errors = count(self.counts.persist_errors, 1);
    }

    /// How often things have happened.
    pub fn counts(&self) -> (c: Counts)
        ensures
            c == self@.counts,
    {
        self.counts
    }

    /// Successful transparent Fetch forwards from this broker.
    pub fn forward_total(&self) -> (n: u64)
        ensures
            n == self@.counts.forwards,
    {
        self.counts.forwards
    }

    /// Failed transparent Fetch forward attempts.
    pub fn forward_errors_total(&self) -> (n: u64)
        ensures
            n == self@.counts.forward_errors,
    {
        self.counts.forward_errors
    }

    /// Successful mirror put installs applied on this broker.
    pub fn mirror_puts_applied_total(&self) -> (n: u64)
        ensures
            n == self@.counts.puts_applied,
    {
        self.counts.puts_applied
    }

    /// Successful mirror deletes applied on this broker.
    pub fn mirror_deletes_applied_total(&self) -> (n: u64)
        ensures
            n == self@.counts.deletes_applied,
    {
        self.counts.deletes_applied
    }

    /// Successful mirror → primary promotions.
    pub fn promote_total(&self) -> (n: u64)
        ensures
            n == self@.counts.promotes,
    {
        self.counts.promotes
    }

    /// Puts dropped by pending-op coalesce.
    pub fn mirror_puts_coalesced_total(&self) -> (n: u64)
        ensures
            n == self@.counts.coalesced,
    {
        self.counts.coalesced
    }

    /// Stale mirror puts rejected by fencing.
    pub fn mirror_stale_put_rejects_total(&self) -> (n: u64)
        ensures
            n == self@.counts.stale_rejects,
    {
        self.counts.stale_rejects
    }

    /// Promotions where a newer mirror superseded primary.
    pub fn promote_supersede_total(&self) -> (n: u64)
        ensures
            n == self@.counts.supersedes,
    {
        self.counts.supersedes
    }

    /// Mirrors restored from durable snapshot at open.
    pub fn mirror_restored(&self) -> (n: u64)
        ensures
            n == self@.counts.mirrors_restored,
    {
        self.counts.mirrors_restored
    }

    /// Dual-promote / claim-lose rejects.
    pub fn promote_claim_reject_total(&self) -> (n: u64)
        ensures
            n == self@.counts.claim_rejects,
    {
        self.counts.claim_rejects
    }

    /// Total idle + LRU evictions since process start.
    pub fn evicted_total(&self) -> (n: u64)
        ensures
            n == self@.counts.evicted,
    {
        self.counts.evicted
    }

    /// Idle-TTL evictions only (subset of [`Self::evicted_total`]).
    pub fn idle_evicted_total(&self) -> (n: u64)
        ensures
            n == self@.counts.idle_evicted,
    {
        self.counts.idle_evicted
    }

    /// Sessions restored from durable snapshot at open.
    pub fn restored(&self) -> (n: u64)
        ensures
            n == self@.counts.restored,
    {
        self.counts.restored
    }

    /// Durable persist failures.
    pub fn persist_errors_total(&self) -> (n: u64)
        ensures
            n == self@.counts.persist_errors,
    {
        self.counts.persist_errors
    }

    /// Stable map key for a session topic.
    pub fn topic_key(wire: &TopicWireId, name: &str) -> (key: String)
        ensures
            key@ == fetch_session::key_of(wire.deep_view(), name@),
    {
        match wire {
            TopicWireId::Name(n) => n.clone(),
            TopicWireId::Uuid(u) => if name.is_empty() {
                let h = hex::encode(u);
                text::concat("id:", h.as_str())
            } else {
                name.to_owned()
            },
        }
    }
}

/// Something that happens to a manager.
pub enum Step {
    Create { topics: TopicsView, now: i64 },
    Sweep { now: i64 },
    Increment { id: i32, epoch: i32, now: i64 },
    Close { id: i32 },
    Merge { id: i32, topics: TopicsView },
    Forget { id: i32, forgotten: Seq<(Seq<char>, Seq<i32>)> },
    Note { id: i32, key: Seq<char>, partition: i32, hwm: i64, lso: i64 },
    MirrorPut { id: i32, session: SessionView },
    MirrorDelete { id: i32 },
    Promote { id: i32 },
    Restore { stored: Seq<StoredView>, next_id: i32, now: i64 },
    RestoreMirrors { stored: Seq<StoredView>, now: i64 },
    Drain,
}

/// `v` after a step.
pub open spec fn after(v: ManagerView, step: Step) -> ManagerView {
    match step {
        Step::Create { topics, now } => created(v, topics, now),
        Step::Sweep { now } => swept(v, now),
        Step::Increment { id, epoch, now } => incremented(v, id, epoch, now),
        Step::Close { id } => closed(v, id),
        Step::Merge { id, topics } => merged(v, id, topics),
        Step::Forget { id, forgotten } => forgetting(v, id, forgotten),
        Step::Note { id, key, partition, hwm, lso } => noted(v, id, key, partition, hwm, lso),
        Step::MirrorPut { id, session } => put_applied(v, id, session),
        Step::MirrorDelete { id } => delete_applied(v, id),
        Step::Promote { id } => promoted(v, id),
        Step::Restore { stored, next_id, now } => sessions_restored(v, stored, next_id, now),
        Step::RestoreMirrors { stored, now } => mirrors_restored(v, stored, now),
        Step::Drain => ManagerView { pending: Map::empty(), ..v },
    }
}

/// Whether the tables are finite and all ids name a session.
pub open spec fn sound(v: ManagerView) -> bool {
    &&& v.sessions.dom().finite()
    &&& v.mirrors.dom().finite()
    &&& v.pending.dom().finite()
    &&& forall|id: i32| #[trigger] v.sessions.contains_key(id) ==> id > 0
    &&& forall|id: i32| #[trigger] v.mirrors.contains_key(id) ==> id > 0
}

proof fn lemma_queued_finite(v: ManagerView, id: i32, gone: Set<i32>)
    requires
        v.pending.dom().finite(),
        gone.finite(),
    ensures
        put_queued(v, id).pending.dom().finite(),
        deletes_queued(v, gone).pending.dom().finite(),
{
    if v.owner != 0 {
        assert(deletes_queued(v, gone).pending.dom() =~= v.pending.dom().union(gone));
    }
}

proof fn lemma_without_sound(v: ManagerView, gone: Set<i32>)
    requires
        sound(v),
        gone.finite(),
    ensures
        sound(without(v, gone)),
{
    let w = ManagerView { sessions: v.sessions.remove_keys(gone), ..v };
    lemma_queued_finite(w, 1, gone);
    assert(w.sessions.dom() =~= v.sessions.dom().difference(gone));
    assert forall|id: i32| #[trigger] w.sessions.contains_key(id) implies id > 0 by {
        assert(v.sessions.contains_key(id));
    }
}

proof fn lemma_swept_sound(v: ManagerView, now: i64)
    requires
        sound(v),
    ensures
        sound(idle_evicted(v, now)),
        sound(swept(v, now)),
{
    lemma_without_sound(v, idle_ids(v, now));
}

proof fn lemma_restored_sound(f: Seq<StoredView>, idle_timeout_ms: u64, now: i64)
    ensures
        stored_session::restored(f, idle_timeout_ms, now).sessions.dom().finite(),
        forall|id: i32| #[trigger]
            stored_session::restored(f, idle_timeout_ms, now).sessions.contains_key(id) ==> id > 0,
    decreases f.len(),
{
    if f.len() > 0 {
        lemma_restored_sound(f.drop_last(), idle_timeout_ms, now);
    }
}

/// A manager is made sound, and nothing that happens to it changes that: its tables stay
/// finite, and all its sessions and mirrors have positive ids. The snapshot of a peer has
/// to have one itself.
pub proof fn law_sound(v: ManagerView, step: Step, idle_timeout_ms: u64, max: usize, owner: u32)
    requires
        step matches Step::MirrorPut { id, .. } ==> id > 0,
    ensures
        sound(fresh(idle_timeout_ms, max, owner)),
        sound(v) ==> sound(after(v, step)),
{
    if sound(v) {
        match step {
            Step::Create { topics, now } => {
                let a = idle_evicted(v, now);
                lemma_swept_sound(v, now);
                let b = lru_evicted(a);
                if full(a) {
                    lemma_without_sound(a, set![lru(a.sessions)]);
                }
                assert(sound(b));
                law_created(v, topics, now);
                lemma_queued_finite(
                    ManagerView {
                        sessions: b.sessions.insert(fresh_id(b), new_session(topics, now)),
                        next_id: counter_after(b),
                        sessions_dirty: true,
                        ..b
                    },
                    fresh_id(b),
                    Set::empty(),
                );
            },
            Step::Sweep { now } => {
                lemma_swept_sound(v, now);
            },
            Step::Increment { id, epoch, now } => {
                lemma_swept_sound(v, now);
                let w = swept(v, now);
                if incremental_result(v, id, epoch, now) is Ok {
                    assert(w.sessions.contains_key(id));
                }
            },
            Step::Close { id } => {
                lemma_without_sound(ManagerView { sessions_dirty: true, ..v }, set![id]);
            },
            Step::Restore { stored, next_id, now } => {
                lemma_restored_sound(stored, v.idle_timeout_ms, now);
            },
            Step::RestoreMirrors { stored, now } => {
                lemma_restored_sound(stored, v.idle_timeout_ms, now);
            },
            _ => {},
        }
    }
}

/// As long as ids name no owner, peers are told nothing.
pub proof fn law_quiet(v: ManagerView, step: Step)
    requires
        v.owner == 0,
        v.pending == Map::<i32, Pending>::empty(),
    ensures
        after(v, step).owner == 0,
        after(v, step).pending == Map::<i32, Pending>::empty(),
{
}

/// Draining hands out everything that is pending, of each session what was queued last,
/// the ends of sessions before their states; where nothing is pending, and so right after,
/// it hands out nothing.
pub proof fn law_drained(ops: Seq<SessionMirrorOp>, pending: Map<i32, Pending>)
    requires
        drains(ops, pending),
    ensures
        forall|id: i32| #[trigger]
            pending.contains_key(id) ==> ops.contains(
                if pending[id] == Pending::Put {
                    SessionMirrorOp::Put(id)
                } else {
                    SessionMirrorOp::Delete(id)
                },
            ),
        forall|i: int, j: int|
            0 <= i < ops.len() && 0 <= j < ops.len() && op_id(#[trigger] ops[i]) == op_id(
                #[trigger] ops[j],
            ) ==> i == j,
        pending == Map::<i32, Pending>::empty() ==> ops.len() == 0,
{
    assert forall|id: i32| #[trigger] pending.contains_key(id) implies ops.contains(
        if pending[id] == Pending::Put {
            SessionMirrorOp::Put(id)
        } else {
            SessionMirrorOp::Delete(id)
        },
    ) by {
        let i = choose|i: int| 0 <= i < ops.len() && op_id(#[trigger] ops[i]) == id;
        assert(is_pending(pending, ops[i]));
    }
    assert forall|i: int, j: int|
        0 <= i < ops.len() && 0 <= j < ops.len() && op_id(#[trigger] ops[i]) == op_id(
            #[trigger] ops[j],
        ) implies i == j by {
        assert(is_pending(pending, ops[i]) && is_pending(pending, ops[j]));
        if i < j {
            assert(op_before(ops[i], ops[j]));
        } else if j < i {
            assert(op_before(ops[j], ops[i]));
        }
    }
}

/// A table that is written down comes back as it was, and nothing else with it, where no
/// session is idle by then. The numbers of new sessions go on past all that are there, as
/// far as there are numbers left.
pub proof fn law_restored(
    v: ManagerView,
    f: Seq<StoredView>,
    m: Map<i32, SessionView>,
    next_id: i32,
    now: i64,
)
    requires
        stored_session::is_snapshot(f, m),
        forall|id: i32| #[trigger]
            m.contains_key(id) ==> id > 0 && !fetch_session::is_idle(
                v.idle_timeout_ms,
                m[id].last_activity_ms,
                now,
            ),
    ensures
        sessions_restored(v, f, next_id, now).sessions == m,
        sessions_restored(v, f, next_id, now).counts.restored == m.dom().len() as u64,
        sessions_restored(v, f, next_id, now).sessions_dirty == v.sessions_dirty,
        mirrors_restored(v, f, now).mirrors == m,
        (forall|id: i32| #[trigger]
            m.contains_key(id) ==> fetch_session::local_of(id as int) < SESSION_LOCAL_MASK)
            ==> forall|id: i32| #[trigger]
            m.contains_key(id) ==> fetch_session::local_of(id as int) < next_local(
                sessions_restored(v, f, next_id, now),
            ),
        v.owner == 0 && (forall|id: i32| #[trigger] m.contains_key(id) ==> id < SESSION_LOCAL_MASK)
            ==> forall|id: i32| #[trigger]
            m.contains_key(id) ==> id < fresh_id(sessions_restored(v, f, next_id, now)),
        (forall|id: i32| #[trigger]
            m.contains_key(id) ==> if v.owner == 0 {
                id < SESSION_LOCAL_MASK
            } else {
                fetch_session::local_of(id as int) < SESSION_LOCAL_MASK
            }) ==> counter_ahead(sessions_restored(v, f, next_id, now)),
{
    stored_session::law_snapshot(f, m, v.idle_timeout_ms, now);
    let w = sessions_restored(v, f, next_id, now);
    if forall|id: i32| #[trigger]
        m.contains_key(id) ==> if v.owner == 0 {
            id < SESSION_LOCAL_MASK
        } else {
            fetch_session::local_of(id as int) < SESSION_LOCAL_MASK
        } {
        assert forall|n: int|
            0 < w.next_id <= n <= last_number(w.owner) implies !w.sessions.contains_key(
            #[trigger] id_at(w.owner, n),
        ) by {
            let id = id_at(w.owner, n);
            if m.contains_key(id) {
                assert(id < fresh_id(w) || fetch_session::local_of(id as int) < next_local(w));
            }
        }
    }
}

/// The sessions as they lie on disk, with the counter for the next one.
#[verifier::ext_equal]
pub struct FileView {
    pub next_id: i32,
    pub sessions: Seq<StoredView>,
}

/// Something that happens to a manager whose sessions are kept on disk.
pub enum Event {
    /// A step in memory.
    Happens(Step),
    /// What is due is written down.
    Write,
}

/// Whether an event leads from a manager and what is on disk to another.
pub open spec fn leads(
    v: ManagerView,
    file: Option<FileView>,
    e: Event,
    w: ManagerView,
    left: Option<FileView>,
) -> bool {
    match e {
        Event::Happens(step) => w == after(v, step) && left == file,
        Event::Write => {
            &&& w == (ManagerView { sessions_dirty: false, ..v })
            &&& if v.sessions_dirty {
                left matches Some(f) && f.next_id == v.next_id && stored_session::is_snapshot(
                    f.sessions,
                    v.sessions,
                )
            } else {
                left == file
            }
        },
    }
}

/// Whether a manager that was opened on an empty directory goes through `vs`, with `files`
/// on disk, as `events` happen. Stored sessions are read only when a manager is opened, and
/// the snapshots of peers have ids that name a session.
pub open spec fn is_life(
    events: Seq<Event>,
    vs: Seq<ManagerView>,
    files: Seq<Option<FileView>>,
) -> bool {
    &&& vs.len() == events.len() + 1
    &&& files.len() == events.len() + 1
    &&& vs[0] == fresh(vs[0].idle_timeout_ms, vs[0].max_sessions, vs[0].owner)
    &&& files[0] is None
    &&& forall|i: int|
        #![trigger events[i]]
        0 <= i < events.len() ==> {
            &&& leads(vs[i], files[i], events[i], vs[i + 1], files[i + 1])
            &&& (events[i] matches Event::Happens(step) ==> !(step is Restore) && (
            step matches Step::MirrorPut { id, .. } ==> id > 0))
        }
}

/// A manager that is opened on what is on disk.
pub open spec fn opened(
    file: Option<FileView>,
    idle_timeout_ms: u64,
    max_sessions: usize,
    owner: u32,
    now: i64,
) -> ManagerView {
    let v = fresh(idle_timeout_ms, max_sessions, owner);
    match file {
        Some(f) => sessions_restored(v, f.sessions, f.next_id, now),
        None => v,
    }
}

/// Whether an event makes a session.
pub open spec fn is_creation(e: Event) -> bool {
    e matches Event::Happens(step) && step is Create
}

/// Whether an event makes a mirror primary.
pub open spec fn is_promotion(e: Event) -> bool {
    e matches Event::Happens(step) && step is Promote
}

/// How many sessions are made.
pub open spec fn creations(events: Seq<Event>) -> nat {
    events.filter(|e: Event| is_creation(e)).len()
}

/// Whether what is on disk is the sessions of `v`.
spec fn on_disk(v: ManagerView, file: Option<FileView>) -> bool {
    match file {
        Some(f) => f.next_id == v.next_id && stored_session::is_snapshot(f.sessions, v.sessions),
        None => v.next_id == 1 && v.sessions == Map::<i32, SessionView>::empty(),
    }
}

/// Whether an id has one of the numbers below `next`.
spec fn numbered(owner: u32, id: i32, next: int) -> bool {
    exists|n: int| 0 < n < next && id == #[trigger] id_at(owner, n)
}

/// What a step leaves as it is.
proof fn lemma_step(v: ManagerView, step: Step)
    requires
        sound(v),
        !(step is Restore),
    ensures
        after(v, step).owner == v.owner,
        !after(v, step).sessions_dirty ==> !v.sessions_dirty && after(v, step).sessions
            == v.sessions && after(v, step).next_id == v.next_id,
        after(v, step).next_id == (if step is Create {
            counter_after(v)
        } else {
            v.next_id
        }),
        forall|id: i32| #[trigger]
            after(v, step).sessions.contains_key(id) ==> v.sessions.contains_key(id) || step
                is Promote || (step is Create && id == fresh_id(v)),
{
    let w = after(v, step);
    match step {
        Step::Sweep { now } => {
            lemma_nothing_idle(v, now);
        },
        Step::Increment { now, .. } => {
            lemma_nothing_idle(v, now);
        },
        _ => {},
    }
}

proof fn lemma_nothing_idle(v: ManagerView, now: i64)
    requires
        v.sessions.dom().finite(),
    ensures
        idle_ids(v, now).len() == 0 ==> swept(v, now).sessions == v.sessions,
{
    if idle_ids(v, now).len() == 0 {
        assert(idle_ids(v, now) =~= Set::empty());
        assert(v.sessions.remove_keys(Set::empty()) =~= v.sessions);
    }
}

/// How a manager and what is on disk stand to each other after the first `k` events.
proof fn lemma_life(
    events: Seq<Event>,
    vs: Seq<ManagerView>,
    files: Seq<Option<FileView>>,
    k: int,
)
    requires
        is_life(events, vs, files),
        0 <= k <= events.len(),
    ensures
        sound(vs[k]),
        vs[k].owner == vs[0].owner,
        !vs[k].sessions_dirty ==> on_disk(vs[k], files[k]),
        (forall|i: int| 0 <= i < k ==> !is_promotion(#[trigger] events[i])) && creations(
            events.take(k),
        ) < SESSION_LOCAL_MASK ==> {
            &&& vs[k].next_id == creations(events.take(k)) + 1
            &&& forall|id: i32| #[trigger]
                vs[k].sessions.contains_key(id) ==> numbered(
                    vs[k].owner,
                    id,
                    vs[k].next_id as int,
                )
        },
    decreases k,
{
    reveal(Seq::filter);
    if k > 0 {
        let v = vs[k - 1];
        let w = vs[k];
        let e = events[k - 1];
        lemma_life(events, vs, files, k - 1);
        assert(events.take(k).drop_last() =~= events.take(k - 1));
        assert(events.take(k).last() == e);
        assert(leads(vs[k - 1], files[k - 1], events[k - 1], vs[k - 1 + 1], files[k - 1 + 1]));
        if let Event::Happens(step) = e {
            law_sound(v, step, 0, 0, 0);
            lemma_step(v, step);
            if (forall|i: int| 0 <= i < k ==> !is_promotion(#[trigger] events[i])) && creations(
                events.take(k),
            ) < SESSION_LOCAL_MASK {
                assert(!is_promotion(events[k - 1]));
                assert forall|id: i32| #[trigger] w.sessions.contains_key(id) implies numbered(
                    w.owner,
                    id,
                    w.next_id as int,
                ) by {
                    if v.sessions.contains_key(id) {
                        let n = choose|n: int|
                            0 < n < v.next_id && id == #[trigger] id_at(v.owner, n);
                        assert(id == id_at(w.owner, n));
                    } else {
                        assert(id == id_at(w.owner, v.next_id as int));
                    }
                }
            }
        }
    }
}

/// The ids of a snapshot are positive and increase, so there are not more than there are
/// such ids.
proof fn lemma_snapshot_len(f: Seq<StoredView>, m: Map<i32, SessionView>, i: int)
    requires
        stored_session::is_snapshot(f, m),
        forall|id: i32| #[trigger] m.contains_key(id) ==> id > 0,
        0 <= i < f.len(),
    ensures
        f[i].id > i,
    decreases i,
{
    assert(m.contains_key(f[i].id));
    if i > 0 {
        lemma_snapshot_len(f, m, i - 1);
        assert(f[i - 1].id < f[i].id);
    }
}

/// Sessions outlive the process. Whatever happened to a manager since it was opened on an
/// empty directory, once everything that is due is written down a manager that is opened on
/// that directory holds the very same sessions, where none is idle by then, and no session
/// that was closed; it counts as many as there are. Where all of them were made here, and not
/// more than an id has numbers for, the next session gets an id above all of theirs.
pub proof fn law_reopened(
    events: Seq<Event>,
    vs: Seq<ManagerView>,
    files: Seq<Option<FileView>>,
    idle_timeout_ms: u64,
    max_sessions: usize,
    now: i64,
    later: i64,
)
    requires
        is_life(events, vs, files),
        !vs.last().sessions_dirty,
        forall|id: i32| #[trigger]
            vs.last().sessions.contains_key(id) ==> !fetch_session::is_idle(
                idle_timeout_ms,
                vs.last().sessions[id].last_activity_ms,
                now,
            ),
    ensures
        ({
            let v = vs.last();
            let w = opened(files.last(), idle_timeout_ms, max_sessions, v.owner, now);
            let next = fresh_id(lru_evicted(idle_evicted(w, later)));
            &&& w.sessions == v.sessions
            &&& w.counts.restored == v.sessions.dom().len()
            &&& (forall|i: int| 0 <= i < events.len() ==> !is_promotion(#[trigger] events[i]))
                && creations(events) < SESSION_LOCAL_MASK ==> forall|id: i32| #[trigger]
                v.sessions.contains_key(id) ==> id < next
        }),
{
    let k = events.len() as int;
    let v = vs.last();
    let w = opened(files.last(), idle_timeout_ms, max_sessions, v.owner, now);
    lemma_life(events, vs, files, k);
    assert(events.take(k) =~= events);
    if let Some(f) = files.last() {
        let start = fresh(idle_timeout_ms, max_sessions, v.owner);
        law_restored(start, f.sessions, v.sessions, f.next_id, now);
        if f.sessions.len() > 0 {
            lemma_snapshot_len(f.sessions, v.sessions, f.sessions.len() - 1);
        }
        stored_session::law_snapshot(f.sessions, v.sessions, idle_timeout_ms, now);
        if (forall|i: int| 0 <= i < events.len() ==> !is_promotion(#[trigger] events[i]))
            && creations(events) < SESSION_LOCAL_MASK {
            assert(w.next_id >= v.next_id);
            assert forall|id: i32| #[trigger] v.sessions.contains_key(id) implies id < fresh_id(
                w,
            ) by {
                let n = choose|n: int| 0 < n < v.next_id && id == #[trigger] id_at(v.owner, n);
                assert(fetch_session::local_of(id as int) == n);
            }
        }
    }
}

/// The largest number of a session of the broker `owner`.
pub open spec fn last_number(owner: u32) -> int {
    if owner == 0 {
        i32::MAX as int
    } else {
        SESSION_LOCAL_MASK as int
    }
}

/// Whether the counter has numbers left before it starts again.
pub open spec fn numbers_left(v: ManagerView) -> bool {
    0 < v.next_id <= last_number(v.owner)
}

/// Whether no session has a number that the counter has still to give.
pub open spec fn counter_ahead(v: ManagerView) -> bool {
    forall|n: int|
        0 < v.next_id <= n <= last_number(v.owner) ==> !v.sessions.contains_key(
            #[trigger] id_at(v.owner, n),
        )
}

/// Different numbers give different ids.
proof fn lemma_id_at(owner: u32, n: int, m: int)
    requires
        0 < n <= last_number(owner),
        0 < m <= last_number(owner),
        n != m,
    ensures
        id_at(owner, n) != id_at(owner, m),
{
}

/// The counter of a new manager is ahead of all sessions, and it stays ahead in all that
/// happens until it starts again: with the sessions that are created, for as long as
/// there are numbers left, and with the sessions taken over from a mirror, which have
/// the number of another broker.
pub proof fn law_counter_ahead(
    v: ManagerView,
    step: Step,
    idle_timeout_ms: u64,
    max: usize,
    owner: u32,
)
    requires
        counter_ahead(v),
        step is Create ==> numbers_left(v),
        step matches Step::Promote { id } ==> forall|n: int|
            0 < n <= last_number(v.owner) ==> id != #[trigger] id_at(v.owner, n),
        !(step is Restore),
    ensures
        counter_ahead(fresh(idle_timeout_ms, max, owner)),
        numbers_left(fresh(idle_timeout_ms, max, owner)),
        counter_ahead(after(v, step)),
{
    let w = after(v, step);
    assert forall|n: int|
        0 < w.next_id <= n <= last_number(w.owner) implies !w.sessions.contains_key(
        #[trigger] id_at(w.owner, n),
    ) by {
        if let Step::Create { .. } = step {
            lemma_id_at(v.owner, n, v.next_id as int);
        }
        assert(!v.sessions.contains_key(id_at(v.owner, n)));
    }
}

/// A session that is created is there, with the epoch 1 and the topics given, under
/// a positive id, and a bound on the number of sessions is kept. No session had that id
/// before, as long as the counter has not started again.
pub proof fn law_created(v: ManagerView, topics: TopicsView, now: i64)
    requires
        v.sessions.dom().finite(),
    ensures
        ({
            let id = fresh_id(lru_evicted(idle_evicted(v, now)));
            let w = created(v, topics, now);
            &&& id > 0
            &&& w.sessions.contains_key(id)
            &&& w.sessions[id] == new_session(topics, now)
            &&& v.max_sessions > 0 && v.sessions.dom().len() <= v.max_sessions
                ==> w.sessions.dom().len() <= v.max_sessions
            &&& v.owner > 0 && v.owner <= fetch_session::SESSION_OWNER_MASK
                ==> fetch_session::owner_of(id as int) == Some(v.owner)
            &&& counter_ahead(v) && numbers_left(v) ==> !v.sessions.contains_key(id)
        }),
{
    let a = idle_evicted(v, now);
    let b = lru_evicted(a);
    let id = fresh_id(b);
    let gone = idle_ids(v, now);
    assert(a.sessions =~= v.sessions.remove_keys(gone));
    assert(a.sessions.dom() =~= v.sessions.dom().difference(gone));
    vstd::set_lib::lemma_len_difference(v.sessions.dom(), gone);
    let one = set![lru(a.sessions)];
    if full(a) {
        lemma_has_lru(a.sessions);
        assert(b.sessions =~= a.sessions.remove_keys(one));
        assert(b.sessions.dom() =~= a.sessions.dom().remove(lru(a.sessions)));
    }
    assert(b.owner == v.owner);
    let w = created(v, topics, now);
    assert(w.sessions.dom() =~= b.sessions.dom().insert(id));
}

/// Of finitely many sessions, one has been inactive for longest.
proof fn lemma_has_lru(sessions: Map<i32, SessionView>)
    requires
        sessions.dom().finite(),
        sessions.dom().len() > 0,
    ensures
        is_lru(sessions, lru(sessions)),
    decreases sessions.dom().len(),
{
    let id = sessions.dom().choose();
    let rest = sessions.remove(id);
    if rest.dom().len() == 0 {
        assert(rest.dom() =~= Set::empty());
        assert forall|o: i32| #[trigger] sessions.contains_key(o) implies o == id by {
            if o != id {
                assert(rest.dom().contains(o));
            }
        }
        assert(is_lru(sessions, id));
    } else {
        lemma_has_lru(rest);
        let best = lru(rest);
        let wins = sessions[id].last_activity_ms < sessions[best].last_activity_ms || (
        sessions[id].last_activity_ms == sessions[best].last_activity_ms && id < best);
        if wins {
            assert forall|o: i32| #[trigger] sessions.contains_key(o) && o != id implies
                sessions[id].last_activity_ms < sessions[o].last_activity_ms || (
            sessions[id].last_activity_ms == sessions[o].last_activity_ms && id < o) by {
                assert(rest.contains_key(o));
            }
            assert(is_lru(sessions, id));
        } else {
            assert forall|o: i32| #[trigger] sessions.contains_key(o) && o != best implies
                sessions[best].last_activity_ms < sessions[o].last_activity_ms || (
            sessions[best].last_activity_ms == sessions[o].last_activity_ms && best < o) by {
                if o != id {
                    assert(rest.contains_key(o));
                }
            }
            assert(sessions.contains_key(best));
            assert(is_lru(sessions, best));
        }
    }
}

/// A session goes on from one epoch to the next: what was accepted once is refused
/// the second time, and the epoch after it is accepted, for as long as the session
/// is not idle.
pub proof fn law_incremental(v: ManagerView, id: i32, epoch: i32, now: i64, later: i64)
    requires
        incremental_result(v, id, epoch, now) is Ok,
        !fetch_session::is_idle(v.idle_timeout_ms, now, later),
        epoch >= 0,
    ensures
        ({
            let w = incremented(v, id, epoch, now);
            &&& incremental_result(w, id, epoch, later) == (core::result::Result::<
                (),
                i16,
            >::Err(71))
            &&& incremental_result(w, id, fetch_session::epoch_after(epoch), later) is Ok
        }),
{
    let w = incremented(v, id, epoch, now);
    assert(w.sessions[id].last_activity_ms == now);
    assert(!idle_ids(w, later).contains(id));
}

/// A session that is closed is unknown from then on, and so is one that was idle
/// for too long.
pub proof fn law_gone(v: ManagerView, id: i32, epoch: i32, now: i64)
    ensures
        id != 0 ==> incremental_result(closed(v, id), id, epoch, now) == (core::result::Result::<
            (),
            i16,
        >::Err(70)),
        idle_ids(v, now).contains(id) ==> incremental_result(v, id, epoch, now) == (
        core::result::Result::<(), i16>::Err(70)),
{
}

/// Merging a request keeps what the client was last told of a partition.
pub proof fn law_merge_keeps_cache(
    v: ManagerView,
    id: i32,
    topics: TopicsView,
    key: Seq<char>,
    partition: i32,
)
    requires
        follows(v, id, key, partition),
        topics.contains_key(key) && topics[key].partitions.contains_key(partition)
            ==> topics[key].partitions[partition].last_hwm is None,
    ensures
        ({
            let w = merged(v, id, topics);
            let old = v.sessions[id].topics[key].partitions[partition];
            &&& follows(w, id, key, partition)
            &&& w.sessions[id].topics[key].partitions[partition].last_hwm == old.last_hwm
            &&& w.sessions[id].topics[key].partitions[partition].last_lso == old.last_lso
        }),
{
}

/// A client that goes on with a session is in the next epoch, and what it follows stays as it
/// was; an epoch that does not fit changes nothing but that idle sessions go.
pub proof fn law_went_on(v: ManagerView, id: i32, epoch: i32, now: i64)
    ensures
        ({
            let w = incremented(v, id, epoch, now);
            match incremental_result(v, id, epoch, now) {
                Ok(_) => {
                    &&& v.sessions.contains_key(id) && v.sessions[id].epoch == epoch
                    &&& epoch >= 0 ==> w.sessions[id].epoch == (if epoch == i32::MAX {
                        1
                    } else {
                        epoch + 1
                    })
                    &&& w.sessions[id].topics == v.sessions[id].topics
                    &&& w.sessions[id].last_activity_ms == now
                    &&& w.sessions[id].promoted_by == v.sessions[id].promoted_by
                    &&& v.sessions[id].mirror_gen < u64::MAX ==> w.sessions[id].mirror_gen
                        == v.sessions[id].mirror_gen + 1
                },
                Err(code) => {
                    &&& code == (if v.sessions.contains_key(id) && !fetch_session::is_idle(
                        v.idle_timeout_ms,
                        v.sessions[id].last_activity_ms,
                        now,
                    ) {
                        71int
                    } else {
                        70
                    })
                    &&& forall|o: i32| #[trigger]
                        w.sessions.contains_key(o) ==> v.sessions.contains_key(o) && w.sessions[o]
                            == v.sessions[o]
                },
            }
        }),
{
}

/// What a request names is followed with its parameters, and what it does not name as before.
pub proof fn law_merged(
    v: ManagerView,
    id: i32,
    topics: TopicsView,
    key: Seq<char>,
    partition: i32,
)
    requires
        v.sessions.contains_key(id),
    ensures
        ({
            let w = merged(v, id, topics);
            let asked = topics.contains_key(key) && topics[key].partitions.contains_key(partition);
            let p = topics[key].partitions[partition];
            let q = w.sessions[id].topics[key].partitions[partition];
            &&& follows(w, id, key, partition) <==> asked || follows(v, id, key, partition)
            &&& asked ==> {
                &&& q.fetch_offset == p.fetch_offset
                &&& q.current_leader_epoch == p.current_leader_epoch
                &&& q.last_fetched_epoch == p.last_fetched_epoch
                &&& q.max_bytes == p.max_bytes
            }
            &&& !asked && follows(v, id, key, partition) ==> q
                == v.sessions[id].topics[key].partitions[partition]
            &&& topics.contains_key(key) ==> w.sessions[id].topics[key].wire == topics[key].wire
            &&& topics.contains_key(key) && topics[key].name.len() > 0
                ==> w.sessions[id].topics[key].name == topics[key].name
            &&& w.sessions[id].epoch == v.sessions[id].epoch
            &&& w.sessions[id].last_activity_ms == v.sessions[id].last_activity_ms
            &&& forall|o: i32|
                o != id ==> (#[trigger] w.sessions.contains_key(o) <==> v.sessions.contains_key(o))
                    && (w.sessions.contains_key(o) ==> w.sessions[o] == v.sessions[o])
        }),
{
}

/// What is forgotten is not followed any more, and the rest of the session is.
pub proof fn law_forgot(
    v: ManagerView,
    id: i32,
    name: Seq<char>,
    parts: Seq<i32>,
    key: Seq<char>,
    partition: i32,
)
    requires
        id != 0,
        v.sessions.contains_key(id),
        v.sessions[id].topics.contains_key(name) ==> v.sessions[id].topics[name].partitions.dom().finite(),
    ensures
        ({
            let w = forgetting(v, id, seq![(name, parts)]);
            let gone = key == name && (parts.len() == 0 || parts.contains(partition));
            &&& follows(w, id, key, partition) <==> follows(v, id, key, partition) && !gone
            &&& follows(w, id, key, partition) ==> w.sessions[id].topics[key].partitions[partition]
                == v.sessions[id].topics[key].partitions[partition]
            &&& w.sessions[id].epoch == v.sessions[id].epoch
        }),
{
    let one = seq![(name, parts)];
    assert(one.drop_last() =~= Seq::empty());
    reveal_with_fuel(forgot, 2);
    let topics = v.sessions[id].topics;
    if topics.contains_key(name) && parts.len() > 0 {
        let left = topics[name].partitions.remove_keys(parts.to_set());
        assert(left.dom() =~= topics[name].partitions.dom().difference(parts.to_set()));
        if left.dom().len() == 0 {
            assert(left.dom() =~= Set::empty());
            assert(!left.dom().contains(partition));
        }
        assert(parts.to_set().contains(partition) <==> parts.contains(partition));
    }
}

/// What a client was told of a partition is remembered for it, and nothing else changes.
pub proof fn law_noted(
    v: ManagerView,
    id: i32,
    key: Seq<char>,
    partition: i32,
    hwm: i64,
    lso: i64,
    other: Seq<char>,
    number: i32,
)
    requires
        id != 0,
        follows(v, id, key, partition),
    ensures
        ({
            let w = noted(v, id, key, partition, hwm, lso);
            let p = v.sessions[id].topics[key].partitions[partition];
            let q = w.sessions[id].topics[key].partitions[partition];
            &&& follows(w, id, key, partition)
            &&& q.last_hwm == Some(hwm) && q.last_lso == Some(lso)
            &&& q.fetch_offset == p.fetch_offset && q.max_bytes == p.max_bytes
            &&& q.current_leader_epoch == p.current_leader_epoch && q.last_fetched_epoch
                == p.last_fetched_epoch
            &&& follows(w, id, other, number) <==> follows(v, id, other, number)
            &&& follows(v, id, other, number) && (other != key || number != partition)
                ==> w.sessions[id].topics[other].partitions[number]
                == v.sessions[id].topics[other].partitions[number]
            &&& w.sessions[id].epoch == v.sessions[id].epoch
        }),
{
}

/// A mirror that becomes primary goes on where its session was, under the claim of this broker
/// unless it has one; a mirror that a peer drops is gone.
pub proof fn law_promoted(v: ManagerView, id: i32)
    requires
        v.mirrors.contains_key(id),
    ensures
        ({
            let w = promoted(v, id);
            let m = v.mirrors[id];
            &&& !w.mirrors.contains_key(id)
            &&& !v.sessions.contains_key(id) ==> {
                &&& w.sessions.contains_key(id)
                &&& w.sessions[id].epoch == m.epoch
                &&& w.sessions[id].topics == m.topics
                &&& w.sessions[id].mirror_gen == m.mirror_gen
                &&& w.sessions[id].last_activity_ms == m.last_activity_ms
                &&& w.sessions[id].promoted_by == (if m.promoted_by != 0 {
                    m.promoted_by
                } else {
                    v.owner
                })
            }
            &&& forall|o: i32|
                o != id ==> (#[trigger] w.sessions.contains_key(o) <==> v.sessions.contains_key(o))
                    && (w.sessions.contains_key(o) ==> w.sessions[o] == v.sessions[o])
        }),
        !delete_applied(v, id).mirrors.contains_key(id),
        delete_applied(v, id).sessions == v.sessions,
{
}

/// Two snapshots of a session that nothing is known of are settled alike in whatever
/// order they arrive: the one that wins stays.
pub proof fn law_puts_converge(v: ManagerView, id: i32, a: SessionView, b: SessionView)
    requires
        !v.sessions.contains_key(id),
        !v.mirrors.contains_key(id),
        fetch_session::claim_wins(a, b),
    ensures
        put_applied(put_applied(v, id, a), id, b).mirrors[id] == a,
        put_applied(put_applied(v, id, b), id, a).mirrors[id] == a,
        put_applied(put_applied(v, id, a), id, b).mirrors == put_applied(
            put_applied(v, id, b),
            id,
            a,
        ).mirrors,
{
    fetch_session::law_claim_wins(a, b, a);
    assert(put_applied(put_applied(v, id, a), id, b).mirrors =~= v.mirrors.insert(id, a));
    assert(put_applied(put_applied(v, id, b), id, a).mirrors =~= v.mirrors.insert(id, a));
}

/// A primary never gives way to a snapshot that does not win over it.
pub proof fn law_primary_kept(v: ManagerView, id: i32, s: SessionView)
    requires
        v.sessions.contains_key(id),
        !fetch_session::claim_wins(s, v.sessions[id]),
    ensures
        put_applied(v, id, s).sessions == v.sessions,
        v.mirrors.contains_key(id) && v.mirrors[id] == s ==> promoted(v, id).sessions
            == v.sessions,
{
}

/// Peers are told of a session at most once, and of its end rather than of its state.
pub proof fn law_queue(v: ManagerView, id: i32)
    requires
        v.owner > 0,
    ensures
        put_queued(put_queued(v, id), id).pending == put_queued(v, id).pending,
        deletes_queued(put_queued(v, id), set![id]).pending[id] == Pending::Delete,
        put_queued(deletes_queued(v, set![id]), id).pending[id] == Pending::Put,
{
    assert(put_queued(put_queued(v, id), id).pending =~= put_queued(v, id).pending);
}

/// Nothing has happened yet.
pub open spec fn no_counts() -> Counts {
    Counts {
        evicted: 0,
        idle_evicted: 0,
        restored: 0,
        persist_errors: 0,
        forwards: 0,
        forward_errors: 0,
        puts_applied: 0,
        deletes_applied: 0,
        promotes: 0,
        coalesced: 0,
        stale_rejects: 0,
        supersedes: 0,
        mirrors_restored: 0,
        claim_rejects: 0,
    }
}

} // verus!
