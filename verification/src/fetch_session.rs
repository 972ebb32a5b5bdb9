//! Fetch sessions: which partitions a client follows, what it was last told of
//! them, and when a session ends.
//!
//! A session is owned by one broker. In a cluster its id carries the owner's
//! node id. Peers keep mirrors of it, fenced by a generation that grows with
//! every change, and a peer that takes a session over leaves its node id as a
//! claim that settles ties.

use vstd::prelude::*;

use crate::hex;
use crate::table::{Duplicate, SortedMap};
use crate::topic_id::{TopicWireId, WireView};

verus! {

/// Kafka `FetchSession.INITIAL_EPOCH` — create / full fetch.
pub const INITIAL_EPOCH: i32 = 0;

/// Kafka `FetchSession.FINAL_EPOCH` — close session; no new session.
pub const FINAL_EPOCH: i32 = -1;

/// Default idle TTL for fetch sessions.
pub const DEFAULT_IDLE_TIMEOUT_MS: u64 = 60_000;

/// Default max concurrent fetch sessions.
pub const DEFAULT_MAX_SESSIONS: usize = 1000;

/// File format version.
pub const FETCH_SESSIONS_FILE_VERSION: u32 = 1;

/// Default Put fan-out min interval ms. `0` = immediate after coalesce.
pub const DEFAULT_MIRROR_PUT_MIN_INTERVAL_MS: u64 = 50;

/// Bit shift for owner `node_id` inside cluster `session_id`.
pub const SESSION_OWNER_SHIFT: u32 = 19;

/// Local counter mask (19 bits) for cluster `session_id`.
pub const SESSION_LOCAL_MASK: i32 = 0x7FFFF;

/// Owner `node_id` mask (12 bits) — supports ids 1..4095.
pub const SESSION_OWNER_MASK: u32 = 0xFFF;

/// Dirty op for best-effort peer fan-out of primary session mutations.
#[derive(Debug, Clone, Copy, PartialEq, Eq, Structural)]
pub enum SessionMirrorOp {
    /// Full snapshot put for `session_id`.
    Put(i32),
    /// Remove foreign mirror for `session_id`.
    Delete(i32),
}

/// Cached partition fetch parameters inside a session.
#[derive(Debug, Clone, Copy)]
pub struct SessionPartition {
    /// Last fetch offset the client requested for this partition.
    pub fetch_offset: i64,
    /// Last current_leader_epoch (-1 = none).
    pub current_leader_epoch: i32,
    /// Last last_fetched_epoch (-1 = none); v12+.
    pub last_fetched_epoch: i32,
    /// Last partition_max_bytes.
    pub max_bytes: usize,
    /// High watermark last included in a successful session response.
    pub last_hwm: Option<i64>,
    /// Last stable offset last included in a successful session response.
    pub last_lso: Option<i64>,
}

impl DeepView for SessionPartition {
    type V = SessionPartition;

    open spec fn deep_view(&self) -> SessionPartition {
        *self
    }
}

impl Duplicate for SessionPartition {
    fn duplicate(&self) -> (r: SessionPartition) {
        *self
    }
}

impl SessionPartition {
    /// New partition params with no prior response cache.
    pub fn new(
        fetch_offset: i64,
        current_leader_epoch: i32,
        last_fetched_epoch: i32,
        max_bytes: usize,
    ) -> (p: SessionPartition)
        ensures
            p == (SessionPartition {
                fetch_offset,
                current_leader_epoch,
                last_fetched_epoch,
                max_bytes,
                last_hwm: None,
                last_lso: None,
            }),
    {
        SessionPartition {
            fetch_offset,
            current_leader_epoch,
            last_fetched_epoch,
            max_bytes,
            last_hwm: None,
            last_lso: None,
        }
    }

    /// Whether an empty, successful response with these offsets says nothing new.
    pub open spec fn unchanged(self, hwm: i64, lso: i64, records_empty: bool, error: i16) -> bool {
        error == 0 && records_empty && self.last_hwm == Some(hwm) && self.last_lso == Some(lso)
    }

    /// Whether an empty, successful response with these offsets can be omitted.
    /// Errors and non-empty records always count.
    pub fn should_omit_unchanged(&self, hwm: i64, lso: i64, records_empty: bool, error: i16) -> (b:
        bool)
        ensures
            b == self.unchanged(hwm, lso, records_empty, error),
    {
        if error != 0 || !records_empty {
            return false;
        }
        match (self.last_hwm, self.last_lso) {
            (Some(prev_hwm), Some(prev_lso)) => prev_hwm == hwm && prev_lso == lso,
            _ => false,
        }
    }
}

/// One topic entry inside a fetch session.
#[derive(Debug)]
pub struct SessionTopic {
    /// Wire identity to echo on responses (name or TopicId UUID).
    pub wire: TopicWireId,
    /// Resolved topic name (empty when unknown TopicId).
    pub name: String,
    /// Partitions keyed by partition index.
    pub partitions: SortedMap<i32, SessionPartition>,
}

/// What a [`SessionTopic`] says.
#[verifier::ext_equal]
pub struct TopicView {
    pub wire: WireView,
    pub name: Seq<char>,
    pub partitions: Map<i32, SessionPartition>,
}

impl DeepView for SessionTopic {
    type V = TopicView;

    open spec fn deep_view(&self) -> TopicView {
        TopicView {
            wire: self.wire.deep_view(),
            name: self.name@,
            partitions: self.partitions.deep_view(),
        }
    }
}

impl Duplicate for SessionTopic {
    fn duplicate(&self) -> (r: SessionTopic) {
        SessionTopic {
            wire: self.wire.clone(),
            name: self.name.clone(),
            partitions: self.partitions.duplicate(),
        }
    }
}

/// The topics of a session, by their keys.
pub type Topics = SortedMap<String, SessionTopic>;

/// What the topics of a session say.
pub type TopicsView = Map<Seq<char>, TopicView>;

/// One active fetch session.
#[derive(Debug)]
pub struct FetchSession {
    /// Next expected `session_epoch` from the client.
    pub epoch: i32,
    /// Topics keyed by a stable map key (name, or `id:<hex>` for unknown UUID).
    pub topics: Topics,
    /// Last successful session Fetch activity (unix ms).
    pub last_activity_ms: i64,
    /// Monotonic mutation generation for peer-mirror fencing.
    pub mirror_gen: u64,
    /// Node id that last claim-promoted this session into primary.
    ///
    /// `0` = never claim-promoted (created on original owner via normal create).
    /// Non-zero = broker that won (or last held) the promote claim fence.
    pub promoted_by: u32,
}

/// What a [`FetchSession`] says.
#[verifier::ext_equal]
pub struct SessionView {
    pub epoch: i32,
    pub topics: TopicsView,
    pub last_activity_ms: i64,
    pub mirror_gen: u64,
    pub promoted_by: u32,
}

impl DeepView for FetchSession {
    type V = SessionView;

    open spec fn deep_view(&self) -> SessionView {
        SessionView {
            epoch: self.epoch,
            topics: self.topics.deep_view(),
            last_activity_ms: self.last_activity_ms,
            mirror_gen: self.mirror_gen,
            promoted_by: self.promoted_by,
        }
    }
}

impl Duplicate for FetchSession {
    fn duplicate(&self) -> (r: FetchSession) {
        FetchSession {
            epoch: self.epoch,
            topics: self.topics.duplicate(),
            last_activity_ms: self.last_activity_ms,
            mirror_gen: self.mirror_gen,
            promoted_by: self.promoted_by,
        }
    }
}

impl Clone for FetchSession {
    fn clone(&self) -> (c: FetchSession)
        ensures
            c.deep_view() == self.deep_view(),
    {
        self.duplicate()
    }
}

/// Whether `a` is strictly newer than `b`: by generation, then by epoch, then by
/// activity.
pub open spec fn newer(a: SessionView, b: SessionView) -> bool {
    ||| a.mirror_gen > b.mirror_gen
    ||| a.mirror_gen == b.mirror_gen && a.epoch > b.epoch
    ||| a.mirror_gen == b.mirror_gen && a.epoch == b.epoch && a.last_activity_ms
        > b.last_activity_ms
}

/// Whether `incoming` replaces `existing`: it is newer, or as new with the better
/// claim. A claim beats none, and a lower claim beats a higher one.
pub open spec fn claim_wins(incoming: SessionView, existing: SessionView) -> bool {
    ||| newer(incoming, existing)
    ||| !newer(existing, incoming) && incoming.promoted_by != 0 && (existing.promoted_by == 0
        || incoming.promoted_by < existing.promoted_by)
}

/// Whether `a` is strictly newer than `b` for mirror fencing.
///
/// Order: `mirror_gen`, then `epoch`, then `last_activity_ms`.
pub fn session_is_newer(a: &FetchSession, b: &FetchSession) -> (r: bool)
    ensures
        r == newer(a.deep_view(), b.deep_view()),
{
    if a.mirror_gen != b.mirror_gen {
        return a.mirror_gen > b.mirror_gen;
    }
    if a.epoch != b.epoch {
        return a.epoch > b.epoch;
    }
    a.last_activity_ms > b.last_activity_ms
}

/// Whether `incoming` should replace `existing` as source of truth.
///
/// 1. Strictly newer by [`session_is_newer`] (`mirror_gen` / epoch / activity) wins.
/// 2. Strictly older loses.
/// 3. Equal freshness: lowest non-zero `promoted_by` wins (claim fence). Unclaimed
///    (`0`) keeps existing on a pure tie; claimed equal-fresh beats unclaimed.
pub fn session_claim_wins(incoming: &FetchSession, existing: &FetchSession) -> (r: bool)
    ensures
        r == claim_wins(incoming.deep_view(), existing.deep_view()),
{
    if session_is_newer(incoming, existing) {
        return true;
    }
    if session_is_newer(existing, incoming) {
        return false;
    }
    incoming.promoted_by != 0 && (existing.promoted_by == 0 || incoming.promoted_by
        < existing.promoted_by)
}

/// Being newer is a strict order, and it is total up to the generation, the epoch
/// and the activity.
pub proof fn law_newer(a: SessionView, b: SessionView, c: SessionView)
    ensures
        !newer(a, a),
        newer(a, b) ==> !newer(b, a),
        newer(a, b) && newer(b, c) ==> newer(a, c),
        !newer(a, b) && !newer(b, a) <==> a.mirror_gen == b.mirror_gen && a.epoch == b.epoch
            && a.last_activity_ms == b.last_activity_ms,
{
}

/// Of two snapshots that differ in freshness or claim, one wins over the other and
/// not the other way round; winning carries over; and nothing wins over itself. So
/// peers that see the same snapshots settle on the same one in whatever order.
pub proof fn law_claim_wins(a: SessionView, b: SessionView, c: SessionView)
    ensures
        !claim_wins(a, a),
        claim_wins(a, b) ==> !claim_wins(b, a),
        claim_wins(a, b) && claim_wins(b, c) ==> claim_wins(a, c),
        !claim_wins(a, b) && !claim_wins(b, a) ==> !newer(a, b) && !newer(b, a) && a.promoted_by
            == b.promoted_by,
{
}

/// The id of the session with the number `local` of the broker `owner`.
pub open spec fn session_id_of(owner: u32, local: int) -> int {
    (owner as int % 4096) * 524288 + local
}

/// The broker that a session id names, if it names one.
pub open spec fn owner_of(session_id: int) -> Option<u32> {
    if session_id > 0 && session_id / 524288 != 0 {
        Some((session_id / 524288) as u32)
    } else {
        None
    }
}

/// The number of a session with its owner: the whole id where it names no broker.
pub open spec fn local_of(session_id: int) -> int {
    if owner_of(session_id) is Some {
        session_id % 524288
    } else {
        session_id
    }
}

/// Encode a cluster-mode session id from owner broker and local counter.
pub fn encode_session_id(owner_node_id: u32, local: i32) -> (id: i32)
    requires
        0 < local <= SESSION_LOCAL_MASK,
    ensures
        id == session_id_of(owner_node_id, local as int),
{
    (owner_node_id % 4096) as i32 * 524288 + local
}

/// Extract owner broker id from a cluster-encoded session id (`None` if unencoded).
pub fn decode_session_owner(session_id: i32) -> (r: Option<u32>)
    ensures
        r == owner_of(session_id as int),
{
    if session_id <= 0 {
        return None;
    }
    let owner: u32 = session_id as u32 / 524288;
    if owner == 0 {
        None
    } else {
        Some(owner)
    }
}

/// Local counter portion of a session id (full id when unencoded).
pub fn session_local_part(session_id: i32) -> (n: i32)
    ensures
        n == local_of(session_id as int),
{
    if decode_session_owner(session_id).is_some() {
        session_id % 524288
    } else {
        session_id
    }
}

/// Owner and number are read back from a session id, for node ids of up to twelve bits.
pub proof fn law_session_id(owner: u32, local: i32)
    requires
        0 < local <= SESSION_LOCAL_MASK,
        0 < owner <= SESSION_OWNER_MASK,
    ensures
        0 < session_id_of(owner, local as int) <= i32::MAX,
        owner_of(session_id_of(owner, local as int)) == Some(owner),
        local_of(session_id_of(owner, local as int)) == local,
{
}

/// The epoch after `prev`: it starts again at 1 after the largest, and stays
/// final once it is.
pub open spec fn epoch_after(prev: i32) -> i32 {
    if prev < 0 {
        FINAL_EPOCH
    } else if prev == i32::MAX {
        1
    } else {
        (prev + 1) as i32
    }
}

/// Next session epoch after a successful request (Kafka `FetchSession.nextEpoch`).
pub fn next_epoch(prev: i32) -> (e: i32)
    ensures
        e == epoch_after(prev),
{
    if prev < 0 {
        FINAL_EPOCH
    } else if prev == i32::MAX {
        1
    } else {
        prev + 1
    }
}

/// A live session never goes back to the epoch that creates one, and the epoch
/// always moves on.
pub proof fn law_epoch(prev: i32)
    ensures
        prev >= 0 ==> epoch_after(prev) > INITIAL_EPOCH,
        prev >= 0 ==> epoch_after(prev) != prev,
        prev < 0 ==> epoch_after(prev) == FINAL_EPOCH,
        0 <= prev < i32::MAX ==> epoch_after(prev) == prev + 1,
{
}

/// The key under which a topic stands in a session.
pub open spec fn key_of(wire: WireView, name: Seq<char>) -> Seq<char> {
    match wire {
        WireView::Name(n) => n,
        WireView::Uuid(u) => if name.len() == 0 {
            "id:"@ + hex::hex_of(u)
        } else {
            name
        },
    }
}

/// `a - b`, kept within the range of a 64-bit number.
pub open spec fn minus(a: i64, b: i64) -> i64 {
    if a - b > i64::MAX {
        i64::MAX
    } else if a - b < i64::MIN {
        i64::MIN
    } else {
        (a - b) as i64
    }
}

pub(crate) fn saturating_minus(a: i64, b: i64) -> (c: i64)
    ensures
        c == minus(a, b),
{
    match a.checked_sub(b) {
        Some(c) => c,
        None => if b < 0 {
            i64::MAX
        } else {
            i64::MIN
        },
    }
}

/// Whether a session whose last activity was at `last` has been idle for longer
/// than `timeout` allows. A timeout of zero allows everything.
pub open spec fn is_idle(timeout: u64, last: i64, now: i64) -> bool {
    timeout > 0 && minus(now, last) > timeout as int
}

pub(crate) fn idle(timeout: u64, last: i64, now: i64) -> (b: bool)
    ensures
        b == is_idle(timeout, last, now),
{
    timeout > 0 && saturating_minus(now, last) as i128 > timeout as i128
}

} // verus!
