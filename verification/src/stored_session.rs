//! Fetch sessions as they are written down: lists in a fixed order, with the wire
//! identity of a topic spelt out.

use vstd::prelude::*;
use vstd::utf8::*;

use crate::fetch_session;
use crate::fetch_session::{
    idle, session_local_part, FetchSession, SessionPartition, SessionTopic, SessionView, TopicView,
    Topics, TopicsView, FETCH_SESSIONS_FILE_VERSION, SESSION_LOCAL_MASK,
};
use crate::hex;
use crate::table;
use crate::table::{Key, SortedMap};
use crate::text;
use crate::topic_id::{TopicWireId, WireView};

verus! {

/// All the sessions.
#[derive(Debug)]
pub struct StoredFetchSessionsFile {
    pub version: u32,
    pub next_id: i32,
    pub sessions: Vec<StoredFetchSession>,
}

/// One session.
#[derive(Debug)]
pub struct StoredFetchSession {
    pub id: i32,
    pub epoch: i32,
    pub last_activity_ms: i64,
    /// Peer-mirror fencing generation; absent on older snapshots.
    pub mirror_gen: u64,
    /// Claim-promote node id; absent on older snapshots → `0`.
    pub promoted_by: u32,
    pub topics: Vec<StoredSessionTopic>,
}

/// One topic of a session.
#[derive(Debug)]
pub struct StoredSessionTopic {
    pub key: String,
    /// `"name"` or `"uuid"`.
    pub wire_kind: String,
    pub wire_name: Option<String>,
    pub wire_uuid_hex: Option<String>,
    pub name: String,
    pub partitions: Vec<StoredSessionPartition>,
}

/// One partition of a topic.
#[derive(Debug, Clone, Copy)]
pub struct StoredSessionPartition {
    pub id: i32,
    pub fetch_offset: i64,
    pub current_leader_epoch: i32,
    pub last_fetched_epoch: i32,
    pub max_bytes: usize,
    pub last_hwm: Option<i64>,
    pub last_lso: Option<i64>,
}

/// What a [`StoredSessionTopic`] says.
#[verifier::ext_equal]
pub struct StoredTopicView {
    pub key: Seq<char>,
    pub wire_kind: Seq<char>,
    pub wire_name: Option<Seq<char>>,
    pub wire_uuid_hex: Option<Seq<char>>,
    pub name: Seq<char>,
    pub partitions: Seq<StoredSessionPartition>,
}

/// What a [`StoredFetchSession`] says.
#[verifier::ext_equal]
pub struct StoredView {
    pub id: i32,
    pub epoch: i32,
    pub last_activity_ms: i64,
    pub mirror_gen: u64,
    pub promoted_by: u32,
    pub topics: Seq<StoredTopicView>,
}

impl DeepView for StoredSessionPartition {
    type V = StoredSessionPartition;

    open spec fn deep_view(&self) -> StoredSessionPartition {
        *self
    }
}

impl DeepView for StoredSessionTopic {
    type V = StoredTopicView;

    open spec fn deep_view(&self) -> StoredTopicView {
        StoredTopicView {
            key: self.key@,
            wire_kind: self.wire_kind@,
            wire_name: self.wire_name.deep_view(),
            wire_uuid_hex: self.wire_uuid_hex.deep_view(),
            name: self.name@,
            partitions: self.partitions@,
        }
    }
}

impl DeepView for StoredFetchSession {
    type V = StoredView;

    open spec fn deep_view(&self) -> StoredView {
        StoredView {
            id: self.id,
            epoch: self.epoch,
            last_activity_ms: self.last_activity_ms,
            mirror_gen: self.mirror_gen,
            promoted_by: self.promoted_by,
            topics: self.topics.deep_view(),
        }
    }
}

/// The parameters that a stored partition holds.
pub open spec fn part_of(p: StoredSessionPartition) -> SessionPartition {
    SessionPartition {
        fetch_offset: p.fetch_offset,
        current_leader_epoch: p.current_leader_epoch,
        last_fetched_epoch: p.last_fetched_epoch,
        max_bytes: p.max_bytes,
        last_hwm: p.last_hwm,
        last_lso: p.last_lso,
    }
}

/// Stored partitions as entries of a map.
pub open spec fn part_entries(ps: Seq<StoredSessionPartition>) -> Seq<(i32, SessionPartition)> {
    Seq::new(ps.len(), |i: int| (ps[i].id, part_of(ps[i])))
}

/// The wire identity that a stored topic has; an unreadable one is none.
pub open spec fn wire_of(t: StoredTopicView) -> Option<WireView> {
    if t.wire_kind == "uuid"@ {
        match hex::unhex(
            encode_utf8(
                match t.wire_uuid_hex {
                    Some(h) => h,
                    None => Seq::empty(),
                },
            ),
        ) {
            Some(u) => Some(WireView::Uuid(u)),
            None => None,
        }
    } else {
        Some(
            WireView::Name(
                match t.wire_name {
                    Some(n) => n,
                    None => t.name,
                },
            ),
        )
    }
}

/// The topic that a stored topic holds, if its wire identity is readable.
pub open spec fn topic_of(t: StoredTopicView) -> Option<TopicView> {
    match wire_of(t) {
        Some(wire) => Some(
            TopicView { wire, name: t.name, partitions: table::map_of(part_entries(t.partitions)) },
        ),
        None => None,
    }
}

/// The topics that a list of stored topics holds: of several with the same key, the
/// last; nothing at all if one is unreadable.
pub open spec fn topics_of(ts: Seq<StoredTopicView>) -> Option<TopicsView>
    decreases ts.len(),
{
    if ts.len() == 0 {
        Some(Map::empty())
    } else {
        match (topics_of(ts.drop_last()), topic_of(ts.last())) {
            (Some(m), Some(t)) => Some(m.insert(ts.last().key, t)),
            _ => None,
        }
    }
}

/// The session that a stored session holds, if all its topics are readable.
pub open spec fn session_of(s: StoredView) -> Option<SessionView> {
    match topics_of(s.topics) {
        Some(topics) => Some(
            SessionView {
                epoch: s.epoch,
                topics,
                last_activity_ms: s.last_activity_ms,
                mirror_gen: s.mirror_gen,
                promoted_by: s.promoted_by,
            },
        ),
        None => None,
    }
}

/// Whether `t` is the topic `v` under the key `k`, with its partitions in order.
pub open spec fn is_stored_topic(t: StoredTopicView, k: Seq<char>, v: TopicView) -> bool {
    &&& t.key == k
    &&& t.name == v.name
    &&& match v.wire {
        WireView::Name(n) => t.wire_kind == "name"@ && t.wire_name == Some(n)
            && t.wire_uuid_hex is None,
        WireView::Uuid(u) => u.len() == 16 && t.wire_kind == "uuid"@ && t.wire_name is None
            && t.wire_uuid_hex == Some(hex::hex_of(u)),
    }
    &&& table::sorted::<i32, SessionPartition>(part_entries(t.partitions))
    &&& table::map_of(part_entries(t.partitions)) == v.partitions
}

/// Whether `ts` are the topics `m`, each once, in the order of their keys.
pub open spec fn are_stored_topics(ts: Seq<StoredTopicView>, m: TopicsView) -> bool {
    &&& m.dom().finite()
    &&& ts.len() == m.dom().len()
    &&& forall|i: int, j: int|
        0 <= i < j < ts.len() ==> text::before((#[trigger] ts[i]).key, (#[trigger] ts[j]).key)
    &&& forall|i: int|
        0 <= i < ts.len() ==> m.contains_key((#[trigger] ts[i]).key) && is_stored_topic(
            ts[i],
            ts[i].key,
            m[ts[i].key],
        )
}

/// Whether `st` is the session `s` with the id `id`.
pub open spec fn is_stored(st: StoredView, id: i32, s: SessionView) -> bool {
    &&& st.id == id
    &&& st.epoch == s.epoch
    &&& st.last_activity_ms == s.last_activity_ms
    &&& st.mirror_gen == s.mirror_gen
    &&& st.promoted_by == s.promoted_by
    &&& are_stored_topics(st.topics, s.topics)
}

proof fn lemma_topic_of(t: StoredTopicView, k: Seq<char>, v: TopicView)
    requires
        is_stored_topic(t, k, v),
    ensures
        topic_of(t) == Some(v),
{
    match v.wire {
        WireView::Name(n) => {
            reveal_strlit("name");
            reveal_strlit("uuid");
            assert("name"@[0] != "uuid"@[0]);
            assert("name"@ != "uuid"@);
        },
        WireView::Uuid(u) => {
            hex::law_hex(u);
        },
    }
    assert(topic_of(t)->Some_0 =~= v);
}

proof fn lemma_topics_of(ts: Seq<StoredTopicView>, m: TopicsView)
    requires
        are_stored_topics(ts, m),
    ensures
        topics_of(ts) == Some(m),
    decreases ts.len(),
{
    if ts.len() == 0 {
        assert(m =~= Map::empty());
    } else {
        let init = ts.drop_last();
        let last = ts.last();
        let k = last.key;
        let rest = m.remove(k);
        assert(m.contains_key(ts[ts.len() - 1].key));
        assert forall|i: int, j: int| 0 <= i < j < init.len() implies text::before(
            (#[trigger] init[i]).key,
            (#[trigger] init[j]).key,
        ) by {
            assert(init[i] == ts[i] && init[j] == ts[j]);
        }
        assert forall|i: int| 0 <= i < init.len() implies rest.contains_key(
            (#[trigger] init[i]).key,
        ) && is_stored_topic(init[i], init[i].key, rest[init[i].key]) by {
            assert(init[i] == ts[i]);
            assert(text::before(ts[i].key, ts[ts.len() - 1].key));
            text::law_before(k, k, k);
        }
        lemma_topics_of(init, rest);
        lemma_topic_of(last, k, m[k]);
        assert(rest.insert(k, m[k]) =~= m);
    }
}

/// A session that is written down is read back. It is written with its topics in the
/// order of their keys and the partitions of each in the order of their numbers, each once.
pub proof fn law_stored(st: StoredView, id: i32, s: SessionView)
    requires
        is_stored(st, id, s),
    ensures
        st.id == id,
        session_of(st) == Some(s),
        forall|i: int, j: int|
            0 <= i < j < st.topics.len() ==> text::before(
                (#[trigger] st.topics[i]).key,
                (#[trigger] st.topics[j]).key,
            ),
        forall|k: int, i: int, j: int|
            0 <= k < st.topics.len() && 0 <= i < j < st.topics[k].partitions.len()
                ==> (#[trigger] st.topics[k].partitions[i]).id < (
            #[trigger] st.topics[k].partitions[j]).id,
{
    lemma_topics_of(st.topics, s.topics);
    assert forall|k: int, i: int, j: int|
        0 <= k < st.topics.len() && 0 <= i < j < st.topics[k].partitions.len() implies (
    #[trigger] st.topics[k].partitions[i]).id < (#[trigger] st.topics[k].partitions[j]).id by {
        let e = part_entries(st.topics[k].partitions);
        assert(is_stored_topic(st.topics[k], st.topics[k].key, s.topics[st.topics[k].key]));
        assert(i32::precedes(e[i].0, e[j].0));
    }
}

/// Whether the wire identity of a stored topic can be read: a TopicId has to be there, in
/// 32 hexadecimal digits.
pub open spec fn readable(t: StoredTopicView) -> bool {
    t.wire_kind == "uuid"@ ==> (t.wire_uuid_hex matches Some(h) && {
        let b = encode_utf8(h);
        b.len() == 32 && hex::all_digits(b)
    })
}

/// A stored session holds a session where all its topics are readable, and only there.
pub proof fn law_readable(st: StoredView)
    ensures
        session_of(st) is Some <==> forall|i: int|
            0 <= i < st.topics.len() ==> readable(#[trigger] st.topics[i]),
{
    lemma_readable(st.topics);
}

proof fn lemma_readable(ts: Seq<StoredTopicView>)
    ensures
        topics_of(ts) is Some <==> forall|i: int| 0 <= i < ts.len() ==> readable(#[trigger] ts[i]),
    decreases ts.len(),
{
    if ts.len() > 0 {
        let init = ts.drop_last();
        lemma_readable(init);
        assert(topic_of(ts.last()) is Some <==> readable(ts[ts.len() - 1]));
        assert(forall|i: int| 0 <= i < init.len() ==> #[trigger] init[i] == ts[i]);
        if forall|i: int| 0 <= i < ts.len() ==> readable(#[trigger] ts[i]) {
            assert forall|i: int| 0 <= i < init.len() implies readable(#[trigger] init[i]) by {
                assert(readable(ts[i]));
            }
        }
        if topics_of(ts) is Some {
            assert forall|i: int| 0 <= i < ts.len() implies readable(#[trigger] ts[i]) by {
                if i < init.len() {
                    assert(readable(init[i]));
                }
            }
        }
    }
}

fn store_parts(partitions: &SortedMap<i32, SessionPartition>) -> (ps: Vec<StoredSessionPartition>)
    ensures
        part_entries(ps@) == partitions.pairs(),
        table::sorted::<i32, SessionPartition>(part_entries(ps@)),
{
    let ghost p = partitions.pairs();
    let n: usize = partitions.len();
    let mut ps: Vec<StoredSessionPartition> = Vec::new();
    let mut i: usize = 0;
    assert(part_entries(ps@) =~= p.take(0));
    while i < n
        invariant
            i <= n,
            n == p.len(),
            p == partitions.pairs(),
            part_entries(ps@) == p.take(i as int),
        decreases n - i,
    {
        let (id, part) = partitions.at(i);
        let ghost before = ps@;
        let one = StoredSessionPartition {
            id: *id,
            fetch_offset: part.fetch_offset,
            current_leader_epoch: part.current_leader_epoch,
            last_fetched_epoch: part.last_fetched_epoch,
            max_bytes: part.max_bytes,
            last_hwm: part.last_hwm,
            last_lso: part.last_lso,
        };
        assert(part_of(one) == *part);
        ps.push(one);
        assert(part_entries(ps@) =~= part_entries(before).push(p[i as int]));
        assert(p.take(i + 1) =~= p.take(i as int).push(p[i as int]));
        i += 1;
    }
    assert(p.take(n as int) =~= p);
    ps
}

fn store_topic(key: &String, t: &SessionTopic) -> (st: StoredSessionTopic)
    ensures
        is_stored_topic(st.deep_view(), key@, t.deep_view()),
{
    let partitions = store_parts(&t.partitions);
    match &t.wire {
        TopicWireId::Name(n) => StoredSessionTopic {
            key: key.clone(),
            wire_kind: "name".to_owned(),
            wire_name: Some(n.clone()),
            wire_uuid_hex: None,
            name: t.name.clone(),
            partitions,
        },
        TopicWireId::Uuid(u) => StoredSessionTopic {
            key: key.clone(),
            wire_kind: "uuid".to_owned(),
            wire_name: None,
            wire_uuid_hex: Some(hex::encode(u)),
            name: t.name.clone(),
            partitions,
        },
    }
}

/// A session as it is written down.
pub fn session_to_stored(id: i32, s: &FetchSession) -> (st: StoredFetchSession)
    ensures
        is_stored(st.deep_view(), id, s.deep_view()),
{
    let ghost p = s.topics.pairs();
    let n: usize = s.topics.len();
    let mut topics: Vec<StoredSessionTopic> = Vec::new();
    let mut i: usize = 0;
    while i < n
        invariant
            i <= n,
            n == p.len(),
            p == s.topics.pairs(),
            topics@.len() == i,
            forall|j: int|
                0 <= j < i ==> is_stored_topic(
                    (#[trigger] topics@[j]).deep_view(),
                    p[j].0,
                    p[j].1,
                ),
        decreases n - i,
    {
        let (key, t) = s.topics.at(i);
        topics.push(store_topic(key, t));
        i += 1;
    }
    proof {
        assert(table::sorted::<String, TopicView>(p));
        SortedMap::lemma_pairs(&s.topics);
        let ts = topics.deep_view();
        assert forall|i: int| 0 <= i < ts.len() implies s.topics.deep_view().contains_key(
            (#[trigger] ts[i]).key,
        ) && is_stored_topic(ts[i], ts[i].key, s.topics.deep_view()[ts[i].key]) by {
            assert(ts[i] == topics@[i].deep_view());
            assert(s.topics.deep_view().contains_key(p[i].0));
        }
        assert forall|i: int, j: int| 0 <= i < j < ts.len() implies text::before(
            (#[trigger] ts[i]).key,
            (#[trigger] ts[j]).key,
        ) by {
            assert(ts[i] == topics@[i].deep_view() && ts[j] == topics@[j].deep_view());
            assert(String::precedes(p[i].0, p[j].0));
        }
    }
    StoredFetchSession {
        id,
        epoch: s.epoch,
        last_activity_ms: s.last_activity_ms,
        mirror_gen: s.mirror_gen,
        promoted_by: s.promoted_by,
        topics,
    }
}

/// Whether `f` holds the sessions `m`, each once, in the order of their ids.
pub open spec fn is_snapshot(
    f: Seq<StoredView>,
    m: Map<i32, SessionView>,
) -> bool {
    &&& m.dom().finite()
    &&& f.len() == m.dom().len()
    &&& forall|i: int, j: int| 0 <= i < j < f.len() ==> (#[trigger] f[i]).id < (#[trigger] f[j]).id
    &&& forall|i: int|
        0 <= i < f.len() ==> m.contains_key((#[trigger] f[i]).id) && is_stored(
            f[i],
            f[i].id,
            m[f[i].id],
        )
}

/// Sessions as they are written down, with the counter for the next one.
pub fn snapshot_file(sessions: &SortedMap<i32, FetchSession>, next_id: i32) -> (f:
    StoredFetchSessionsFile)
    ensures
        f.version == FETCH_SESSIONS_FILE_VERSION,
        f.next_id == next_id,
        is_snapshot(f.sessions.deep_view(), sessions.deep_view()),
{
    let ghost p = sessions.pairs();
    let n: usize = sessions.len();
    let mut out: Vec<StoredFetchSession> = Vec::new();
    let mut i: usize = 0;
    while i < n
        invariant
            i <= n,
            n == p.len(),
            p == sessions.pairs(),
            out@.len() == i,
            forall|j: int|
                0 <= j < i ==> is_stored((#[trigger] out@[j]).deep_view(), p[j].0, p[j].1),
        decreases n - i,
    {
        let (id, s) = sessions.at(i);
        out.push(session_to_stored(*id, s));
        i += 1;
    }
    proof {
        assert(table::sorted::<i32, SessionView>(p));
        SortedMap::lemma_pairs(sessions);
        let f = out.deep_view();
        assert forall|i: int| 0 <= i < f.len() implies sessions.deep_view().contains_key(
            (#[trigger] f[i]).id,
        ) && is_stored(f[i], f[i].id, sessions.deep_view()[f[i].id]) by {
            assert(f[i] == out@[i].deep_view());
            assert(sessions.deep_view().contains_key(p[i].0));
        }
        assert forall|i: int, j: int| 0 <= i < j < f.len() implies (#[trigger] f[i]).id < (
        #[trigger] f[j]).id by {
            assert(f[i] == out@[i].deep_view() && f[j] == out@[j].deep_view());
            assert(i32::precedes(p[i].0, p[j].0));
        }
    }
    StoredFetchSessionsFile { version: FETCH_SESSIONS_FILE_VERSION, next_id, sessions: out }
}

fn read_parts(ps: &Vec<StoredSessionPartition>) -> (m: SortedMap<i32, SessionPartition>)
    ensures
        m.deep_view() == table::map_of(part_entries(ps@)),
{
    let mut m: SortedMap<i32, SessionPartition> = SortedMap::new();
    let ghost e = part_entries(ps@);
    let mut i: usize = 0;
    assert(e.take(0).len() == 0);
    while i < ps.len()
        invariant
            i <= ps@.len(),
            e == part_entries(ps@),
            m.deep_view() == table::map_of(e.take(i as int)),
        decreases ps@.len() - i,
    {
        let p = ps[i];
        let part = SessionPartition {
            fetch_offset: p.fetch_offset,
            current_leader_epoch: p.current_leader_epoch,
            last_fetched_epoch: p.last_fetched_epoch,
            max_bytes: p.max_bytes,
            last_hwm: p.last_hwm,
            last_lso: p.last_lso,
        };
        assert(e.take(i + 1).drop_last() =~= e.take(i as int));
        assert(e[i as int] == (p.id, part));
        m.insert(p.id, part);
        i += 1;
    }
    assert(e.take(e.len() as int) =~= e);
    m
}

fn read_wire(t: &StoredSessionTopic) -> (w: Option<TopicWireId>)
    ensures
        w.deep_view() == wire_of(t.deep_view()),
{
    if text::same(t.wire_kind.as_str(), "uuid") {
        let h = match &t.wire_uuid_hex {
            Some(h) => hex::decode_16(h.as_str()),
            None => {
                proof {
                    reveal_strlit("");
                    assert(""@ =~= Seq::<char>::empty());
                }
                hex::decode_16("")
            },
        };
        match h {
            Some(u) => Some(TopicWireId::Uuid(u)),
            None => None,
        }
    } else {
        match &t.wire_name {
            Some(n) => Some(TopicWireId::Name(n.clone())),
            None => Some(TopicWireId::Name(t.name.clone())),
        }
    }
}

/// The session that a stored session holds, with its id, if all its topics are
/// readable.
pub fn stored_to_session(s: &StoredFetchSession) -> (r: Option<(i32, FetchSession)>)
    ensures
        match (r, session_of(s.deep_view())) {
            (Some(x), Some(v)) => x.0 == s.id && x.1.deep_view() == v,
            (None, None) => true,
            _ => false,
        },
{
    let ghost ts = s.topics.deep_view();
    let mut topics: Topics = SortedMap::new();
    let mut i: usize = 0;
    assert(ts.take(0).len() == 0);
    while i < s.topics.len()
        invariant
            i <= s.topics@.len(),
            ts == s.topics.deep_view(),
            topics_of(ts.take(i as int)) == Some(topics.deep_view()),
        decreases s.topics@.len() - i,
    {
        let t = &s.topics[i];
        assert(ts.take(i + 1).drop_last() =~= ts.take(i as int));
        assert(ts[i as int] == t.deep_view());
        let wire = match read_wire(t) {
            Some(w) => w,
            None => {
                proof {
                    lemma_unreadable(ts, i as int);
                }
                return None;
            },
        };
        let partitions = read_parts(&t.partitions);
        topics.insert(
            t.key.clone(),
            SessionTopic { wire, name: t.name.clone(), partitions },
        );
        i += 1;
    }
    assert(ts.take(ts.len() as int) =~= ts);
    Some(
        (
            s.id,
            FetchSession {
                epoch: s.epoch,
                topics,
                last_activity_ms: s.last_activity_ms,
                mirror_gen: s.mirror_gen,
                promoted_by: s.promoted_by,
            },
        ),
    )
}

/// One unreadable topic makes the whole list unreadable.
proof fn lemma_unreadable(ts: Seq<StoredTopicView>, i: int)
    requires
        0 <= i < ts.len(),
        topic_of(ts[i]) is None,
    ensures
        topics_of(ts) is None,
    decreases ts.len(),
{
    if i < ts.len() - 1 {
        assert(ts.drop_last()[i] == ts[i]);
        lemma_unreadable(ts.drop_last(), i);
    }
}

/// What is left of stored sessions when they are read: those that are readable
/// and not idle, how many were idle, and the largest number among them.
#[verifier::ext_equal]
pub struct Restored {
    pub sessions: Map<i32, SessionView>,
    pub idle_dropped: nat,
    pub max_local: int,
}

/// What is left of stored sessions when they are read at `now`.
pub open spec fn restored(f: Seq<StoredView>, idle_timeout_ms: u64, now: i64) -> Restored
    decreases f.len(),
{
    if f.len() == 0 {
        Restored { sessions: Map::empty(), idle_dropped: 0, max_local: 0 }
    } else {
        let r = restored(f.drop_last(), idle_timeout_ms, now);
        let s = f.last();
        if s.id <= 0 {
            r
        } else {
            let local = fetch_session::local_of(s.id as int);
            let max_local = if local > r.max_local {
                local
            } else {
                r.max_local
            };
            if fetch_session::is_idle(idle_timeout_ms, s.last_activity_ms, now) {
                Restored { idle_dropped: r.idle_dropped + 1, max_local, ..r }
            } else {
                match session_of(s) {
                    Some(v) => Restored { sessions: r.sessions.insert(s.id, v), max_local, ..r },
                    None => Restored { max_local, ..r },
                }
            }
        }
    }
}

/// Sessions that are written down are read back, all of them and nothing else, where none
/// is idle by then and all have ids that name a session.
pub proof fn law_snapshot(
    f: Seq<StoredView>,
    m: Map<i32, SessionView>,
    idle_timeout_ms: u64,
    now: i64,
)
    requires
        is_snapshot(f, m),
        forall|id: i32| #[trigger]
            m.contains_key(id) ==> id > 0 && !fetch_session::is_idle(
                idle_timeout_ms,
                m[id].last_activity_ms,
                now,
            ),
    ensures
        restored(f, idle_timeout_ms, now).sessions == m,
        restored(f, idle_timeout_ms, now).idle_dropped == 0,
        forall|id: i32| #[trigger]
            m.contains_key(id) ==> fetch_session::local_of(id as int) <= restored(
                f,
                idle_timeout_ms,
                now,
            ).max_local,
        restored(f, idle_timeout_ms, now).max_local == 0 || exists|id: i32| #[trigger]
            m.contains_key(id) && fetch_session::local_of(id as int) == restored(
                f,
                idle_timeout_ms,
                now,
            ).max_local,
    decreases f.len(),
{
    if f.len() == 0 {
        assert(m =~= Map::empty());
    } else {
        let init = f.drop_last();
        let last = f.last();
        let id = last.id;
        let rest = m.remove(id);
        assert(m.contains_key(f[f.len() - 1].id));
        assert forall|i: int| 0 <= i < init.len() implies rest.contains_key(
            (#[trigger] init[i]).id,
        ) && is_stored(init[i], init[i].id, rest[init[i].id]) by {
            assert(init[i] == f[i]);
            assert(f[i].id < f[f.len() - 1].id);
        }
        assert forall|i: int, j: int| 0 <= i < j < init.len() implies (#[trigger] init[i]).id < (
        #[trigger] init[j]).id by {
            assert(init[i] == f[i] && init[j] == f[j]);
        }
        assert forall|o: i32| #[trigger] rest.contains_key(o) implies o > 0
            && !fetch_session::is_idle(idle_timeout_ms, rest[o].last_activity_ms, now) by {
            assert(m.contains_key(o));
        }
        law_snapshot(init, rest, idle_timeout_ms, now);
        law_stored(last, id, m[id]);
        assert(rest.insert(id, m[id]) =~= m);
        let r = restored(init, idle_timeout_ms, now);
        assert forall|o: i32| #[trigger] m.contains_key(o) implies fetch_session::local_of(
            o as int,
        ) <= restored(f, idle_timeout_ms, now).max_local by {
            if o != id {
                assert(rest.contains_key(o));
            }
        }
        if restored(f, idle_timeout_ms, now).max_local == r.max_local && r.max_local != 0 {
            let o = choose|o: i32| #[trigger]
                rest.contains_key(o) && fetch_session::local_of(o as int) == r.max_local;
            assert(m.contains_key(o));
        }
    }
}

/// Stored sessions as they are read at `now`: those that are readable and not
/// idle, how many were idle, and the largest number among them.
pub fn restore(f: &Vec<StoredFetchSession>, idle_timeout_ms: u64, now_ms: i64) -> (r: (
    SortedMap<i32, FetchSession>,
    usize,
    i32,
))
    ensures
        r.0.deep_view() == restored(f.deep_view(), idle_timeout_ms, now_ms).sessions,
        r.1 == restored(f.deep_view(), idle_timeout_ms, now_ms).idle_dropped,
        r.2 == restored(f.deep_view(), idle_timeout_ms, now_ms).max_local,
        r.2 >= 0,
{
    let ghost fs = f.deep_view();
    let mut sessions: SortedMap<i32, FetchSession> = SortedMap::new();
    let mut idle_dropped: usize = 0;
    let mut max_local: i32 = 0;
    let mut i: usize = 0;
    assert(fs.take(0).len() == 0);
    while i < f.len()
        invariant
            i <= f@.len(),
            fs == f.deep_view(),
            idle_dropped <= i,
            max_local >= 0,
            sessions.deep_view() == restored(fs.take(i as int), idle_timeout_ms, now_ms).sessions,
            idle_dropped == restored(fs.take(i as int), idle_timeout_ms, now_ms).idle_dropped,
            max_local == restored(fs.take(i as int), idle_timeout_ms, now_ms).max_local,
        decreases f@.len() - i,
    {
        let s = &f[i];
        assert(fs.take(i + 1).drop_last() =~= fs.take(i as int));
        assert(fs[i as int] == s.deep_view());
        if s.id > 0 {
            let local: i32 = session_local_part(s.id);
            if local > max_local {
                max_local = local;
            }
            if idle(idle_timeout_ms, s.last_activity_ms, now_ms) {
                idle_dropped += 1;
            } else {
                match stored_to_session(s) {
                    Some((id, session)) => sessions.insert(id, session),
                    None => {},
                }
            }
        }
        i += 1;
    }
    assert(fs.take(fs.len() as int) =~= fs);
    (sessions, idle_dropped, max_local)
}

/// The larger of two numbers.
pub open spec fn larger(a: int, b: int) -> int {
    if a > b {
        a
    } else {
        b
    }
}

/// The counter after stored sessions are read: past the stored one and past every
/// session's number, back at 1 where an owner leaves no room.
pub open spec fn restored_counter(stored_next: i32, max_local: int, owner: u32) -> int {
    let past = if max_local == i32::MAX {
        max_local
    } else {
        max_local + 1
    };
    let next = larger(larger(fetch_session::local_of(stored_next as int), 1), larger(past, 1));
    if owner > 0 && next > SESSION_LOCAL_MASK {
        if larger(past, 1) > SESSION_LOCAL_MASK {
            1
        } else {
            larger(past, 1)
        }
    } else {
        next
    }
}

/// The counter after stored sessions are read.
pub fn restore_counter(stored_next: i32, max_local: i32, owner: u32) -> (next: i32)
    requires
        max_local >= 0,
    ensures
        next == restored_counter(stored_next, max_local as int, owner),
{
    let past: i32 = if max_local == i32::MAX {
        max_local
    } else {
        max_local + 1
    };
    let local: i32 = session_local_part(stored_next);
    let stored: i32 = if local > 1 {
        local
    } else {
        1
    };
    let next: i32 = if stored > past {
        stored
    } else {
        past
    };
    if owner > 0 && next > SESSION_LOCAL_MASK {
        if past > SESSION_LOCAL_MASK {
            1
        } else {
            past
        }
    } else {
        next
    }
}

} // verus!
