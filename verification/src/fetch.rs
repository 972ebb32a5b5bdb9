//! Fetch requests: what is asked for, and the session that the request belongs to.

use bytes::Bytes;
use vstd::prelude::*;
use vstd::string::*;

use crate::buffer::{advance, copy_bytes, get_i32, get_i64, get_u8, remaining, Contents};
use crate::codec;
use crate::codec::{read_string, read_unsigned_varint};
use crate::fetch_session;
use crate::fetch_session::{
    SessionPartition, SessionTopic, TopicView, Topics, TopicsView, FINAL_EPOCH, INITIAL_EPOCH,
};
use crate::message;
use crate::message::{drop_tags, read_count, read_list, Element, Read};
use crate::produce;
use crate::produce::read_count32;
use crate::session_manager;
use crate::session_manager::{forget_one, FetchSessionManager, ManagerView};
use crate::table;
use crate::table::{Duplicate, Key, SortedMap};
use crate::text;
use crate::topic_id;
use crate::topic_id::{read_wire_id, resolve, Catalog, TopicWireId, WireView};
use crate::wire;
use crate::wire::{Src, Step};

verus! {

/// A partition of a Fetch request.
#[derive(Debug, Clone, Copy, PartialEq, Eq, Structural)]
pub struct FetchPart {
    pub partition: i32,
    /// The leader epoch that the client knows (v9+), or -1.
    pub current_leader_epoch: i32,
    pub fetch_offset: i64,
    /// The epoch of the last record that the client has (v12+), or -1.
    pub last_fetched_epoch: i32,
    pub max_bytes: usize,
}

impl DeepView for FetchPart {
    type V = FetchPart;

    open spec fn deep_view(&self) -> FetchPart {
        *self
    }
}

/// How many bytes a partition of a Fetch request has, without its tags.
pub open spec fn fetch_part_size(version: i16) -> int {
    16 + (if version >= 9 {
        4int
    } else {
        0
    }) + (if version >= 12 {
        4int
    } else {
        0
    }) + (if version >= 5 {
        8int
    } else {
        0
    })
}

impl Element for FetchPart {
    open spec fn at(b: Src, version: i16, flexible: bool) -> Step<FetchPart> {
        if b.left() < fetch_part_size(version) {
            wire::stop(b)
        } else {
            let b1 = b.skip(4);
            let b2 = if version >= 9 {
                b1.skip(4)
            } else {
                b1
            };
            let b3 = b2.skip(8);
            let b4 = if version >= 12 {
                b3.skip(4)
            } else {
                b3
            };
            let b5 = if version >= 5 {
                b4.skip(8)
            } else {
                b4
            };
            wire::keep(
                FetchPart {
                    partition: b.i32() as i32,
                    current_leader_epoch: if version >= 9 {
                        b1.i32() as i32
                    } else {
                        (-1int) as i32
                    },
                    fetch_offset: b2.i64() as i64,
                    last_fetched_epoch: if version >= 12 {
                        b3.i32() as i32
                    } else {
                        (-1int) as i32
                    },
                    max_bytes: if b5.i32() < 0 {
                        0usize
                    } else {
                        b5.i32() as usize
                    },
                },
                message::after_tags(b5.skip(4), flexible),
            )
        }
    }

    fn read(src: &mut Bytes, version: i16, flexible: bool) -> (r: Read<FetchPart>) {
        let mut need: usize = 16;
        if version >= 9 {
            need = need + 4;
        }
        if version >= 12 {
            need = need + 4;
        }
        if version >= 5 {
            need = need + 8;
        }
        if remaining(src) < need {
            return Read::End;
        }
        let partition: i32 = get_i32(src);
        let current_leader_epoch: i32 = if version >= 9 {
            get_i32(src)
        } else {
            -1
        };
        let fetch_offset: i64 = get_i64(src);
        let last_fetched_epoch: i32 = if version >= 12 {
            get_i32(src)
        } else {
            -1
        };
        if version >= 5 {
            let _follower_log_start: i64 = get_i64(src);
        }
        let max: i32 = get_i32(src);
        let max_bytes: usize = if max < 0 {
            0
        } else {
            max as usize
        };
        drop_tags(src, flexible);
        Read::Item(
            FetchPart {
                partition,
                current_leader_epoch,
                fetch_offset,
                last_fetched_epoch,
                max_bytes,
            },
        )
    }
}

/// A topic of a Fetch request.
#[derive(Debug)]
pub struct FetchTopic {
    pub wire: TopicWireId,
    pub parts: Vec<FetchPart>,
}

/// What a [`FetchTopic`] says.
#[verifier::ext_equal]
pub struct FetchTopicView {
    pub wire: WireView,
    pub parts: Seq<FetchPart>,
}

impl DeepView for FetchTopic {
    type V = FetchTopicView;

    open spec fn deep_view(&self) -> FetchTopicView {
        FetchTopicView { wire: self.wire.deep_view(), parts: self.parts.deep_view() }
    }
}

impl Element for FetchTopic {
    open spec fn at(b: Src, version: i16, flexible: bool) -> Step<FetchTopicView> {
        let p = topic_id::wire_at(b, flexible, version >= 13);
        match p.value {
            Err(_) => wire::stop(p.rest),
            Ok(w) => {
                let c = produce::count32_at(p.rest, flexible);
                match c.value {
                    Err(_) => wire::stop(c.rest),
                    Ok(n) => {
                        let l = message::list_at::<FetchPart>(c.rest, n, version, flexible);
                        wire::keep(
                            FetchTopicView { wire: w, parts: l.0 },
                            message::after_tags(l.1, flexible),
                        )
                    },
                }
            },
        }
    }

    fn read(src: &mut Bytes, version: i16, flexible: bool) -> (r: Read<FetchTopic>) {
        let w = match read_wire_id(src, flexible, version >= 13) {
            Err(_) => return Read::End,
            Ok(w) => w,
        };
        match read_count32(src, flexible) {
            None => Read::End,
            Some(n) => {
                let parts = read_list::<FetchPart>(src, n, version, flexible);
                drop_tags(src, flexible);
                Read::Item(FetchTopic { wire: w, parts })
            },
        }
    }
}

/// A topic that a session is to forget, or some partitions of it.
#[derive(Debug)]
pub struct ForgottenTopic {
    pub wire: TopicWireId,
    pub parts: Vec<i32>,
}

/// What a [`ForgottenTopic`] says.
#[verifier::ext_equal]
pub struct ForgottenView {
    pub wire: WireView,
    pub parts: Seq<i32>,
}

impl DeepView for ForgottenTopic {
    type V = ForgottenView;

    open spec fn deep_view(&self) -> ForgottenView {
        ForgottenView { wire: self.wire.deep_view(), parts: self.parts.deep_view() }
    }
}

/// In the flexible versions partitions that cannot be counted are none; in the others
/// the array ends there.
impl Element for ForgottenTopic {
    open spec fn at(b: Src, version: i16, flexible: bool) -> Step<ForgottenView> {
        let p = topic_id::wire_at(b, flexible, version >= 13);
        match p.value {
            Err(_) => wire::stop(p.rest),
            Ok(w) => {
                let c = message::count_at(p.rest, flexible);
                let n = match c.value {
                    Ok(k) => message::or_zero(k),
                    Err(_) => 0,
                };
                let l = message::list_at::<i32>(c.rest, n, version, flexible);
                if c.value is Err && !flexible {
                    wire::stop(c.rest)
                } else {
                    wire::keep(
                        ForgottenView { wire: w, parts: l.0 },
                        message::after_tags(l.1, flexible),
                    )
                }
            },
        }
    }

    fn read(src: &mut Bytes, version: i16, flexible: bool) -> (r: Read<ForgottenTopic>) {
        let w = match read_wire_id(src, flexible, version >= 13) {
            Err(_) => return Read::End,
            Ok(w) => w,
        };
        let n: usize = match read_count(src, flexible) {
            Ok(Some(k)) => k,
            Ok(None) => 0,
            Err(_) => {
                if !flexible {
                    return Read::End;
                }
                0
            },
        };
        let parts = read_list::<i32>(src, n, version, flexible);
        drop_tags(src, flexible);
        Read::Item(ForgottenTopic { wire: w, parts })
    }
}

/// The topics to forget (v7+) and what is left after them.
pub open spec fn forgotten_at(b: Src, version: i16) -> (Seq<ForgottenView>, Src) {
    if version < 7 {
        (Seq::empty(), b)
    } else {
        let c = message::count_at(b, version >= 12);
        match c.value {
            Err(_) => (Seq::empty(), c.rest),
            Ok(n) => message::list_at::<ForgottenTopic>(
                c.rest,
                message::or_zero(n),
                version,
                version >= 12,
            ),
        }
    }
}

fn read_forgotten(src: &mut Bytes, version: i16) -> (v: Vec<ForgottenTopic>)
    ensures
        (v.deep_view(), final(src)@) == forgotten_at(old(src)@, version),
{
    let none: Vec<ForgottenTopic> = Vec::new();
    assert(none.deep_view() =~= Seq::empty());
    if version < 7 {
        return none;
    }
    match read_count(src, version >= 12) {
        Err(_) => none,
        Ok(n) => {
            let n: usize = match n {
                Some(k) => k,
                None => 0,
            };
            read_list::<ForgottenTopic>(src, n, version, version >= 12)
        },
    }
}

/// The replica id after `n` tagged fields: from v15 on, the field 1 begins with it.
/// A field that cannot be read ends the reading.
pub open spec fn tagged_replica(b: Src, n: nat, version: i16, replica_id: i32) -> i32
    decreases n,
{
    let tag = b.uvarint();
    let len = tag.rest.uvarint();
    if n == 0 || tag.value is Err || len.value is Err || len.rest.left() < len.value->Ok_0 {
        replica_id
    } else {
        let k = len.value->Ok_0;
        let id = if version >= 15 && tag.value->Ok_0 == 1 && k >= 4 {
            len.rest.i32() as i32
        } else {
            replica_id
        };
        tagged_replica(len.rest.skip(k as int), (n - 1) as nat, version, id)
    }
}

/// The replica id after the tag buffer of a request.
pub open spec fn replica_after_tags(b: Src, version: i16, replica_id: i32) -> i32 {
    let p = b.uvarint();
    match p.value {
        Err(_) => replica_id,
        Ok(n) => tagged_replica(p.rest, n, version, replica_id),
    }
}

/// Parse Fetch request top-level TAG_BUFFER after `rack_id`.
///
/// On flexible versions the buffer may carry:
/// - tag **0** ClusterId (compact string) — content ignored
/// - tag **1** ReplicaState (v15+): `ReplicaId` int32, `ReplicaEpoch` int64,
///   nested TAG_BUFFER — when present with ≥4 body bytes, gives the replica id
///   so preferred-replica redirect stays gated for followers (`replica_id >= 0`).
pub fn parse_fetch_request_tags(src: &mut Bytes, version: i16, replica_id: i32) -> (id: i32)
    ensures
        id == replica_after_tags(old(src)@, version, replica_id),
{
    let n: u32 = match read_unsigned_varint(src) {
        Err(_) => return replica_id,
        Ok(n) => n,
    };
    let mut id: i32 = replica_id;
    let mut i: u32 = 0;
    while i < n
        invariant
            i <= n,
            old(src)@.uvarint().value is Ok,
            n == old(src)@.uvarint().value->Ok_0,
            replica_after_tags(old(src)@, version, replica_id) == tagged_replica(
                src@,
                (n - i) as nat,
                version,
                id,
            ),
        decreases n - i,
    {
        let ghost here = src@;
        let tag: u32 = match read_unsigned_varint(src) {
            Err(_) => return id,
            Ok(t) => t,
        };
        let len: usize = match read_unsigned_varint(src) {
            Err(_) => return id,
            Ok(k) => k as usize,
        };
        if remaining(src) < len {
            return id;
        }
        let ghost body = src@;
        if version >= 15 && tag == 1 && len >= 4 {
            id = get_i32(src);
            advance(src, len - 4);
            assert(src@ =~= body.skip(len as int));
        } else {
            advance(src, len);
        }
        i += 1;
    }
    id
}

/// A Fetch request.
#[derive(Debug)]
pub struct FetchRequest {
    /// Negative for consumers, the node id for followers.
    pub replica_id: i32,
    /// Whether only what is committed is returned.
    pub read_committed: bool,
    pub session_id: i32,
    pub session_epoch: i32,
    pub topics: Vec<FetchTopic>,
    pub forgotten: Vec<ForgottenTopic>,
    /// Where the client is, if it says.
    pub rack: Option<String>,
}

/// What a [`FetchRequest`] says.
#[verifier::ext_equal]
pub struct FetchView {
    pub replica_id: i32,
    pub read_committed: bool,
    pub session_id: i32,
    pub session_epoch: i32,
    pub topics: Seq<FetchTopicView>,
    pub forgotten: Seq<ForgottenView>,
    pub rack: Option<Seq<char>>,
}

impl DeepView for FetchRequest {
    type V = FetchView;

    open spec fn deep_view(&self) -> FetchView {
        FetchView {
            replica_id: self.replica_id,
            read_committed: self.read_committed,
            session_id: self.session_id,
            session_epoch: self.session_epoch,
            topics: self.topics.deep_view(),
            forgotten: self.forgotten.deep_view(),
            rack: self.rack.deep_view(),
        }
    }
}

/// The fields of a Fetch request in front of its topics.
#[verifier::ext_equal]
pub struct FetchHead {
    pub replica_id: i32,
    pub read_committed: bool,
    pub session_id: i32,
    pub session_epoch: i32,
    pub rest: Src,
}

/// The fields of a Fetch request in front of its topics, or nothing where they cannot
/// be read.
pub open spec fn fetch_head_at(b: Src, version: i16) -> Option<FetchHead> {
    let r0 = if version <= 14 {
        b.skip(4)
    } else {
        b
    };
    let r1 = r0.skip(4).skip(4);
    let r2 = if version >= 3 {
        r1.skip(4)
    } else {
        r1
    };
    let r3 = if version >= 4 {
        r2.skip(1)
    } else {
        r2
    };
    let r4 = if version >= 7 {
        r3.skip(4).skip(4)
    } else {
        r3
    };
    if b.left() < (if version <= 14 {
        12int
    } else {
        8
    }) {
        None
    } else if version >= 3 && r1.left() < 4 {
        None
    } else if version >= 4 && (r2.left() < 1 || r2.u8() > 1) {
        None
    } else if version >= 7 && r3.left() < 8 {
        None
    } else {
        Some(
            FetchHead {
                replica_id: if version <= 14 {
                    b.i32() as i32
                } else {
                    (-1int) as i32
                },
                read_committed: version >= 4 && r2.u8() == 1,
                session_id: if version >= 7 {
                    r3.i32() as i32
                } else {
                    0
                },
                session_epoch: if version >= 7 {
                    r3.skip(4).i32() as i32
                } else {
                    FINAL_EPOCH
                },
                rest: r4,
            },
        )
    }
}

/// The fields of a Fetch request behind its topics.
pub open spec fn fetch_tail_at(b: Src, version: i16, replica_id: i32) -> (
    Seq<ForgottenView>,
    Option<Seq<char>>,
    i32,
) {
    let flexible = version >= 12;
    let f = forgotten_at(b, version);
    let k = codec::text_at(f.1, flexible);
    let rest = if version >= 11 {
        k.rest
    } else {
        f.1
    };
    (
        f.0,
        match k.value {
            Ok(s) if version >= 11 && s.len() > 0 => Some(s),
            _ => None,
        },
        if flexible {
            replica_after_tags(rest, version, replica_id)
        } else {
            replica_id
        },
    )
}

/// A Fetch request, or nothing where it cannot be read as far as its topics.
pub open spec fn fetch_at(b: Src, version: i16) -> Option<FetchView> {
    match fetch_head_at(b, version) {
        None => None,
        Some(h) => {
            let c = produce::count32_at(h.rest, version >= 12);
            match c.value {
                Err(_) => None,
                Ok(n) => {
                    let l = message::list_at::<FetchTopic>(c.rest, n, version, version >= 12);
                    let t = fetch_tail_at(l.1, version, h.replica_id);
                    Some(
                        FetchView {
                            replica_id: t.2,
                            read_committed: h.read_committed,
                            session_id: h.session_id,
                            session_epoch: h.session_epoch,
                            topics: l.0,
                            forgotten: t.0,
                            rack: t.1,
                        },
                    )
                },
            }
        },
    }
}

fn read_fetch_head(src: &mut Bytes, version: i16) -> (r: Option<(i32, bool, i32, i32)>)
    ensures
        match (r, fetch_head_at(old(src)@, version)) {
            (Some(h), Some(w)) => h.0 == w.replica_id && h.1 == w.read_committed && h.2
                == w.session_id && h.3 == w.session_epoch && final(src)@ == w.rest,
            (None, None) => true,
            _ => false,
        },
{
    let need: usize = if version <= 14 {
        12
    } else {
        8
    };
    if remaining(src) < need {
        return None;
    }
    let replica_id: i32 = if version <= 14 {
        get_i32(src)
    } else {
        -1
    };
    let _max_wait: i32 = get_i32(src);
    let _min_bytes: i32 = get_i32(src);
    if version >= 3 {
        if remaining(src) < 4 {
            return None;
        }
        let _max_bytes: i32 = get_i32(src);
    }
    let mut isolation: u8 = 0;
    if version >= 4 {
        if remaining(src) < 1 {
            return None;
        }
        isolation = get_u8(src);
        if isolation > 1 {
            return None;
        }
    }
    let mut session_id: i32 = 0;
    let mut session_epoch: i32 = FINAL_EPOCH;
    if version >= 7 {
        if remaining(src) < 8 {
            return None;
        }
        session_id = get_i32(src);
        session_epoch = get_i32(src);
    }
    Some((replica_id, isolation == 1, session_id, session_epoch))
}

/// Reads a Fetch request.
pub fn decode_fetch(src: &mut Bytes, version: i16) -> (r: Option<FetchRequest>)
    ensures
        r.deep_view() == fetch_at(old(src)@, version),
{
    let flexible = version >= 12;
    let (head_id, read_committed, session_id, session_epoch) = match read_fetch_head(src, version) {
        None => return None,
        Some(h) => h,
    };
    let n: usize = match read_count32(src, flexible) {
        None => return None,
        Some(n) => n,
    };
    let topics = read_list::<FetchTopic>(src, n, version, flexible);
    let forgotten = read_forgotten(src, version);
    let mut rack: Option<String> = None;
    if version >= 11 {
        if let Ok(s) = read_string(src, flexible) {
            if !s.as_str().is_empty() {
                rack = Some(s);
            }
        }
    }
    let replica_id: i32 = if flexible {
        parse_fetch_request_tags(src, version, head_id)
    } else {
        head_id
    };
    Some(
        FetchRequest {
            replica_id,
            read_committed,
            session_id,
            session_epoch,
            topics,
            forgotten,
            rack,
        },
    )
}

/// Peek Fetch v7+ `session_id` / `session_epoch` without consuming `src`.
///
/// Returns `None` when the header is truncated or version &lt; 7. The isolation level is
/// not looked at.
pub fn peek_fetch_session(version: i16, src: &[u8]) -> (r: Option<(i32, i32)>)
    ensures
        r == peeked_session(src@, version),
{
    if version < 7 {
        return None;
    }
    let need: usize = if version <= 14 {
        25
    } else {
        21
    };
    if src.len() < need {
        return None;
    }
    let mut cur = copy_bytes(src);
    advance(&mut cur, need - 8);
    let session_id: i32 = get_i32(&mut cur);
    let session_epoch: i32 = get_i32(&mut cur);
    Some((session_id, session_epoch))
}

/// Where the session fields of a Fetch request (v7+) lie.
pub open spec fn session_fields_at(version: i16) -> int {
    if version <= 14 {
        17
    } else {
        13
    }
}

/// The session fields of a Fetch request.
pub open spec fn peeked_session(s: Seq<u8>, version: i16) -> Option<(i32, i32)> {
    let b = Src::of(s).skip(session_fields_at(version));
    if version < 7 || s.len() < session_fields_at(version) + 8 {
        None
    } else {
        Some((b.i32() as i32, b.skip(4).i32() as i32))
    }
}

/// What is seen ahead is what is read: the session of a request that can be read.
pub proof fn law_peek(s: Seq<u8>, version: i16)
    requires
        version >= 7,
        fetch_head_at(Src::of(s), version) is Some,
    ensures
        ({
            let h = fetch_head_at(Src::of(s), version)->Some_0;
            peeked_session(s, version) == Some((h.session_id, h.session_epoch))
        }),
{
    let b = Src::of(s);
    let r0 = if version <= 14 {
        b.skip(4)
    } else {
        b
    };
    let r3 = r0.skip(4).skip(4).skip(4).skip(1);
    assert(r3 =~= b.skip(session_fields_at(version)));
}

/// `m` with the partitions of a request put in.
pub open spec fn with_parts(m: Map<i32, SessionPartition>, parts: Seq<FetchPart>) -> Map<
    i32,
    SessionPartition,
>
    decreases parts.len(),
{
    if parts.len() == 0 {
        m
    } else {
        let p = parts.last();
        with_parts(m, parts.drop_last()).insert(
            p.partition,
            SessionPartition {
                fetch_offset: p.fetch_offset,
                current_leader_epoch: p.current_leader_epoch,
                last_fetched_epoch: p.last_fetched_epoch,
                max_bytes: p.max_bytes,
                last_hwm: None,
                last_lso: None,
            },
        )
    }
}

/// The name, which is empty for a topic that the broker does not know.
pub open spec fn name_or_empty(name: Option<Seq<char>>) -> Seq<char> {
    match name {
        Some(n) => n,
        None => Seq::empty(),
    }
}

/// The key of a topic of a request.
pub open spec fn request_key(catalog: Seq<(Seq<char>, u32)>, w: WireView) -> Seq<char> {
    fetch_session::key_of(w, name_or_empty(topic_id::resolved(catalog, w).name))
}

/// The topics of a request by their keys, and the keys in the order in which they come
/// first. A topic that comes more than once has the partitions of all.
pub open spec fn gathered(catalog: Seq<(Seq<char>, u32)>, topics: Seq<FetchTopicView>) -> (
    TopicsView,
    Seq<Seq<char>>,
)
    decreases topics.len(),
{
    if topics.len() == 0 {
        (Map::empty(), Seq::empty())
    } else {
        let g = gathered(catalog, topics.drop_last());
        let t = topics.last();
        let name = topic_id::resolved(catalog, t.wire).name;
        let key = request_key(catalog, t.wire);
        let known = g.0.contains_key(key);
        (
            g.0.insert(
                key,
                TopicView {
                    wire: t.wire,
                    name: match name {
                        Some(n) => n,
                        None => if known {
                            g.0[key].name
                        } else {
                            Seq::empty()
                        },
                    },
                    partitions: with_parts(
                        if known {
                            g.0[key].partitions
                        } else {
                            Map::empty()
                        },
                        t.parts,
                    ),
                },
            ),
            if known {
                g.1
            } else {
                g.1.push(key)
            },
        )
    }
}

fn put_parts(m: &mut SortedMap<i32, SessionPartition>, parts: &Vec<FetchPart>)
    ensures
        final(m).deep_view() == with_parts(old(m).deep_view(), parts@),
{
    let ghost start = m.deep_view();
    let mut i: usize = 0;
    assert(parts@.take(0).len() == 0);
    while i < parts.len()
        invariant
            i <= parts@.len(),
            m.deep_view() == with_parts(start, parts@.take(i as int)),
        decreases parts@.len() - i,
    {
        let p = parts[i];
        assert(parts@.take(i + 1).drop_last() =~= parts@.take(i as int));
        m.insert(
            p.partition,
            SessionPartition::new(
                p.fetch_offset,
                p.current_leader_epoch,
                p.last_fetched_epoch,
                p.max_bytes,
            ),
        );
        i += 1;
    }
    assert(parts@.take(parts@.len() as int) =~= parts@);
}

/// The topics of a request by their keys, and the keys in the order in which they come
/// first.
pub fn gather(catalog: &Catalog, topics: &Vec<FetchTopic>) -> (r: (Topics, Vec<String>))
    ensures
        (r.0.deep_view(), r.1.deep_view()) == gathered(catalog.deep_view(), topics.deep_view()),
{
    let ghost all = topics.deep_view();
    let mut m: Topics = SortedMap::new();
    let mut order: Vec<String> = Vec::new();
    let mut i: usize = 0;
    assert(all.take(0).len() == 0);
    assert(order.deep_view() =~= Seq::empty());
    while i < topics.len()
        invariant
            i <= topics@.len(),
            all == topics.deep_view(),
            (m.deep_view(), order.deep_view()) == gathered(
                catalog.deep_view(),
                all.take(i as int),
            ),
        decreases topics@.len() - i,
    {
        assert(all.take(i + 1).drop_last() =~= all.take(i as int));
        assert(all[i as int] == topics@[i as int].deep_view());
        let ghost seen = order.deep_view();
        let ghost before = m.deep_view();
        let t = &topics[i];
        let resolved = resolve(catalog, t.wire.clone());
        let key = FetchSessionManager::topic_key(&resolved.wire, resolved.name_or_empty());
        let mut entry = match m.remove(&key) {
            Some(e) => e,
            None => {
                order.push(key.clone());
                assert(order.deep_view() =~= seen.push(key@));
                let partitions: SortedMap<i32, SessionPartition> = SortedMap::new();
                SessionTopic {
                    wire: t.wire.clone(),
                    name: resolved.name_or_empty().to_owned(),
                    partitions,
                }
            },
        };
        entry.wire = t.wire.clone();
        if let Some(n) = resolved.name {
            entry.name = n;
        }
        put_parts(&mut entry.partitions, &t.parts);
        assert(t.parts.deep_view() =~= t.parts@);
        let ghost e = entry.deep_view();
        m.insert(key, entry);
        assert(m.deep_view() =~= before.insert(key@, e));
        i += 1;
    }
    assert(all.take(all.len() as int) =~= all);
    (m, order)
}

/// The keys and partitions that a request forgets.
pub open spec fn forgotten_keys(catalog: Seq<(Seq<char>, u32)>, f: Seq<ForgottenView>) -> Seq<
    (Seq<char>, Seq<i32>),
> {
    Seq::new(f.len(), |i: int| (request_key(catalog, f[i].wire), f[i].parts))
}

/// The keys and partitions that a request forgets.
pub fn forget_list(catalog: &Catalog, forgotten: &Vec<ForgottenTopic>) -> (r: Vec<
    (String, Vec<i32>),
>)
    ensures
        r.deep_view() == forgotten_keys(catalog.deep_view(), forgotten.deep_view()),
{
    let ghost all = forgotten.deep_view();
    let mut r: Vec<(String, Vec<i32>)> = Vec::new();
    let mut i: usize = 0;
    while i < forgotten.len()
        invariant
            i <= forgotten@.len(),
            all == forgotten.deep_view(),
            r@.len() == i,
            forall|j: int|
                0 <= j < i ==> (#[trigger] r@[j]).deep_view() == (
                    request_key(catalog.deep_view(), all[j].wire),
                    all[j].parts,
                ),
        decreases forgotten@.len() - i,
    {
        let f = &forgotten[i];
        assert(all[i as int] == f.deep_view());
        let resolved = resolve(catalog, f.wire.clone());
        let key = FetchSessionManager::topic_key(&resolved.wire, resolved.name_or_empty());
        let parts = copy_numbers(&f.parts);
        r.push((key, parts));
        i += 1;
    }
    assert(r.deep_view() =~= forgotten_keys(catalog.deep_view(), all));
    r
}

fn copy_numbers(v: &Vec<i32>) -> (r: Vec<i32>)
    ensures
        r@ == v@,
        r.deep_view() == v.deep_view(),
{
    let mut r: Vec<i32> = Vec::new();
    let mut i: usize = 0;
    while i < v.len()
        invariant
            i <= v@.len(),
            r@ == v@.take(i as int),
        decreases v@.len() - i,
    {
        r.push(v[i]);
        assert(r@ =~= v@.take(i + 1));
        i += 1;
    }
    assert(v@.take(v@.len() as int) =~= v@);
    r
}

/// How a request stands to sessions.
#[derive(Debug, Clone, Copy, PartialEq, Eq, Structural)]
pub enum SessionUse {
    /// The version has no sessions.
    Without,
    /// The session ends; the request stands for itself.
    Close,
    /// A new session begins.
    Open,
    /// A session goes on.
    Continue,
}

/// How a request stands to sessions.
pub open spec fn session_use(version: i16, session_id: i32, session_epoch: i32) -> SessionUse {
    if version < 7 {
        SessionUse::Without
    } else if session_epoch == FINAL_EPOCH {
        SessionUse::Close
    } else if session_id == 0 || session_epoch == INITIAL_EPOCH {
        SessionUse::Open
    } else {
        SessionUse::Continue
    }
}

/// What is fetched for a request, and the session that is told of.
#[derive(Debug)]
pub struct FetchPlan {
    /// The code that the request is refused with.
    pub refused: Option<i16>,
    pub session_id: i32,
    /// Whether partitions with nothing new are left out.
    pub omit_unchanged: bool,
    pub topics: Topics,
    /// The keys of the topics in the order of the response.
    pub order: Vec<String>,
}

/// `order` lists the keys of `topics`, each once, in the order of their bytes.
pub open spec fn lists_keys(order: Seq<Seq<char>>, topics: TopicsView) -> bool {
    &&& forall|i: int, j: int|
        0 <= i < j < order.len() ==> text::before(#[trigger] order[i], #[trigger] order[j])
    &&& forall|k: Seq<char>| topics.contains_key(k) <==> #[trigger] order.contains(k)
}

/// The plan for a request whose topics are `topics`, with the keys `order`, and which
/// forgets `forgotten`, in the session table `v`, and the session table after it.
pub open spec fn is_plan(
    plan: FetchPlan,
    after: ManagerView,
    v: ManagerView,
    version: i16,
    session_id: i32,
    session_epoch: i32,
    topics: TopicsView,
    order: Seq<Seq<char>>,
    forgotten: Seq<(Seq<char>, Seq<i32>)>,
    now: i64,
) -> bool {
    match session_use(version, session_id, session_epoch) {
        SessionUse::Without => {
            &&& after == v
            &&& plan.refused is None
            &&& plan.session_id == 0
            &&& !plan.omit_unchanged
            &&& plan.topics.deep_view() == topics
            &&& plan.order.deep_view() == order
        },
        SessionUse::Close => {
            &&& after == session_manager::closed(v, session_id)
            &&& plan.refused is None
            &&& plan.session_id == 0
            &&& !plan.omit_unchanged
            &&& plan.topics.deep_view() == topics
            &&& plan.order.deep_view() == order
        },
        SessionUse::Open => {
            let w = session_manager::closed(v, session_id);
            let kept = session_manager::forgot(topics, forgotten);
            &&& after == session_manager::created(w, kept, now)
            &&& plan.refused is None
            &&& plan.session_id == session_manager::fresh_id(
                session_manager::lru_evicted(session_manager::idle_evicted(w, now)),
            )
            &&& !plan.omit_unchanged
            &&& plan.topics.deep_view() == kept
            &&& plan.order.deep_view() == order.filter(|k: Seq<char>| kept.contains_key(k))
        },
        SessionUse::Continue => {
            let w = session_manager::incremented(v, session_id, session_epoch, now);
            &&& plan.session_id == session_id
            &&& match session_manager::incremental_result(v, session_id, session_epoch, now) {
                Err(code) => {
                    &&& plan.refused == Some(code)
                    &&& after == w
                    &&& !plan.omit_unchanged
                    &&& plan.topics.deep_view() == Map::<Seq<char>, TopicView>::empty()
                    &&& plan.order.deep_view() == Seq::<Seq<char>>::empty()
                },
                Ok(_) => {
                    let u = session_manager::forgetting(
                        session_manager::merged(w, session_id, topics),
                        session_id,
                        forgotten,
                    );
                    &&& plan.refused is None
                    &&& after == u
                    &&& plan.omit_unchanged == (topics.dom().len() == 0)
                    &&& if topics.dom().len() == 0 {
                        &&& plan.topics.deep_view() == (if u.sessions.contains_key(session_id) {
                            u.sessions[session_id].topics
                        } else {
                            Map::empty()
                        })
                        &&& lists_keys(plan.order.deep_view(), plan.topics.deep_view())
                    } else {
                        &&& plan.topics.deep_view() == topics
                        &&& plan.order.deep_view() == order
                    }
                },
            }
        },
    }
}

fn keys_in_order(topics: &Topics) -> (order: Vec<String>)
    ensures
        lists_keys(order.deep_view(), topics.deep_view()),
{
    let n: usize = topics.len();
    let ghost p = topics.pairs();
    let mut order: Vec<String> = Vec::new();
    let mut i: usize = 0;
    while i < n
        invariant
            i <= n,
            n == p.len(),
            p == topics.pairs(),
            order@.len() == i,
            forall|j: int| 0 <= j < i ==> (#[trigger] order@[j])@ == p[j].0,
        decreases n - i,
    {
        let (k, _t) = topics.at(i);
        order.push(k.clone());
        i += 1;
    }
    proof {
        SortedMap::lemma_pairs(topics);
        let o = order.deep_view();
        assert forall|a: int, b: int| 0 <= a < b < o.len() implies text::before(
            #[trigger] o[a],
            #[trigger] o[b],
        ) by {
            assert(o[a] == order@[a]@ && o[b] == order@[b]@);
            assert(String::precedes(p[a].0, p[b].0));
        }
        assert forall|k: Seq<char>| topics.deep_view().contains_key(k) <==> #[trigger] o.contains(
            k,
        ) by {
            if topics.deep_view().contains_key(k) {
                let j = choose|j: int| 0 <= j < p.len() && (#[trigger] p[j]).0 == k;
                assert(o[j] == order@[j]@);
            }
            if o.contains(k) {
                let j = choose|j: int| 0 <= j < o.len() && o[j] == k;
                assert(o[j] == order@[j]@);
                assert(topics.deep_view().contains_key(p[j].0));
            }
        }
    }
    order
}

fn keep_known(order: &Vec<String>, topics: &Topics) -> (r: Vec<String>)
    ensures
        r.deep_view() == order.deep_view().filter(
            |k: Seq<char>| topics.deep_view().contains_key(k),
        ),
{
    let ghost f = |k: Seq<char>| topics.deep_view().contains_key(k);
    let ghost all = order.deep_view();
    let mut r: Vec<String> = Vec::new();
    let mut i: usize = 0;
    proof {
        reveal(Seq::filter);
        assert(all.take(0).len() == 0);
        assert(r.deep_view() =~= Seq::empty());
    }
    while i < order.len()
        invariant
            i <= order@.len(),
            all == order.deep_view(),
            f == |k: Seq<char>| topics.deep_view().contains_key(k),
            r.deep_view() == all.take(i as int).filter(f),
        decreases order@.len() - i,
    {
        let ghost seen = r.deep_view();
        proof {
            reveal(Seq::filter);
            assert(all.take(i + 1).drop_last() =~= all.take(i as int));
            assert(all.take(i + 1).last() == order@[i as int]@);
        }
        if topics.contains_key(&order[i]) {
            r.push(order[i].clone());
            assert(r.deep_view() =~= seen.push(order@[i as int]@));
        }
        i += 1;
    }
    assert(all.take(all.len() as int) =~= all);
    r
}

/// Whether a topic is known: one asked for by its identifier has no name as long as no
/// topic has that identifier.
pub fn topic_known(ask: &FetchAsk) -> (known: bool)
    ensures
        known == !(ask.wire is Uuid && ask.name@.len() == 0),
{
    match ask.wire {
        TopicWireId::Uuid(_) => !ask.name.as_str().is_empty(),
        TopicWireId::Name(_) => true,
    }
}

/// The partitions of a topic of a session, in the order of their numbers.
fn partitions_in_order(topic: &SessionTopic) -> (r: Vec<(i32, SessionPartition)>)
    ensures
        table::sorted::<i32, SessionPartition>(r@),
        table::map_of(r@) == topic.deep_view().partitions,
{
    let ghost p = topic.partitions.pairs();
    let n: usize = topic.partitions.len();
    let mut r: Vec<(i32, SessionPartition)> = Vec::new();
    let mut i: usize = 0;
    assert(p.take(0) =~= Seq::empty());
    while i < n
        invariant
            i <= n,
            n == p.len(),
            p == topic.partitions.pairs(),
            r@ == p.take(i as int),
        decreases n - i,
    {
        let (id, part) = topic.partitions.at(i);
        r.push((*id, *part));
        assert(p.take(i + 1) =~= p.take(i as int).push(p[i as int]));
        i += 1;
    }
    assert(p.take(n as int) =~= p);
    r
}

/// Finds the session of a request, and what is fetched for it.
pub fn plan_fetch(
    sessions: &mut FetchSessionManager,
    version: i16,
    session_id: i32,
    session_epoch: i32,
    topics: Topics,
    order: Vec<String>,
    forgotten: &Vec<(String, Vec<i32>)>,
    now_ms: i64,
) -> (plan: FetchPlan)
    ensures
        is_plan(
            plan,
            final(sessions)@,
            old(sessions)@,
            version,
            session_id,
            session_epoch,
            topics.deep_view(),
            order.deep_view(),
            forgotten.deep_view(),
            now_ms,
        ),
{
    if version < 7 {
        return FetchPlan { refused: None, session_id: 0, omit_unchanged: false, topics, order };
    }
    if session_epoch == FINAL_EPOCH {
        sessions.close(session_id);
        return FetchPlan { refused: None, session_id: 0, omit_unchanged: false, topics, order };
    }
    if session_id == 0 || session_epoch == INITIAL_EPOCH {
        sessions.close(session_id);
        let mut kept = topics;
        let ghost start = kept.deep_view();
        let ghost f = forgotten.deep_view();
        let mut i: usize = 0;
        assert(f.take(0).len() == 0);
        while i < forgotten.len()
            invariant
                i <= forgotten@.len(),
                f == forgotten.deep_view(),
                kept.deep_view() == session_manager::forgot(start, f.take(i as int)),
            decreases forgotten@.len() - i,
        {
            assert(f.take(i + 1).drop_last() =~= f.take(i as int));
            assert(f[i as int] == (
                forgotten@[i as int].0.deep_view(),
                forgotten@[i as int].1.deep_view(),
            ));
            forget_one(&mut kept, &forgotten[i].0, &forgotten[i].1);
            i += 1;
        }
        assert(f.take(f.len() as int) =~= f);
        let order = keep_known(&order, &kept);
        let id: i32 = sessions.create_at(kept.duplicate(), now_ms);
        return FetchPlan {
            refused: None,
            session_id: id,
            omit_unchanged: false,
            topics: kept,
            order,
        };
    }
    match sessions.begin_incremental_at(session_id, session_epoch, now_ms) {
        Err(code) => {
            let none: Vec<String> = Vec::new();
            assert(none.deep_view() =~= Seq::empty());
            FetchPlan {
                refused: Some(code),
                session_id,
                omit_unchanged: false,
                topics: SortedMap::new(),
                order: none,
            }
        },
        Ok(_) => {
            sessions.merge_topics(session_id, &topics);
            sessions.forget(session_id, forgotten.as_slice());
            if topics.len() == 0 {
                let all = sessions.snapshot_topics(session_id);
                let keys = keys_in_order(&all);
                FetchPlan { refused: None, session_id, omit_unchanged: true, topics: all, order: keys }
            } else {
                FetchPlan { refused: None, session_id, omit_unchanged: false, topics, order }
            }
        },
    }
}

/// A topic of which a request has to be told, with its partitions in the order of their
/// numbers.
#[derive(Debug)]
pub struct FetchAsk {
    /// The key of the topic in the session.
    pub key: String,
    pub wire: TopicWireId,
    pub name: String,
    pub parts: Vec<(i32, SessionPartition)>,
}

/// What a [`FetchAsk`] says.
#[verifier::ext_equal]
pub struct FetchAskView {
    pub key: Seq<char>,
    pub wire: WireView,
    pub name: Seq<char>,
    pub parts: Seq<(i32, SessionPartition)>,
}

impl DeepView for FetchAsk {
    type V = FetchAskView;

    open spec fn deep_view(&self) -> FetchAskView {
        FetchAskView {
            key: self.key@,
            wire: self.wire.deep_view(),
            name: self.name@,
            parts: self.parts@,
        }
    }
}

/// Whether `ask` asks for the topic `topic` with the key `key`.
pub open spec fn asks_for(ask: FetchAskView, key: Seq<char>, topic: TopicView) -> bool {
    &&& ask.key == key
    &&& ask.wire == topic.wire
    &&& ask.name == topic.name
    &&& table::sorted::<i32, SessionPartition>(ask.parts)
    &&& table::map_of(ask.parts) == topic.partitions
}

/// Whether `asks` ask for the topics with the keys `order`, in that order, as far as they
/// are among `topics`.
pub open spec fn asks_for_all(
    asks: Seq<FetchAskView>,
    order: Seq<Seq<char>>,
    topics: TopicsView,
) -> bool {
    let keys = order.filter(|k: Seq<char>| topics.contains_key(k));
    &&& asks.len() == keys.len()
    &&& forall|i: int|
        0 <= i < asks.len() ==> asks_for(#[trigger] asks[i], keys[i], topics[keys[i]])
}

/// What has to be asked for a plan, topic by topic.
pub fn fetch_asks(plan: &FetchPlan) -> (asks: Vec<FetchAsk>)
    ensures
        asks_for_all(asks.deep_view(), plan.order.deep_view(), plan.topics.deep_view()),
{
    let ghost topics = plan.topics.deep_view();
    let ghost all = plan.order.deep_view();
    let ghost f = |k: Seq<char>| topics.contains_key(k);
    let mut asks: Vec<FetchAsk> = Vec::new();
    let mut i: usize = 0;
    proof {
        reveal(Seq::filter);
        assert(all.take(0).len() == 0);
    }
    while i < plan.order.len()
        invariant
            i <= plan.order@.len(),
            all == plan.order.deep_view(),
            topics == plan.topics.deep_view(),
            f == |k: Seq<char>| topics.contains_key(k),
            asks@.len() == all.take(i as int).filter(f).len(),
            forall|j: int|
                0 <= j < asks@.len() ==> asks_for(
                    (#[trigger] asks@[j]).deep_view(),
                    all.take(i as int).filter(f)[j],
                    topics[all.take(i as int).filter(f)[j]],
                ),
        decreases plan.order@.len() - i,
    {
        let key = &plan.order[i];
        proof {
            reveal(Seq::filter);
            assert(all[i as int] == key@);
            assert(all.take(i + 1).drop_last() =~= all.take(i as int));
            assert(all.take(i + 1).last() == key@);
        }
        if let Some(t) = plan.topics.get(key) {
            asks.push(
                FetchAsk {
                    key: key.clone(),
                    wire: t.wire.clone(),
                    name: t.name.clone(),
                    parts: partitions_in_order(t),
                },
            );
        }
        i += 1;
    }
    assert(all.take(i as int) =~= all);
    asks
}

/// Whether `order` lists the keys of `topics`, each once.
pub open spec fn each_once(order: Seq<Seq<char>>, topics: TopicsView) -> bool {
    &&& order.no_duplicates()
    &&& forall|k: Seq<char>| topics.contains_key(k) <==> #[trigger] order.contains(k)
}

/// A partition that a request names is asked for with the parameters that the request gives it
/// last, and nothing that was told before.
pub proof fn law_asked_parts(m: Map<i32, SessionPartition>, parts: Seq<FetchPart>, i: int)
    requires
        0 <= i < parts.len(),
        forall|j: int| i < j < parts.len() ==> (#[trigger] parts[j]).partition != parts[i].partition,
    ensures
        ({
            let all = with_parts(m, parts);
            let p = parts[i];
            let q = all[p.partition];
            &&& all.contains_key(p.partition)
            &&& q.fetch_offset == p.fetch_offset
            &&& q.current_leader_epoch == p.current_leader_epoch
            &&& q.last_fetched_epoch == p.last_fetched_epoch
            &&& q.max_bytes == p.max_bytes
            &&& q.last_hwm is None && q.last_lso is None
        }),
        forall|k: int|
            (forall|j: int| 0 <= j < parts.len() ==> (#[trigger] parts[j]).partition != k)
                && i32::MIN <= k <= i32::MAX ==> (#[trigger] with_parts(m, parts).contains_key(
                k as i32,
            ) <==> m.contains_key(k as i32)),
    decreases parts.len(),
{
    lemma_other_parts(m, parts);
    if i < parts.len() - 1 {
        let init = parts.drop_last();
        assert(init[i] == parts[i]);
        assert(parts[parts.len() - 1].partition != parts[i].partition);
        assert forall|j: int| i < j < init.len() implies (#[trigger] init[j]).partition
            != init[i].partition by {
            assert(init[j] == parts[j]);
        }
        law_asked_parts(m, init, i);
    }
}

proof fn lemma_other_parts(m: Map<i32, SessionPartition>, parts: Seq<FetchPart>)
    ensures
        forall|k: int|
            (forall|j: int| 0 <= j < parts.len() ==> (#[trigger] parts[j]).partition != k)
                && i32::MIN <= k <= i32::MAX ==> (#[trigger] with_parts(m, parts).contains_key(
                k as i32,
            ) <==> m.contains_key(k as i32)),
    decreases parts.len(),
{
    if parts.len() > 0 {
        let init = parts.drop_last();
        lemma_other_parts(m, init);
        assert forall|k: int|
            (forall|j: int| 0 <= j < parts.len() ==> (#[trigger] parts[j]).partition != k)
                && i32::MIN <= k <= i32::MAX implies (#[trigger] with_parts(m, parts).contains_key(
            k as i32,
        ) <==> m.contains_key(k as i32)) by {
            assert(parts[parts.len() - 1].partition != k);
            assert forall|j: int| 0 <= j < init.len() implies (#[trigger] init[j]).partition
                != k by {
                assert(init[j] == parts[j]);
            }
            assert(with_parts(m, init).contains_key(k as i32) <==> m.contains_key(k as i32));
        }
    }
}

/// The keys of a request are those of its topics, each once.
pub proof fn law_gathered(catalog: Seq<(Seq<char>, u32)>, topics: Seq<FetchTopicView>)
    ensures
        each_once(gathered(catalog, topics).1, gathered(catalog, topics).0),
    decreases topics.len(),
{
    if topics.len() > 0 {
        let g = gathered(catalog, topics.drop_last());
        let h = gathered(catalog, topics);
        let key = request_key(catalog, topics.last().wire);
        law_gathered(catalog, topics.drop_last());
        if !g.0.contains_key(key) {
            assert(!g.1.contains(key));
            assert forall|k: Seq<char>| h.0.contains_key(k) <==> #[trigger] h.1.contains(k) by {
                assert(h.1[h.1.len() - 1] == key);
                if g.1.contains(k) {
                    let j = g.1.index_of(k);
                    assert(h.1[j] == k);
                }
                if h.1.contains(k) && k != key {
                    let j = h.1.index_of(k);
                    assert(g.1[j] == k);
                }
                assert(g.0.contains_key(k) <==> g.1.contains(k));
            }
        } else {
            assert forall|k: Seq<char>| h.0.contains_key(k) <==> #[trigger] h.1.contains(k) by {
                assert(g.0.contains_key(k) <==> g.1.contains(k));
            }
        }
    }
}

/// What is left of a list is what passes, each as often as before.
proof fn lemma_filtered(order: Seq<Seq<char>>, f: spec_fn(Seq<char>) -> bool)
    ensures
        order.no_duplicates() ==> order.filter(f).no_duplicates(),
        forall|k: Seq<char>| #[trigger] order.filter(f).contains(k) <==> order.contains(k) && f(k),
        (forall|k: Seq<char>| #[trigger] order.contains(k) ==> f(k)) ==> order.filter(f) == order,
    decreases order.len(),
{
    reveal(Seq::filter);
    if order.len() > 0 {
        let init = order.drop_last();
        let last = order.last();
        let a = init.filter(f);
        let b = order.filter(f);
        lemma_filtered(init, f);
        assert(order =~= init.push(last));
        assert(order.contains(last)) by {
            assert(order[order.len() - 1] == last);
        }
        assert forall|k: Seq<char>| #[trigger] order.contains(k) <==> init.contains(k) || k
            == last by {
            if init.contains(k) {
                assert(order[init.index_of(k)] == k);
            }
            if order.contains(k) && k != last {
                assert(init[order.index_of(k)] == k);
            }
        }
        if f(last) {
            assert forall|k: Seq<char>| #[trigger] b.contains(k) <==> a.contains(k) || k == last by {
                assert(b[b.len() - 1] == last);
                if a.contains(k) {
                    assert(b[a.index_of(k)] == k);
                }
                if b.contains(k) && k != last {
                    assert(a[b.index_of(k)] == k);
                }
            }
            if order.no_duplicates() {
                assert(init.no_duplicates());
                assert(!init.contains(last)) by {
                    if init.contains(last) {
                        let j = init.index_of(last);
                        assert(order[j] == order[order.len() - 1]);
                    }
                }
                assert(!a.contains(last));
                assert(b.no_duplicates());
            }
        } else {
            if order.no_duplicates() {
                assert(init.no_duplicates());
            }
        }
        if forall|k: Seq<char>| #[trigger] order.contains(k) ==> f(k) {
            assert forall|k: Seq<char>| #[trigger] init.contains(k) implies f(k) by {
                assert(order.contains(k));
            }
        }
    } else {
        assert(order.filter(f) =~= order);
    }
}

proof fn lemma_forgot(topics: TopicsView, forgotten: Seq<(Seq<char>, Seq<i32>)>)
    ensures
        forall|k: Seq<char>| #[trigger]
            session_manager::forgot(topics, forgotten).contains_key(k) ==> topics.contains_key(k),
    decreases forgotten.len(),
{
    if forgotten.len() > 0 {
        let before = session_manager::forgot(topics, forgotten.drop_last());
        lemma_forgot(topics, forgotten.drop_last());
        assert forall|k: Seq<char>| #[trigger]
            session_manager::forgot(topics, forgotten).contains_key(
                k,
            ) implies topics.contains_key(k) by {
            assert(before.contains_key(k));
        }
    }
}

/// The response to a request tells of the topics of its plan, each once, where the request
/// lists the keys of its topics, each once.
pub proof fn law_plan_order(
    plan: FetchPlan,
    after: ManagerView,
    v: ManagerView,
    version: i16,
    session_id: i32,
    session_epoch: i32,
    topics: TopicsView,
    order: Seq<Seq<char>>,
    forgotten: Seq<(Seq<char>, Seq<i32>)>,
    now: i64,
)
    requires
        is_plan(
            plan,
            after,
            v,
            version,
            session_id,
            session_epoch,
            topics,
            order,
            forgotten,
            now,
        ),
        each_once(order, topics),
    ensures
        each_once(plan.order.deep_view(), plan.topics.deep_view()),
{
    let got = plan.order.deep_view();
    let held = plan.topics.deep_view();
    match session_use(version, session_id, session_epoch) {
        SessionUse::Open => {
            let kept = session_manager::forgot(topics, forgotten);
            lemma_forgot(topics, forgotten);
            lemma_filtered(order, |k: Seq<char>| kept.contains_key(k));
            assert forall|k: Seq<char>| held.contains_key(k) <==> #[trigger] got.contains(k) by {
                assert(topics.contains_key(k) <==> order.contains(k));
            }
        },
        SessionUse::Continue => {
            if lists_keys(got, held) {
                assert forall|i: int, j: int|
                    0 <= i < got.len() && 0 <= j < got.len() && i != j implies got[i] != got[j] by {
                    text::law_before(got[i], got[i], got[i]);
                    if i < j {
                        assert(text::before(got[i], got[j]));
                    } else {
                        assert(text::before(got[j], got[i]));
                    }
                }
            }
        },
        _ => {},
    }
}

/// Where the keys of a plan list its topics, each topic of the plan is asked for once, in
/// the order of the keys, and each of its partitions once, in the order of their numbers.
pub proof fn law_asks(asks: Seq<FetchAskView>, order: Seq<Seq<char>>, topics: TopicsView)
    requires
        asks_for_all(asks, order, topics),
        each_once(order, topics),
    ensures
        asks.len() == order.len(),
        forall|i: int|
            0 <= i < asks.len() ==> topics.contains_key(order[i]) && asks_for(
                #[trigger] asks[i],
                order[i],
                topics[order[i]],
            ),
{
    let f = |k: Seq<char>| topics.contains_key(k);
    lemma_filtered(order, f);
    assert forall|k: Seq<char>| #[trigger] order.contains(k) implies f(k) by {}
    assert forall|i: int| 0 <= i < asks.len() implies topics.contains_key(order[i]) && asks_for(
        #[trigger] asks[i],
        order[i],
        topics[order[i]],
    ) by {
        assert(order.contains(order[i]));
    }
}

} // verus!
