//! The offsets that consumer groups commit: OffsetCommit, OffsetFetch and OffsetDelete.

use bytes::{Bytes, BytesMut};
use vstd::prelude::*;
use vstd::string::*;

use crate::acl_api::borrowed;
use crate::api;
use crate::api::{map_group_error, KafkaErrorCode};
use crate::buffer::{advance, get_i32, get_i64, put_i16, put_i32, put_i64, remaining, Contents};
use crate::codec;
use crate::codec::{
    put_compact_nullable_string, put_end, put_string, put_text, read_nullable_string, read_string,
};
use crate::consumer_protocol;
use crate::consumer_protocol::add_to_groups;
use crate::membership;
use crate::membership::{blank, read_or_blank, static_member_id};
use crate::message;
use crate::message::{
    drop_tags, put_rows, read_count, read_flag, read_list, read_loose_list, Element, Read, Row,
    TopicOut, WholeTopic, WireTopicOut,
};
use crate::text::same;
use crate::topic_id;
use crate::topic_id::{
    read_wire_id, resolve, wire_id_for_name, write_wire_id, Catalog, ResolvedTopic, TopicWireId,
    WireView,
};
use crate::wire;
use crate::wire::{Out, Src, Step};

verus! {

/// A topic of a request, by name or (v10+) by TopicId, with what is said of its
/// partitions.
#[derive(Debug)]
pub struct WireTopicIn<P> {
    pub wire: TopicWireId,
    pub parts: Vec<P>,
}

/// What a [`WireTopicIn`] says.
#[verifier::ext_equal]
pub struct WireTopicView<P> {
    pub wire: WireView,
    pub parts: Seq<P>,
}

impl<P: DeepView> DeepView for WireTopicIn<P> {
    type V = WireTopicView<P::V>;

    open spec fn deep_view(&self) -> WireTopicView<P::V> {
        WireTopicView { wire: self.wire.deep_view(), parts: self.parts.deep_view() }
    }
}

/// A topic whose partitions cannot be counted has none in the flexible versions, and
/// ends the list in the others.
impl<P: Element> Element for WireTopicIn<P> {
    open spec fn at(b: Src, version: i16, flexible: bool) -> Step<WireTopicView<P::V>> {
        let w = topic_id::wire_at(b, flexible, version >= 10);
        match w.value {
            Err(_) => wire::stop(w.rest),
            Ok(id) => {
                let c = message::count_at(w.rest, flexible);
                match c.value {
                    Err(_) => if flexible {
                        wire::keep(
                            WireTopicView { wire: id, parts: Seq::empty() },
                            message::after_tags(c.rest, true),
                        )
                    } else {
                        wire::stop(c.rest)
                    },
                    Ok(n) => {
                        let l = message::list_at::<P>(
                            c.rest,
                            message::or_zero(n),
                            version,
                            flexible,
                        );
                        wire::keep(
                            WireTopicView { wire: id, parts: l.0 },
                            message::after_tags(l.1, flexible),
                        )
                    },
                }
            },
        }
    }

    fn read(src: &mut Bytes, version: i16, flexible: bool) -> (r: Read<WireTopicIn<P>>) {
        let wire = match read_wire_id(src, flexible, version >= 10) {
            Err(_) => return Read::End,
            Ok(w) => w,
        };
        match read_count(src, flexible) {
            Err(_) => {
                if !flexible {
                    return Read::End;
                }
                drop_tags(src, true);
                let parts: Vec<P> = Vec::new();
                assert(parts.deep_view() =~= Seq::empty());
                Read::Item(WireTopicIn { wire, parts })
            },
            Ok(n) => {
                let n: usize = match n {
                    Some(k) => k,
                    None => 0,
                };
                let parts = read_list::<P>(src, n, version, flexible);
                drop_tags(src, flexible);
                Read::Item(WireTopicIn { wire, parts })
            },
        }
    }
}

/// An offset that is to be committed.
#[derive(Debug)]
pub struct CommitPart {
    pub partition: i32,
    pub offset: u64,
    /// The leader epoch of the last record that was read (v6+), or -1.
    pub leader_epoch: i32,
    pub metadata: String,
}

/// What a [`CommitPart`] says.
#[verifier::ext_equal]
pub struct CommitPartView {
    pub partition: i32,
    pub offset: u64,
    pub leader_epoch: i32,
    pub metadata: Seq<char>,
}

impl DeepView for CommitPart {
    type V = CommitPartView;

    open spec fn deep_view(&self) -> CommitPartView {
        CommitPartView {
            partition: self.partition,
            offset: self.offset,
            leader_epoch: self.leader_epoch,
            metadata: self.metadata@,
        }
    }
}

/// An offset that is zero where it is negative.
pub open spec fn offset_or_zero(n: int) -> u64 {
    if n < 0 {
        0
    } else {
        n as u64
    }
}

/// The metadata of an offset, empty where it cannot be read, and what is left after it.
pub open spec fn commit_metadata_at(b: Src, flexible: bool) -> (Seq<char>, Src) {
    if flexible {
        let m = codec::opt_text_at(b, true);
        (membership::or_blank(m.value), m.rest)
    } else {
        let m = codec::text_at(b, false);
        (
            match m.value {
                Ok(s) => s,
                Err(_) => Seq::empty(),
            },
            m.rest,
        )
    }
}

/// Partition, offset, leader epoch (v6+), time (v1), metadata.
impl Element for CommitPart {
    open spec fn at(b: Src, version: i16, flexible: bool) -> Step<CommitPartView> {
        let r1 = b.skip(12);
        let with_epoch = flexible || version >= 6;
        let r2 = if with_epoch {
            r1.skip(4)
        } else {
            r1
        };
        let r3 = if version == 1 {
            r2.skip(8)
        } else {
            r2
        };
        let m = commit_metadata_at(r3, flexible);
        if b.left() < 12 {
            wire::stop(b)
        } else if with_epoch && r1.left() < 4 {
            wire::stop(r1)
        } else if version == 1 && r2.left() < 8 {
            wire::stop(r2)
        } else {
            wire::keep(
                CommitPartView {
                    partition: b.i32() as i32,
                    offset: offset_or_zero(b.skip(4).i64()),
                    leader_epoch: if with_epoch {
                        r1.i32() as i32
                    } else {
                        (-1int) as i32
                    },
                    metadata: m.0,
                },
                message::after_tags(m.1, flexible),
            )
        }
    }

    fn read(src: &mut Bytes, version: i16, flexible: bool) -> (r: Read<CommitPart>) {
        if remaining(src) < 12 {
            return Read::End;
        }
        let ghost b = src@;
        let partition: i32 = get_i32(src);
        let n: i64 = get_i64(src);
        let offset: u64 = if n < 0 {
            0
        } else {
            n as u64
        };
        assert(src@ == b.skip(12));
        let mut leader_epoch: i32 = -1;
        if flexible || version >= 6 {
            if remaining(src) < 4 {
                return Read::End;
            }
            leader_epoch = get_i32(src);
        }
        if version == 1 {
            if remaining(src) < 8 {
                return Read::End;
            }
            let _at: i64 = get_i64(src);
        }
        let metadata = if flexible {
            read_or_blank(src, true)
        } else {
            match read_string(src, false) {
                Ok(m) => m,
                Err(_) => blank(),
            }
        };
        drop_tags(src, flexible);
        Read::Item(CommitPart { partition, offset, leader_epoch, metadata })
    }
}

/// An OffsetCommit request.
#[derive(Debug)]
pub struct CommitRequest {
    pub group_id: String,
    /// The generation of the group (v1+).
    pub generation: u32,
    /// The member that commits (v1+).
    pub member_id: String,
    pub topics: Vec<WireTopicIn<CommitPart>>,
}

/// What a [`CommitRequest`] says.
#[verifier::ext_equal]
pub struct CommitView {
    pub group_id: Seq<char>,
    pub generation: u32,
    pub member_id: Seq<char>,
    pub topics: Seq<WireTopicView<CommitPartView>>,
}

impl DeepView for CommitRequest {
    type V = CommitView;

    open spec fn deep_view(&self) -> CommitView {
        CommitView {
            group_id: self.group_id@,
            generation: self.generation,
            member_id: self.member_id@,
            topics: self.topics.deep_view(),
        }
    }
}

/// The topics of an OffsetCommit request, behind the retention time (v2 to v4).
pub open spec fn commit_topics_at(b: Src, version: i16) -> Option<
    Seq<WireTopicView<CommitPartView>>,
> {
    let flexible = version >= 8;
    let r = if 2 <= version <= 4 {
        b.skip(8)
    } else {
        b
    };
    if 2 <= version <= 4 && b.left() < 8 {
        None
    } else {
        let c = message::count_at(r, flexible);
        match c.value {
            Err(_) => None,
            Ok(n) => Some(
                message::list_at::<WireTopicIn<CommitPart>>(
                    c.rest,
                    message::or_zero(n),
                    version,
                    flexible,
                ).0,
            ),
        }
    }
}

/// The part of an OffsetCommit request behind the member id.
pub open spec fn commit_tail_at(
    b: Src,
    version: i16,
    group_id: Seq<char>,
    generation: u32,
    member_id: Seq<char>,
) -> Option<CommitView> {
    let i = codec::opt_text_at(b, version >= 8);
    if version >= 7 && i.value is Err {
        None
    } else {
        let r = if version >= 7 {
            i.rest
        } else {
            b
        };
        match commit_topics_at(r, version) {
            None => None,
            Some(topics) => Some(
                CommitView {
                    group_id,
                    generation,
                    member_id: if version >= 7 {
                        membership::member_or_static(
                            member_id,
                            membership::or_blank(i.value),
                        )
                    } else {
                        member_id
                    },
                    topics,
                },
            ),
        }
    }
}

/// An OffsetCommit request, or nothing where it cannot be read as far as its topics.
pub open spec fn commit_at(b: Src, version: i16) -> Option<CommitView> {
    let flexible = version >= 8;
    let g = codec::text_at(b, flexible);
    match g.value {
        Err(_) => None,
        Ok(group_id) => if version >= 1 {
            if g.rest.left() < 4 {
                None
            } else {
                let m = codec::text_at(g.rest.skip(4), flexible);
                match m.value {
                    Err(_) => None,
                    Ok(member_id) => commit_tail_at(
                        m.rest,
                        version,
                        group_id,
                        (g.rest.i32() as i32) as u32,
                        member_id,
                    ),
                }
            }
        } else {
            commit_tail_at(g.rest, version, group_id, 0, Seq::empty())
        },
    }
}

fn read_commit_topics(src: &mut Bytes, version: i16) -> (r: Option<Vec<WireTopicIn<CommitPart>>>)
    ensures
        r.deep_view() == commit_topics_at(old(src)@, version),
{
    let flexible = version >= 8;
    if 2 <= version && version <= 4 {
        if remaining(src) < 8 {
            return None;
        }
        advance(src, 8);
    }
    match read_count(src, flexible) {
        Err(_) => None,
        Ok(n) => {
            let n: usize = match n {
                Some(k) => k,
                None => 0,
            };
            Some(read_list::<WireTopicIn<CommitPart>>(src, n, version, flexible))
        },
    }
}

/// Reads an OffsetCommit request.
pub fn decode_offset_commit(src: &mut Bytes, version: i16) -> (r: Option<CommitRequest>)
    ensures
        r.deep_view() == commit_at(old(src)@, version),
{
    let flexible = version >= 8;
    let group_id = match read_string(src, flexible) {
        Err(_) => return None,
        Ok(g) => g,
    };
    let mut generation: u32 = 0;
    let mut member_id = blank();
    if version >= 1 {
        if remaining(src) < 4 {
            return None;
        }
        generation = get_i32(src) as u32;
        member_id = match read_string(src, flexible) {
            Err(_) => return None,
            Ok(m) => m,
        };
    }
    if version >= 7 {
        match read_nullable_string(src, flexible) {
            Err(_) => return None,
            Ok(Some(instance)) => {
                if member_id.as_str().is_empty() && !instance.as_str().is_empty() {
                    member_id = static_member_id(instance.as_str());
                }
            },
            Ok(None) => {},
        }
    }
    match read_commit_topics(src, version) {
        None => None,
        Some(topics) => Some(CommitRequest { group_id, generation, member_id, topics }),
    }
}

/// An offset that the group is to remember.
#[derive(Debug)]
pub struct CommitEntry {
    pub topic: String,
    pub partition: u32,
    pub offset: u64,
    pub metadata: String,
    pub leader_epoch: i32,
}

/// What a [`CommitEntry`] says.
#[verifier::ext_equal]
pub struct CommitEntryView {
    pub topic: Seq<char>,
    pub partition: u32,
    pub offset: u64,
    pub metadata: Seq<char>,
    pub leader_epoch: i32,
}

impl DeepView for CommitEntry {
    type V = CommitEntryView;

    open spec fn deep_view(&self) -> CommitEntryView {
        CommitEntryView {
            topic: self.topic@,
            partition: self.partition,
            offset: self.offset,
            metadata: self.metadata@,
            leader_epoch: self.leader_epoch,
        }
    }
}

/// The entry for a partition of a topic.
pub open spec fn commit_entry(topic: Seq<char>, p: CommitPartView) -> CommitEntryView {
    CommitEntryView {
        topic,
        partition: p.partition as u32,
        offset: p.offset,
        metadata: p.metadata,
        leader_epoch: p.leader_epoch,
    }
}

/// The entries for a topic: none where the topic is not known.
pub open spec fn topic_entries(
    catalog: Seq<(Seq<char>, u32)>,
    t: WireTopicView<CommitPartView>,
) -> Seq<CommitEntryView> {
    match topic_id::resolved(catalog, t.wire).name {
        None => Seq::empty(),
        Some(name) => Seq::new(t.parts.len(), |i: int| commit_entry(name, t.parts[i])),
    }
}

/// The entries for all topics.
pub open spec fn entries_of(
    catalog: Seq<(Seq<char>, u32)>,
    topics: Seq<WireTopicView<CommitPartView>>,
) -> Seq<CommitEntryView>
    decreases topics.len(),
{
    if topics.len() == 0 {
        Seq::empty()
    } else {
        entries_of(catalog, topics.drop_last()) + topic_entries(catalog, topics.last())
    }
}

fn add_topic_entries(
    entries: &mut Vec<CommitEntry>,
    catalog: &Catalog,
    t: &WireTopicIn<CommitPart>,
)
    ensures
        final(entries).deep_view() == old(entries).deep_view() + topic_entries(
            catalog.deep_view(),
            t.deep_view(),
        ),
{
    let r = resolve(catalog, t.wire.clone());
    if r.is_unknown() {
        assert(entries.deep_view() + Seq::<CommitEntryView>::empty() =~= entries.deep_view());
        return;
    }
    let name = r.name_or_empty();
    let ghost start = entries.deep_view();
    let ghost parts = t.parts.deep_view();
    let ghost all = topic_entries(catalog.deep_view(), t.deep_view());
    let mut i: usize = 0;
    assert(start + all.take(0) =~= start);
    while i < t.parts.len()
        invariant
            i <= t.parts@.len(),
            parts == t.parts.deep_view(),
            all == Seq::new(parts.len(), |i: int| commit_entry(name@, parts[i])),
            entries.deep_view() == start + all.take(i as int),
        decreases t.parts@.len() - i,
    {
        let p = &t.parts[i];
        assert(parts[i as int] == p.deep_view());
        let ghost seen = entries.deep_view();
        let e = CommitEntry {
            topic: name.to_owned(),
            partition: p.partition as u32,
            offset: p.offset,
            metadata: p.metadata.clone(),
            leader_epoch: p.leader_epoch,
        };
        assert(e.deep_view() == all[i as int]);
        entries.push(e);
        assert(entries.deep_view() =~= seen.push(all[i as int]));
        assert(start + all.take(i + 1) =~= seen.push(all[i as int]));
        i += 1;
    }
    assert(all.take(all.len() as int) =~= all);
}

/// The entries for all topics of a request.
pub fn commit_entries(catalog: &Catalog, topics: &Vec<WireTopicIn<CommitPart>>) -> (r: Vec<
    CommitEntry,
>)
    ensures
        r.deep_view() == entries_of(catalog.deep_view(), topics.deep_view()),
{
    let ghost all = topics.deep_view();
    let mut r: Vec<CommitEntry> = Vec::new();
    let mut i: usize = 0;
    assert(r.deep_view() =~= Seq::empty());
    assert(all.take(0).len() == 0);
    while i < topics.len()
        invariant
            i <= topics@.len(),
            all == topics.deep_view(),
            r.deep_view() == entries_of(catalog.deep_view(), all.take(i as int)),
        decreases topics@.len() - i,
    {
        assert(all.take(i + 1).drop_last() =~= all.take(i as int));
        assert(all.take(i + 1).last() == topics@[i as int].deep_view());
        add_topic_entries(&mut r, catalog, &topics[i]);
        i += 1;
    }
    assert(all.take(all.len() as int) =~= all);
    r
}

/// The error for the partitions of the topics that are known. `entries`: how many
/// entries there are. `result`: what the group said to them, nothing where it failed.
pub open spec fn commit_error_of(allowed: bool, entries: nat, result: Option<u16>) -> i16 {
    if !allowed {
        KafkaErrorCode::GroupAuthorizationFailed.code()
    } else if entries == 0 {
        0
    } else {
        match result {
            Some(code) => api::group_error(code),
            None => KafkaErrorCode::Unknown.code(),
        }
    }
}

/// The error for the partitions of the topics that are known.
pub fn commit_error(allowed: bool, entries: usize, result: Option<u16>) -> (e: i16)
    ensures
        e == commit_error_of(allowed, entries as nat, result),
{
    if !allowed {
        KafkaErrorCode::GroupAuthorizationFailed.as_i16()
    } else if entries == 0 {
        KafkaErrorCode::NoError.as_i16()
    } else {
        match result {
            Some(code) => map_group_error(code),
            None => KafkaErrorCode::Unknown.as_i16(),
        }
    }
}

/// The answer for a partition.
#[derive(Debug)]
pub struct PartitionError {
    pub partition: i32,
    pub error: i16,
}

impl DeepView for PartitionError {
    type V = (i32, i16);

    open spec fn deep_view(&self) -> (i32, i16) {
        (self.partition, self.error)
    }
}

impl Row for PartitionError {
    open spec fn row(&self, o: Out, version: i16, flexible: bool) -> Out {
        o.i32(self.partition as int).i16(self.error as int).end(flexible)
    }

    fn put(&self, out: &mut BytesMut, version: i16, flexible: bool) {
        put_i32(out, self.partition);
        put_i16(out, self.error);
        put_end(out, flexible);
    }
}

/// The error for the partitions of a topic: that of the request where the topic is
/// known.
pub open spec fn topic_error(catalog: Seq<(Seq<char>, u32)>, w: WireView, error: i16) -> i16 {
    if topic_id::resolved(catalog, w).name is None {
        KafkaErrorCode::UnknownTopicId.code()
    } else {
        error
    }
}

/// Whether `out` answers every partition of `t` with `error`.
pub open spec fn answers_topic(
    out: WireTopicOut<PartitionError>,
    t: WireTopicView<CommitPartView>,
    error: i16,
) -> bool {
    &&& out.wire.deep_view() == t.wire
    &&& out.rows.deep_view() == Seq::new(t.parts.len(), |i: int| (t.parts[i].partition, error))
}

fn answer_topic(t: &WireTopicIn<CommitPart>, error: i16) -> (r: WireTopicOut<PartitionError>)
    ensures
        answers_topic(r, t.deep_view(), error),
{
    let ghost parts = t.parts.deep_view();
    let mut rows: Vec<PartitionError> = Vec::new();
    let mut i: usize = 0;
    while i < t.parts.len()
        invariant
            i <= t.parts@.len(),
            parts == t.parts.deep_view(),
            rows@.len() == i,
            forall|j: int|
                0 <= j < i ==> (#[trigger] rows@[j]).deep_view() == (parts[j].partition, error),
        decreases t.parts@.len() - i,
    {
        assert(parts[i as int] == t.parts@[i as int].deep_view());
        rows.push(PartitionError { partition: t.parts[i].partition, error });
        i += 1;
    }
    assert(rows.deep_view() =~= Seq::new(
        parts.len(),
        |i: int| (parts[i].partition, error),
    ));
    WireTopicOut { wire: t.wire.clone(), rows }
}

/// The answers for all topics of a request, in its order.
pub fn commit_rows(catalog: &Catalog, topics: &Vec<WireTopicIn<CommitPart>>, error: i16) -> (r: Vec<
    WireTopicOut<PartitionError>,
>)
    ensures
        r@.len() == topics@.len(),
        forall|i: int|
            0 <= i < r@.len() ==> answers_topic(
                #[trigger] r@[i],
                topics@[i].deep_view(),
                topic_error(catalog.deep_view(), topics@[i].wire.deep_view(), error),
            ),
{
    let mut r: Vec<WireTopicOut<PartitionError>> = Vec::new();
    let mut i: usize = 0;
    while i < topics.len()
        invariant
            i <= topics@.len(),
            r@.len() == i,
            forall|j: int|
                0 <= j < i ==> answers_topic(
                    #[trigger] r@[j],
                    topics@[j].deep_view(),
                    topic_error(catalog.deep_view(), topics@[j].wire.deep_view(), error),
                ),
        decreases topics@.len() - i,
    {
        let known = resolve(catalog, topics[i].wire.clone());
        let e: i16 = if known.is_unknown() {
            KafkaErrorCode::UnknownTopicId.as_i16()
        } else {
            error
        };
        r.push(answer_topic(&topics[i], e));
        i += 1;
    }
    r
}

/// An OffsetCommit response: throttle time (v3+), topics.
pub open spec fn commit_out(
    o: Out,
    version: i16,
    topics: Seq<WireTopicOut<PartitionError>>,
) -> Out {
    let flexible = version >= 8;
    let o = if version >= 3 {
        o.i32(0)
    } else {
        o
    };
    message::rows_out(o, topics, version, flexible).end(flexible)
}

/// Writes an OffsetCommit response. A request that cannot be read is answered with no
/// topics.
pub fn encode_offset_commit(
    out: &mut BytesMut,
    version: i16,
    topics: &Vec<WireTopicOut<PartitionError>>,
)
    ensures
        final(out)@ == commit_out(old(out)@, version, topics@),
{
    let flexible = version >= 8;
    if version >= 3 {
        put_i32(out, 0);
    }
    put_rows(out, topics.as_slice(), version, flexible);
    put_end(out, flexible);
}

/// Which offsets an OffsetFetch request asks for.
#[derive(Debug)]
pub enum OffsetAsk {
    /// All offsets of the group.
    All,
    /// No offsets.
    Nothing,
    /// The offsets of these topics.
    Listed(Vec<WireTopicIn<i32>>),
    /// The topics cannot be counted; the error that is owed.
    Unreadable(i16),
}

/// What an [`OffsetAsk`] says.
#[verifier::ext_equal]
pub enum AskView {
    All,
    Nothing,
    Listed(Seq<WireTopicView<i32>>),
    Unreadable(i16),
}

impl DeepView for OffsetAsk {
    type V = AskView;

    open spec fn deep_view(&self) -> AskView {
        match *self {
            OffsetAsk::All => AskView::All,
            OffsetAsk::Nothing => AskView::Nothing,
            OffsetAsk::Listed(t) => AskView::Listed(t.deep_view()),
            OffsetAsk::Unreadable(e) => AskView::Unreadable(e),
        }
    }
}

/// The topics that are listed, and what is left after them.
pub open spec fn listed_at(b: Src, n: nat, version: i16, flexible: bool) -> (AskView, Src) {
    let l = message::list_at::<WireTopicIn<i32>>(b, n, version, flexible);
    (AskView::Listed(l.0), l.1)
}

/// Which offsets are asked for. Null asks for all. No topics ask for all before v2, and
/// for none after that.
pub open spec fn ask_at(b: Src, version: i16, flexible: bool) -> (AskView, Src) {
    if flexible {
        let c = b.compact_len();
        match c.value {
            Err(_) => (AskView::Unreadable(KafkaErrorCode::InvalidRequest.code()), c.rest),
            Ok(None) => (AskView::All, c.rest),
            Ok(Some(n)) => if n == 0 {
                (AskView::Nothing, c.rest)
            } else {
                listed_at(c.rest, n as nat, version, true)
            },
        }
    } else if b.left() < 4 {
        (AskView::Unreadable(0), b)
    } else if b.i32() > 0 {
        listed_at(b.skip(4), b.i32() as nat, version, false)
    } else if b.i32() == 0 && version >= 2 {
        (AskView::Nothing, b.skip(4))
    } else {
        (AskView::All, b.skip(4))
    }
}

fn read_ask(src: &mut Bytes, version: i16, flexible: bool) -> (r: OffsetAsk)
    ensures
        r.deep_view() == ask_at(old(src)@, version, flexible).0,
        final(src)@ == ask_at(old(src)@, version, flexible).1,
{
    if flexible {
        match codec::get_compact_array_len(src) {
            Err(_) => OffsetAsk::Unreadable(KafkaErrorCode::InvalidRequest.as_i16()),
            Ok(None) => OffsetAsk::All,
            Ok(Some(n)) => {
                if n == 0 {
                    OffsetAsk::Nothing
                } else {
                    OffsetAsk::Listed(read_list::<WireTopicIn<i32>>(src, n, version, true))
                }
            },
        }
    } else {
        if remaining(src) < 4 {
            return OffsetAsk::Unreadable(KafkaErrorCode::NoError.as_i16());
        }
        let n: i32 = get_i32(src);
        if n > 0 {
            OffsetAsk::Listed(read_list::<WireTopicIn<i32>>(src, n as usize, version, false))
        } else if n == 0 && version >= 2 {
            OffsetAsk::Nothing
        } else {
            OffsetAsk::All
        }
    }
}

/// An OffsetFetch request about one group (v0 to v7).
#[derive(Debug)]
pub struct OffsetFetchRequest {
    pub group_id: String,
    pub ask: OffsetAsk,
    /// Whether offsets of records that may still be aborted are to be held back (v7).
    pub require_stable: bool,
}

/// What an [`OffsetFetchRequest`] says.
#[verifier::ext_equal]
pub struct OffsetFetchView {
    pub group_id: Seq<char>,
    pub ask: AskView,
    pub require_stable: bool,
}

impl DeepView for OffsetFetchRequest {
    type V = OffsetFetchView;

    open spec fn deep_view(&self) -> OffsetFetchView {
        OffsetFetchView {
            group_id: self.group_id@,
            ask: self.ask.deep_view(),
            require_stable: self.require_stable,
        }
    }
}

/// An OffsetFetch request about one group, or nothing where the group id cannot be
/// read.
pub open spec fn offset_fetch_at(b: Src, version: i16) -> Option<OffsetFetchView> {
    let flexible = version >= 6;
    let g = codec::text_at(b, flexible);
    match g.value {
        Err(_) => None,
        Ok(group_id) => {
            let a = ask_at(g.rest, version, flexible);
            Some(
                OffsetFetchView {
                    group_id,
                    ask: a.0,
                    require_stable: version >= 7 && !(a.0 is Unreadable) && message::flag_at(a.1),
                },
            )
        },
    }
}

/// Reads an OffsetFetch request about one group.
pub fn decode_offset_fetch(src: &mut Bytes, version: i16) -> (r: Option<OffsetFetchRequest>)
    ensures
        r.deep_view() == offset_fetch_at(old(src)@, version),
{
    let flexible = version >= 6;
    let group_id = match read_string(src, flexible) {
        Err(_) => return None,
        Ok(g) => g,
    };
    let ask = read_ask(src, version, flexible);
    let readable = match &ask {
        OffsetAsk::Unreadable(_) => false,
        _ => true,
    };
    let require_stable = version >= 7 && readable && read_flag(src);
    Some(OffsetFetchRequest { group_id, ask, require_stable })
}

/// A group of an OffsetFetch request about several groups (v8+).
#[derive(Debug)]
pub struct GroupAsk {
    pub group_id: String,
    pub ask: OffsetAsk,
}

/// What a [`GroupAsk`] says.
#[verifier::ext_equal]
pub struct GroupAskView {
    pub group_id: Seq<char>,
    pub ask: AskView,
}

impl DeepView for GroupAsk {
    type V = GroupAskView;

    open spec fn deep_view(&self) -> GroupAskView {
        GroupAskView { group_id: self.group_id@, ask: self.ask.deep_view() }
    }
}

/// What is left behind the member id and the member epoch, which are not looked at.
pub open spec fn after_member(b: Src) -> Src {
    let r = codec::opt_text_at(b, true).rest;
    if r.left() >= 4 {
        r.skip(4)
    } else {
        r
    }
}

/// Group id, member id and epoch (v9+), topics. Where the topics cannot be counted,
/// there are none.
impl Element for GroupAsk {
    open spec fn at(b: Src, version: i16, flexible: bool) -> Step<GroupAskView> {
        let g = codec::text_at(b, true);
        match g.value {
            Err(_) => wire::stop(g.rest),
            Ok(group_id) => {
                let r = if version >= 9 {
                    after_member(g.rest)
                } else {
                    g.rest
                };
                let a = ask_at(r, version, true);
                wire::keep(
                    GroupAskView {
                        group_id,
                        ask: if a.0 is Unreadable {
                            AskView::Nothing
                        } else {
                            a.0
                        },
                    },
                    message::after_tags(a.1, true),
                )
            },
        }
    }

    fn read(src: &mut Bytes, version: i16, flexible: bool) -> (r: Read<GroupAsk>) {
        let group_id = match read_string(src, true) {
            Err(_) => return Read::End,
            Ok(g) => g,
        };
        if version >= 9 {
            let _member = read_nullable_string(src, true);
            if remaining(src) >= 4 {
                advance(src, 4);
            }
        }
        let ask = match read_ask(src, version, true) {
            OffsetAsk::Unreadable(_) => OffsetAsk::Nothing,
            a => a,
        };
        drop_tags(src, true);
        Read::Item(GroupAsk { group_id, ask })
    }
}

/// An OffsetFetch request about several groups, and whether offsets of records that may
/// still be aborted are to be held back. Nothing where the groups cannot be counted.
pub open spec fn offset_fetch_multi_at(b: Src, version: i16) -> Option<(Seq<GroupAskView>, bool)> {
    let c = message::count_at(b, true);
    match c.value {
        Err(_) => None,
        Ok(n) => {
            let l = message::list_at::<GroupAsk>(c.rest, message::or_zero(n), version, true);
            Some((l.0, message::flag_at(l.1)))
        },
    }
}

/// Reads an OffsetFetch request about several groups.
pub fn decode_offset_fetch_multi(src: &mut Bytes, version: i16) -> (r: Option<(Vec<GroupAsk>, bool)>)
    ensures
        r.deep_view() == offset_fetch_multi_at(old(src)@, version),
{
    match read_count(src, true) {
        Err(_) => None,
        Ok(n) => {
            let n: usize = match n {
                Some(k) => k,
                None => 0,
            };
            let groups = read_list::<GroupAsk>(src, n, version, true);
            let stable = read_flag(src);
            Some((groups, stable))
        },
    }
}

/// The error with which a request about one group is answered without asking the group.
pub open spec fn offset_fetch_refusal_of(
    req: Option<OffsetFetchView>,
    version: i16,
    allowed: bool,
) -> Option<i16> {
    match req {
        None => Some(KafkaErrorCode::InvalidRequest.code()),
        Some(q) => if !allowed {
            Some(
                if version >= 2 {
                    KafkaErrorCode::GroupAuthorizationFailed.code()
                } else {
                    0
                },
            )
        } else {
            match q.ask {
                AskView::Unreadable(e) => Some(e),
                AskView::Nothing => Some(0),
                _ => None,
            }
        },
    }
}

/// The error with which a request about one group is answered without asking the group.
/// `allowed`: the client may read the group.
pub fn offset_fetch_refusal(req: &Option<OffsetFetchRequest>, version: i16, allowed: bool) -> (r:
    Option<i16>)
    ensures
        r == offset_fetch_refusal_of(req.deep_view(), version, allowed),
{
    match req {
        None => Some(KafkaErrorCode::InvalidRequest.as_i16()),
        Some(q) => {
            if !allowed {
                if version >= 2 {
                    Some(KafkaErrorCode::GroupAuthorizationFailed.as_i16())
                } else {
                    Some(0)
                }
            } else {
                match &q.ask {
                    OffsetAsk::Unreadable(e) => Some(*e),
                    OffsetAsk::Nothing => Some(0),
                    _ => None,
                }
            }
        },
    }
}

/// The error with which one of several groups is answered without asking the group.
pub open spec fn group_refusal_of(ask: AskView, allowed: bool) -> Option<i16> {
    if !allowed {
        Some(KafkaErrorCode::GroupAuthorizationFailed.code())
    } else if ask is Nothing {
        Some(0)
    } else {
        None
    }
}

/// The error with which one of several groups is answered without asking the group.
pub fn group_refusal(g: &GroupAsk, allowed: bool) -> (r: Option<i16>)
    ensures
        r == group_refusal_of(g.deep_view().ask, allowed),
{
    if !allowed {
        return Some(KafkaErrorCode::GroupAuthorizationFailed.as_i16());
    }
    match &g.ask {
        OffsetAsk::Nothing => Some(0),
        _ => None,
    }
}

/// What is asked of the group for a topic: nothing where the topic is not known.
pub open spec fn topic_query(catalog: Seq<(Seq<char>, u32)>, t: WireTopicView<i32>) -> Seq<
    (Seq<char>, u32),
> {
    match topic_id::resolved(catalog, t.wire).name {
        None => Seq::empty(),
        Some(name) => Seq::new(t.parts.len(), |i: int| (name, t.parts[i] as u32)),
    }
}

/// What is asked of the group for all topics.
pub open spec fn query_of(
    catalog: Seq<(Seq<char>, u32)>,
    topics: Seq<WireTopicView<i32>>,
) -> Seq<(Seq<char>, u32)>
    decreases topics.len(),
{
    if topics.len() == 0 {
        Seq::empty()
    } else {
        query_of(catalog, topics.drop_last()) + topic_query(catalog, topics.last())
    }
}

fn add_topic_query(query: &mut Vec<(String, u32)>, catalog: &Catalog, t: &WireTopicIn<i32>)
    ensures
        final(query).deep_view() == old(query).deep_view() + topic_query(
            catalog.deep_view(),
            t.deep_view(),
        ),
{
    let r = resolve(catalog, t.wire.clone());
    if r.is_unknown() {
        assert(query.deep_view() + Seq::<(Seq<char>, u32)>::empty() =~= query.deep_view());
        return;
    }
    let name = r.name_or_empty();
    let ghost start = query.deep_view();
    let ghost parts = t.parts.deep_view();
    let ghost all = topic_query(catalog.deep_view(), t.deep_view());
    let mut i: usize = 0;
    assert(start + all.take(0) =~= start);
    while i < t.parts.len()
        invariant
            i <= t.parts@.len(),
            parts == t.parts.deep_view(),
            all == Seq::new(parts.len(), |i: int| (name@, parts[i] as u32)),
            query.deep_view() == start + all.take(i as int),
        decreases t.parts@.len() - i,
    {
        assert(parts[i as int] == t.parts@[i as int]);
        let ghost seen = query.deep_view();
        query.push((name.to_owned(), t.parts[i] as u32));
        assert(query.deep_view() =~= seen.push(all[i as int]));
        assert(start + all.take(i + 1) =~= seen.push(all[i as int]));
        i += 1;
    }
    assert(all.take(all.len() as int) =~= all);
}

/// What is asked of the group for all topics.
pub fn offset_query(catalog: &Catalog, topics: &Vec<WireTopicIn<i32>>) -> (r: Vec<(String, u32)>)
    ensures
        r.deep_view() == query_of(catalog.deep_view(), topics.deep_view()),
{
    let ghost all = topics.deep_view();
    let mut r: Vec<(String, u32)> = Vec::new();
    let mut i: usize = 0;
    assert(r.deep_view() =~= Seq::empty());
    assert(all.take(0).len() == 0);
    while i < topics.len()
        invariant
            i <= topics@.len(),
            all == topics.deep_view(),
            r.deep_view() == query_of(catalog.deep_view(), all.take(i as int)),
        decreases topics@.len() - i,
    {
        assert(all.take(i + 1).drop_last() =~= all.take(i as int));
        assert(all.take(i + 1).last() == topics@[i as int].deep_view());
        add_topic_query(&mut r, catalog, &topics[i]);
        i += 1;
    }
    assert(all.take(all.len() as int) =~= all);
    r
}

/// An offset as the group remembers it.
#[derive(Debug)]
pub struct FetchedOffset {
    pub topic: String,
    pub partition: u32,
    /// The offset; the greatest number where none was committed.
    pub offset: u64,
    pub leader_epoch: i32,
    pub metadata: String,
}

/// What a [`FetchedOffset`] says.
#[verifier::ext_equal]
pub struct FetchedOffsetView {
    pub topic: Seq<char>,
    pub partition: u32,
    pub offset: u64,
    pub leader_epoch: i32,
    pub metadata: Seq<char>,
}

impl DeepView for FetchedOffset {
    type V = FetchedOffsetView;

    open spec fn deep_view(&self) -> FetchedOffsetView {
        FetchedOffsetView {
            topic: self.topic@,
            partition: self.partition,
            offset: self.offset,
            leader_epoch: self.leader_epoch,
            metadata: self.metadata@,
        }
    }
}

/// The answer for a partition.
#[derive(Debug)]
pub struct OffsetRow {
    pub partition: i32,
    pub offset: i64,
    pub leader_epoch: i32,
    pub metadata: Option<String>,
    pub error: i16,
}

/// What an [`OffsetRow`] says.
#[verifier::ext_equal]
pub struct OffsetRowView {
    pub partition: i32,
    pub offset: i64,
    pub leader_epoch: i32,
    pub metadata: Option<Seq<char>>,
    pub error: i16,
}

impl DeepView for OffsetRow {
    type V = OffsetRowView;

    open spec fn deep_view(&self) -> OffsetRowView {
        OffsetRowView {
            partition: self.partition,
            offset: self.offset,
            leader_epoch: self.leader_epoch,
            metadata: self.metadata.deep_view(),
            error: self.error,
        }
    }
}

/// Partition, offset, leader epoch (v5+), metadata, error.
impl Row for OffsetRow {
    open spec fn row(&self, o: Out, version: i16, flexible: bool) -> Out {
        let o = o.i32(self.partition as int).i64(self.offset as int);
        let o = if version >= 5 {
            o.i32(self.leader_epoch as int)
        } else {
            o
        };
        let o = if flexible {
            o.compact_nullable(self.metadata.deep_view())
        } else {
            o.string(
                match self.metadata {
                    Some(m) => m@,
                    None => Seq::empty(),
                },
            )
        };
        o.i16(self.error as int).end(flexible)
    }

    fn put(&self, out: &mut BytesMut, version: i16, flexible: bool) {
        put_i32(out, self.partition);
        put_i64(out, self.offset);
        if version >= 5 {
            put_i32(out, self.leader_epoch);
        }
        if flexible {
            put_compact_nullable_string(out, borrowed(&self.metadata));
        } else {
            match &self.metadata {
                Some(m) => put_string(out, m.as_str()),
                None => {
                    let none = blank();
                    put_string(out, none.as_str());
                },
            }
        }
        put_i16(out, self.error);
        put_end(out, flexible);
    }
}

/// A topic in an OffsetFetch response.
#[derive(Debug)]
pub struct OffsetTopic {
    /// The name, empty where the topic is not known.
    pub name: String,
    pub wire: TopicWireId,
    pub rows: Vec<OffsetRow>,
}

/// What an [`OffsetTopic`] says.
#[verifier::ext_equal]
pub struct OffsetTopicView {
    pub name: Seq<char>,
    pub wire: WireView,
    pub rows: Seq<OffsetRowView>,
}

impl DeepView for OffsetTopic {
    type V = OffsetTopicView;

    open spec fn deep_view(&self) -> OffsetTopicView {
        OffsetTopicView {
            name: self.name@,
            wire: self.wire.deep_view(),
            rows: self.rows.deep_view(),
        }
    }
}

impl Row for OffsetTopic {
    open spec fn row(&self, o: Out, version: i16, flexible: bool) -> Out {
        message::rows_out(
            topic_id::wire_id_out(o, flexible, self.wire.deep_view()),
            self.rows@,
            version,
            flexible,
        ).end(flexible)
    }

    fn put(&self, out: &mut BytesMut, version: i16, flexible: bool) {
        write_wire_id(out, flexible, &self.wire);
        put_rows(out, self.rows.as_slice(), version, flexible);
        put_end(out, flexible);
    }
}

/// An offset as it is told to the client: -1 where none was committed.
pub open spec fn told_offset(offset: u64) -> i64 {
    if offset == u64::MAX {
        -1i64 as i64
    } else {
        offset as i64
    }
}

/// The row for an offset that the group remembers.
pub open spec fn remembered_row(partition: i32, e: FetchedOffsetView) -> OffsetRowView {
    OffsetRowView {
        partition,
        offset: told_offset(e.offset),
        leader_epoch: e.leader_epoch,
        metadata: Some(e.metadata),
        error: 0,
    }
}

/// The row for a partition for which the group remembers nothing.
pub open spec fn forgotten_row(partition: i32) -> OffsetRowView {
    OffsetRowView {
        partition,
        offset: -1i64 as i64,
        leader_epoch: (-1int) as i32,
        metadata: Some(Seq::empty()),
        error: 0,
    }
}

/// The row for a partition of a topic that is not known.
pub open spec fn unknown_topic_row(partition: i32) -> OffsetRowView {
    OffsetRowView {
        partition,
        offset: -1i64 as i64,
        leader_epoch: (-1int) as i32,
        metadata: None,
        error: KafkaErrorCode::UnknownTopicId.code(),
    }
}

fn tell_offset(offset: u64) -> (r: i64)
    ensures
        r == told_offset(offset),
{
    if offset == u64::MAX {
        -1
    } else {
        offset as i64
    }
}

/// The first offset of a partition among those that the group told.
pub open spec fn first_of(
    fetched: Seq<FetchedOffsetView>,
    topic: Seq<char>,
    partition: u32,
) -> Option<FetchedOffsetView>
    decreases fetched.len(),
{
    if fetched.len() == 0 {
        None
    } else if fetched[0].topic == topic && fetched[0].partition == partition {
        Some(fetched[0])
    } else {
        first_of(fetched.skip(1), topic, partition)
    }
}

fn find_offset(fetched: &Vec<FetchedOffset>, topic: &str, partition: u32) -> (r: Option<usize>)
    ensures
        match r {
            Some(i) => i < fetched@.len() && first_of(fetched.deep_view(), topic@, partition)
                == Some(fetched@[i as int].deep_view()),
            None => first_of(fetched.deep_view(), topic@, partition) is None,
        },
{
    let ghost all = fetched.deep_view();
    let mut i: usize = 0;
    assert(all.skip(0) =~= all);
    while i < fetched.len()
        invariant
            i <= fetched@.len(),
            all == fetched.deep_view(),
            first_of(all, topic@, partition) == first_of(all.skip(i as int), topic@, partition),
        decreases fetched@.len() - i,
    {
        let ghost tail = all.skip(i as int);
        assert(tail[0] == fetched@[i as int].deep_view());
        assert(tail.skip(1) =~= all.skip(i + 1));
        if same(fetched[i].topic.as_str(), topic) && fetched[i].partition == partition {
            return Some(i);
        }
        i += 1;
    }
    None
}

/// The row for a partition that was asked for.
pub open spec fn asked_row(
    name: Option<Seq<char>>,
    partition: i32,
    fetched: Seq<FetchedOffsetView>,
) -> OffsetRowView {
    match name {
        None => unknown_topic_row(partition),
        Some(n) => match first_of(fetched, n, partition as u32) {
            Some(e) => remembered_row(partition, e),
            None => forgotten_row(partition),
        },
    }
}

/// The answer for a topic that was asked for.
pub open spec fn asked_topic(
    catalog: Seq<(Seq<char>, u32)>,
    t: WireTopicView<i32>,
    fetched: Seq<FetchedOffsetView>,
) -> OffsetTopicView {
    let name = topic_id::resolved(catalog, t.wire).name;
    OffsetTopicView {
        name: match name {
            Some(n) => n,
            None => Seq::empty(),
        },
        wire: t.wire,
        rows: Seq::new(t.parts.len(), |i: int| asked_row(name, t.parts[i], fetched)),
    }
}

fn make_asked_row(r: &ResolvedTopic, partition: i32, fetched: &Vec<FetchedOffset>) -> (row: OffsetRow)
    ensures
        row.deep_view() == asked_row(r.deep_view().name, partition, fetched.deep_view()),
{
    if r.is_unknown() {
        return OffsetRow {
            partition,
            offset: -1,
            leader_epoch: -1,
            metadata: None,
            error: KafkaErrorCode::UnknownTopicId.as_i16(),
        };
    }
    match find_offset(fetched, r.name_or_empty(), partition as u32) {
        Some(i) => OffsetRow {
            partition,
            offset: tell_offset(fetched[i].offset),
            leader_epoch: fetched[i].leader_epoch,
            metadata: Some(fetched[i].metadata.clone()),
            error: 0,
        },
        None => OffsetRow {
            partition,
            offset: -1,
            leader_epoch: -1,
            metadata: Some(blank()),
            error: 0,
        },
    }
}

fn answer_asked(catalog: &Catalog, t: &WireTopicIn<i32>, fetched: &Vec<FetchedOffset>) -> (r:
    OffsetTopic)
    ensures
        r.deep_view() == asked_topic(
            catalog.deep_view(),
            t.deep_view(),
            fetched.deep_view(),
        ),
{
    let known = resolve(catalog, t.wire.clone());
    let ghost parts = t.parts.deep_view();
    let ghost name = known.deep_view().name;
    let mut rows: Vec<OffsetRow> = Vec::new();
    let mut i: usize = 0;
    while i < t.parts.len()
        invariant
            i <= t.parts@.len(),
            parts == t.parts.deep_view(),
            name == known.deep_view().name,
            rows@.len() == i,
            forall|j: int|
                0 <= j < i ==> (#[trigger] rows@[j]).deep_view() == asked_row(
                    name,
                    parts[j],
                    fetched.deep_view(),
                ),
        decreases t.parts@.len() - i,
    {
        assert(parts[i as int] == t.parts@[i as int]);
        rows.push(make_asked_row(&known, t.parts[i], fetched));
        i += 1;
    }
    assert(rows.deep_view() =~= Seq::new(
        parts.len(),
        |i: int| asked_row(name, parts[i], fetched.deep_view()),
    ));
    OffsetTopic { name: known.name_or_empty().to_owned(), wire: t.wire.clone(), rows }
}

/// The answers for the topics that were asked for. `fetched`: what the group told.
pub fn asked_offsets(
    catalog: &Catalog,
    topics: &Vec<WireTopicIn<i32>>,
    fetched: &Vec<FetchedOffset>,
) -> (r: Vec<OffsetTopic>)
    ensures
        r.deep_view() == Seq::new(
            topics@.len(),
            |i: int|
                asked_topic(catalog.deep_view(), topics.deep_view()[i], fetched.deep_view()),
        ),
{
    let ghost all = topics.deep_view();
    let mut r: Vec<OffsetTopic> = Vec::new();
    let mut i: usize = 0;
    while i < topics.len()
        invariant
            i <= topics@.len(),
            all == topics.deep_view(),
            r@.len() == i,
            forall|j: int|
                0 <= j < i ==> (#[trigger] r@[j]).deep_view() == asked_topic(
                    catalog.deep_view(),
                    all[j],
                    fetched.deep_view(),
                ),
        decreases topics@.len() - i,
    {
        assert(all[i as int] == topics@[i as int].deep_view());
        r.push(answer_asked(catalog, &topics[i], fetched));
        i += 1;
    }
    assert(r.deep_view() =~= Seq::new(
        topics@.len(),
        |i: int| asked_topic(catalog.deep_view(), all[i], fetched.deep_view()),
    ));
    r
}

/// Everything that the group told, by topic, in the order of the topics.
pub open spec fn all_groups(fetched: Seq<FetchedOffsetView>) -> Seq<
    (Seq<char>, Seq<OffsetRowView>),
> {
    consumer_protocol::by_topic(
        Seq::new(
            fetched.len(),
            |i: int| (fetched[i].topic, remembered_row(fetched[i].partition as i32, fetched[i])),
        ),
    )
}

/// The answer for a topic that the group told of.
pub open spec fn told_topic(
    catalog: Seq<(Seq<char>, u32)>,
    by_id: bool,
    g: (Seq<char>, Seq<OffsetRowView>),
) -> OffsetTopicView {
    OffsetTopicView {
        name: g.0,
        wire: if by_id {
            WireView::Uuid(topic_id::name_uuid(catalog, g.0))
        } else {
            WireView::Name(g.0)
        },
        rows: g.1,
    }
}

fn group_offsets(fetched: &Vec<FetchedOffset>) -> (groups: Vec<(String, Vec<OffsetRow>)>)
    ensures
        groups.deep_view() == all_groups(fetched.deep_view()),
{
    let ghost f = fetched.deep_view();
    let ghost all = Seq::new(
        f.len(),
        |i: int| (f[i].topic, remembered_row(f[i].partition as i32, f[i])),
    );
    let mut groups: Vec<(String, Vec<OffsetRow>)> = Vec::new();
    let mut i: usize = 0;
    assert(groups.deep_view() =~= Seq::empty());
    assert(all.take(0).len() == 0);
    while i < fetched.len()
        invariant
            i <= fetched@.len(),
            f == fetched.deep_view(),
            all == Seq::new(
                f.len(),
                |i: int| (f[i].topic, remembered_row(f[i].partition as i32, f[i])),
            ),
            groups.deep_view() == consumer_protocol::by_topic(all.take(i as int)),
        decreases fetched@.len() - i,
    {
        assert(all.take(i + 1).drop_last() =~= all.take(i as int));
        assert(f[i as int] == fetched@[i as int].deep_view());
        let e = &fetched[i];
        let row = OffsetRow {
            partition: e.partition as i32,
            offset: tell_offset(e.offset),
            leader_epoch: e.leader_epoch,
            metadata: Some(e.metadata.clone()),
            error: 0,
        };
        assert(all.take(i + 1).last() == (e.topic@, row.deep_view()));
        add_to_groups(&mut groups, &e.topic, row);
        i += 1;
    }
    assert(all.take(all.len() as int) =~= all);
    groups
}

/// The answers for everything that the group told.
pub fn all_offsets(catalog: &Catalog, fetched: &Vec<FetchedOffset>, by_id: bool) -> (r: Vec<
    OffsetTopic,
>)
    ensures
        r.deep_view() == Seq::new(
            all_groups(fetched.deep_view()).len(),
            |i: int|
                told_topic(catalog.deep_view(), by_id, all_groups(fetched.deep_view())[i]),
        ),
{
    let groups = group_offsets(fetched);
    let ghost gs = groups.deep_view();
    let ghost given = groups@;
    let mut r: Vec<OffsetTopic> = Vec::new();
    for g in it: groups.into_iter()
        invariant
            it.seq() == given,
            gs.len() == given.len(),
            forall|j: int|
                0 <= j < gs.len() ==> (#[trigger] gs[j]) == (
                    given[j].0@,
                    given[j].1.deep_view(),
                ),
            r@.len() == it.index(),
            forall|j: int|
                0 <= j < r@.len() ==> (#[trigger] r@[j]).deep_view() == told_topic(
                    catalog.deep_view(),
                    by_id,
                    gs[j],
                ),
    {
        let ghost k = r@.len() as int;
        assert(gs[k] == (g.0@, g.1.deep_view()));
        let wire = wire_id_for_name(catalog, g.0.as_str(), by_id);
        r.push(OffsetTopic { name: g.0, wire, rows: g.1 });
    }
    assert(r.deep_view() =~= Seq::new(
        gs.len(),
        |i: int| told_topic(catalog.deep_view(), by_id, gs[i]),
    ));
    r
}

/// An offset and the error for it, where an offset of records that may still be aborted
/// is to be held back.
pub open spec fn stable_offset(offset: i64, require_stable: bool, unstable: bool) -> (i64, i16) {
    if require_stable && offset >= 0 && unstable {
        (-1i64 as i64, KafkaErrorCode::UnstableOffsetCommit.code())
    } else {
        (offset, 0)
    }
}

/// OffsetFetch RequireStable (v7+ / multi-group v8+): hide a committed
/// offset that still sits in an open/prepared write-through range.
/// Not a wait. Uncommitted (`-1`) and flag-off stay unchanged.
pub fn require_stable_offset(offset: i64, require_stable: bool, unstable: bool) -> (r: (i64, i16))
    ensures
        r == stable_offset(offset, require_stable, unstable),
{
    if require_stable && offset >= 0 && unstable {
        (-1, KafkaErrorCode::UnstableOffsetCommit.as_i16())
    } else {
        (offset, KafkaErrorCode::NoError.as_i16())
    }
}

/// An offset is held back or told as it is. It is never held back unless the client
/// asked for that.
pub proof fn law_stable(offset: i64, require_stable: bool, unstable: bool)
    ensures
        stable_offset(offset, false, unstable) == (offset, 0i16),
        stable_offset(offset, require_stable, false) == (offset, 0i16),
        ({
            let r = stable_offset(offset, require_stable, unstable);
            r == (offset, 0i16) || (r.0 == -1 && r.1 == KafkaErrorCode::UnstableOffsetCommit.code())
        }),
{
}

/// A row whose offset is held back where it has to be.
pub open spec fn stable_row_of(
    row: OffsetRowView,
    require_stable: bool,
    unstable: bool,
) -> OffsetRowView {
    if row.error != 0 {
        row
    } else {
        let s = stable_offset(row.offset, require_stable, unstable);
        OffsetRowView { offset: s.0, error: s.1, ..row }
    }
}

/// The offset of which it has to be known whether it is stable, if any: one that was
/// committed, where the client asks for stable offsets.
pub fn offset_to_check(row: &OffsetRow, require_stable: bool) -> (offset: Option<u64>)
    ensures
        offset == (if require_stable && row.offset >= 0 {
            Some(row.offset as u64)
        } else {
            None
        }),
{
    if require_stable && row.offset >= 0 {
        Some(row.offset as u64)
    } else {
        None
    }
}

/// A row whose offset is held back where it has to be. A row with an error stays as it
/// is.
pub fn stable_row(row: OffsetRow, require_stable: bool, unstable: bool) -> (r: OffsetRow)
    ensures
        r.deep_view() == stable_row_of(row.deep_view(), require_stable, unstable),
{
    if row.error != 0 {
        return row;
    }
    let s = require_stable_offset(row.offset, require_stable, unstable);
    OffsetRow {
        partition: row.partition,
        offset: s.0,
        leader_epoch: row.leader_epoch,
        metadata: row.metadata,
        error: s.1,
    }
}

/// An OffsetFetch response about one group: throttle time (v3+), topics, error (v2+).
pub open spec fn offset_fetch_out(
    o: Out,
    version: i16,
    error: i16,
    topics: Seq<OffsetTopic>,
) -> Out {
    let flexible = version >= 6;
    let o = if version >= 3 {
        o.i32(0)
    } else {
        o
    };
    let o = message::rows_out(o, topics, version, flexible);
    let o = if version >= 2 {
        o.i16(error as int)
    } else {
        o
    };
    o.end(flexible)
}

/// Writes an OffsetFetch response about one group.
pub fn encode_offset_fetch(out: &mut BytesMut, version: i16, error: i16, topics: &Vec<OffsetTopic>)
    ensures
        final(out)@ == offset_fetch_out(old(out)@, version, error, topics@),
{
    let flexible = version >= 6;
    if version >= 3 {
        put_i32(out, 0);
    }
    put_rows(out, topics.as_slice(), version, flexible);
    if version >= 2 {
        put_i16(out, error);
    }
    put_end(out, flexible);
}

/// A group in an OffsetFetch response about several groups.
#[derive(Debug)]
pub struct GroupOffsets {
    pub group_id: String,
    pub topics: Vec<OffsetTopic>,
    pub error: i16,
}

impl Row for GroupOffsets {
    open spec fn row(&self, o: Out, version: i16, flexible: bool) -> Out {
        message::rows_out(
            o.text(flexible, self.group_id@),
            self.topics@,
            version,
            flexible,
        ).i16(self.error as int).end(flexible)
    }

    fn put(&self, out: &mut BytesMut, version: i16, flexible: bool) {
        put_text(out, flexible, self.group_id.as_str());
        put_rows(out, self.topics.as_slice(), version, flexible);
        put_i16(out, self.error);
        put_end(out, flexible);
    }
}

/// An OffsetFetch response about several groups: throttle time, groups.
pub open spec fn offset_fetch_multi_out(o: Out, version: i16, groups: Seq<GroupOffsets>) -> Out {
    message::rows_out(o.i32(0), groups, version, true).tags()
}

/// OffsetFetch v8–10 multi-group flexible body.
pub fn encode_offset_fetch_multi(out: &mut BytesMut, version: i16, groups: &Vec<GroupOffsets>)
    ensures
        final(out)@ == offset_fetch_multi_out(old(out)@, version, groups@),
{
    put_i32(out, 0);
    put_rows(out, groups.as_slice(), version, true);
    put_end(out, true);
}

/// An OffsetDelete request.
#[derive(Debug)]
pub struct OffsetDeleteRequest {
    pub group_id: String,
    pub topics: Vec<WholeTopic<i32>>,
}

/// What an [`OffsetDeleteRequest`] says.
#[verifier::ext_equal]
pub struct OffsetDeleteView {
    pub group_id: Seq<char>,
    pub topics: Seq<message::TopicInView<i32>>,
}

impl DeepView for OffsetDeleteRequest {
    type V = OffsetDeleteView;

    open spec fn deep_view(&self) -> OffsetDeleteView {
        OffsetDeleteView { group_id: self.group_id@, topics: self.topics.deep_view() }
    }
}

/// An OffsetDelete request, or nothing where the group id cannot be read.
pub open spec fn offset_delete_at(b: Src) -> Option<OffsetDeleteView> {
    let g = b.string();
    match g.value {
        Err(_) => None,
        Ok(group_id) => Some(
            OffsetDeleteView {
                group_id,
                topics: message::loose_list_at::<WholeTopic<i32>>(g.rest, 0, false).0,
            },
        ),
    }
}

/// Reads an OffsetDelete request.
pub fn decode_offset_delete(src: &mut Bytes) -> (r: Option<OffsetDeleteRequest>)
    ensures
        r.deep_view() == offset_delete_at(old(src)@),
{
    match read_string(src, false) {
        Err(_) => None,
        Ok(group_id) => {
            let topics = read_loose_list::<WholeTopic<i32>>(src, 0, false);
            Some(OffsetDeleteRequest { group_id, topics })
        },
    }
}

/// The partitions of a topic whose offsets are to be forgotten: those that can be
/// partitions.
pub open spec fn topic_pairs(name: Seq<char>, parts: Seq<i32>) -> Seq<(Seq<char>, u32)>
    decreases parts.len(),
{
    if parts.len() == 0 {
        Seq::empty()
    } else {
        let before = topic_pairs(name, parts.drop_last());
        if parts.last() >= 0 {
            before.push((name, parts.last() as u32))
        } else {
            before
        }
    }
}

/// The partitions of all topics whose offsets are to be forgotten.
pub open spec fn delete_pairs_of(topics: Seq<message::TopicInView<i32>>) -> Seq<(Seq<char>, u32)>
    decreases topics.len(),
{
    if topics.len() == 0 {
        Seq::empty()
    } else {
        delete_pairs_of(topics.drop_last()) + topic_pairs(topics.last().name, topics.last().parts)
    }
}

fn add_topic_pairs(pairs: &mut Vec<(String, u32)>, t: &WholeTopic<i32>)
    ensures
        final(pairs).deep_view() == old(pairs).deep_view() + topic_pairs(
            t.name@,
            t.parts.deep_view(),
        ),
{
    let ghost start = pairs.deep_view();
    let ghost parts = t.parts.deep_view();
    let mut i: usize = 0;
    assert(start + topic_pairs(t.name@, parts.take(0)) =~= start);
    while i < t.parts.len()
        invariant
            i <= t.parts@.len(),
            parts == t.parts.deep_view(),
            pairs.deep_view() == start + topic_pairs(t.name@, parts.take(i as int)),
        decreases t.parts@.len() - i,
    {
        assert(parts.take(i + 1).drop_last() =~= parts.take(i as int));
        assert(parts.take(i + 1).last() == t.parts@[i as int]);
        let ghost seen = pairs.deep_view();
        let p: i32 = t.parts[i];
        if p >= 0 {
            pairs.push((t.name.clone(), p as u32));
            assert(pairs.deep_view() =~= seen.push((t.name@, p as u32)));
            assert(pairs.deep_view() =~= start + topic_pairs(t.name@, parts.take(i + 1)));
        }
        i += 1;
    }
    assert(parts.take(parts.len() as int) =~= parts);
}

/// The partitions of all topics whose offsets are to be forgotten.
pub fn delete_pairs(topics: &Vec<WholeTopic<i32>>) -> (r: Vec<(String, u32)>)
    ensures
        r.deep_view() == delete_pairs_of(topics.deep_view()),
{
    let ghost all = topics.deep_view();
    let mut r: Vec<(String, u32)> = Vec::new();
    let mut i: usize = 0;
    assert(r.deep_view() =~= Seq::empty());
    assert(all.take(0).len() == 0);
    while i < topics.len()
        invariant
            i <= topics@.len(),
            all == topics.deep_view(),
            r.deep_view() == delete_pairs_of(all.take(i as int)),
        decreases topics@.len() - i,
    {
        assert(all.take(i + 1).drop_last() =~= all.take(i as int));
        assert(all.take(i + 1).last() == topics@[i as int].deep_view());
        add_topic_pairs(&mut r, &topics[i]);
        i += 1;
    }
    assert(all.take(all.len() as int) =~= all);
    r
}

/// What became of the wish to forget offsets.
#[derive(Debug, Clone, Copy, PartialEq, Eq, Structural)]
pub enum OffsetDeletion {
    /// The client may not delete the group.
    Denied,
    /// The group failed.
    Failed,
    /// The offsets are forgotten.
    Done,
}

/// The error for a partition.
pub open spec fn delete_row_error(outcome: OffsetDeletion, partition: i32) -> i16 {
    if outcome is Denied {
        KafkaErrorCode::GroupAuthorizationFailed.code()
    } else if partition < 0 {
        KafkaErrorCode::InvalidRequest.code()
    } else if outcome is Failed {
        KafkaErrorCode::Unknown.code()
    } else {
        0
    }
}

/// Whether `out` answers every partition of `t`.
pub open spec fn answers_deletion(
    out: TopicOut<PartitionError>,
    t: message::TopicInView<i32>,
    outcome: OffsetDeletion,
) -> bool {
    &&& out.name@ == t.name
    &&& out.rows.deep_view() == Seq::new(
        t.parts.len(),
        |i: int| (t.parts[i], delete_row_error(outcome, t.parts[i])),
    )
}

fn answer_deletion(t: &WholeTopic<i32>, outcome: OffsetDeletion) -> (r: TopicOut<PartitionError>)
    ensures
        answers_deletion(r, t.deep_view(), outcome),
{
    let ghost parts = t.parts.deep_view();
    let mut rows: Vec<PartitionError> = Vec::new();
    let mut i: usize = 0;
    while i < t.parts.len()
        invariant
            i <= t.parts@.len(),
            parts == t.parts.deep_view(),
            rows@.len() == i,
            forall|j: int|
                0 <= j < i ==> (#[trigger] rows@[j]).deep_view() == (
                    parts[j],
                    delete_row_error(outcome, parts[j]),
                ),
        decreases t.parts@.len() - i,
    {
        let p: i32 = t.parts[i];
        assert(parts[i as int] == p);
        let error: i16 = if outcome == OffsetDeletion::Denied {
            KafkaErrorCode::GroupAuthorizationFailed.as_i16()
        } else if p < 0 {
            KafkaErrorCode::InvalidRequest.as_i16()
        } else if outcome == OffsetDeletion::Failed {
            KafkaErrorCode::Unknown.as_i16()
        } else {
            0
        };
        rows.push(PartitionError { partition: p, error });
        i += 1;
    }
    assert(rows.deep_view() =~= Seq::new(
        parts.len(),
        |i: int| (parts[i], delete_row_error(outcome, parts[i])),
    ));
    TopicOut { name: t.name.clone(), rows }
}

/// The answers for all topics of an OffsetDelete request.
pub fn delete_rows(topics: &Vec<WholeTopic<i32>>, outcome: OffsetDeletion) -> (r: Vec<
    TopicOut<PartitionError>,
>)
    ensures
        r@.len() == topics@.len(),
        forall|i: int|
            0 <= i < r@.len() ==> answers_deletion(
                #[trigger] r@[i],
                topics@[i].deep_view(),
                outcome,
            ),
{
    let mut r: Vec<TopicOut<PartitionError>> = Vec::new();
    let mut i: usize = 0;
    while i < topics.len()
        invariant
            i <= topics@.len(),
            r@.len() == i,
            forall|j: int|
                0 <= j < i ==> answers_deletion(
                    #[trigger] r@[j],
                    topics@[j].deep_view(),
                    outcome,
                ),
        decreases topics@.len() - i,
    {
        r.push(answer_deletion(&topics[i], outcome));
        i += 1;
    }
    r
}

/// An OffsetDelete response: error, throttle time, topics.
pub open spec fn offset_delete_out(
    o: Out,
    error: i16,
    topics: Seq<TopicOut<PartitionError>>,
) -> Out {
    message::rows_out(o.i16(error as int).i32(0), topics, 0, false)
}

/// Writes an OffsetDelete response. The error is `InvalidRequest` where the request
/// cannot be read, and that of the rows where the client may not delete the group.
pub fn encode_offset_delete(
    out: &mut BytesMut,
    error: i16,
    topics: &Vec<TopicOut<PartitionError>>,
)
    ensures
        final(out)@ == offset_delete_out(old(out)@, error, topics@),
{
    put_i16(out, error);
    put_i32(out, 0);
    put_rows(out, topics.as_slice(), 0, false);
}

} // verus!
