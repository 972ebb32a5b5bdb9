//! Shared TopicId / topic-name wire identity for Kafka handlers.
//!
//! Produce, Fetch, OffsetCommit/Fetch, TxnOffsetCommit, Metadata, DeleteTopics,
//! and admin paths all need the same deterministic UUID mapping and response
//! echo.

use bytes::{Bytes, BytesMut};
use vstd::prelude::*;

use crate::buffer::Contents;
use crate::codec;
use crate::codec::{get_uuid, put_text, put_uuid, read_string};
use crate::error::Result;
use crate::text;
use crate::wire;
use crate::wire::{Out, Parsed, Src};

verus! {

/// The topics that the broker knows: names and numeric ids.
#[derive(Debug)]
pub struct Catalog {
    /// Name and id of each topic.
    pub topics: Vec<(String, u32)>,
}

/// The name of the first topic with the id `id`.
pub open spec fn name_of(topics: Seq<(Seq<char>, u32)>, id: u32) -> Option<Seq<char>>
    decreases topics.len(),
{
    if topics.len() == 0 {
        None
    } else if topics[0].1 == id {
        Some(topics[0].0)
    } else {
        name_of(topics.skip(1), id)
    }
}

/// The id of the first topic with the name `name`.
pub open spec fn id_of(topics: Seq<(Seq<char>, u32)>, name: Seq<char>) -> Option<u32>
    decreases topics.len(),
{
    if topics.len() == 0 {
        None
    } else if topics[0].0 == name {
        Some(topics[0].1)
    } else {
        id_of(topics.skip(1), name)
    }
}

impl DeepView for Catalog {
    type V = Seq<(Seq<char>, u32)>;

    open spec fn deep_view(&self) -> Seq<(Seq<char>, u32)> {
        self.topics.deep_view()
    }
}

impl Catalog {
    /// The name of the topic with the given id.
    pub fn topic_name_by_id(&self, id: u32) -> (r: Option<String>)
        ensures
            r.deep_view() == name_of(self.deep_view(), id),
    {
        let ghost all = self.deep_view();
        let mut i: usize = 0;
        assert(all.skip(0) =~= all);
        while i < self.topics.len()
            invariant
                i <= self.topics@.len(),
                all == self.topics.deep_view(),
                name_of(all, id) == name_of(all.skip(i as int), id),
            decreases self.topics@.len() - i,
        {
            let ghost tail = all.skip(i as int);
            assert(tail[0] == (self.topics@[i as int].0@, self.topics@[i as int].1));
            assert(tail.skip(1) =~= all.skip(i + 1));
            if self.topics[i].1 == id {
                return Some(self.topics[i].0.clone());
            }
            i += 1;
        }
        None
    }

    /// The id of the topic with the given name.
    pub fn topic_id_by_name(&self, name: &str) -> (r: Option<u32>)
        ensures
            r == id_of(self.deep_view(), name@),
    {
        let ghost all = self.deep_view();
        let mut i: usize = 0;
        assert(all.skip(0) =~= all);
        while i < self.topics.len()
            invariant
                i <= self.topics@.len(),
                all == self.topics.deep_view(),
                id_of(all, name@) == id_of(all.skip(i as int), name@),
            decreases self.topics@.len() - i,
        {
            let ghost tail = all.skip(i as int);
            assert(tail[0] == (self.topics@[i as int].0@, self.topics@[i as int].1));
            assert(tail.skip(1) =~= all.skip(i + 1));
            if text::same(self.topics[i].0.as_str(), name) {
                return Some(self.topics[i].1);
            }
            i += 1;
        }
        None
    }
}

/// The all-zero TopicId.
pub open spec fn zero_uuid() -> Seq<u8> {
    Seq::new(16, |i: int| 0u8)
}

/// The twelve bytes that the TopicId of every Volant topic begins with.
pub open spec fn uuid_prefix() -> Seq<u8> {
    seq![0x76u8, 0x6fu8, 0x6cu8, 0x61u8, 0x6eu8, 0x74u8, 0u8, 0u8, 0u8, 0u8, 0u8, 0u8]
}

/// The TopicId of the Volant topic with the id `id`: the prefix, then the id.
pub open spec fn topic_uuid(id: u32) -> Seq<u8> {
    uuid_prefix() + wire::be32(id as int)
}

/// The id of the Volant topic with the TopicId `uuid`, if it is one.
pub open spec fn uuid_topic(uuid: Seq<u8>) -> Option<u32> {
    if uuid.len() == 16 && uuid.take(12) == uuid_prefix() {
        Some(wire::be_uint(uuid.skip(12)) as u32)
    } else {
        None
    }
}

/// The TopicId of a Volant topic leads back to it, and is not the all-zero one.
pub proof fn law_topic_uuid(id: u32)
    ensures
        uuid_topic(topic_uuid(id)) == Some(id),
        topic_uuid(id).len() == 16,
        topic_uuid(id) != zero_uuid(),
{
    wire::lemma_be_len(4, id as int);
    wire::lemma_fits(id as int);
    wire::lemma_be_uint(4, id as int);
    assert(topic_uuid(id).take(12) =~= uuid_prefix());
    assert(topic_uuid(id).skip(12) =~= wire::be32(id as int));
    assert(topic_uuid(id)[0] == 0x76 && zero_uuid()[0] == 0);
}

/// The all-zero TopicId.
pub fn kafka_uuid_zero() -> (u: [u8; 16])
    ensures
        u@ == zero_uuid(),
{
    let u: [u8; 16] = [0, 0, 0, 0, 0, 0, 0, 0, 0, 0, 0, 0, 0, 0, 0, 0];
    assert(u@ =~= zero_uuid());
    u
}

/// Deterministic wire UUID for a Volant topic id.
pub fn uuid_for_numeric_id(id: u32) -> (u: [u8; 16])
    ensures
        u@ == topic_uuid(id),
{
    let u: [u8; 16] = [
        0x76,
        0x6f,
        0x6c,
        0x61,
        0x6e,
        0x74,
        0,
        0,
        0,
        0,
        0,
        0,
        (id / 0x100_0000) as u8,
        (id / 0x1_0000 % 256) as u8,
        (id / 0x100 % 256) as u8,
        (id % 256) as u8,
    ];
    proof {
        wire::lemma_be4(id as int);
        assert(u@ =~= topic_uuid(id));
    }
    u
}

/// The Volant topic id that a TopicId stands for, if it is one.
pub fn parse_volant_topic_uuid(uuid: &[u8; 16]) -> (r: Option<u32>)
    ensures
        r == uuid_topic(uuid@),
{
    let ours = uuid[0] == 0x76 && uuid[1] == 0x6f && uuid[2] == 0x6c && uuid[3] == 0x61 && uuid[4]
        == 0x6e && uuid[5] == 0x74 && uuid[6] == 0 && uuid[7] == 0 && uuid[8] == 0 && uuid[9] == 0
        && uuid[10] == 0 && uuid[11] == 0;
    proof {
        let t = uuid@.take(12);
        if ours {
            assert(t =~= uuid_prefix());
        } else {
            let p = uuid_prefix();
            assert(t[0] == uuid@[0] && t[1] == uuid@[1] && t[2] == uuid@[2] && t[3] == uuid@[3]
                && t[4] == uuid@[4] && t[5] == uuid@[5] && t[6] == uuid@[6] && t[7] == uuid@[7]
                && t[8] == uuid@[8] && t[9] == uuid@[9] && t[10] == uuid@[10] && t[11]
                == uuid@[11]);
        }
        let s = uuid@.skip(12);
        assert(s[0] == uuid@[12] && s[1] == uuid@[13] && s[2] == uuid@[14] && s[3] == uuid@[15]);
        wire::lemma_be_uint4(s);
    }
    if ours {
        let v: u64 = ((uuid[12] as u64 * 256 + uuid[13] as u64) * 256 + uuid[14] as u64) * 256
            + uuid[15] as u64;
        Some(v as u32)
    } else {
        None
    }
}

/// How a topic is identified on the wire for a given API version.
#[derive(Debug)]
pub enum TopicWireId {
    /// Name-based request/response (STRING or COMPACT_STRING).
    Name(String),
    /// TopicId UUID request/response (always 16 bytes).
    Uuid([u8; 16]),
}

/// What a [`TopicWireId`] says.
pub enum WireView {
    Name(Seq<char>),
    Uuid(Seq<u8>),
}

impl DeepView for TopicWireId {
    type V = WireView;

    open spec fn deep_view(&self) -> WireView {
        match *self {
            TopicWireId::Name(n) => WireView::Name(n@),
            TopicWireId::Uuid(u) => WireView::Uuid(u@),
        }
    }
}

impl Clone for TopicWireId {
    fn clone(&self) -> (c: TopicWireId)
        ensures
            c.deep_view() == self.deep_view(),
    {
        match self {
            TopicWireId::Name(n) => TopicWireId::Name(n.clone()),
            TopicWireId::Uuid(u) => TopicWireId::Uuid(*u),
        }
    }
}

/// Topic after wire read + catalog resolution.
#[derive(Debug)]
pub struct ResolvedTopic {
    /// Identity to echo on the response (name or UUID as received).
    pub wire: TopicWireId,
    /// Resolved Volant topic name when known; `None` means UnknownTopicId.
    pub name: Option<String>,
}

/// What a [`ResolvedTopic`] says.
#[verifier::ext_equal]
pub struct ResolvedView {
    pub wire: WireView,
    pub name: Option<Seq<char>>,
}

impl DeepView for ResolvedTopic {
    type V = ResolvedView;

    open spec fn deep_view(&self) -> ResolvedView {
        ResolvedView { wire: self.wire.deep_view(), name: self.name.deep_view() }
    }
}

/// The name of the topic with the TopicId `uuid`.
pub open spec fn uuid_name(catalog: Seq<(Seq<char>, u32)>, uuid: Seq<u8>) -> Option<Seq<char>> {
    match uuid_topic(uuid) {
        Some(id) => name_of(catalog, id),
        None => None,
    }
}

/// The TopicId of the topic with the name `name`, all zero where there is none.
pub open spec fn name_uuid(catalog: Seq<(Seq<char>, u32)>, name: Seq<char>) -> Seq<u8> {
    match id_of(catalog, name) {
        Some(id) => topic_uuid(id),
        None => zero_uuid(),
    }
}

impl ResolvedTopic {
    /// Name-based topic that always resolves (catalog presence checked later).
    pub fn from_name(name: String) -> (t: ResolvedTopic)
        ensures
            t.deep_view() == (ResolvedView { wire: WireView::Name(name@), name: Some(name@) }),
    {
        ResolvedTopic { wire: TopicWireId::Name(name.clone()), name: Some(name) }
    }

    /// Resolve a UUID against the broker catalog.
    pub fn from_uuid(catalog: &Catalog, uuid: [u8; 16]) -> (t: ResolvedTopic)
        ensures
            t.deep_view() == (ResolvedView {
                wire: WireView::Uuid(uuid@),
                name: uuid_name(catalog.deep_view(), uuid@),
            }),
    {
        let name = name_for_uuid(catalog, &uuid);
        ResolvedTopic { wire: TopicWireId::Uuid(uuid), name }
    }

    /// True when TopicId did not map to a known Volant topic.
    pub fn is_unknown(&self) -> (b: bool)
        ensures
            b == (self.deep_view().name is None),
    {
        self.name.is_none()
    }

    /// Resolved name, or empty string when unknown (for response-side name fields).
    pub fn name_or_empty(&self) -> (s: &str)
        ensures
            s@ == (match self.deep_view().name {
                Some(n) => n,
                None => Seq::empty(),
            }),
    {
        match &self.name {
            Some(n) => n.as_str(),
            None => {
                proof {
                    reveal_strlit("");
                    assert(""@ =~= Seq::<char>::empty());
                }
                ""
            },
        }
    }
}

/// Resolve a TopicId UUID to a catalog name (`None` if zero/invalid/unknown).
pub fn name_for_uuid(catalog: &Catalog, uuid: &[u8; 16]) -> (r: Option<String>)
    ensures
        r.deep_view() == uuid_name(catalog.deep_view(), uuid@),
{
    match parse_volant_topic_uuid(uuid) {
        Some(id) => catalog.topic_name_by_id(id),
        None => None,
    }
}

/// True when `uuid` is the all-zero TopicId.
pub fn is_zero_uuid(uuid: &[u8; 16]) -> (b: bool)
    ensures
        b == (uuid@ == zero_uuid()),
{
    let mut i: usize = 0;
    while i < 16
        invariant
            i <= 16,
            forall|j: int| 0 <= j < i ==> uuid@[j] == 0,
        decreases 16 - i,
    {
        if uuid[i] != 0 {
            assert(zero_uuid()[i as int] == 0);
            return false;
        }
        i += 1;
    }
    assert(uuid@ =~= zero_uuid());
    true
}

/// Numeric catalog id for a known topic name, if present.
pub fn numeric_id_for_name(catalog: &Catalog, name: &str) -> (r: Option<u32>)
    ensures
        r == id_of(catalog.deep_view(), name@),
{
    catalog.topic_id_by_name(name)
}

/// Wire UUID for a topic name (zero UUID when not in the catalog).
pub fn uuid_for_name(catalog: &Catalog, name: &str) -> (u: [u8; 16])
    ensures
        u@ == name_uuid(catalog.deep_view(), name@),
{
    match numeric_id_for_name(catalog, name) {
        Some(id) => uuid_for_numeric_id(id),
        None => kafka_uuid_zero(),
    }
}

/// A topic name or TopicId as it is on the wire.
pub open spec fn wire_at(b: Src, flexible: bool, by_id: bool) -> Parsed<WireView> {
    if by_id {
        let p = codec::uuid_at(b);
        match p.value {
            Err(m) => wire::fail(m, p.rest),
            Ok(u) => wire::done(WireView::Uuid(u), p.rest),
        }
    } else {
        let p = codec::text_at(b, flexible);
        match p.value {
            Err(m) => wire::fail(m, p.rest),
            Ok(n) => wire::done(WireView::Name(n), p.rest),
        }
    }
}

/// The topic that a name or TopicId stands for. A name stands for itself, whether or
/// not there is such a topic.
pub open spec fn resolved(catalog: Seq<(Seq<char>, u32)>, w: WireView) -> ResolvedView {
    ResolvedView {
        wire: w,
        name: match w {
            WireView::Name(n) => Some(n),
            WireView::Uuid(u) => uuid_name(catalog, u),
        },
    }
}

/// A topic name or TopicId, resolved against the catalog.
pub open spec fn resolved_at(
    b: Src,
    catalog: Seq<(Seq<char>, u32)>,
    flexible: bool,
    by_id: bool,
) -> Parsed<ResolvedView> {
    let p = wire_at(b, flexible, by_id);
    match p.value {
        Err(m) => wire::fail(m, p.rest),
        Ok(w) => wire::done(resolved(catalog, w), p.rest),
    }
}

/// Reads a topic name or TopicId.
pub fn read_wire_id(src: &mut Bytes, flex: bool, by_id: bool) -> (r: Result<TopicWireId>)
    ensures
        crate::error::agrees(r, wire_at(old(src)@, flex, by_id).value),
        final(src)@ == wire_at(old(src)@, flex, by_id).rest,
{
    if by_id {
        match get_uuid(src) {
            Err(e) => Err(e),
            Ok(uuid) => Ok(TopicWireId::Uuid(uuid)),
        }
    } else {
        match read_string(src, flex) {
            Err(e) => Err(e),
            Ok(name) => Ok(TopicWireId::Name(name)),
        }
    }
}

/// The topic that a name or TopicId stands for.
pub fn resolve(catalog: &Catalog, wire_id: TopicWireId) -> (t: ResolvedTopic)
    ensures
        t.deep_view() == resolved(catalog.deep_view(), wire_id.deep_view()),
{
    match wire_id {
        TopicWireId::Name(name) => ResolvedTopic::from_name(name),
        TopicWireId::Uuid(uuid) => ResolvedTopic::from_uuid(catalog, uuid),
    }
}

/// Read topic name or TopicId from the request and resolve against the catalog.
///
/// * `by_id` — when true, read UUID; when false, read string (compact iff `flex`).
pub fn read_and_resolve(catalog: &Catalog, src: &mut Bytes, flex: bool, by_id: bool) -> (r: Result<
    ResolvedTopic,
>)
    ensures
        crate::error::agrees(
            r,
            resolved_at(old(src)@, catalog.deep_view(), flex, by_id).value,
        ),
        final(src)@ == resolved_at(old(src)@, catalog.deep_view(), flex, by_id).rest,
{
    match read_wire_id(src, flex, by_id) {
        Err(e) => Err(e),
        Ok(w) => Ok(resolve(catalog, w)),
    }
}

/// Topic identity in a response: the name, or the sixteen bytes of the TopicId.
pub open spec fn wire_id_out(o: Out, flexible: bool, wire_id: WireView) -> Out {
    match wire_id {
        WireView::Uuid(u) => o.raw(u),
        WireView::Name(n) => o.text(flexible, n),
    }
}

/// Write topic identity for a response (name string or UUID).
///
/// UUID paths are always written as raw 16 bytes (no string framing).
/// Name paths use compact string when `flex` is true.
pub fn write_wire_id(out: &mut BytesMut, flex: bool, wire_id: &TopicWireId)
    ensures
        final(out)@ == wire_id_out(old(out)@, flex, wire_id.deep_view()),
{
    match wire_id {
        TopicWireId::Uuid(uuid) => put_uuid(out, uuid),
        TopicWireId::Name(name) => put_text(out, flex, name.as_str()),
    }
}

/// Write a raw TopicId UUID field.
pub fn write_uuid(out: &mut BytesMut, uuid: &[u8; 16])
    ensures
        final(out)@ == old(out)@.raw(uuid@),
{
    put_uuid(out, uuid);
}

/// Write a name-based topic field (no TopicId), classic or flexible.
pub fn write_name(out: &mut BytesMut, flex: bool, name: &str)
    ensures
        final(out)@ == old(out)@.text(flex, name@),
{
    put_text(out, flex, name);
}

/// Resolve known-good name into a wire id for list-all responses that emit UUIDs.
pub fn wire_id_for_name(catalog: &Catalog, name: &str, by_id: bool) -> (w: TopicWireId)
    ensures
        w.deep_view() == (if by_id {
            WireView::Uuid(name_uuid(catalog.deep_view(), name@))
        } else {
            WireView::Name(name@)
        }),
{
    if by_id {
        TopicWireId::Uuid(uuid_for_name(catalog, name))
    } else {
        TopicWireId::Name(name.to_owned())
    }
}

/// Result of resolving a Metadata v10+ topic entry (uuid + optional name).
#[derive(Debug)]
pub struct MetadataTopicRef {
    pub name: Option<String>,
    pub uuid: [u8; 16],
    /// Client asked by id only and the id was unknown.
    pub unknown_id: bool,
}

/// What a [`MetadataTopicRef`] says.
#[verifier::ext_equal]
pub struct MetadataRefView {
    pub name: Option<Seq<char>>,
    pub uuid: Seq<u8>,
    pub unknown_id: bool,
}

impl DeepView for MetadataTopicRef {
    type V = MetadataRefView;

    open spec fn deep_view(&self) -> MetadataRefView {
        MetadataRefView {
            name: self.name.deep_view(),
            uuid: self.uuid@,
            unknown_id: self.unknown_id,
        }
    }
}

/// The topic that a Metadata entry asks for: by name where it has one, else, where
/// that is allowed, by an id that is not zero; else none.
pub open spec fn metadata_entry(
    catalog: Seq<(Seq<char>, u32)>,
    uuid: Seq<u8>,
    name: Option<Seq<char>>,
    allow_id_lookup: bool,
) -> Option<MetadataRefView> {
    if name is Some {
        Some(MetadataRefView { name, uuid, unknown_id: false })
    } else if !allow_id_lookup || uuid == zero_uuid() {
        None
    } else {
        let found = uuid_name(catalog, uuid);
        Some(MetadataRefView { name: found, uuid, unknown_id: found is None })
    }
}

/// Resolve a Metadata topic entry given already-read uuid + optional name.
///
/// * `allow_id_lookup` — Metadata v12+ permits null name + uuid lookup.
/// * Zero uuid + null name → `None` (skip entry).
pub fn resolve_metadata_entry(
    catalog: &Catalog,
    uuid: [u8; 16],
    name: Option<String>,
    allow_id_lookup: bool,
) -> (r: Option<MetadataTopicRef>)
    ensures
        r.deep_view() == metadata_entry(
            catalog.deep_view(),
            uuid@,
            name.deep_view(),
            allow_id_lookup,
        ),
{
    if let Some(n) = name {
        return Some(MetadataTopicRef { name: Some(n), uuid, unknown_id: false });
    }
    if !allow_id_lookup {
        return None;
    }
    if is_zero_uuid(&uuid) {
        return None;
    }
    let found = name_for_uuid(catalog, &uuid);
    let unknown_id = found.is_none();
    Some(MetadataTopicRef { name: found, uuid, unknown_id })
}

/// Result of resolving a DeleteTopics v6 topic entry.
#[derive(Debug)]
pub struct DeleteTopicRef {
    pub request_name: Option<String>,
    pub uuid: [u8; 16],
    pub resolved_name: Option<String>,
    pub numeric_id: Option<u32>,
    pub unknown_topic_id: bool,
}

/// What a [`DeleteTopicRef`] says.
#[verifier::ext_equal]
pub struct DeleteRefView {
    pub request_name: Option<Seq<char>>,
    pub uuid: Seq<u8>,
    pub resolved_name: Option<Seq<char>>,
    pub numeric_id: Option<u32>,
    pub unknown_topic_id: bool,
}

impl DeepView for DeleteTopicRef {
    type V = DeleteRefView;

    open spec fn deep_view(&self) -> DeleteRefView {
        DeleteRefView {
            request_name: self.request_name.deep_view(),
            uuid: self.uuid@,
            resolved_name: self.resolved_name.deep_view(),
            numeric_id: self.numeric_id,
            unknown_topic_id: self.unknown_topic_id,
        }
    }
}

/// The topic that a DeleteTopics entry asks for: by name where it has one, else by id.
pub open spec fn delete_entry(
    catalog: Seq<(Seq<char>, u32)>,
    name: Option<Seq<char>>,
    uuid: Seq<u8>,
) -> DeleteRefView {
    match name {
        Some(n) => DeleteRefView {
            request_name: name,
            uuid,
            resolved_name: name,
            numeric_id: id_of(catalog, n),
            unknown_topic_id: false,
        },
        None => {
            let found = uuid_name(catalog, uuid);
            DeleteRefView {
                request_name: None,
                uuid,
                resolved_name: found,
                numeric_id: if found is Some {
                    uuid_topic(uuid)
                } else {
                    None
                },
                unknown_topic_id: found is None,
            }
        },
    }
}

/// Resolve DeleteTopics v6 entry (nullable name + uuid).
pub fn resolve_delete_entry(catalog: &Catalog, name: Option<String>, uuid: [u8; 16]) -> (r:
    DeleteTopicRef)
    ensures
        r.deep_view() == delete_entry(catalog.deep_view(), name.deep_view(), uuid@),
{
    if let Some(n) = name {
        let id = numeric_id_for_name(catalog, n.as_str());
        return DeleteTopicRef {
            request_name: Some(n.clone()),
            uuid,
            resolved_name: Some(n),
            numeric_id: id,
            unknown_topic_id: false,
        };
    }
    if let Some(id) = parse_volant_topic_uuid(&uuid) {
        if let Some(n) = catalog.topic_name_by_id(id) {
            return DeleteTopicRef {
                request_name: None,
                uuid,
                resolved_name: Some(n),
                numeric_id: Some(id),
                unknown_topic_id: false,
            };
        }
    }
    DeleteTopicRef {
        request_name: None,
        uuid,
        resolved_name: None,
        numeric_id: None,
        unknown_topic_id: true,
    }
}

/// The TopicId to echo: the requested one unless it is zero, else that of the
/// topic, else zero.
pub open spec fn echoed_uuid(request_uuid: Seq<u8>, numeric_id: Option<u32>) -> Seq<u8> {
    if request_uuid != zero_uuid() {
        request_uuid
    } else {
        match numeric_id {
            Some(id) => topic_uuid(id),
            None => zero_uuid(),
        }
    }
}

/// Prefer request uuid; fall back to resolved numeric mapping / zero.
pub fn echo_uuid(request_uuid: [u8; 16], numeric_id: Option<u32>) -> (u: [u8; 16])
    ensures
        u@ == echoed_uuid(request_uuid@, numeric_id),
{
    if !is_zero_uuid(&request_uuid) {
        request_uuid
    } else {
        match numeric_id {
            Some(id) => uuid_for_numeric_id(id),
            None => kafka_uuid_zero(),
        }
    }
}

} // verus!
