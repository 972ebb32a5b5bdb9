//! ApiVersions, Metadata, FindCoordinator and DescribeCluster.

use bytes::{Bytes, BytesMut};
use vstd::prelude::*;

use crate::api;
use crate::api::{supported_apis, ApiKey, KafkaErrorCode};
use crate::buffer::{
    get_i32, get_i8, get_u8, put_i16, put_i32, put_i8, put_slice, put_u8, remaining, Contents,
};
use crate::codec;
use crate::codec::{
    get_compact_array_len, get_compact_nullable_string, get_uuid, put_array_len,
    put_compact_array_len, put_compact_nullable_string, put_compact_string, put_empty_tag_buffer,
    put_end, put_opt_text, put_text, read_string,
};
use crate::message;
use crate::message::{drop_tags, put_each, put_rows, read_list, read_loose_list, Element, Read, Row};
use crate::topic_id;
use crate::topic_id::{kafka_uuid_zero, resolve_metadata_entry, uuid_for_numeric_id, Catalog};
use crate::wire;
use crate::wire::{Out, Src, Step};

verus! {

/// Stable cluster id advertised on Metadata v2+.
pub const KAFKA_CLUSTER_ID: &'static str = "volant";

/// Authorized operations not included in the response.
pub const AUTH_OPS_OMITTED: i32 = -2147483648;

/// Which operations on a topic a client may carry out.
#[derive(Debug, Clone, Copy, PartialEq, Eq, Structural)]
pub struct TopicOps {
    pub read: bool,
    pub write: bool,
    pub create: bool,
    pub delete: bool,
    pub alter: bool,
    pub describe: bool,
}

/// The bit of the operation with the number `n` where it is allowed.
pub open spec fn op_bit(allowed: bool, n: i8) -> int {
    if allowed {
        vstd::arithmetic::power2::pow2(n as nat) as int
    } else {
        0
    }
}

/// `value` where the operation is allowed.
pub(crate) fn bit(allowed: bool, value: i32) -> (b: i32)
    ensures
        b == (if allowed {
            value
        } else {
            0
        }),
{
    if allowed {
        value
    } else {
        0
    }
}

/// The authorized operations of a topic: the bit of each operation that is allowed.
pub open spec fn topic_ops_of(wanted: bool, o: TopicOps) -> int {
    if wanted {
        op_bit(o.read, crate::acl::AclOperation::Read.number()) + op_bit(
            o.write,
            crate::acl::AclOperation::Write.number(),
        ) + op_bit(o.create, crate::acl::AclOperation::Create.number()) + op_bit(
            o.delete,
            crate::acl::AclOperation::Delete.number(),
        ) + op_bit(o.alter, crate::acl::AclOperation::Alter.number()) + op_bit(
            o.describe,
            crate::acl::AclOperation::Describe.number(),
        )
    } else {
        AUTH_OPS_OMITTED as int
    }
}

/// The authorized operations of a topic.
pub fn topic_authorized_ops(wanted: bool, o: TopicOps) -> (bits: i32)
    ensures
        bits == topic_ops_of(wanted, o),
{
    proof {
        vstd::arithmetic::power2::lemma2_to64();
    }
    if !wanted {
        return AUTH_OPS_OMITTED;
    }
    bit(o.read, 8) + bit(o.write, 16) + bit(o.create, 32) + bit(o.delete, 64) + bit(o.alter, 128)
        + bit(o.describe, 256)
}

/// Which operations on the cluster a client may carry out.
#[derive(Debug, Clone, Copy, PartialEq, Eq, Structural)]
pub struct ClusterOps {
    pub create: bool,
    pub alter: bool,
    pub describe: bool,
    pub cluster_action: bool,
}

/// The authorized operations of the cluster: the bit of each operation that is allowed.
pub open spec fn cluster_ops_of(wanted: bool, o: ClusterOps) -> int {
    if wanted {
        op_bit(o.create, crate::acl::AclOperation::Create.number()) + op_bit(
            o.alter,
            crate::acl::AclOperation::Alter.number(),
        ) + op_bit(o.describe, crate::acl::AclOperation::Describe.number()) + op_bit(
            o.cluster_action,
            crate::acl::AclOperation::ClusterAction.number(),
        )
    } else {
        AUTH_OPS_OMITTED as int
    }
}

/// The authorized operations of the cluster.
pub fn cluster_authorized_ops(wanted: bool, o: ClusterOps) -> (bits: i32)
    ensures
        bits == cluster_ops_of(wanted, o),
{
    proof {
        vstd::arithmetic::power2::lemma2_to64();
    }
    if !wanted {
        return AUTH_OPS_OMITTED;
    }
    bit(o.create, 32) + bit(o.alter, 128) + bit(o.describe, 256) + bit(o.cluster_action, 512)
}

impl Row for (ApiKey, i16, i16) {
    open spec fn row(&self, o: Out, version: i16, flexible: bool) -> Out {
        o.i16(self.0.number() as int).i16(self.1 as int).i16(self.2 as int).end(flexible)
    }

    fn put(&self, out: &mut BytesMut, version: i16, flexible: bool) {
        put_i16(out, self.0.as_i16());
        put_i16(out, self.1);
        put_i16(out, self.2);
        put_end(out, flexible);
    }
}

/// An ApiVersions response: the APIs that are served, without features.
pub open spec fn api_versions_out(o: Out, version: i16) -> Out {
    let flexible = version >= 3;
    let o = message::rows_out(o.i16(0), api::supported(), version, flexible);
    let o = if version >= 1 {
        o.i32(0)
    } else {
        o
    };
    o.end(flexible)
}

/// ApiVersions classic v0–2 + flexible v3–5. What the client says of itself is not
/// looked at.
pub fn encode_api_versions(out: &mut BytesMut, version: i16)
    ensures
        final(out)@ == api_versions_out(old(out)@, version),
{
    let flexible = version >= 3;
    let apis = supported_apis();
    put_i16(out, 0);
    put_rows(out, apis.as_slice(), version, flexible);
    if version >= 1 {
        put_i32(out, 0);
    }
    put_end(out, flexible);
}

/// A broker of the cluster.
#[derive(Debug)]
pub struct BrokerNode {
    pub id: i32,
    pub host: String,
    pub port: i32,
}

impl Row for BrokerNode {
    open spec fn row(&self, o: Out, version: i16, flexible: bool) -> Out {
        let o = o.i32(self.id as int).text(flexible, self.host@).i32(self.port as int);
        let o = if version >= 1 {
            o.opt_text(flexible, None)
        } else {
            o
        };
        o.end(flexible)
    }

    fn put(&self, out: &mut BytesMut, version: i16, flexible: bool) {
        put_i32(out, self.id);
        put_text(out, flexible, self.host.as_str());
        put_i32(out, self.port);
        if version >= 1 {
            put_opt_text(out, flexible, None);
        }
        put_end(out, flexible);
    }
}

/// A DescribeCluster request.
#[derive(Debug, Clone, Copy, PartialEq, Eq, Structural)]
pub struct DescribeClusterRequest {
    /// Whether the authorized operations are told.
    pub include_ops: bool,
    /// Which endpoints are asked for (v1+): 1 for brokers.
    pub endpoint_type: i8,
}

/// A DescribeCluster request. What is missing has its default.
pub open spec fn describe_cluster_at(b: Src, version: i16) -> DescribeClusterRequest {
    let r = if b.left() > 0 {
        b.skip(1)
    } else {
        b
    };
    DescribeClusterRequest {
        include_ops: b.left() > 0 && b.u8() != 0,
        endpoint_type: if version >= 1 && r.left() > 0 {
            r.i8() as i8
        } else {
            1
        },
    }
}

/// Reads a DescribeCluster request. Fenced brokers (v2+) are not asked for: there are
/// none.
pub fn decode_describe_cluster(src: &mut Bytes, version: i16) -> (r: DescribeClusterRequest)
    ensures
        r == describe_cluster_at(old(src)@, version),
{
    let include_ops = if remaining(src) > 0 {
        get_u8(src) != 0
    } else {
        false
    };
    let endpoint_type: i8 = if version >= 1 && remaining(src) > 0 {
        get_i8(src)
    } else {
        1
    };
    DescribeClusterRequest { include_ops, endpoint_type }
}

/// A broker in a DescribeCluster response: no rack, and not fenced (v2+).
pub open spec fn cluster_node_out(o: Out, version: i16, n: BrokerNode) -> Out {
    let o = o.i32(n.id as int).compact(n.host@).i32(n.port as int).compact_nullable(None);
    let o = if version >= 2 {
        o.byte(0)
    } else {
        o
    };
    o.tags()
}

/// A DescribeCluster response.
pub open spec fn describe_cluster_fields(
    o: Out,
    version: i16,
    error: i16,
    message: Option<Seq<char>>,
    endpoint_type: i8,
    controller_id: i32,
    nodes: Seq<BrokerNode>,
    ops: i32,
) -> Out {
    let o = o.i32(0).i16(error as int).compact_nullable(message);
    let o = if version >= 1 {
        o.byte(endpoint_type as int)
    } else {
        o
    };
    o.compact(KAFKA_CLUSTER_ID@).i32(controller_id as int).compact_len(nodes.len()).each(
        nodes,
        |o: Out, n: BrokerNode| cluster_node_out(o, version, n),
    ).i32(ops as int).tags()
}

/// The answer to a DescribeCluster request. `allowed`: the client may describe the
/// cluster.
pub open spec fn describe_cluster_out(
    o: Out,
    version: i16,
    endpoint_type: i8,
    allowed: bool,
    controller_id: i32,
    nodes: Seq<BrokerNode>,
    ops: i32,
) -> Out {
    if version >= 1 && endpoint_type != 1 {
        describe_cluster_fields(
            o,
            version,
            KafkaErrorCode::UnsupportedEndpointType.code(),
            Some("only brokers endpoint (type=1) is supported"@),
            endpoint_type,
            (-1int) as i32,
            Seq::empty(),
            AUTH_OPS_OMITTED,
        )
    } else if !allowed {
        describe_cluster_fields(
            o,
            version,
            KafkaErrorCode::ClusterAuthorizationFailed.code(),
            Some("Cluster authorization failed"@),
            1,
            (-1int) as i32,
            Seq::empty(),
            AUTH_OPS_OMITTED,
        )
    } else {
        describe_cluster_fields(o, version, 0, None, 1, controller_id, nodes, ops)
    }
}

fn put_describe_cluster(
    out: &mut BytesMut,
    version: i16,
    error: i16,
    message: Option<&str>,
    endpoint_type: i8,
    controller_id: i32,
    nodes: &Vec<BrokerNode>,
    ops: i32,
)
    ensures
        final(out)@ == describe_cluster_fields(
            old(out)@,
            version,
            error,
            message.deep_view(),
            endpoint_type,
            controller_id,
            nodes@,
            ops,
        ),
{
    let ghost f = |o: Out, n: BrokerNode| cluster_node_out(o, version, n);
    put_i32(out, 0);
    put_i16(out, error);
    put_compact_nullable_string(out, message);
    if version >= 1 {
        put_i8(out, endpoint_type);
    }
    put_compact_string(out, KAFKA_CLUSTER_ID);
    put_i32(out, controller_id);
    put_compact_array_len(out, nodes.len());
    let ghost start = out@;
    let mut i: usize = 0;
    proof {
        wire::lemma_each_all(start, nodes@, f);
    }
    while i < nodes.len()
        invariant
            i <= nodes@.len(),
            f == |o: Out, n: BrokerNode| cluster_node_out(o, version, n),
            out@ == start.each(nodes@.take(i as int), f),
        decreases nodes@.len() - i,
    {
        put_i32(out, nodes[i].id);
        put_compact_string(out, nodes[i].host.as_str());
        put_i32(out, nodes[i].port);
        put_compact_nullable_string(out, None);
        if version >= 2 {
            put_u8(out, 0);
        }
        put_empty_tag_buffer(out);
        proof {
            wire::lemma_each_step(start, nodes@, i as int, f);
        }
        i += 1;
    }
    proof {
        wire::lemma_each_all(start, nodes@, f);
    }
    put_i32(out, ops);
    put_empty_tag_buffer(out);
}

/// DescribeCluster v0–2 (always flexible).
pub fn encode_describe_cluster(
    out: &mut BytesMut,
    version: i16,
    endpoint_type: i8,
    allowed: bool,
    controller_id: i32,
    nodes: &Vec<BrokerNode>,
    ops: i32,
)
    ensures
        final(out)@ == describe_cluster_out(
            old(out)@,
            version,
            endpoint_type,
            allowed,
            controller_id,
            nodes@,
            ops,
        ),
{
    let none: Vec<BrokerNode> = Vec::new();
    assert(none@ =~= Seq::empty());
    if version >= 1 && endpoint_type != 1 {
        put_describe_cluster(
            out,
            version,
            KafkaErrorCode::UnsupportedEndpointType.as_i16(),
            Some("only brokers endpoint (type=1) is supported"),
            endpoint_type,
            -1,
            &none,
            AUTH_OPS_OMITTED,
        );
    } else if !allowed {
        put_describe_cluster(
            out,
            version,
            KafkaErrorCode::ClusterAuthorizationFailed.as_i16(),
            Some("Cluster authorization failed"),
            1,
            -1,
            &none,
            AUTH_OPS_OMITTED,
        );
    } else {
        put_describe_cluster(out, version, 0, None, 1, controller_id, nodes, ops);
    }
}

/// A topic that a Metadata request asks for.
#[derive(Debug)]
pub struct MetadataEntry {
    /// The TopicId (v10+), or zero.
    pub uuid: [u8; 16],
    pub name: Option<String>,
}

/// What a [`MetadataEntry`] says.
#[verifier::ext_equal]
pub struct MetadataEntryView {
    pub uuid: Seq<u8>,
    pub name: Option<Seq<char>>,
}

impl DeepView for MetadataEntry {
    type V = MetadataEntryView;

    open spec fn deep_view(&self) -> MetadataEntryView {
        MetadataEntryView { uuid: self.uuid@, name: self.name.deep_view() }
    }
}

impl Element for MetadataEntry {
    open spec fn at(b: Src, version: i16, flexible: bool) -> Step<MetadataEntryView> {
        if version >= 10 {
            let u = codec::uuid_at(b);
            match u.value {
                Err(_) => wire::stop(u.rest),
                Ok(uuid) => {
                    let n = u.rest.compact_nullable();
                    match n.value {
                        Err(_) => wire::stop(n.rest),
                        Ok(name) => wire::keep(
                            MetadataEntryView { uuid, name },
                            n.rest.tags().rest,
                        ),
                    }
                },
            }
        } else {
            let n = codec::text_at(b, flexible);
            match n.value {
                Err(_) => wire::stop(n.rest),
                Ok(name) => wire::keep(
                    MetadataEntryView { uuid: topic_id::zero_uuid(), name: Some(name) },
                    message::after_tags(n.rest, flexible),
                ),
            }
        }
    }

    fn read(src: &mut Bytes, version: i16, flexible: bool) -> (r: Read<MetadataEntry>) {
        if version >= 10 {
            let uuid = match get_uuid(src) {
                Err(_) => return Read::End,
                Ok(u) => u,
            };
            let name = match get_compact_nullable_string(src) {
                Err(_) => return Read::End,
                Ok(n) => n,
            };
            drop_tags(src, true);
            Read::Item(MetadataEntry { uuid, name })
        } else {
            match read_string(src, flexible) {
                Err(_) => Read::End,
                Ok(name) => {
                    drop_tags(src, flexible);
                    Read::Item(MetadataEntry { uuid: kafka_uuid_zero(), name: Some(name) })
                },
            }
        }
    }
}

/// A Metadata request.
#[derive(Debug)]
pub struct MetadataRequest {
    /// The topics that are asked for; nothing where all of them are.
    pub topics: Option<Vec<MetadataEntry>>,
    /// Whether the authorized operations of the cluster are told (v8–10).
    pub include_cluster_ops: bool,
    /// Whether the authorized operations of the topics are told (v8+).
    pub include_topic_ops: bool,
}

/// What a [`MetadataRequest`] says.
#[verifier::ext_equal]
pub struct MetadataView {
    pub topics: Option<Seq<MetadataEntryView>>,
    pub include_cluster_ops: bool,
    pub include_topic_ops: bool,
}

impl DeepView for MetadataRequest {
    type V = MetadataView;

    open spec fn deep_view(&self) -> MetadataView {
        MetadataView {
            topics: self.topics.deep_view(),
            include_cluster_ops: self.include_cluster_ops,
            include_topic_ops: self.include_topic_ops,
        }
    }
}

/// The topics of a Metadata request, nothing where all are meant, and what is left
/// after them. In v0 no topics stand for all of them; later a null or negative array
/// does, and so does a compact one that cannot be counted.
pub open spec fn metadata_topics_at(b: Src, version: i16) -> (
    Option<Seq<MetadataEntryView>>,
    Src,
) {
    let flexible = version >= 9;
    let listed = |r: Src, n: nat|
        {
            let l = message::list_at::<MetadataEntry>(r, n, version, flexible);
            (Some(l.0), l.1)
        };
    if flexible {
        let c = b.compact_len();
        match c.value {
            Ok(Some(n)) => listed(c.rest, n as nat),
            _ => (None, c.rest),
        }
    } else {
        let n = if b.left() >= 4 {
            b.i32()
        } else {
            0
        };
        let r = if b.left() >= 4 {
            b.skip(4)
        } else {
            b
        };
        if n < 0 || (version == 0 && n == 0) {
            (None, r)
        } else {
            listed(r, n as nat)
        }
    }
}

/// A Metadata request. What is missing has its default.
pub open spec fn metadata_at(b: Src, version: i16) -> MetadataView {
    let t = metadata_topics_at(b, version);
    let r1 = if version >= 4 && t.1.left() >= 1 {
        t.1.skip(1)
    } else {
        t.1
    };
    let has_cluster = 8 <= version <= 10 && r1.left() >= 1;
    let r2 = if has_cluster {
        r1.skip(1)
    } else {
        r1
    };
    MetadataView {
        topics: t.0,
        include_cluster_ops: has_cluster && r1.u8() != 0,
        include_topic_ops: version >= 8 && r2.left() >= 1 && r2.u8() != 0,
    }
}

fn read_metadata_topics(src: &mut Bytes, version: i16) -> (r: Option<Vec<MetadataEntry>>)
    ensures
        (r.deep_view(), final(src)@) == metadata_topics_at(old(src)@, version),
{
    if version >= 9 {
        match get_compact_array_len(src) {
            Ok(Some(n)) => Some(read_list::<MetadataEntry>(src, n, version, true)),
            _ => None,
        }
    } else {
        let n: i32 = if remaining(src) >= 4 {
            get_i32(src)
        } else {
            0
        };
        if n < 0 || (version == 0 && n == 0) {
            None
        } else {
            Some(read_list::<MetadataEntry>(src, n as usize, version, false))
        }
    }
}

/// Reads a Metadata request. Whether topics may be created (v4+) is not looked at.
pub fn decode_metadata(src: &mut Bytes, version: i16) -> (r: MetadataRequest)
    ensures
        r.deep_view() == metadata_at(old(src)@, version),
{
    let topics = read_metadata_topics(src, version);
    if version >= 4 && remaining(src) >= 1 {
        let _allow_auto: u8 = get_u8(src);
    }
    let mut include_cluster_ops = false;
    let mut include_topic_ops = false;
    if version >= 8 {
        if version <= 10 && remaining(src) >= 1 {
            include_cluster_ops = get_u8(src) != 0;
        }
        if remaining(src) >= 1 {
            include_topic_ops = get_u8(src) != 0;
        }
    }
    MetadataRequest { topics, include_cluster_ops, include_topic_ops }
}

/// The names among the topics that are asked for.
pub open spec fn named_topics(
    catalog: Seq<(Seq<char>, u32)>,
    version: i16,
    entries: Seq<MetadataEntryView>,
) -> Seq<Seq<char>>
    decreases entries.len(),
{
    if entries.len() == 0 {
        Seq::empty()
    } else {
        let names = named_topics(catalog, version, entries.drop_last());
        let e = entries.last();
        match topic_id::metadata_entry(catalog, e.uuid, e.name, version >= 12) {
            Some(r) => match r.name {
                Some(n) => names.push(n),
                None => names,
            },
            None => names,
        }
    }
}

/// The TopicIds that no topic has among those that are asked for.
pub open spec fn unknown_uuids(
    catalog: Seq<(Seq<char>, u32)>,
    version: i16,
    entries: Seq<MetadataEntryView>,
) -> Seq<Seq<u8>>
    decreases entries.len(),
{
    if entries.len() == 0 {
        Seq::empty()
    } else {
        let ids = unknown_uuids(catalog, version, entries.drop_last());
        let e = entries.last();
        match topic_id::metadata_entry(catalog, e.uuid, e.name, version >= 12) {
            Some(r) => if r.unknown_id {
                ids.push(r.uuid)
            } else {
                ids
            },
            None => ids,
        }
    }
}

/// A TopicId that no topic has.
#[derive(Debug, Clone, Copy)]
pub struct UnknownTopic {
    pub uuid: [u8; 16],
}

impl DeepView for UnknownTopic {
    type V = Seq<u8>;

    open spec fn deep_view(&self) -> Seq<u8> {
        self.uuid@
    }
}

impl Row for UnknownTopic {
    open spec fn row(&self, o: Out, version: i16, flexible: bool) -> Out {
        o.i16(KafkaErrorCode::UnknownTopicId.code() as int).compact_nullable(None).raw(
            self.uuid@,
        ).byte(0).compact_len(0).i32(AUTH_OPS_OMITTED as int).tags()
    }

    fn put(&self, out: &mut BytesMut, version: i16, flexible: bool) {
        put_i16(out, KafkaErrorCode::UnknownTopicId.as_i16());
        put_compact_nullable_string(out, None);
        put_slice(out, self.uuid.as_slice());
        put_u8(out, 0);
        put_compact_array_len(out, 0);
        put_i32(out, AUTH_OPS_OMITTED);
        put_empty_tag_buffer(out);
    }
}

/// Sorts the topics that are asked for into names and TopicIds that no topic has.
pub fn resolve_metadata_topics(catalog: &Catalog, version: i16, entries: &Vec<MetadataEntry>) -> (r:
    (Vec<String>, Vec<UnknownTopic>))
    ensures
        r.0.deep_view() == named_topics(catalog.deep_view(), version, entries.deep_view()),
        r.1.deep_view() == unknown_uuids(catalog.deep_view(), version, entries.deep_view()),
{
    let ghost all = entries.deep_view();
    let mut names: Vec<String> = Vec::new();
    let mut unknown: Vec<UnknownTopic> = Vec::new();
    let mut i: usize = 0;
    proof {
        assert(all.take(0).len() == 0);
        assert(names.deep_view() =~= Seq::empty());
        assert(unknown.deep_view() =~= Seq::empty());
    }
    while i < entries.len()
        invariant
            i <= entries@.len(),
            all == entries.deep_view(),
            names.deep_view() == named_topics(
                catalog.deep_view(),
                version,
                all.take(i as int),
            ),
            unknown.deep_view() == unknown_uuids(
                catalog.deep_view(),
                version,
                all.take(i as int),
            ),
        decreases entries@.len() - i,
    {
        let e = &entries[i];
        let ghost seen = names.deep_view();
        let ghost ids = unknown.deep_view();
        assert(all.take(i + 1).drop_last() =~= all.take(i as int));
        assert(all[i as int] == e.deep_view());
        match resolve_metadata_entry(catalog, e.uuid, e.name.clone(), version >= 12) {
            Some(r) => {
                if r.unknown_id {
                    unknown.push(UnknownTopic { uuid: r.uuid });
                    assert(unknown.deep_view() =~= ids.push(r.uuid@));
                }
                if let Some(n) = r.name {
                    names.push(n);
                    assert(names.deep_view() =~= seen.push(n@));
                }
            },
            None => {},
        }
        i += 1;
    }
    assert(all.take(all.len() as int) =~= all);
    (names, unknown)
}

/// A partition of a topic.
#[derive(Debug)]
pub struct MetadataPartition {
    pub partition: i32,
    pub leader: i32,
    pub replicas: Vec<i32>,
    /// The replicas that are in sync.
    pub isr: Vec<i32>,
}

impl Row for MetadataPartition {
    open spec fn row(&self, o: Out, version: i16, flexible: bool) -> Out {
        let o = o.i16(0).i32(self.partition as int).i32(self.leader as int);
        let o = if version >= 7 {
            o.i32(-1)
        } else {
            o
        };
        let o = message::rows_out(o, self.replicas@, version, flexible);
        let o = message::rows_out(o, self.isr@, version, flexible);
        let o = if version >= 5 {
            o.array_len(flexible, 0)
        } else {
            o
        };
        o.end(flexible)
    }

    fn put(&self, out: &mut BytesMut, version: i16, flexible: bool) {
        put_i16(out, 0);
        put_i32(out, self.partition);
        put_i32(out, self.leader);
        if version >= 7 {
            put_i32(out, -1);
        }
        put_rows(out, self.replicas.as_slice(), version, flexible);
        put_rows(out, self.isr.as_slice(), version, flexible);
        if version >= 5 {
            put_array_len(out, flexible, 0);
        }
        put_end(out, flexible);
    }
}

/// A topic in a Metadata response.
#[derive(Debug)]
pub struct MetadataTopic {
    pub name: String,
    pub topic_id: u32,
    pub partitions: Vec<MetadataPartition>,
    /// The authorized operations.
    pub ops: i32,
}

impl Row for MetadataTopic {
    open spec fn row(&self, o: Out, version: i16, flexible: bool) -> Out {
        let o = o.i16(0).text(flexible, self.name@);
        let o = if version >= 10 {
            o.raw(topic_id::topic_uuid(self.topic_id))
        } else {
            o
        };
        let o = if version >= 1 {
            o.byte(0)
        } else {
            o
        };
        let o = message::rows_out(o, self.partitions@, version, flexible);
        let o = if version >= 8 {
            o.i32(self.ops as int)
        } else {
            o
        };
        o.end(flexible)
    }

    fn put(&self, out: &mut BytesMut, version: i16, flexible: bool) {
        put_i16(out, 0);
        put_text(out, flexible, self.name.as_str());
        if version >= 10 {
            let uuid = uuid_for_numeric_id(self.topic_id);
            topic_id::write_uuid(out, &uuid);
        }
        if version >= 1 {
            put_u8(out, 0);
        }
        put_rows(out, self.partitions.as_slice(), version, flexible);
        if version >= 8 {
            put_i32(out, self.ops);
        }
        put_end(out, flexible);
    }
}

/// The fields of a Metadata response in front of its topics: throttle time (v3+),
/// brokers, cluster id (v2+), controller (v1+).
pub open spec fn metadata_head_out(
    o: Out,
    version: i16,
    controller_id: i32,
    nodes: Seq<BrokerNode>,
) -> Out {
    let flexible = version >= 9;
    let o = if version >= 3 {
        o.i32(0)
    } else {
        o
    };
    let o = message::rows_out(o, nodes, version, flexible);
    let o = if version >= 2 {
        o.opt_text(flexible, Some(KAFKA_CLUSTER_ID@))
    } else {
        o
    };
    if version >= 1 {
        o.i32(controller_id as int)
    } else {
        o
    }
}

/// A Metadata response. TopicIds that no topic has are told of in the flexible
/// versions. The authorized operations of the cluster are told in v8–10.
pub open spec fn metadata_out(
    o: Out,
    version: i16,
    controller_id: i32,
    nodes: Seq<BrokerNode>,
    topics: Seq<MetadataTopic>,
    unknown: Seq<UnknownTopic>,
    cluster_ops: i32,
) -> Out {
    let flexible = version >= 9;
    let o = metadata_head_out(o, version, controller_id, nodes);
    let o = if flexible {
        message::each_row(
            message::each_row(
                o.compact_len(topics.len() + unknown.len()),
                topics,
                version,
                flexible,
            ),
            unknown,
            version,
            flexible,
        )
    } else {
        message::rows_out(o, topics, version, flexible)
    };
    let o = if 8 <= version <= 10 {
        o.i32(cluster_ops as int)
    } else {
        o
    };
    let o = if version >= 13 {
        o.i16(0)
    } else {
        o
    };
    o.end(flexible)
}

/// Write brokers + cluster framing for Metadata; the topic array follows.
pub fn write_metadata_brokers_header(
    out: &mut BytesMut,
    version: i16,
    controller_id: i32,
    nodes: &Vec<BrokerNode>,
)
    ensures
        final(out)@ == metadata_head_out(old(out)@, version, controller_id, nodes@),
{
    let flexible = version >= 9;
    if version >= 3 {
        put_i32(out, 0);
    }
    put_rows(out, nodes.as_slice(), version, flexible);
    if version >= 2 {
        put_opt_text(out, flexible, Some(KAFKA_CLUSTER_ID));
    }
    if version >= 1 {
        put_i32(out, controller_id);
    }
}

/// Writes a Metadata response.
pub fn encode_metadata(
    out: &mut BytesMut,
    version: i16,
    controller_id: i32,
    nodes: &Vec<BrokerNode>,
    topics: &Vec<MetadataTopic>,
    unknown: &Vec<UnknownTopic>,
    cluster_ops: i32,
)
    requires
        topics@.len() + unknown@.len() <= usize::MAX,
    ensures
        final(out)@ == metadata_out(
            old(out)@,
            version,
            controller_id,
            nodes@,
            topics@,
            unknown@,
            cluster_ops,
        ),
{
    let flexible = version >= 9;
    write_metadata_brokers_header(out, version, controller_id, nodes);
    if flexible {
        put_compact_array_len(out, topics.len() + unknown.len());
        put_each(out, topics.as_slice(), version, flexible);
        put_each(out, unknown.as_slice(), version, flexible);
    } else {
        put_rows(out, topics.as_slice(), version, flexible);
    }
    if 8 <= version && version <= 10 {
        put_i32(out, cluster_ops);
    }
    if version >= 13 {
        put_i16(out, 0);
    }
    put_end(out, flexible);
}

/// The topics that the client is told of, in order: those that it may describe.
/// `allowed[i]`: the client may describe topic `i`.
pub open spec fn visible_metadata_of(topics: Seq<MetadataTopic>, allowed: Seq<bool>) -> Seq<
    MetadataTopic,
>
    decreases topics.len(),
{
    if topics.len() == 0 || topics.len() != allowed.len() {
        Seq::empty()
    } else {
        let before = visible_metadata_of(topics.drop_last(), allowed.drop_last());
        if allowed.last() {
            before.push(topics.last())
        } else {
            before
        }
    }
}

/// The topics that the client is told of.
pub fn visible_metadata(topics: Vec<MetadataTopic>, allowed: &Vec<bool>) -> (r: Vec<MetadataTopic>)
    requires
        allowed@.len() == topics@.len(),
    ensures
        r@ == visible_metadata_of(topics@, allowed@),
{
    let ghost given = topics@;
    let mut r: Vec<MetadataTopic> = Vec::new();
    let n: usize = allowed.len();
    let mut i: usize = 0;
    assert(given.take(0).len() == 0);
    for t in it: topics.into_iter()
        invariant
            it.seq() == given,
            allowed@.len() == given.len(),
            n == given.len(),
            i == it.index(),
            r@ == visible_metadata_of(given.take(i as int), allowed@.take(i as int)),
    {
        assert(given.take(i + 1).drop_last() =~= given.take(i as int));
        assert(allowed@.take(i + 1).drop_last() =~= allowed@.take(i as int));
        if allowed[i] {
            r.push(t);
        }
        i += 1;
    }
    assert(given.take(given.len() as int) =~= given);
    assert(allowed@.take(allowed@.len() as int) =~= allowed@);
    r
}

/// A topic is told of if and only if the client may describe it: every topic that is told
/// of is one of those that may be described, and each of these is told of.
pub proof fn law_visible(topics: Seq<MetadataTopic>, allowed: Seq<bool>)
    requires
        allowed.len() == topics.len(),
    ensures
        forall|t: MetadataTopic| #[trigger]
            visible_metadata_of(topics, allowed).contains(t) <==> exists|i: int|
                0 <= i < topics.len() && #[trigger] topics[i] == t && allowed[i],
        (forall|i: int| 0 <= i < allowed.len() ==> #[trigger] allowed[i]) ==> visible_metadata_of(
            topics,
            allowed,
        ) == topics,
        (forall|i: int| 0 <= i < allowed.len() ==> !(#[trigger] allowed[i]))
            ==> visible_metadata_of(topics, allowed).len() == 0,
    decreases topics.len(),
{
    let seen = visible_metadata_of(topics, allowed);
    if topics.len() > 0 {
        let n = topics.len() - 1;
        let init = topics.drop_last();
        let flags = allowed.drop_last();
        let before = visible_metadata_of(init, flags);
        law_visible(init, flags);
        assert(forall|i: int| 0 <= i < n ==> #[trigger] init[i] == topics[i]);
        assert(forall|i: int| 0 <= i < n ==> #[trigger] flags[i] == allowed[i]);
        assert forall|t: MetadataTopic| #[trigger] seen.contains(t) <==> exists|i: int|
            0 <= i < topics.len() && #[trigger] topics[i] == t && allowed[i] by {
            if seen.contains(t) {
                let k = choose|k: int| 0 <= k < seen.len() && seen[k] == t;
                if k < before.len() {
                    assert(before[k] == t);
                    assert(before.contains(t));
                    let i = choose|i: int|
                        0 <= i < init.len() && #[trigger] init[i] == t && flags[i];
                    assert(topics[i] == t && allowed[i]);
                } else {
                    assert(topics[n] == t && allowed[n]);
                }
            }
            if exists|i: int| 0 <= i < topics.len() && #[trigger] topics[i] == t && allowed[i] {
                let i = choose|i: int|
                    0 <= i < topics.len() && #[trigger] topics[i] == t && allowed[i];
                if i < n {
                    assert(init[i] == t && flags[i]);
                    assert(before.contains(t));
                    let k = choose|k: int| 0 <= k < before.len() && before[k] == t;
                    assert(seen[k] == t);
                } else {
                    assert(seen[before.len() as int] == t);
                }
            }
        }
        if forall|i: int| 0 <= i < allowed.len() ==> #[trigger] allowed[i] {
            assert(allowed[n]);
            assert(init.push(topics[n]) =~= topics);
        }
        if forall|i: int| 0 <= i < allowed.len() ==> !(#[trigger] allowed[i]) {
            assert(!allowed[n]);
        }
    } else {
        assert(seen =~= topics);
    }
}

/// Metadata for a client that may not describe the cluster: no brokers and no topics.
pub fn write_metadata_empty(out: &mut BytesMut, version: i16, include_cluster_ops: bool)
    ensures
        final(out)@ == metadata_out(
            old(out)@,
            version,
            (-1int) as i32,
            Seq::empty(),
            Seq::empty(),
            Seq::empty(),
            if include_cluster_ops {
                0
            } else {
                AUTH_OPS_OMITTED
            },
        ),
{
    let nodes: Vec<BrokerNode> = Vec::new();
    let topics: Vec<MetadataTopic> = Vec::new();
    let unknown: Vec<UnknownTopic> = Vec::new();
    let ops: i32 = if include_cluster_ops {
        0
    } else {
        AUTH_OPS_OMITTED
    };
    encode_metadata(out, version, -1, &nodes, &topics, &unknown, ops);
    assert(nodes@ =~= Seq::empty());
    assert(topics@ =~= Seq::empty());
    assert(unknown@ =~= Seq::empty());
}

/// What a Metadata request is answered with.
#[derive(Debug)]
pub enum MetadataPlan {
    /// The client may not describe the cluster.
    Denied,
    /// All topics.
    All,
    /// The topics with these names, and word of these TopicIds.
    Listed(Vec<String>, Vec<UnknownTopic>),
}

/// What a [`MetadataPlan`] says.
pub enum MetadataPlanView {
    Denied,
    All,
    Listed(Seq<Seq<char>>, Seq<Seq<u8>>),
}

impl DeepView for MetadataPlan {
    type V = MetadataPlanView;

    open spec fn deep_view(&self) -> MetadataPlanView {
        match *self {
            MetadataPlan::Denied => MetadataPlanView::Denied,
            MetadataPlan::All => MetadataPlanView::All,
            MetadataPlan::Listed(n, u) => MetadataPlanView::Listed(n.deep_view(), u.deep_view()),
        }
    }
}

/// What a Metadata request is answered with. Only who asks for all topics has to be
/// allowed to describe the cluster.
pub open spec fn metadata_plan_of(
    catalog: Seq<(Seq<char>, u32)>,
    version: i16,
    topics: Option<Seq<MetadataEntryView>>,
    allowed: bool,
) -> MetadataPlanView {
    match topics {
        None => if allowed {
            MetadataPlanView::All
        } else {
            MetadataPlanView::Denied
        },
        Some(entries) => MetadataPlanView::Listed(
            named_topics(catalog, version, entries),
            unknown_uuids(catalog, version, entries),
        ),
    }
}

/// Decides what a Metadata request is answered with.
pub fn metadata_plan(
    catalog: &Catalog,
    version: i16,
    topics: &Option<Vec<MetadataEntry>>,
    allowed: bool,
) -> (p: MetadataPlan)
    ensures
        p.deep_view() == metadata_plan_of(
            catalog.deep_view(),
            version,
            topics.deep_view(),
            allowed,
        ),
{
    match topics {
        None => if allowed {
            MetadataPlan::All
        } else {
            MetadataPlan::Denied
        },
        Some(entries) => {
            let (names, unknown) = resolve_metadata_topics(catalog, version, entries);
            MetadataPlan::Listed(names, unknown)
        },
    }
}

/// A FindCoordinator response for a single key (v0–3).
pub open spec fn coordinator_out(
    o: Out,
    version: i16,
    error: i16,
    message: Option<Seq<char>>,
    node_id: i32,
    host: Seq<char>,
    port: i32,
) -> Out {
    let flexible = version >= 3;
    let o = if version >= 1 {
        o.i32(0)
    } else {
        o
    };
    let o = o.i16(error as int);
    let o = if version >= 1 {
        o.opt_text(flexible, message)
    } else {
        o
    };
    o.i32(node_id as int).text(flexible, host).i32(port as int).end(flexible)
}

fn put_coordinator(
    out: &mut BytesMut,
    version: i16,
    error: i16,
    message: Option<&str>,
    node_id: i32,
    host: &str,
    port: i32,
)
    ensures
        final(out)@ == coordinator_out(
            old(out)@,
            version,
            error,
            message.deep_view(),
            node_id,
            host@,
            port,
        ),
{
    let flexible = version >= 3;
    if version >= 1 {
        put_i32(out, 0);
    }
    put_i16(out, error);
    if version >= 1 {
        put_opt_text(out, flexible, message);
    }
    put_i32(out, node_id);
    put_text(out, flexible, host);
    put_i32(out, port);
    put_end(out, flexible);
}

/// Writes the refusal of a FindCoordinator request (v0–3).
pub fn write_find_coordinator_error(
    out: &mut BytesMut,
    version: i16,
    code: KafkaErrorCode,
    msg: Option<&str>,
)
    ensures
        final(out)@ == coordinator_out(
            old(out)@,
            version,
            code.code(),
            msg.deep_view(),
            (-1int) as i32,
            ""@,
            (-1int) as i32,
        ),
{
    put_coordinator(out, version, code.as_i16(), msg, -1, "", -1);
}

/// A FindCoordinator response (v4+): the same answer for each of the keys.
pub open spec fn coordinators_out(
    o: Out,
    keys: Seq<Seq<char>>,
    node_id: i32,
    host: Seq<char>,
    port: i32,
    error: i16,
    message: Option<Seq<char>>,
) -> Out {
    o.i32(0).compact_len(keys.len()).each(
        keys,
        |o: Out, key: Seq<char>|
            o.compact(key).i32(node_id as int).compact(host).i32(port as int).i16(
                error as int,
            ).compact_nullable(message).tags(),
    ).tags()
}

fn put_coordinators(
    out: &mut BytesMut,
    keys: &Vec<String>,
    node_id: i32,
    host: &str,
    port: i32,
    error: i16,
    message: Option<&str>,
)
    ensures
        final(out)@ == coordinators_out(
            old(out)@,
            keys.deep_view(),
            node_id,
            host@,
            port,
            error,
            message.deep_view(),
        ),
{
    let ghost m = message.deep_view();
    let ghost f = |o: Out, key: Seq<char>|
        o.compact(key).i32(node_id as int).compact(host@).i32(port as int).i16(
            error as int,
        ).compact_nullable(m).tags();
    let ghost ks = keys.deep_view();
    put_i32(out, 0);
    put_compact_array_len(out, keys.len());
    let ghost start = out@;
    let mut i: usize = 0;
    proof {
        wire::lemma_each_all(start, ks, f);
    }
    while i < keys.len()
        invariant
            i <= keys@.len(),
            ks == keys.deep_view(),
            m == message.deep_view(),
            f == |o: Out, key: Seq<char>|
                o.compact(key).i32(node_id as int).compact(host@).i32(port as int).i16(
                    error as int,
                ).compact_nullable(m).tags(),
            out@ == start.each(ks.take(i as int), f),
        decreases keys@.len() - i,
    {
        put_compact_string(out, keys[i].as_str());
        put_i32(out, node_id);
        put_compact_string(out, host);
        put_i32(out, port);
        put_i16(out, error);
        put_compact_nullable_string(out, message);
        put_empty_tag_buffer(out);
        proof {
            assert(ks[i as int] == keys@[i as int]@);
            wire::lemma_each_step(start, ks, i as int, f);
        }
        i += 1;
    }
    proof {
        wire::lemma_each_all(start, ks, f);
    }
    put_empty_tag_buffer(out);
}

/// The refusal of a FindCoordinator request (v4+): each key is refused.
pub open spec fn coordinators_refused(o: Out, keys: Seq<Seq<char>>, message: Seq<char>) -> Out {
    coordinators_out(
        o,
        keys,
        (-1int) as i32,
        ""@,
        (-1int) as i32,
        KafkaErrorCode::InvalidRequest.code(),
        Some(message),
    )
}

/// Writes the refusal of a FindCoordinator request (v4+): each key is refused.
pub fn write_find_coordinator_v4_error(out: &mut BytesMut, keys: &Vec<String>, msg: &str)
    ensures
        final(out)@ == coordinators_refused(old(out)@, keys.deep_view(), msg@),
{
    put_coordinators(out, keys, -1, "", -1, KafkaErrorCode::InvalidRequest.as_i16(), Some(msg));
}

/// The broker that coordinates everything: the first one of the cluster, or this one.
pub fn coordinator(nodes: &Vec<BrokerNode>, own: &BrokerNode) -> (n: BrokerNode)
    ensures
        ({
            let c = if nodes@.len() > 0 {
                nodes@[0]
            } else {
                *own
            };
            n.id == c.id && n.host@ == c.host@ && n.port == c.port
        }),
{
    if nodes.len() > 0 {
        BrokerNode { id: nodes[0].id, host: nodes[0].host.clone(), port: nodes[0].port }
    } else {
        BrokerNode { id: own.id, host: own.host.clone(), port: own.port }
    }
}

/// The answer to a FindCoordinator request (v4+). Groups and transactions are
/// coordinated here; keys of any other type are refused.
pub open spec fn find_coordinators_of(
    b: Src,
    o: Out,
    version: i16,
    node_id: i32,
    host: Seq<char>,
    port: i32,
) -> Out {
    let keys = message::loose_list_at::<String>(b.skip(1), version, true).0;
    if b.left() < 1 {
        coordinators_refused(o, Seq::empty(), "missing key_type"@)
    } else if b.i8() != 0 && b.i8() != 1 {
        coordinators_refused(o, keys, "unsupported key_type"@)
    } else {
        coordinators_out(o, keys, node_id, host, port, 0, None)
    }
}

/// The answer to a FindCoordinator request.
pub open spec fn find_coordinator_of(
    b: Src,
    o: Out,
    version: i16,
    node_id: i32,
    host: Seq<char>,
    port: i32,
) -> Out {
    let k = codec::text_at(b, version >= 3);
    let refused = |message: Seq<char>|
        coordinator_out(
            o,
            version,
            KafkaErrorCode::InvalidRequest.code(),
            Some(message),
            (-1int) as i32,
            ""@,
            (-1int) as i32,
        );
    if version >= 4 {
        find_coordinators_of(b, o, version, node_id, host, port)
    } else if k.value is Err {
        refused("invalid key"@)
    } else if version >= 1 && k.rest.left() < 1 {
        refused("missing key_type"@)
    } else if version >= 1 && k.rest.i8() != 0 && k.rest.i8() != 1 {
        refused("unsupported key_type"@)
    } else {
        coordinator_out(o, version, 0, None, node_id, host, port)
    }
}

/// Answers a FindCoordinator request: the coordinator is `node`.
pub fn encode_find_coordinator(
    src: &mut Bytes,
    out: &mut BytesMut,
    version: i16,
    node: &BrokerNode,
)
    ensures
        final(out)@ == find_coordinator_of(
            old(src)@,
            old(out)@,
            version,
            node.id,
            node.host@,
            node.port,
        ),
{
    if version >= 4 {
        if remaining(src) < 1 {
            let none: Vec<String> = Vec::new();
            assert(none.deep_view() =~= Seq::empty());
            write_find_coordinator_v4_error(out, &none, "missing key_type");
            return;
        }
        let key_type: i8 = get_i8(src);
        let keys = read_loose_list::<String>(src, version, true);
        if key_type != 0 && key_type != 1 {
            write_find_coordinator_v4_error(out, &keys, "unsupported key_type");
            return;
        }
        put_coordinators(out, &keys, node.id, node.host.as_str(), node.port, 0, None);
        return;
    }
    match read_string(src, version >= 3) {
        Err(_) => {
            write_find_coordinator_error(
                out,
                version,
                KafkaErrorCode::InvalidRequest,
                Some("invalid key"),
            );
            return;
        },
        Ok(_) => {},
    }
    if version >= 1 {
        if remaining(src) < 1 {
            write_find_coordinator_error(
                out,
                version,
                KafkaErrorCode::InvalidRequest,
                Some("missing key_type"),
            );
            return;
        }
        let key_type: i8 = get_i8(src);
        if key_type != 0 && key_type != 1 {
            write_find_coordinator_error(
                out,
                version,
                KafkaErrorCode::InvalidRequest,
                Some("unsupported key_type"),
            );
            return;
        }
    }
    put_coordinator(out, version, 0, None, node.id, node.host.as_str(), node.port);
}

} // verus!
