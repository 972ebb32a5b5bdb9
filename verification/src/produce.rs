//! Produce: record sets on their way into partition logs.

use bytes::{Bytes, BytesMut};
use vstd::prelude::*;

use crate::api;
use crate::api::{map_idempotent_error, KafkaErrorCode};
use crate::buffer::{
    buf_slice, bytes_slice, get_i16, get_i32, new_buf, no_bytes, put_i16, put_i32, put_i64,
    put_slice, remaining, Contents,
};
use crate::codec;
use crate::codec::{
    get_bytes, get_compact_bytes, put_array_len, put_compact_nullable_string, put_compact_string,
    put_empty_tag_buffer, put_end, put_opt_text, put_unsigned_varint, read_nullable_string,
};
use crate::list_offsets::LookupError;
use crate::message;
use crate::message::{drop_tags, put_each, read_list, Element, Read, Row};
use crate::records;
use crate::records::{decode_produce_batches, BatchView, DecodedRecordBatch};
use crate::topic_id;
use crate::topic_id::{read_wire_id, write_wire_id, TopicWireId, WireView};
use crate::wire;
use crate::wire::{Out, Src, Step};

verus! {

/// A partition of a Produce request.
#[derive(Debug)]
pub struct ProducePart {
    pub partition: i32,
    /// The record set; nothing where it could not be read.
    pub records: Option<Bytes>,
}

/// What a [`ProducePart`] says.
#[verifier::ext_equal]
pub struct ProducePartView {
    pub partition: i32,
    pub records: Option<Seq<u8>>,
}

impl DeepView for ProducePart {
    type V = ProducePartView;

    open spec fn deep_view(&self) -> ProducePartView {
        ProducePartView { partition: self.partition, records: codec::blob_view(self.records) }
    }
}

/// The record set of a partition: null counts as empty.
pub open spec fn record_set_of(
    r: core::result::Result<Option<Seq<u8>>, Seq<char>>,
) -> Option<Seq<u8>> {
    match r {
        Ok(Some(s)) => Some(s),
        Ok(None) => Some(Seq::empty()),
        Err(_) => None,
    }
}

impl Element for ProducePart {
    open spec fn at(b: Src, version: i16, flexible: bool) -> Step<ProducePartView> {
        if b.left() < 4 {
            wire::stop(b)
        } else {
            let p = if flexible {
                b.skip(4).compact_blob()
            } else {
                b.skip(4).blob()
            };
            wire::keep(
                ProducePartView {
                    partition: b.i32() as i32,
                    records: record_set_of(p.value),
                },
                message::after_tags(p.rest, flexible),
            )
        }
    }

    fn read(src: &mut Bytes, version: i16, flexible: bool) -> (r: Read<ProducePart>) {
        if remaining(src) < 4 {
            return Read::End;
        }
        let partition: i32 = get_i32(src);
        let got = if flexible {
            get_compact_bytes(src)
        } else {
            get_bytes(src)
        };
        let records = match got {
            Ok(Some(b)) => Some(b),
            Ok(None) => Some(no_bytes()),
            Err(_) => None,
        };
        drop_tags(src, flexible);
        Read::Item(ProducePart { partition, records })
    }
}

/// A topic of a Produce request.
#[derive(Debug)]
pub struct ProduceTopic {
    pub wire: TopicWireId,
    /// How many partitions the request says that there are.
    pub declared: usize,
    pub parts: Vec<ProducePart>,
}

/// What a [`ProduceTopic`] says.
#[verifier::ext_equal]
pub struct ProduceTopicView {
    pub wire: WireView,
    pub declared: nat,
    pub parts: Seq<ProducePartView>,
}

impl DeepView for ProduceTopic {
    type V = ProduceTopicView;

    open spec fn deep_view(&self) -> ProduceTopicView {
        ProduceTopicView {
            wire: self.wire.deep_view(),
            declared: self.declared as nat,
            parts: self.parts.deep_view(),
        }
    }
}

/// A number of elements that has to fit a signed number of 32 bits: what does not
/// fit counts as zero.
pub open spec fn count32(n: usize) -> nat {
    if n as nat % 0x1_0000_0000 <= i32::MAX {
        n as nat % 0x1_0000_0000
    } else {
        0
    }
}

/// The number of elements of an array, where a null array is refused.
pub open spec fn count32_at(b: Src, flexible: bool) -> wire::Parsed<nat> {
    let c = message::count_at(b, flexible);
    match c.value {
        Ok(Some(n)) => wire::done(count32(n), c.rest),
        Ok(None) => wire::fail("null array"@, c.rest),
        Err(m) => wire::fail(m, c.rest),
    }
}

/// Reads the number of elements of an array, where a null array is refused.
pub(crate) fn read_count32(src: &mut Bytes, flexible: bool) -> (r: Option<usize>)
    ensures
        match (r, count32_at(old(src)@, flexible).value) {
            (Some(n), Ok(w)) => n == w,
            (None, Err(_)) => true,
            _ => false,
        },
        final(src)@ == count32_at(old(src)@, flexible).rest,
{
    match message::read_count(src, flexible) {
        Ok(Some(n)) => {
            let m: u64 = n as u64 % 0x1_0000_0000;
            if m <= 0x7fff_ffff {
                Some(m as usize)
            } else {
                Some(0)
            }
        },
        _ => None,
    }
}

impl Element for ProduceTopic {
    open spec fn at(b: Src, version: i16, flexible: bool) -> Step<ProduceTopicView> {
        let p = topic_id::wire_at(b, flexible, version >= 13);
        match p.value {
            Err(_) => wire::stop(p.rest),
            Ok(w) => {
                let c = count32_at(p.rest, flexible);
                match c.value {
                    Err(_) => Step {
                        item: Some(
                            ProduceTopicView { wire: w, declared: 0, parts: Seq::empty() },
                        ),
                        more: false,
                        rest: c.rest,
                    },
                    Ok(n) => {
                        let l = message::list_at::<ProducePart>(c.rest, n, version, flexible);
                        wire::keep(
                            ProduceTopicView { wire: w, declared: n, parts: l.0 },
                            message::after_tags(l.1, flexible),
                        )
                    },
                }
            },
        }
    }

    fn read(src: &mut Bytes, version: i16, flexible: bool) -> (r: Read<ProduceTopic>) {
        let w = match read_wire_id(src, flexible, version >= 13) {
            Err(_) => return Read::End,
            Ok(w) => w,
        };
        match read_count32(src, flexible) {
            None => {
                let parts: Vec<ProducePart> = Vec::new();
                assert(parts.deep_view() =~= Seq::empty());
                Read::Last(ProduceTopic { wire: w, declared: 0, parts })
            },
            Some(n) => {
                let parts = read_list::<ProducePart>(src, n, version, flexible);
                drop_tags(src, flexible);
                Read::Item(ProduceTopic { wire: w, declared: n, parts })
            },
        }
    }
}

/// A Produce request.
#[derive(Debug)]
pub struct ProduceRequest {
    /// Which acknowledgements the client waits for.
    pub acks: i16,
    /// How many topics the request says that there are.
    pub declared: usize,
    pub topics: Vec<ProduceTopic>,
}

/// What a [`ProduceRequest`] says.
#[verifier::ext_equal]
pub struct ProduceView {
    pub acks: i16,
    pub declared: nat,
    pub topics: Seq<ProduceTopicView>,
}

impl DeepView for ProduceRequest {
    type V = ProduceView;

    open spec fn deep_view(&self) -> ProduceView {
        ProduceView {
            acks: self.acks,
            declared: self.declared as nat,
            topics: self.topics.deep_view(),
        }
    }
}

/// A Produce request, or nothing where it cannot be read as far as its topics.
pub open spec fn produce_at(b: Src, version: i16) -> Option<ProduceView> {
    let flexible = version >= 9;
    let txn = codec::opt_text_at(b, flexible);
    let r = if version >= 3 {
        txn.rest
    } else {
        b
    };
    if version >= 3 && txn.value is Err {
        None
    } else if r.left() < 6 {
        None
    } else {
        let c = count32_at(r.skip(2).skip(4), flexible);
        match c.value {
            Err(_) => None,
            Ok(n) => Some(
                ProduceView {
                    acks: r.i16() as i16,
                    declared: n,
                    topics: message::list_at::<ProduceTopic>(c.rest, n, version, flexible).0,
                },
            ),
        }
    }
}

/// Reads a Produce request. The transactional id (v3+) and the timeout are not looked
/// at.
pub fn decode_produce(src: &mut Bytes, version: i16) -> (r: Option<ProduceRequest>)
    ensures
        r.deep_view() == produce_at(old(src)@, version),
{
    let flexible = version >= 9;
    if version >= 3 {
        match read_nullable_string(src, flexible) {
            Err(_) => return None,
            Ok(_) => {},
        }
    }
    if remaining(src) < 6 {
        return None;
    }
    let acks: i16 = get_i16(src);
    let _timeout_ms: i32 = get_i32(src);
    match read_count32(src, flexible) {
        None => None,
        Some(n) => {
            let topics = read_list::<ProduceTopic>(src, n, version, flexible);
            Some(ProduceRequest { acks, declared: n, topics })
        },
    }
}

/// The acknowledgements that the log is asked for: 255 for all replicas, 0 for none,
/// 1 for the leader.
pub open spec fn acks_of(acks: i16) -> u8 {
    if acks == -1 {
        255
    } else if acks == 0 {
        0
    } else {
        1
    }
}

/// The acknowledgements that the log is asked for.
pub fn volant_acks(acks: i16) -> (a: u8)
    ensures
        a == acks_of(acks),
{
    match acks {
        -1 => 255,
        0 => 0,
        _ => 1,
    }
}

/// How long, in milliseconds, an append may wait for its acknowledgements.
pub const ACKS_WAIT_MS: u64 = 5000;

/// How long, in milliseconds, an append waits: where all replicas have to acknowledge it.
pub fn acks_wait_ms(acks: u8) -> (w: Option<u64>)
    ensures
        w == (if acks == 255 {
            Some(ACKS_WAIT_MS)
        } else {
            None
        }),
{
    if acks == 255 {
        Some(ACKS_WAIT_MS)
    } else {
        None
    }
}

/// The first offset of a log, or -1 where it is not known.
pub fn produce_log_start_offset(
    rows: &core::result::Result<Option<u64>, LookupError>,
) -> (o: i64)
    ensures
        o == (match *rows {
            Ok(Some(e)) => e as i64,
            _ => -1i64 as i64,
        }),
{
    match rows {
        Ok(Some(e)) => *e as i64,
        _ => -1,
    }
}

/// Whether an error is one that the current leader is told with.
pub open spec fn is_leader_error(error: i16) -> bool {
    error == KafkaErrorCode::NotLeaderForPartition.code() || error
        == KafkaErrorCode::FencedLeaderEpoch.code()
}

/// Whether this partition error should carry the current leader.
pub fn kip951_leader_error(error: i16) -> (b: bool)
    ensures
        b == is_leader_error(error),
{
    error == KafkaErrorCode::NotLeaderForPartition.as_i16() || error
        == KafkaErrorCode::FencedLeaderEpoch.as_i16()
}

/// Leader id and epoch for the error `error`, from the partition's metadata.
pub fn resolve_current_leader(error: i16, leader: Option<(i32, i32)>) -> (r: Option<(i32, i32)>)
    ensures
        r == (if is_leader_error(error) {
            leader
        } else {
            None
        }),
{
    if kip951_leader_error(error) {
        leader
    } else {
        None
    }
}

/// The body of a LeaderIdAndEpoch field.
pub open spec fn leader_body(leader_id: i32, leader_epoch: i32) -> Seq<u8> {
    Out::new().i32(leader_id as int).i32(leader_epoch as int).tags().bytes
}

/// Encode LeaderIdAndEpoch body (no outer tag framing).
pub fn encode_leader_id_and_epoch(leader_id: i32, leader_epoch: i32) -> (body: BytesMut)
    ensures
        body@.bytes == leader_body(leader_id, leader_epoch),
{
    let mut body = new_buf();
    put_i32(&mut body, leader_id);
    put_i32(&mut body, leader_epoch);
    put_empty_tag_buffer(&mut body);
    body
}

/// The length of a tagged field: 32 bits of it are kept.
pub open spec fn tag_len(n: nat) -> nat {
    n % 0x1_0000_0000
}

/// A tagged field.
pub open spec fn tag_out(o: Out, tag: u32, value: Seq<u8>) -> Out {
    o.uvarint(tag as nat).uvarint(tag_len(value.len())).raw(value)
}

fn put_tag(out: &mut BytesMut, tag: u32, value: &[u8])
    ensures
        final(out)@ == tag_out(old(out)@, tag, value@),
{
    put_unsigned_varint(out, tag);
    put_unsigned_varint(out, (value.len() as u64 % 0x1_0000_0000) as u32);
    put_slice(out, value);
}

/// Write a single tagged field TAG_BUFFER.
pub fn put_single_tag(out: &mut BytesMut, tag: u32, value: &[u8])
    ensures
        final(out)@ == tag_out(old(out)@.uvarint(1), tag, value@),
{
    put_unsigned_varint(out, 1);
    put_tag(out, tag, value);
}

/// A broker that a client is pointed to.
#[derive(Debug)]
pub struct NodeEndpoint {
    pub id: i32,
    pub host: String,
    pub port: i32,
    pub rack: Option<String>,
}

impl Row for NodeEndpoint {
    open spec fn row(&self, o: Out, version: i16, flexible: bool) -> Out {
        o.i32(self.id as int).compact(self.host@).i32(self.port as int).compact_nullable(
            self.rack.deep_view(),
        ).tags()
    }

    fn put(&self, out: &mut BytesMut, version: i16, flexible: bool) {
        put_i32(out, self.id);
        put_compact_string(out, self.host.as_str());
        put_i32(out, self.port);
        let rack: Option<&str> = match &self.rack {
            Some(r) => Some(r.as_str()),
            None => None,
        };
        put_compact_nullable_string(out, rack);
        put_empty_tag_buffer(out);
    }
}

/// The tag buffer with the endpoints of brokers.
pub open spec fn endpoints_out(o: Out, endpoints: Seq<NodeEndpoint>) -> Out {
    tag_out(
        o.uvarint(1),
        0u32,
        message::rows_out(Out::new(), endpoints, 0i16, true).bytes,
    )
}

/// Produce/Fetch NodeEndpoints tag.
pub fn put_node_endpoints_tag(out: &mut BytesMut, endpoints: &Vec<NodeEndpoint>)
    ensures
        final(out)@ == endpoints_out(old(out)@, endpoints@),
{
    let mut value = new_buf();
    message::put_rows(&mut value, endpoints.as_slice(), 0, true);
    put_single_tag(out, 0, buf_slice(&value));
}

/// The numbers of `ids`, each where it first stands.
pub open spec fn first_of_each(ids: Seq<i32>) -> Seq<i32>
    decreases ids.len(),
{
    if ids.len() == 0 {
        Seq::empty()
    } else {
        let seen = first_of_each(ids.drop_last());
        if seen.contains(ids.last()) {
            seen
        } else {
            seen.push(ids.last())
        }
    }
}

/// Collect the leaders whose endpoints are told: each once, in the order in which they
/// are first referenced.
pub fn distinct_leaders(leader_ids: &Vec<i32>) -> (out: Vec<i32>)
    ensures
        out@ == first_of_each(leader_ids@),
{
    let mut out: Vec<i32> = Vec::new();
    let mut i: usize = 0;
    assert(leader_ids@.take(0).len() == 0);
    while i < leader_ids.len()
        invariant
            i <= leader_ids@.len(),
            out@ == first_of_each(leader_ids@.take(i as int)),
        decreases leader_ids@.len() - i,
    {
        let id: i32 = leader_ids[i];
        let mut seen = false;
        let mut j: usize = 0;
        while j < out.len()
            invariant
                j <= out@.len(),
                seen == (exists|k: int| 0 <= k < j && out@[k] == id),
            decreases out@.len() - j,
        {
            if out[j] == id {
                seen = true;
            }
            j += 1;
        }
        proof {
            assert(leader_ids@.take(i + 1).drop_last() =~= leader_ids@.take(i as int));
            assert(seen == out@.contains(id));
        }
        if !seen {
            out.push(id);
        }
        i += 1;
    }
    assert(leader_ids@.take(leader_ids@.len() as int) =~= leader_ids@);
    out
}

/// Where the brokers of the cluster are.
#[derive(Debug)]
pub struct Addresses {
    /// Id, host and port of each broker.
    pub brokers: Vec<(u32, String, u16)>,
    /// This broker's own host.
    pub host: String,
    /// This broker's own port.
    pub port: u16,
    /// The racks of the brokers that have one.
    pub racks: Vec<(u32, String)>,
}

/// The address of the first broker with the id `id`, or else the one given.
pub open spec fn address_of(
    brokers: Seq<(u32, Seq<char>, u16)>,
    id: i32,
    host: Seq<char>,
    port: u16,
) -> (Seq<char>, i32)
    decreases brokers.len(),
{
    if brokers.len() == 0 {
        (host, port as i32)
    } else if brokers[0].0 as i32 == id {
        (brokers[0].1, brokers[0].2 as i32)
    } else {
        address_of(brokers.skip(1), id, host, port)
    }
}

/// The rack of the broker with the id `id`, if it has one.
pub open spec fn rack_of(racks: Seq<(u32, Seq<char>)>, id: u32) -> Option<Seq<char>>
    decreases racks.len(),
{
    if racks.len() == 0 {
        None
    } else if racks[0].0 == id {
        Some(racks[0].1)
    } else {
        rack_of(racks.skip(1), id)
    }
}

impl Addresses {
    /// The host and port of the broker `id`; this broker's own where it is not known.
    pub fn address(&self, id: i32) -> (r: (String, i32))
        ensures
            (r.0@, r.1) == address_of(self.brokers.deep_view(), id, self.host@, self.port),
    {
        let ghost all = self.brokers.deep_view();
        let mut i: usize = 0;
        assert(all.skip(0) =~= all);
        while i < self.brokers.len()
            invariant
                i <= self.brokers@.len(),
                all == self.brokers.deep_view(),
                address_of(all, id, self.host@, self.port) == address_of(
                    all.skip(i as int),
                    id,
                    self.host@,
                    self.port,
                ),
            decreases self.brokers@.len() - i,
        {
            let ghost tail = all.skip(i as int);
            assert(tail[0] == all[i as int]);
            assert(tail.skip(1) =~= all.skip(i + 1));
            if self.brokers[i].0 as i32 == id {
                return (self.brokers[i].1.clone(), self.brokers[i].2 as i32);
            }
            i += 1;
        }
        (self.host.clone(), self.port as i32)
    }

    /// The rack of the broker `id`.
    pub fn rack(&self, id: u32) -> (r: Option<String>)
        ensures
            r.deep_view() == rack_of(self.racks.deep_view(), id),
    {
        let ghost all = self.racks.deep_view();
        let mut i: usize = 0;
        assert(all.skip(0) =~= all);
        while i < self.racks.len()
            invariant
                i <= self.racks@.len(),
                all == self.racks.deep_view(),
                rack_of(all, id) == rack_of(all.skip(i as int), id),
            decreases self.racks@.len() - i,
        {
            let ghost tail = all.skip(i as int);
            assert(tail[0] == all[i as int]);
            assert(tail.skip(1) =~= all.skip(i + 1));
            if self.racks[i].0 == id {
                return Some(self.racks[i].1.clone());
            }
            i += 1;
        }
        None
    }
}

/// Collect unique NodeEndpoints for leaders referenced by CurrentLeader ids.
pub fn node_endpoints_for_leaders(addresses: &Addresses, leader_ids: &Vec<i32>) -> (out: Vec<
    NodeEndpoint,
>)
    ensures
        out@.len() == first_of_each(leader_ids@).len(),
        forall|i: int|
            0 <= i < out@.len() ==> {
                let id = first_of_each(leader_ids@)[i];
                &&& (#[trigger] out@[i]).id == id
                &&& (out@[i].host@, out@[i].port) == address_of(
                    addresses.brokers.deep_view(),
                    id,
                    addresses.host@,
                    addresses.port,
                )
                &&& out@[i].rack.deep_view() == rack_of(addresses.racks.deep_view(), id as u32)
            },
{
    let ids = distinct_leaders(leader_ids);
    let mut out: Vec<NodeEndpoint> = Vec::new();
    let mut i: usize = 0;
    while i < ids.len()
        invariant
            i <= ids@.len(),
            out@.len() == i,
            forall|j: int|
                0 <= j < i ==> {
                    &&& (#[trigger] out@[j]).id == ids@[j]
                    &&& (out@[j].host@, out@[j].port) == address_of(
                        addresses.brokers.deep_view(),
                        ids@[j],
                        addresses.host@,
                        addresses.port,
                    )
                    &&& out@[j].rack.deep_view() == rack_of(
                        addresses.racks.deep_view(),
                        ids@[j] as u32,
                    )
                },
        decreases ids@.len() - i,
    {
        let id: i32 = ids[i];
        let (host, port) = addresses.address(id);
        let rack = addresses.rack(id as u32);
        out.push(NodeEndpoint { id, host, port, rack });
        i += 1;
    }
    out
}

/// No leader is told twice, and every leader that is referenced is told.
pub proof fn law_distinct_leaders(ids: Seq<i32>)
    ensures
        forall|i: int, j: int|
            0 <= i < j < first_of_each(ids).len() ==> #[trigger] first_of_each(ids)[i]
                != #[trigger] first_of_each(ids)[j],
        forall|id: i32| #[trigger] ids.contains(id) ==> first_of_each(ids).contains(id),
    decreases ids.len(),
{
    if ids.len() > 0 {
        law_distinct_leaders(ids.drop_last());
        let seen = first_of_each(ids.drop_last());
        assert forall|id: i32| #[trigger] ids.contains(id) implies first_of_each(ids).contains(
            id,
        ) by {
            if id != ids.last() {
                let k = choose|k: int| 0 <= k < ids.len() && ids[k] == id;
                assert(ids.drop_last()[k] == id);
                assert(ids.drop_last().contains(id));
                let m = choose|m: int| 0 <= m < seen.len() && seen[m] == id;
                assert(first_of_each(ids)[m] == id);
            } else if !seen.contains(id) {
                assert(first_of_each(ids)[seen.len() as int] == id);
            }
        }
    }
}

/// The answer for a partition.
#[derive(Debug, Clone, Copy)]
pub struct ProduceRow {
    pub partition: i32,
    pub error: i16,
    pub base_offset: i64,
    pub log_start_offset: i64,
    /// Id and epoch of the current leader, where the client is told (v10+).
    pub current_leader: Option<(i32, i32)>,
}

impl Row for ProduceRow {
    open spec fn row(&self, o: Out, version: i16, flexible: bool) -> Out {
        let o = o.i32(self.partition as int).i16(self.error as int).i64(self.base_offset as int);
        let o = if version >= 2 {
            o.i64(-1)
        } else {
            o
        };
        let o = if version >= 5 {
            o.i64(self.log_start_offset as int)
        } else {
            o
        };
        let o = if version >= 8 {
            o.array_len(flexible, 0).opt_text(flexible, None)
        } else {
            o
        };
        match self.current_leader {
            Some(l) if flexible && version >= 10 => tag_out(
                o.uvarint(1),
                0u32,
                leader_body(l.0, l.1),
            ),
            _ => o.end(flexible),
        }
    }

    fn put(&self, out: &mut BytesMut, version: i16, flexible: bool) {
        put_i32(out, self.partition);
        put_i16(out, self.error);
        put_i64(out, self.base_offset);
        if version >= 2 {
            put_i64(out, -1);
        }
        if version >= 5 {
            put_i64(out, self.log_start_offset);
        }
        if version >= 8 {
            put_array_len(out, flexible, 0);
            put_opt_text(out, flexible, None);
        }
        if flexible {
            if version >= 10 {
                if let Some((leader_id, leader_epoch)) = self.current_leader {
                    let body = encode_leader_id_and_epoch(leader_id, leader_epoch);
                    put_single_tag(out, 0, buf_slice(&body));
                    return;
                }
            }
            put_empty_tag_buffer(out);
        }
    }
}

/// Write one ProduceResponse partition entry (classic v0–8 / flexible v9+).
///
/// Returns `true` when the current leader was written (then the response ends with
/// the endpoints of the leaders).
pub fn put_produce_partition_response(out: &mut BytesMut, version: i16, row: &ProduceRow) -> (wrote:
    bool)
    ensures
        final(out)@ == row.row(old(out)@, version, version >= 9),
        wrote == (version >= 10 && row.current_leader is Some),
{
    row.put(out, version, version >= 9);
    version >= 10 && row.current_leader.is_some()
}

/// What is to be done with a partition of a request.
#[derive(Debug)]
pub enum ProducePlan {
    /// The answer is settled.
    Answer(ProduceRow),
    /// There is nothing to append: only the first offset of the log is told.
    Empty,
    /// The batches are to be appended.
    Append(Vec<DecodedRecordBatch>),
}

/// What a [`ProducePlan`] says.
pub enum ProducePlanView {
    Answer(ProduceRow),
    Empty,
    Append(Seq<BatchView>),
}

impl DeepView for ProducePlan {
    type V = ProducePlanView;

    open spec fn deep_view(&self) -> ProducePlanView {
        match *self {
            ProducePlan::Answer(r) => ProducePlanView::Answer(r),
            ProducePlan::Empty => ProducePlanView::Empty,
            ProducePlan::Append(b) => ProducePlanView::Append(b.deep_view()),
        }
    }
}

/// A partition that is refused.
pub open spec fn refused(partition: i32, error: i16, leader: Option<(i32, i32)>) -> ProduceRow {
    ProduceRow {
        partition,
        error,
        base_offset: -1i64 as i64,
        log_start_offset: -1i64 as i64,
        current_leader: leader,
    }
}

/// A partition that is refused.
pub fn refuse(partition: i32, error: i16, leader: Option<(i32, i32)>) -> (r: ProduceRow)
    ensures
        r == refused(partition, error, leader),
{
    ProduceRow {
        partition,
        error,
        base_offset: -1,
        log_start_offset: -1,
        current_leader: leader,
    }
}

/// No batch holds a message.
pub open spec fn all_empty(batches: Seq<BatchView>) -> bool {
    forall|i: int| 0 <= i < batches.len() ==> (#[trigger] batches[i]).messages.len() == 0
}

/// What is to be done with a partition. `known`: the topic is one that the broker can
/// name. `allowed`: the client may write to it.
pub open spec fn produce_plan_of(
    part: ProducePartView,
    known: bool,
    allowed: bool,
) -> ProducePlanView {
    match part.records {
        None => ProducePlanView::Answer(
            refused(part.partition, KafkaErrorCode::InvalidMessage.code(), None),
        ),
        Some(data) => if !known {
            ProducePlanView::Answer(
                refused(part.partition, KafkaErrorCode::UnknownTopicId.code(), None),
            )
        } else if !allowed {
            ProducePlanView::Answer(
                refused(part.partition, KafkaErrorCode::TopicAuthorizationFailed.code(), None),
            )
        } else {
            match records::record_set(data) {
                Err(_) => ProducePlanView::Answer(
                    refused(part.partition, KafkaErrorCode::CorruptMessage.code(), None),
                ),
                Ok(batches) => if all_empty(batches) {
                    ProducePlanView::Empty
                } else {
                    ProducePlanView::Append(batches)
                },
            }
        },
    }
}

fn none_has_messages(batches: &Vec<DecodedRecordBatch>) -> (b: bool)
    ensures
        b == all_empty(batches.deep_view()),
{
    let mut i: usize = 0;
    while i < batches.len()
        invariant
            i <= batches@.len(),
            forall|j: int| 0 <= j < i ==> (#[trigger] batches@[j]).messages@.len() == 0,
        decreases batches@.len() - i,
    {
        if batches[i].messages.len() != 0 {
            assert(batches.deep_view()[i as int].messages.len() != 0);
            return false;
        }
        i += 1;
    }
    assert forall|j: int| 0 <= j < batches.deep_view().len() implies (
    #[trigger] batches.deep_view()[j]).messages.len() == 0 by {
        assert(batches@[j].messages@.len() == 0);
    }
    true
}

/// Decides what is to be done with a partition of a request.
pub fn produce_plan(part: &ProducePart, known: bool, allowed: bool) -> (plan: ProducePlan)
    ensures
        plan.deep_view() == produce_plan_of(part.deep_view(), known, allowed),
{
    let data = match &part.records {
        None => {
            return ProducePlan::Answer(
                refuse(part.partition, KafkaErrorCode::InvalidMessage.as_i16(), None),
            );
        },
        Some(d) => d,
    };
    if !known {
        return ProducePlan::Answer(
            refuse(part.partition, KafkaErrorCode::UnknownTopicId.as_i16(), None),
        );
    }
    if !allowed {
        return ProducePlan::Answer(
            refuse(part.partition, KafkaErrorCode::TopicAuthorizationFailed.as_i16(), None),
        );
    }
    match decode_produce_batches(bytes_slice(data)) {
        Err(_) => ProducePlan::Answer(
            refuse(part.partition, KafkaErrorCode::CorruptMessage.as_i16(), None),
        ),
        Ok(batches) => if none_has_messages(&batches) {
            ProducePlan::Empty
        } else {
            ProducePlan::Append(batches)
        },
    }
}

/// The row for a partition whose records were appended, or not. `log_start` is the
/// first offset of the log, `leader` the leader that the cluster has for the partition.
pub open spec fn produce_row_of(
    version: i16,
    partition: i32,
    outcome: core::result::Result<i64, i16>,
    log_start: i64,
    leader: Option<(i32, i32)>,
) -> ProduceRow {
    match outcome {
        Ok(base) => ProduceRow {
            partition,
            error: 0,
            base_offset: base,
            log_start_offset: log_start,
            current_leader: None,
        },
        Err(code) => refused(
            partition,
            code,
            if version >= 10 && is_leader_error(code) {
                leader
            } else {
                None
            },
        ),
    }
}

/// The row for a partition whose records were appended, or not.
pub fn produce_row(
    version: i16,
    partition: i32,
    outcome: core::result::Result<i64, i16>,
    log_start: i64,
    leader: Option<(i32, i32)>,
) -> (r: ProduceRow)
    ensures
        r == produce_row_of(version, partition, outcome, log_start, leader),
{
    match outcome {
        Ok(base) => ProduceRow {
            partition,
            error: 0,
            base_offset: base,
            log_start_offset: log_start,
            current_leader: None,
        },
        Err(code) => {
            let told = if version >= 10 {
                resolve_current_leader(code, leader)
            } else {
                None
            };
            refuse(partition, code, told)
        },
    }
}

/// A topic of a Produce response. The number of partitions is the one that the request
/// declared.
#[derive(Debug)]
pub struct ProduceTopicOut {
    pub wire: TopicWireId,
    pub declared: usize,
    pub rows: Vec<ProduceRow>,
}

impl Row for ProduceTopicOut {
    open spec fn row(&self, o: Out, version: i16, flexible: bool) -> Out {
        message::each_row(
            topic_id::wire_id_out(o, flexible, self.wire.deep_view()).array_len(
                flexible,
                self.declared as nat,
            ),
            self.rows@,
            version,
            flexible,
        ).end(flexible)
    }

    fn put(&self, out: &mut BytesMut, version: i16, flexible: bool) {
        write_wire_id(out, flexible, &self.wire);
        put_array_len(out, flexible, self.declared);
        put_each(out, self.rows.as_slice(), version, flexible);
        put_end(out, flexible);
    }
}

/// The leaders that rows tell of, in order.
pub open spec fn row_leaders(rows: Seq<ProduceRow>) -> Seq<i32>
    decreases rows.len(),
{
    if rows.len() == 0 {
        Seq::empty()
    } else {
        match rows.last().current_leader {
            Some(l) => row_leaders(rows.drop_last()).push(l.0),
            None => row_leaders(rows.drop_last()),
        }
    }
}

/// The leaders that topics tell of, in order.
pub open spec fn leaders_of(topics: Seq<ProduceTopicOut>) -> Seq<i32>
    decreases topics.len(),
{
    if topics.len() == 0 {
        Seq::empty()
    } else {
        leaders_of(topics.drop_last()) + row_leaders(topics.last().rows@)
    }
}

/// The leaders that a Produce response tells of.
pub fn produce_leaders(topics: &Vec<ProduceTopicOut>) -> (ids: Vec<i32>)
    ensures
        ids@ == leaders_of(topics@),
{
    let mut ids: Vec<i32> = Vec::new();
    let mut i: usize = 0;
    while i < topics.len()
        invariant
            i <= topics@.len(),
            ids@ == leaders_of(topics@.take(i as int)),
        decreases topics@.len() - i,
    {
        let rows = &topics[i].rows;
        let ghost before = ids@;
        let mut k: usize = 0;
        assert(before + row_leaders(rows@.take(0)) =~= before);
        while k < rows.len()
            invariant
                k <= rows@.len(),
                ids@ == before + row_leaders(rows@.take(k as int)),
            decreases rows@.len() - k,
        {
            assert(rows@.take(k + 1).drop_last() =~= rows@.take(k as int));
            if let Some(l) = rows[k].current_leader {
                ids.push(l.0);
            }
            k += 1;
            assert(ids@ =~= before + row_leaders(rows@.take(k as int)));
        }
        assert(rows@.take(k as int) =~= rows@);
        assert(topics@.take(i + 1).drop_last() =~= topics@.take(i as int));
        i += 1;
    }
    assert(topics@.take(i as int) =~= topics@);
    ids
}

/// A Produce response: the topics, the throttle time (v1+), and the endpoints of the
/// leaders that are told (v10+).
pub open spec fn produce_out(
    o: Out,
    version: i16,
    declared: nat,
    topics: Seq<ProduceTopicOut>,
    endpoints: Seq<NodeEndpoint>,
) -> Out {
    let flexible = version >= 9;
    let o = message::each_row(o.array_len(flexible, declared), topics, version, flexible);
    let o = if version >= 1 {
        o.i32(0)
    } else {
        o
    };
    if version >= 10 && endpoints.len() > 0 {
        endpoints_out(o, endpoints)
    } else {
        o.end(flexible)
    }
}

/// Writes a Produce response.
pub fn encode_produce(
    out: &mut BytesMut,
    version: i16,
    declared: usize,
    topics: &Vec<ProduceTopicOut>,
    endpoints: &Vec<NodeEndpoint>,
)
    ensures
        final(out)@ == produce_out(old(out)@, version, declared as nat, topics@, endpoints@),
{
    let flexible = version >= 9;
    put_array_len(out, flexible, declared);
    put_each(out, topics.as_slice(), version, flexible);
    if version >= 1 {
        put_i32(out, 0);
    }
    if version >= 10 && endpoints.len() > 0 {
        put_node_endpoints_tag(out, endpoints);
    } else {
        put_end(out, flexible);
    }
}

/// Empty Produce response (no topics): the answer to a request that cannot be read.
pub fn put_produce_empty_response(out: &mut BytesMut, version: i16)
    ensures
        final(out)@ == produce_out(old(out)@, version, 0, Seq::empty(), Seq::empty()),
{
    let topics: Vec<ProduceTopicOut> = Vec::new();
    let endpoints: Vec<NodeEndpoint> = Vec::new();
    encode_produce(out, version, 0, &topics, &endpoints);
    assert(topics@ =~= Seq::empty());
    assert(endpoints@ =~= Seq::empty());
}

/// What the idempotence check says of a batch.
#[derive(Debug, Clone, Copy, PartialEq, Eq, Structural)]
pub enum IdempotentCheck {
    /// The batch is new.
    Accept {
        /// Where it was appended, if the check appended it.
        base_offset: u64,
    },
    /// The batch was appended before.
    Duplicate { base_offset: u64 },
    /// The batch is refused.
    Reject { error_code: u16 },
}

/// What is to be done with a batch.
#[derive(Debug, Clone, Copy, PartialEq, Eq, Structural)]
pub enum BatchAction {
    /// Nothing: it holds no message.
    Skip,
    /// It belongs to a transaction and is written through.
    Buffer { producer_id: u64, epoch: u16, base_sequence: i32 },
    /// It is checked for being a duplicate first.
    Check { producer_id: u64, epoch: u16, base_sequence: i32, count: u32 },
    /// It is appended.
    Append,
}

/// What is to be done with a batch. `transactional`: its producer has a transaction.
pub open spec fn batch_action_of(batch: BatchView, transactional: bool) -> BatchAction {
    let p = batch.producer;
    if batch.messages.len() == 0 {
        BatchAction::Skip
    } else if p.producer_id >= 0 && p.base_sequence >= 0 {
        if transactional {
            BatchAction::Buffer {
                producer_id: p.producer_id as u64,
                epoch: p.producer_epoch as u16,
                base_sequence: p.base_sequence,
            }
        } else {
            BatchAction::Check {
                producer_id: p.producer_id as u64,
                epoch: p.producer_epoch as u16,
                base_sequence: p.base_sequence,
                count: batch.messages.len() as u32,
            }
        }
    } else {
        BatchAction::Append
    }
}

/// The producer that has to be asked for whether it has a transaction: that of a batch with
/// idempotent fields.
pub fn producer_to_ask(batch: &DecodedRecordBatch) -> (id: Option<u64>)
    ensures
        id == (if batch.producer.producer_id >= 0 && batch.producer.base_sequence >= 0 {
            Some(batch.producer.producer_id as u64)
        } else {
            None
        }),
{
    if batch.producer.is_idempotent() {
        Some(batch.producer.producer_id as u64)
    } else {
        None
    }
}

/// Decides what is to be done with a batch.
pub fn batch_action(batch: &DecodedRecordBatch, transactional: bool) -> (a: BatchAction)
    ensures
        a == batch_action_of(batch.deep_view(), transactional),
{
    if batch.messages.len() == 0 {
        return BatchAction::Skip;
    }
    let producer = batch.producer;
    if producer.is_idempotent() {
        let producer_id: u64 = producer.producer_id as u64;
        let epoch: u16 = producer.producer_epoch as u16;
        if transactional {
            BatchAction::Buffer { producer_id, epoch, base_sequence: producer.base_sequence }
        } else {
            BatchAction::Check {
                producer_id,
                epoch,
                base_sequence: producer.base_sequence,
                count: batch.messages.len() as u32,
            }
        }
    } else {
        BatchAction::Append
    }
}

/// What came of a batch: the offset that it starts at, if it has one, or the code that
/// the partition is refused with.
pub type BatchOutcome = core::result::Result<Option<i64>, i16>;

/// What came of a batch that was checked, or written through. A batch that is new is
/// only then at an offset when it was written through.
pub open spec fn checked(c: IdempotentCheck, buffered: bool) -> BatchOutcome {
    match c {
        IdempotentCheck::Accept { base_offset } => Ok(
            if buffered {
                Some(base_offset as i64)
            } else {
                None
            },
        ),
        IdempotentCheck::Duplicate { base_offset } => Ok(Some(base_offset as i64)),
        IdempotentCheck::Reject { error_code } => Err(api::idempotent_error(error_code)),
    }
}

/// What came of a batch that was written through.
pub fn after_buffer(c: IdempotentCheck) -> (r: BatchOutcome)
    ensures
        r == checked(c, true),
{
    match c {
        IdempotentCheck::Accept { base_offset } => Ok(Some(base_offset as i64)),
        IdempotentCheck::Duplicate { base_offset } => Ok(Some(base_offset as i64)),
        IdempotentCheck::Reject { error_code } => Err(map_idempotent_error(error_code)),
    }
}

/// What came of a batch that was checked. Nothing has come of a batch that is new: it
/// is to be appended.
pub fn after_check(c: IdempotentCheck) -> (r: BatchOutcome)
    ensures
        r == checked(c, false),
{
    match c {
        IdempotentCheck::Accept { .. } => Ok(None),
        IdempotentCheck::Duplicate { base_offset } => Ok(Some(base_offset as i64)),
        IdempotentCheck::Reject { error_code } => Err(map_idempotent_error(error_code)),
    }
}

/// What an append was acknowledged with, where that is not success.
#[derive(Debug, Clone, Copy, PartialEq, Eq, Structural)]
pub enum AckError {
    /// This broker does not lead the partition.
    NotLeader,
    /// Anything else.
    Other,
}

/// The code for an error that an append was acknowledged with.
pub open spec fn ack_error(err: AckError) -> i16 {
    match err {
        AckError::NotLeader => KafkaErrorCode::NotLeaderForPartition.code(),
        AckError::Other => KafkaErrorCode::Unknown.code(),
    }
}

/// The code for an error that an append was acknowledged with.
pub fn map_produce_ack_error(err: AckError) -> (c: i16)
    ensures
        c == ack_error(err),
{
    match err {
        AckError::NotLeader => KafkaErrorCode::NotLeaderForPartition.as_i16(),
        AckError::Other => KafkaErrorCode::Unknown.as_i16(),
    }
}

/// How an append went: the offset of its first record and the error that it was
/// acknowledged with, if any of these, or why there was no append.
pub type Append = core::result::Result<(Option<u64>, Option<AckError>), LookupError>;

/// What came of an append.
pub open spec fn appended(r: Append) -> BatchOutcome {
    match r {
        Err(e) => Err(e.code()),
        Ok(a) => match a.1 {
            Some(err) => Err(ack_error(err)),
            None => Ok(
                Some(
                    match a.0 {
                        Some(o) => o as i64,
                        None => 0,
                    },
                ),
            ),
        },
    }
}

/// What came of an append.
pub fn after_append(r: Append) -> (o: BatchOutcome)
    ensures
        o == appended(r),
{
    match r {
        Err(e) => Err(e.as_i16()),
        Ok((first, err)) => match err {
            Some(e) => Err(map_produce_ack_error(e)),
            None => match first {
                Some(offset) => Ok(Some(offset as i64)),
                None => Ok(Some(0)),
            },
        },
    }
}

/// The base offset of a partition, from what came of its batches: that of the first
/// batch that has one, 0 where none has. The first batch that is refused refuses the
/// partition.
pub open spec fn base_of(outcomes: Seq<BatchOutcome>) -> core::result::Result<Option<i64>, i16>
    decreases outcomes.len(),
{
    if outcomes.len() == 0 {
        Ok(None)
    } else {
        match base_of(outcomes.drop_last()) {
            Err(c) => Err(c),
            Ok(first) => match outcomes.last() {
                Err(c) => Err(c),
                Ok(o) => Ok(
                    if first is Some {
                        first
                    } else {
                        o
                    },
                ),
            },
        }
    }
}

/// Appending the batches of a partition, one after the other.
#[derive(Debug, Clone, Copy)]
pub struct ProducePartition {
    first_base: Option<i64>,
    refused: Option<i16>,
}

impl View for ProducePartition {
    type V = core::result::Result<Option<i64>, i16>;

    closed spec fn view(&self) -> core::result::Result<Option<i64>, i16> {
        match self.refused {
            Some(c) => Err(c),
            None => Ok(self.first_base),
        }
    }
}

impl ProducePartition {
    /// No batch has been dealt with.
    pub fn new() -> (p: ProducePartition)
        ensures
            p@ == base_of(Seq::empty()),
    {
        ProducePartition { first_base: None, refused: None }
    }

    /// Whether the partition is refused: then no further batch is dealt with.
    pub fn is_refused(&self) -> (b: bool)
        ensures
            b == (self@ is Err),
    {
        self.refused.is_some()
    }

    /// The next batch that is dealt with, which leaves the list: none once the partition is
    /// refused.
    pub fn next_batch(&self, batches: &mut Vec<DecodedRecordBatch>) -> (b: Option<
        DecodedRecordBatch,
    >)
        ensures
            match b {
                Some(batch) => self@ is Ok && old(batches)@.len() > 0 && batch == old(batches)@[0]
                    && final(batches)@ == old(batches)@.skip(1),
                None => (self@ is Err || old(batches)@.len() == 0) && final(batches)@ == old(
                    batches,
                )@,
            },
    {
        if self.is_refused() || batches.len() == 0 {
            return None;
        }
        let batch = batches.remove(0);
        assert(batches@ =~= old(batches)@.skip(1));
        Some(batch)
    }

    /// Takes note of what came of the next batch.
    pub fn note(&mut self, o: BatchOutcome)
        ensures
            final(self)@ == (match old(self)@ {
                Err(c) => Err(c),
                Ok(first) => match o {
                    Err(c) => Err(c),
                    Ok(v) => Ok(
                        if first is Some {
                            first
                        } else {
                            v
                        },
                    ),
                },
            }),
    {
        if self.refused.is_none() {
            match o {
                Err(c) => {
                    self.refused = Some(c);
                },
                Ok(v) => {
                    if self.first_base.is_none() {
                        self.first_base = v;
                    }
                },
            }
        }
    }

    /// The base offset of the partition, or the code that it is refused with.
    pub fn outcome(&self) -> (r: core::result::Result<i64, i16>)
        ensures
            r == (match self@ {
                Err(c) => core::result::Result::<i64, i16>::Err(c),
                Ok(Some(b)) => core::result::Result::<i64, i16>::Ok(b),
                Ok(None) => core::result::Result::<i64, i16>::Ok(0i64),
            }),
    {
        match self.refused {
            Some(c) => Err(c),
            None => match self.first_base {
                Some(b) => Ok(b),
                None => Ok(0),
            },
        }
    }
}

/// The base offset and error of a partition, from what came of its batches.
pub fn produce_partition_batches(outcomes: &Vec<BatchOutcome>) -> (r: core::result::Result<i64, i16>)
    ensures
        r == (match base_of(outcomes@) {
            Err(c) => core::result::Result::<i64, i16>::Err(c),
            Ok(Some(b)) => core::result::Result::<i64, i16>::Ok(b),
            Ok(None) => core::result::Result::<i64, i16>::Ok(0i64),
        }),
{
    let mut p = ProducePartition::new();
    let mut i: usize = 0;
    assert(outcomes@.take(0) =~= Seq::empty());
    while i < outcomes.len()
        invariant
            i <= outcomes@.len(),
            p@ == base_of(outcomes@.take(i as int)),
        decreases outcomes@.len() - i,
    {
        assert(outcomes@.take(i + 1).drop_last() =~= outcomes@.take(i as int));
        p.note(outcomes[i]);
        i += 1;
    }
    assert(outcomes@.take(outcomes@.len() as int) =~= outcomes@);
    p.outcome()
}

/// Where one batch is refused, no later batch changes the answer.
pub proof fn law_refusal_stands(outcomes: Seq<BatchOutcome>, later: Seq<BatchOutcome>)
    ensures
        base_of(outcomes) is Err ==> base_of(outcomes + later) == base_of(outcomes),
    decreases later.len(),
{
    if later.len() > 0 {
        law_refusal_stands(outcomes, later.drop_last());
        assert((outcomes + later).drop_last() =~= outcomes + later.drop_last());
    } else {
        assert(outcomes + later =~= outcomes);
    }
}

/// Where every batch was dealt with, the base offset is that of the first one that has
/// an offset.
pub proof fn law_first_base(outcomes: Seq<BatchOutcome>, k: int)
    requires
        0 <= k < outcomes.len(),
        forall|i: int| 0 <= i < outcomes.len() ==> (#[trigger] outcomes[i]) is Ok,
        forall|i: int| 0 <= i < k ==> (#[trigger] outcomes[i])->Ok_0 is None,
        outcomes[k]->Ok_0 is Some,
    ensures
        base_of(outcomes) == outcomes[k],
    decreases outcomes.len(),
{
    let rest = outcomes.drop_last();
    assert forall|i: int| 0 <= i < rest.len() implies (#[trigger] rest[i]) is Ok by {
        assert(rest[i] == outcomes[i]);
    }
    if k < rest.len() {
        assert forall|i: int| 0 <= i < k implies (#[trigger] rest[i])->Ok_0 is None by {
            assert(rest[i] == outcomes[i]);
        }
        assert(rest[k] == outcomes[k]);
        law_first_base(rest, k);
    } else {
        assert forall|i: int| 0 <= i < rest.len() implies (#[trigger] rest[i])->Ok_0 is None by {
            assert(rest[i] == outcomes[i]);
        }
        lemma_no_base(rest);
    }
}

proof fn lemma_no_base(outcomes: Seq<BatchOutcome>)
    requires
        forall|i: int| 0 <= i < outcomes.len() ==> (#[trigger] outcomes[i]) is Ok,
        forall|i: int| 0 <= i < outcomes.len() ==> (#[trigger] outcomes[i])->Ok_0 is None,
    ensures
        base_of(outcomes) == BatchOutcome::Ok(None),
    decreases outcomes.len(),
{
    if outcomes.len() > 0 {
        let rest = outcomes.drop_last();
        assert forall|i: int| 0 <= i < rest.len() implies (#[trigger] rest[i]) is Ok
            && rest[i]->Ok_0 is None by {
            assert(rest[i] == outcomes[i]);
        }
        lemma_no_base(rest);
    }
}

} // verus!
