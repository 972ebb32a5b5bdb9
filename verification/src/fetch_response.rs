//! Fetch responses: what becomes of each partition that is asked for.

use bytes::{Bytes, BytesMut};
use vstd::prelude::*;

use crate::api::KafkaErrorCode;
use crate::buffer::{
    buf_len, buf_slice, bytes_slice, new_buf, put_i16, put_i32, put_i64, put_slice, put_u64,
    Contents,
};
use crate::codec::{put_array_len, put_bytes, put_compact_bytes, put_end, put_unsigned_varint};
use crate::compress::CompressionCodec;
use crate::fetch;
use crate::fetch::{FetchAsk, FetchAskView};
use crate::fetch_session::{SessionPartition, TopicsView};
use crate::list_offsets::LookupError;
use crate::message;
use crate::message::{put_rows, Row};
use crate::model::{Record, RecordView};
use crate::produce;
use crate::produce::{encode_leader_id_and_epoch, put_node_endpoints_tag, NodeEndpoint};
use crate::records;
use crate::records::{
    encode_message_set, encode_message_set_compressed, encode_record_batch,
    encode_record_batch_compressed, RecordBatchProducer,
};
use crate::session_manager;
use crate::session_manager::{FetchSessionManager, ManagerView};
use crate::table;
use crate::table::Key;
use crate::topic_id;
use crate::topic_id::{write_wire_id, TopicWireId, WireView};
use crate::wire;
use crate::wire::Out;

verus! {

/// The answer for a partition.
#[derive(Debug)]
pub struct FetchRow {
    pub partition: i32,
    pub error: i16,
    /// The high watermark.
    pub hwm: i64,
    /// The last stable offset.
    pub lso: i64,
    /// The first offset of the log.
    pub log_start: i64,
    /// Producer and first offset of each aborted transaction.
    pub aborted: Vec<(u64, u64)>,
    /// The record set.
    pub records: BytesMut,
    /// Id and epoch of the current leader, where the client is told.
    pub current_leader: Option<(i32, i32)>,
    /// The epoch and offset at which the client's log diverges.
    pub diverging: Option<(i32, i64)>,
    /// The replica to read from, or -1.
    pub preferred_read_replica: i32,
    /// Whether it is left out.
    pub omit: bool,
    /// Whether the session keeps the offsets that it tells.
    pub note_cache: bool,
}

/// What a [`FetchRow`] says.
#[verifier::ext_equal]
pub struct FetchRowView {
    pub partition: i32,
    pub error: i16,
    pub hwm: i64,
    pub lso: i64,
    pub log_start: i64,
    pub aborted: Seq<(u64, u64)>,
    pub records: Seq<u8>,
    pub current_leader: Option<(i32, i32)>,
    pub diverging: Option<(i32, i64)>,
    pub preferred_read_replica: i32,
    pub omit: bool,
    pub note_cache: bool,
}

impl DeepView for FetchRow {
    type V = FetchRowView;

    open spec fn deep_view(&self) -> FetchRowView {
        FetchRowView {
            partition: self.partition,
            error: self.error,
            hwm: self.hwm,
            lso: self.lso,
            log_start: self.log_start,
            aborted: self.aborted@,
            records: self.records@.bytes,
            current_leader: self.current_leader,
            diverging: self.diverging,
            preferred_read_replica: self.preferred_read_replica,
            omit: self.omit,
            note_cache: self.note_cache,
        }
    }
}

/// The body of a DivergingEpoch field.
pub open spec fn diverging_body(epoch: i32, end_offset: i64) -> Seq<u8> {
    Out::new().i32(epoch as int).i64(end_offset as int).bytes
}

/// Encode EpochEndOffset body for DivergingEpoch (tag 0): epoch + end_offset.
pub fn encode_diverging_epoch(epoch: i32, end_offset: i64) -> (body: BytesMut)
    ensures
        body@.bytes == diverging_body(epoch, end_offset),
{
    let mut body = new_buf();
    put_i32(&mut body, epoch);
    put_i64(&mut body, end_offset);
    body
}

/// A tagged field.
#[derive(Debug)]
pub struct Tag {
    pub tag: u32,
    pub value: BytesMut,
}

impl Row for Tag {
    open spec fn row(&self, o: Out, version: i16, flexible: bool) -> Out {
        produce::tag_out(o, self.tag, self.value@.bytes)
    }

    fn put(&self, out: &mut BytesMut, version: i16, flexible: bool) {
        put_unsigned_varint(out, self.tag);
        put_unsigned_varint(out, (buf_len(&self.value) as u64 % 0x1_0000_0000) as u32);
        put_slice(out, buf_slice(&self.value));
    }
}

/// A tag buffer.
pub open spec fn tags_out(o: Out, tags: Seq<Tag>) -> Out {
    message::each_row(o.uvarint(produce::tag_len(tags.len())), tags, 0i16, true)
}

/// Write a multi-tag TAG_BUFFER (tags must be sorted ascending by id).
pub fn put_tags(out: &mut BytesMut, tags: &Vec<Tag>)
    ensures
        final(out)@ == tags_out(old(out)@, tags@),
{
    put_unsigned_varint(out, (tags.len() as u64 % 0x1_0000_0000) as u32);
    message::put_each(out, tags.as_slice(), 0, true);
}

/// The tag buffer of a partition: where the log diverges, and who leads.
pub open spec fn row_tags(
    o: Out,
    diverging: Option<(i32, i64)>,
    leader: Option<(i32, i32)>,
) -> Out {
    match (diverging, leader) {
        (None, None) => o.uvarint(0),
        (Some(d), None) => produce::tag_out(o.uvarint(1), 0u32, diverging_body(d.0, d.1)),
        (None, Some(l)) => produce::tag_out(o.uvarint(1), 1u32, produce::leader_body(l.0, l.1)),
        (Some(d), Some(l)) => produce::tag_out(
            produce::tag_out(o.uvarint(2), 0u32, diverging_body(d.0, d.1)),
            1u32,
            produce::leader_body(l.0, l.1),
        ),
    }
}

fn put_row_tags(out: &mut BytesMut, diverging: Option<(i32, i64)>, leader: Option<(i32, i32)>)
    ensures
        final(out)@ == row_tags(old(out)@, diverging, leader),
{
    let mut tags: Vec<Tag> = Vec::new();
    if let Some((epoch, end)) = diverging {
        tags.push(Tag { tag: 0, value: encode_diverging_epoch(epoch, end) });
    }
    if let Some((leader_id, leader_epoch)) = leader {
        tags.push(Tag { tag: 1, value: encode_leader_id_and_epoch(leader_id, leader_epoch) });
    }
    put_tags(out, &tags);
    proof {
        let o = old(out)@.uvarint(produce::tag_len(tags@.len()));
        reveal_with_fuel(Out::each, 3);
        let f = |o: Out, r: Tag| r.row(o, 0i16, true);
        if tags@.len() == 2 {
            assert(tags@.drop_last() =~= seq![tags@[0]]);
            assert(seq![tags@[0]].drop_last() =~= Seq::empty());
        } else if tags@.len() == 1 {
            assert(tags@.drop_last() =~= Seq::empty());
        }
    }
}

/// An aborted transaction.
pub open spec fn aborted_out(o: Out, a: (u64, u64), flexible: bool) -> Out {
    o.i64(a.0 as int).i64(a.1 as int).end(flexible)
}

fn put_aborted(out: &mut BytesMut, aborted: &Vec<(u64, u64)>, flexible: bool)
    ensures
        final(out)@ == old(out)@.array_len(flexible, aborted@.len()).each(
            aborted@,
            |o: Out, a: (u64, u64)| aborted_out(o, a, flexible),
        ),
{
    let ghost f = |o: Out, a: (u64, u64)| aborted_out(o, a, flexible);
    put_array_len(out, flexible, aborted.len());
    let ghost start = out@;
    let mut i: usize = 0;
    proof {
        wire::lemma_each_all(start, aborted@, f);
    }
    while i < aborted.len()
        invariant
            i <= aborted@.len(),
            f == |o: Out, a: (u64, u64)| aborted_out(o, a, flexible),
            out@ == start.each(aborted@.take(i as int), f),
        decreases aborted@.len() - i,
    {
        let (producer_id, first) = aborted[i];
        put_u64(out, producer_id);
        put_u64(out, first);
        put_end(out, flexible);
        proof {
            wire::lemma_each_step(start, aborted@, i as int, f);
        }
        i += 1;
    }
    proof {
        wire::lemma_each_all(start, aborted@, f);
    }
}

/// A partition of a Fetch response: index, error, high watermark, last stable offset
/// (v4+), log start (v5+), aborted transactions (v4+), preferred replica (v11+),
/// records, tags (v12+). The offsets of a partition with an error are -1 unless the
/// log diverges.
pub open spec fn fetch_row_out(o: Out, version: i16, flexible: bool, r: FetchRowView) -> Out {
    let told = r.error == 0 || r.diverging is Some;
    let o = o.i32(r.partition as int).i16(r.error as int).i64(r.hwm as int);
    let o = if version >= 4 {
        o.i64(
            if told {
                r.lso as int
            } else {
                -1
            },
        )
    } else {
        o
    };
    let o = if version >= 5 {
        o.i64(
            if told {
                r.log_start as int
            } else {
                -1
            },
        )
    } else {
        o
    };
    let o = if version >= 4 {
        o.array_len(flexible, r.aborted.len()).each(
            r.aborted,
            |o: Out, a: (u64, u64)| aborted_out(o, a, flexible),
        )
    } else {
        o
    };
    let o = if version >= 11 {
        o.i32(r.preferred_read_replica as int)
    } else {
        o
    };
    if flexible {
        row_tags(o.compact_blob(Some(r.records)), r.diverging, r.current_leader)
    } else {
        o.blob(Some(r.records))
    }
}

impl Row for FetchRow {
    open spec fn row(&self, o: Out, version: i16, flexible: bool) -> Out {
        fetch_row_out(o, version, flexible, self.deep_view())
    }

    fn put(&self, out: &mut BytesMut, version: i16, flexible: bool) {
        let told = self.error == 0 || self.diverging.is_some();
        put_i32(out, self.partition);
        put_i16(out, self.error);
        put_i64(out, self.hwm);
        if version >= 4 {
            put_i64(
                out,
                if told {
                    self.lso
                } else {
                    -1
                },
            );
        }
        if version >= 5 {
            put_i64(
                out,
                if told {
                    self.log_start
                } else {
                    -1
                },
            );
        }
        if version >= 4 {
            put_aborted(out, &self.aborted, flexible);
        }
        if version >= 11 {
            put_i32(out, self.preferred_read_replica);
        }
        if flexible {
            put_compact_bytes(out, Some(buf_slice(&self.records)));
            put_row_tags(out, self.diverging, self.current_leader);
        } else {
            put_bytes(out, Some(buf_slice(&self.records)));
        }
    }
}

/// Full Fetch partition response with explicit last stable offset, aborted list,
/// DivergingEpoch, and PreferredReadReplica.
pub fn put_fetch_partition_response_full(out: &mut BytesMut, version: i16, row: &FetchRow)
    ensures
        final(out)@ == fetch_row_out(old(out)@, version, version >= 12, row.deep_view()),
{
    row.put(out, version, version >= 12);
}

/// Write one FetchResponse partition entry (classic v0–11 / flexible v12): the last
/// stable offset is the high watermark, nothing was aborted, and nothing diverges.
pub fn put_fetch_partition_response(
    out: &mut BytesMut,
    version: i16,
    partition: i32,
    error: i16,
    hwm: i64,
    log_start: i64,
    records: BytesMut,
    current_leader: Option<(i32, i32)>,
)
    ensures
        final(out)@ == fetch_row_out(
            old(out)@,
            version,
            version >= 12,
            (FetchRowView {
                partition,
                error,
                hwm,
                lso: if error == 0 {
                    hwm
                } else {
                    -1i64 as i64
                },
                log_start,
                aborted: Seq::empty(),
                records: records@.bytes,
                current_leader,
                diverging: None,
                preferred_read_replica: (-1int) as i32,
                omit: false,
                note_cache: false,
            }),
        ),
{
    let aborted: Vec<(u64, u64)> = Vec::new();
    assert(aborted@ =~= Seq::empty());
    let row = FetchRow {
        partition,
        error,
        hwm,
        lso: if error == 0 {
            hwm
        } else {
            -1
        },
        log_start,
        aborted,
        records,
        current_leader,
        diverging: None,
        preferred_read_replica: -1,
        omit: false,
        note_cache: false,
    };
    row.put(out, version, version >= 12);
}

/// What a request asks for as a whole.
#[derive(Debug, Clone, Copy, PartialEq, Eq, Structural)]
pub struct FetchContext {
    pub version: i16,
    /// Negative for consumers.
    pub replica_id: i32,
    pub read_committed: bool,
    /// Whether partitions with nothing new are left out.
    pub omit_unchanged: bool,
}

/// What the cluster knows of a partition.
#[derive(Debug, Clone, Copy, PartialEq, Eq, Structural)]
pub struct FetchMeta {
    pub leader: i32,
    pub leader_epoch: i32,
    /// The high watermark.
    pub hwm: u64,
}

/// What comes next for a partition.
#[derive(Debug)]
pub enum FetchStep {
    /// It is answered.
    Done(FetchRow),
    /// The log is asked where the epoch of the client's last record ends.
    AskEpochEnd,
    /// The cluster is asked for a replica that the client should rather read from.
    AskPreferred,
    /// The log is read.
    AskRecords,
}

/// What a [`FetchStep`] says.
pub enum FetchStepView {
    Done(FetchRowView),
    AskEpochEnd,
    AskPreferred,
    AskRecords,
}

impl DeepView for FetchStep {
    type V = FetchStepView;

    open spec fn deep_view(&self) -> FetchStepView {
        match *self {
            FetchStep::Done(r) => FetchStepView::Done(r.deep_view()),
            FetchStep::AskEpochEnd => FetchStepView::AskEpochEnd,
            FetchStep::AskPreferred => FetchStepView::AskPreferred,
            FetchStep::AskRecords => FetchStepView::AskRecords,
        }
    }
}

/// A partition that is refused.
pub open spec fn fetch_refused(
    partition: i32,
    error: i16,
    leader: Option<(i32, i32)>,
) -> FetchRowView {
    FetchRowView {
        partition,
        error,
        hwm: -1i64 as i64,
        lso: -1i64 as i64,
        log_start: -1i64 as i64,
        aborted: Seq::empty(),
        records: Seq::empty(),
        current_leader: leader,
        diverging: None,
        preferred_read_replica: (-1int) as i32,
        omit: false,
        note_cache: false,
    }
}

/// A partition that is refused.
pub fn fetch_refuse(partition: i32, error: i16, leader: Option<(i32, i32)>) -> (r: FetchRow)
    ensures
        r.deep_view() == fetch_refused(partition, error, leader),
{
    let aborted: Vec<(u64, u64)> = Vec::new();
    assert(aborted@ =~= Seq::empty());
    FetchRow {
        partition,
        error,
        hwm: -1,
        lso: -1,
        log_start: -1,
        aborted,
        records: new_buf(),
        current_leader: leader,
        diverging: None,
        preferred_read_replica: -1,
        omit: false,
        note_cache: false,
    }
}

/// A partition whose log could not be read.
pub fn fetch_failed(partition: i32, e: LookupError) -> (r: FetchRow)
    ensures
        r.deep_view() == fetch_refused(partition, e.code(), None),
{
    fetch_refuse(partition, e.as_i16(), None)
}

/// What comes next once the log is known not to diverge. Only consumers that read
/// uncommitted data are sent to another replica.
pub open spec fn next_question(ctx: FetchContext) -> FetchStepView {
    if ctx.version >= 11 && ctx.replica_id < 0 && !ctx.read_committed {
        FetchStepView::AskPreferred
    } else {
        FetchStepView::AskRecords
    }
}

fn ask_next(ctx: &FetchContext) -> (s: FetchStep)
    ensures
        s.deep_view() == next_question(*ctx),
{
    if ctx.version >= 11 && ctx.replica_id < 0 && !ctx.read_committed {
        FetchStep::AskPreferred
    } else {
        FetchStep::AskRecords
    }
}

/// The first step for a partition. `known`: the topic is one that the broker can name.
/// `allowed`: the client may read it.
pub open spec fn fetch_start_of(
    ctx: FetchContext,
    partition: i32,
    part: SessionPartition,
    known: bool,
    allowed: bool,
    meta: Option<FetchMeta>,
) -> FetchStepView {
    let given = part.current_leader_epoch;
    if !known {
        FetchStepView::Done(fetch_refused(partition, KafkaErrorCode::UnknownTopicId.code(), None))
    } else if !allowed {
        FetchStepView::Done(
            fetch_refused(partition, KafkaErrorCode::TopicAuthorizationFailed.code(), None),
        )
    } else if given != -1 && meta is Some && meta->Some_0.leader_epoch >= 0 && given
        > meta->Some_0.leader_epoch {
        FetchStepView::Done(
            fetch_refused(partition, KafkaErrorCode::UnknownLeaderEpoch.code(), None),
        )
    } else if given != -1 && meta is Some && meta->Some_0.leader_epoch >= 0 && given
        < meta->Some_0.leader_epoch {
        FetchStepView::Done(
            fetch_refused(
                partition,
                KafkaErrorCode::FencedLeaderEpoch.code(),
                Some((meta->Some_0.leader, meta->Some_0.leader_epoch)),
            ),
        )
    } else if ctx.version >= 12 && part.last_fetched_epoch != -1 {
        FetchStepView::AskEpochEnd
    } else {
        next_question(ctx)
    }
}

/// The first step for a partition.
pub fn fetch_start(
    ctx: &FetchContext,
    partition: i32,
    part: &SessionPartition,
    known: bool,
    allowed: bool,
    meta: Option<FetchMeta>,
) -> (s: FetchStep)
    ensures
        s.deep_view() == fetch_start_of(*ctx, partition, *part, known, allowed, meta),
{
    if !known {
        return FetchStep::Done(
            fetch_refuse(partition, KafkaErrorCode::UnknownTopicId.as_i16(), None),
        );
    }
    if !allowed {
        return FetchStep::Done(
            fetch_refuse(partition, KafkaErrorCode::TopicAuthorizationFailed.as_i16(), None),
        );
    }
    if part.current_leader_epoch != -1 {
        if let Some(m) = meta {
            if m.leader_epoch >= 0 && part.current_leader_epoch > m.leader_epoch {
                return FetchStep::Done(
                    fetch_refuse(partition, KafkaErrorCode::UnknownLeaderEpoch.as_i16(), None),
                );
            }
            if m.leader_epoch >= 0 && part.current_leader_epoch < m.leader_epoch {
                return FetchStep::Done(
                    fetch_refuse(
                        partition,
                        KafkaErrorCode::FencedLeaderEpoch.as_i16(),
                        Some((m.leader, m.leader_epoch)),
                    ),
                );
            }
        }
    }
    if ctx.version >= 12 && part.last_fetched_epoch != -1 {
        FetchStep::AskEpochEnd
    } else {
        ask_next(ctx)
    }
}

/// The high watermark of a partition, or `otherwise` where the cluster does not know it.
pub open spec fn hwm_or(meta: Option<FetchMeta>, otherwise: i64) -> i64 {
    match meta {
        Some(m) => m.hwm as i64,
        None => otherwise,
    }
}

fn high_watermark(meta: Option<FetchMeta>, otherwise: i64) -> (h: i64)
    ensures
        h == hwm_or(meta, otherwise),
{
    match meta {
        Some(m) => m.hwm as i64,
        None => otherwise,
    }
}

/// The last stable offset that is told: before v4 it is the high watermark.
pub open spec fn told_lso(version: i16, hwm: i64, last_stable: u64) -> i64 {
    if version >= 4 {
        last_stable as i64
    } else {
        hwm
    }
}

/// The step after the log said where the epoch of the client's last record ends. A
/// client that is past that end has records that the log does not have.
pub open spec fn fetch_epoch_end_of(
    ctx: FetchContext,
    partition: i32,
    part: SessionPartition,
    meta: Option<FetchMeta>,
    end: Option<(i32, i64)>,
    last_stable: u64,
    log_start: i64,
) -> FetchStepView {
    match end {
        Some(e) if part.fetch_offset > e.1 => FetchStepView::Done(
            FetchRowView {
                error: KafkaErrorCode::OffsetOutOfRange.code(),
                hwm: hwm_or(meta, e.1),
                lso: told_lso(ctx.version, hwm_or(meta, e.1), last_stable),
                log_start,
                diverging: Some(e),
                ..fetch_refused(partition, 0, None)
            },
        ),
        _ => next_question(ctx),
    }
}

/// The step after the log said where the epoch of the client's last record ends.
pub fn fetch_epoch_end(
    ctx: &FetchContext,
    partition: i32,
    part: &SessionPartition,
    meta: Option<FetchMeta>,
    end: Option<(i32, i64)>,
    last_stable: u64,
    log_start: i64,
) -> (s: FetchStep)
    ensures
        s.deep_view() == fetch_epoch_end_of(
            *ctx,
            partition,
            *part,
            meta,
            end,
            last_stable,
            log_start,
        ),
{
    if let Some((epoch, end_offset)) = end {
        if part.fetch_offset > end_offset {
            let mut row = fetch_refuse(
                partition,
                KafkaErrorCode::OffsetOutOfRange.as_i16(),
                None,
            );
            row.hwm = high_watermark(meta, end_offset);
            row.lso = if ctx.version >= 4 {
                last_stable as i64
            } else {
                row.hwm
            };
            row.log_start = log_start;
            row.diverging = Some((epoch, end_offset));
            return FetchStep::Done(row);
        }
    }
    ask_next(ctx)
}

/// The step after the cluster said which replica the client should rather read from.
pub open spec fn fetch_preferred_of(
    ctx: FetchContext,
    partition: i32,
    meta: Option<FetchMeta>,
    preferred: Option<u32>,
    last_stable: u64,
    log_start: i64,
) -> FetchStepView {
    match preferred {
        Some(id) => FetchStepView::Done(
            FetchRowView {
                hwm: hwm_or(meta, 0),
                lso: told_lso(ctx.version, hwm_or(meta, 0), last_stable),
                log_start,
                preferred_read_replica: id as i32,
                ..fetch_refused(partition, 0, None)
            },
        ),
        None => FetchStepView::AskRecords,
    }
}

/// The step after the cluster said which replica the client should rather read from.
pub fn fetch_preferred(
    ctx: &FetchContext,
    partition: i32,
    meta: Option<FetchMeta>,
    preferred: Option<u32>,
    last_stable: u64,
    log_start: i64,
) -> (s: FetchStep)
    ensures
        s.deep_view() == fetch_preferred_of(
            *ctx,
            partition,
            meta,
            preferred,
            last_stable,
            log_start,
        ),
{
    match preferred {
        Some(id) => {
            let mut row = fetch_refuse(partition, 0, None);
            row.hwm = high_watermark(meta, 0);
            row.lso = if ctx.version >= 4 {
                last_stable as i64
            } else {
                row.hwm
            };
            row.log_start = log_start;
            row.preferred_read_replica = id as i32;
            FetchStep::Done(row)
        },
        None => FetchStep::AskRecords,
    }
}

/// The row for a partition whose log was read. `last`: the offset of the last record.
pub open spec fn fetch_records_of(
    ctx: FetchContext,
    partition: i32,
    part: SessionPartition,
    meta: Option<FetchMeta>,
    last: Option<u64>,
    set: Seq<u8>,
    last_stable: u64,
    log_start: i64,
    aborted: Seq<(u64, u64)>,
) -> FetchRowView {
    let past = match last {
        Some(o) => ((o as i64) + 1) as i64,
        None => part.fetch_offset,
    };
    let hwm = hwm_or(meta, past);
    let lso = told_lso(ctx.version, hwm, last_stable);
    FetchRowView {
        hwm,
        lso,
        log_start,
        aborted: if ctx.read_committed && ctx.version >= 4 {
            aborted
        } else {
            Seq::empty()
        },
        records: set,
        omit: ctx.omit_unchanged && part.unchanged(hwm, lso, set.len() == 0, 0),
        note_cache: true,
        ..fetch_refused(partition, 0, None)
    }
}

/// The row for a partition whose log was read.
pub fn fetch_records(
    ctx: &FetchContext,
    partition: i32,
    part: &SessionPartition,
    meta: Option<FetchMeta>,
    last: Option<u64>,
    set: BytesMut,
    last_stable: u64,
    log_start: i64,
    aborted: Vec<(u64, u64)>,
) -> (r: FetchRow)
    requires
        last matches Some(o) ==> o != i64::MAX,
    ensures
        r.deep_view() == fetch_records_of(
            *ctx,
            partition,
            *part,
            meta,
            last,
            set@.bytes,
            last_stable,
            log_start,
            aborted@,
        ),
{
    let past: i64 = match last {
        Some(o) => {
            let at: i64 = o as i64;
            assert(o != i64::MAX as u64 ==> o as i64 != i64::MAX) by (bit_vector);
            at + 1
        },
        None => part.fetch_offset,
    };
    let hwm: i64 = high_watermark(meta, past);
    let lso: i64 = if ctx.version >= 4 {
        last_stable as i64
    } else {
        hwm
    };
    let empty = buf_len(&set) == 0;
    let omit = ctx.omit_unchanged && part.should_omit_unchanged(hwm, lso, empty, 0);
    let mut row = fetch_refuse(partition, 0, None);
    row.hwm = hwm;
    row.lso = lso;
    row.log_start = log_start;
    row.records = set;
    row.omit = omit;
    row.note_cache = true;
    if ctx.read_committed && ctx.version >= 4 {
        row.aborted = aborted;
    }
    row
}

/// A partition that the client may not read, or does not know the leader of, is never
/// left out, and neither is one that has records.
pub proof fn law_omitted(
    ctx: FetchContext,
    partition: i32,
    part: SessionPartition,
    meta: Option<FetchMeta>,
    last: Option<u64>,
    set: Seq<u8>,
    last_stable: u64,
    log_start: i64,
    aborted: Seq<(u64, u64)>,
)
    ensures
        ({
            let r = fetch_records_of(
                ctx,
                partition,
                part,
                meta,
                last,
                set,
                last_stable,
                log_start,
                aborted,
            );
            r.omit ==> ctx.omit_unchanged && set.len() == 0 && part.last_hwm == Some(r.hwm)
                && part.last_lso == Some(r.lso)
        }),
        forall|error: i16, leader: Option<(i32, i32)>|
            !(#[trigger] fetch_refused(partition, error, leader)).omit,
{
}

/// How many messages are asked of the log for a partition with the given byte limit.
pub fn fetch_max_messages(max_bytes: usize) -> (n: usize)
    ensures
        n == (if max_bytes / 64 < 1 {
            1
        } else if max_bytes / 64 > 10_000 {
            10_000
        } else {
            (max_bytes / 64) as int
        }),
{
    let n: usize = max_bytes / 64;
    if n < 1 {
        1
    } else if n > 10_000 {
        10_000
    } else {
        n
    }
}

/// About how many bytes a record takes.
pub open spec fn approx_size(r: RecordView) -> int {
    r.value.len() + (match r.key {
        Some(k) => k.len() as int,
        None => 0,
    }) + 32
}

/// How many of the records from `i` on are returned, counted from the first one, with
/// `used` bytes taken so far. One record is returned whatever its size.
pub open spec fn selected_from(records: Seq<RecordView>, i: nat, used: int, max_bytes: int) -> nat
    decreases records.len() - i,
{
    if i >= records.len() || (i > 0 && used + approx_size(records[i as int]) > max_bytes) {
        i
    } else {
        selected_from(records, i + 1, used + approx_size(records[i as int]), max_bytes)
    }
}

/// How many of the records that were read are returned.
pub fn select_records(records: &Vec<Record>, max_bytes: usize) -> (n: usize)
    ensures
        n == selected_from(records.deep_view(), 0, 0, max_bytes as int),
        n <= records@.len(),
{
    let ghost rs = records.deep_view();
    let mut used: u128 = 0;
    let mut i: usize = 0;
    while i < records.len()
        invariant
            i <= records@.len(),
            rs == records.deep_view(),
            i == 0 ==> used == 0,
            i <= 1 ==> used <= 0x4_0000_0000_0000_0000,
            i > 1 ==> used <= max_bytes,
            selected_from(rs, 0, 0, max_bytes as int) == selected_from(
                rs,
                i as nat,
                used as int,
                max_bytes as int,
            ),
        decreases records@.len() - i,
    {
        let r = &records[i];
        assert(rs[i as int] == r.deep_view());
        let key_len: usize = match &r.key {
            Some(k) => bytes_slice(k).len(),
            None => 0,
        };
        let size: u128 = bytes_slice(&r.value).len() as u128 + key_len as u128 + 32;
        if i > 0 && used + size > max_bytes as u128 {
            return i;
        }
        used = used + size;
        i += 1;
    }
    i
}

/// The first record is always returned, and all the others that are returned fit.
pub proof fn law_selected(records: Seq<RecordView>, max_bytes: int)
    ensures
        selected_from(records, 0, 0, max_bytes) <= records.len(),
        records.len() > 0 ==> selected_from(records, 0, 0, max_bytes) >= 1,
{
    lemma_selected(records, 0, 0, max_bytes);
    if records.len() > 0 {
        lemma_selected(records, 1, approx_size(records[0]), max_bytes);
    }
}

proof fn lemma_selected(records: Seq<RecordView>, i: nat, used: int, max_bytes: int)
    requires
        i <= records.len(),
    ensures
        i <= selected_from(records, i, used, max_bytes) <= records.len(),
    decreases records.len() - i,
{
    if i < records.len() && !(i > 0 && used + approx_size(records[i as int]) > max_bytes) {
        lemma_selected(records, i + 1, used + approx_size(records[i as int]), max_bytes);
    }
}

/// What a log holds at an offset.
#[derive(Debug)]
pub enum LogEntry {
    /// A record.
    Data(Record),
    /// The marker of a transaction's end, as the control batch that clients are given.
    Control(Bytes),
}

/// What a [`LogEntry`] says.
pub enum LogEntryView {
    Data(RecordView),
    Control(Seq<u8>),
}

impl DeepView for LogEntry {
    type V = LogEntryView;

    open spec fn deep_view(&self) -> LogEntryView {
        match *self {
            LogEntry::Data(r) => LogEntryView::Data(r.deep_view()),
            LogEntry::Control(b) => LogEntryView::Control(b@.bytes),
        }
    }
}

/// The bytes of an outcome, or `plain` where it is a failure.
pub open spec fn or_plain(
    r: core::result::Result<Seq<u8>, Seq<char>>,
    plain: Seq<u8>,
) -> Seq<u8> {
    match r {
        Ok(b) => b,
        Err(_) => plain,
    }
}

/// The batch of a run of records without compression.
pub open spec fn plain_run(run: Seq<RecordView>) -> Seq<u8> {
    records::plain_batch_out(run, RecordBatchProducer::spec_none())
}

/// Whether `out` can be the batch of a run of records. Where they cannot be compressed
/// they are sent plain.
pub open spec fn is_run(run: Seq<RecordView>, codec: CompressionCodec, out: Seq<u8>) -> bool {
    if run.len() == 0 || codec == CompressionCodec::Uncompressed {
        out == plain_run(run)
    } else {
        exists|r: core::result::Result<Seq<u8>, Seq<char>>|
            {
                &&& #[trigger] records::is_record_batch(
                    run,
                    codec,
                    RecordBatchProducer::spec_none(),
                    r,
                )
                &&& out == or_plain(r, plain_run(run))
            }
    }
}

/// The records behind the last marker.
pub open spec fn open_run(entries: Seq<LogEntryView>) -> Seq<RecordView>
    decreases entries.len(),
{
    if entries.len() == 0 {
        Seq::empty()
    } else {
        match entries.last() {
            LogEntryView::Data(r) => open_run(entries.drop_last()).push(r),
            LogEntryView::Control(_) => Seq::empty(),
        }
    }
}

/// The runs of records before the markers, in order.
pub open spec fn closed_runs(entries: Seq<LogEntryView>) -> Seq<Seq<RecordView>>
    decreases entries.len(),
{
    if entries.len() == 0 {
        Seq::empty()
    } else {
        let init = entries.drop_last();
        match entries.last() {
            LogEntryView::Data(_) => closed_runs(init),
            LogEntryView::Control(_) => closed_runs(init).push(open_run(init)),
        }
    }
}

/// The markers among the entries.
pub open spec fn markers(entries: Seq<LogEntryView>) -> Seq<Seq<u8>>
    decreases entries.len(),
{
    if entries.len() == 0 {
        Seq::empty()
    } else {
        match entries.last() {
            LogEntryView::Data(_) => markers(entries.drop_last()),
            LogEntryView::Control(c) => markers(entries.drop_last()).push(c),
        }
    }
}

/// Whether each of the batches can be that of the run with its number.
pub open spec fn are_runs(
    runs: Seq<Seq<RecordView>>,
    codec: CompressionCodec,
    batches: Seq<Seq<u8>>,
) -> bool {
    &&& runs.len() == batches.len()
    &&& forall|k: int| 0 <= k < runs.len() ==> #[trigger] is_run(runs[k], codec, batches[k])
}

/// The batches, each with its marker behind it.
pub open spec fn woven(batches: Seq<Seq<u8>>, markers: Seq<Seq<u8>>) -> Seq<u8>
    decreases batches.len(),
{
    if batches.len() == 0 {
        Seq::empty()
    } else {
        woven(batches.drop_last(), markers.drop_last()) + batches.last() + markers.last()
    }
}

/// Whether `out` can be the entries as batches: runs of records, each marker between them.
pub open spec fn is_batches(
    entries: Seq<LogEntryView>,
    codec: CompressionCodec,
    out: Seq<u8>,
) -> bool {
    exists|batches: Seq<Seq<u8>>, last: Seq<u8>|
        {
            &&& #[trigger] are_runs(closed_runs(entries), codec, batches)
            &&& #[trigger] is_run(open_run(entries), codec, last)
            &&& out == woven(batches, markers(entries)) + last
        }
}

/// The records among the entries.
pub open spec fn data_of(entries: Seq<LogEntryView>) -> Seq<RecordView>
    decreases entries.len(),
{
    if entries.len() == 0 {
        Seq::empty()
    } else {
        match entries.last() {
            LogEntryView::Data(r) => data_of(entries.drop_last()).push(r),
            LogEntryView::Control(_) => data_of(entries.drop_last()),
        }
    }
}

/// Whether `out` can be the entries as a message set, which has no markers. Where they
/// cannot be compressed they are sent plain.
pub open spec fn is_set(
    entries: Seq<LogEntryView>,
    codec: CompressionCodec,
    out: Seq<u8>,
) -> bool {
    let data = data_of(entries);
    if data.len() == 0 || codec == CompressionCodec::Uncompressed {
        out == records::message_set_out(data)
    } else {
        exists|r: core::result::Result<Seq<u8>, Seq<char>>|
            {
                &&& #[trigger] records::is_message_set(data, codec, r)
                &&& out == or_plain(r, records::message_set_out(data))
            }
    }
}

/// Whether `out` can be what clients of a version are given for the entries.
pub open spec fn is_fetch_set(
    entries: Seq<LogEntryView>,
    version: i16,
    codec: CompressionCodec,
    out: Seq<u8>,
) -> bool {
    if version < 4 {
        is_set(entries, codec, out)
    } else {
        is_batches(entries, codec, out)
    }
}

/// Whether the records of each run can be encoded together: their times lie within 64 bits
/// of that of the first.
pub open spec fn times_close(entries: Seq<LogEntryView>) -> bool {
    &&& records::times_comparable(open_run(entries))
    &&& forall|k: int|
        0 <= k < closed_runs(entries).len() ==> records::times_comparable(
            #[trigger] closed_runs(entries)[k],
        )
}

/// The batch of a run of records: the compressed one, or a plain one where compressing
/// failed.
pub fn run_batch(run: &[Record], compressed: crate::error::Result<BytesMut>) -> (batch: BytesMut)
    requires
        records::times_comparable(run.deep_view()),
    ensures
        batch@.bytes == or_plain(records::outcome(compressed), plain_run(run.deep_view())),
{
    match compressed {
        Ok(b) => b,
        Err(_) => encode_record_batch(run),
    }
}

/// Encodes the open run of records.
fn close_run(run: &Vec<Record>, codec: CompressionCodec) -> (batch: BytesMut)
    requires
        records::times_comparable(run.deep_view()),
    ensures
        is_run(run.deep_view(), codec, batch@.bytes),
{
    let slice = run.as_slice();
    assert(slice.deep_view() =~= run.deep_view());
    if run.len() == 0 || codec == CompressionCodec::Uncompressed {
        return encode_record_batch(slice);
    }
    let compressed = encode_record_batch_compressed(slice, codec);
    run_batch(slice, compressed)
}

/// What holds of the runs of all entries holds of those of the first ones.
proof fn lemma_close_take(entries: Seq<LogEntryView>, n: int)
    requires
        times_close(entries),
        0 <= n <= entries.len(),
    ensures
        times_close(entries.take(n)),
    decreases entries.len(),
{
    if n == entries.len() {
        assert(entries.take(n) =~= entries);
    } else {
        let init = entries.drop_last();
        let runs = closed_runs(entries);
        match entries.last() {
            LogEntryView::Data(r) => {
                let run = open_run(entries);
                let old_run = open_run(init);
                assert forall|i: int| 0 <= i < old_run.len() implies i64::MIN <= (
                #[trigger] old_run[i]).timestamp_ms - old_run[0].timestamp_ms <= i64::MAX by {
                    assert(run[i] == old_run[i] && run[0] == old_run[0]);
                }
            },
            LogEntryView::Control(_) => {
                let old_runs = closed_runs(init);
                assert(runs[old_runs.len() as int] == open_run(init));
                assert forall|k: int| 0 <= k < old_runs.len() implies records::times_comparable(
                    #[trigger] old_runs[k],
                ) by {
                    assert(runs[k] == old_runs[k]);
                }
            },
        }
        lemma_close_take(init, n);
        assert(init.take(n) =~= entries.take(n));
    }
}

/// Encode entries as contiguous RecordBatches, with the control batch of each
/// transaction marker between them.
pub fn encode_fetch_record_batches(entries: Vec<LogEntry>, codec: CompressionCodec) -> (out:
    BytesMut)
    requires
        times_close(entries.deep_view()),
    ensures
        is_batches(entries.deep_view(), codec, out@.bytes),
{
    let ghost all = entries.deep_view();
    let mut out = new_buf();
    let ghost mut batches: Seq<Seq<u8>> = Seq::empty();
    let mut run: Vec<Record> = Vec::new();
    let ghost given = entries@;
    proof {
        assert(all.take(0).len() == 0);
        assert(run.deep_view() =~= Seq::empty());
    }
    for entry in it: entries.into_iter()
        invariant
            it.seq() == given,
            all.len() == given.len(),
            forall|k: int| 0 <= k < given.len() ==> #[trigger] all[k] == given[k].deep_view(),
            times_close(all),
            run.deep_view() == open_run(all.take(it.index() as int)),
            are_runs(closed_runs(all.take(it.index() as int)), codec, batches),
            batches.len() == markers(all.take(it.index() as int)).len(),
            out@.bytes == woven(batches, markers(all.take(it.index() as int))),
    {
        let ghost i = it.index() as int;
        proof {
            assert(all[i] == entry.deep_view());
            assert(all.take(i + 1).drop_last() =~= all.take(i));
            assert(all.take(i + 1).last() == entry.deep_view());
            lemma_close_take(all, i);
        }
        let ghost before = run.deep_view();
        match entry {
            LogEntry::Data(r) => {
                run.push(r);
                assert(run.deep_view() =~= before.push(r.deep_view()));
            },
            LogEntry::Control(batch) => {
                let closed = close_run(&run, codec);
                put_slice(&mut out, buf_slice(&closed));
                put_slice(&mut out, bytes_slice(&batch));
                run = Vec::new();
                assert(run.deep_view() =~= Seq::empty());
                proof {
                    let old_batches = batches;
                    let old_markers = markers(all.take(i));
                    batches = old_batches.push(closed@.bytes);
                    assert(batches.drop_last() =~= old_batches);
                    assert(markers(all.take(i + 1)).drop_last() =~= old_markers);
                }
            },
        }
    }
    proof {
        assert(all.take(given.len() as int) =~= all);
    }
    let closed = close_run(&run, codec);
    put_slice(&mut out, buf_slice(&closed));
    assert(are_runs(closed_runs(all), codec, batches));
    assert(is_run(open_run(all), codec, closed@.bytes));
    out
}

fn only_data(entries: Vec<LogEntry>) -> (data: Vec<Record>)
    ensures
        data.deep_view() == data_of(entries.deep_view()),
{
    let ghost all = entries.deep_view();
    let mut data: Vec<Record> = Vec::new();
    let ghost given = entries@;
    proof {
        assert(all.take(0).len() == 0);
        assert(data.deep_view() =~= Seq::empty());
    }
    for entry in it: entries.into_iter()
        invariant
            it.seq() == given,
            all.len() == given.len(),
            forall|k: int| 0 <= k < given.len() ==> #[trigger] all[k] == given[k].deep_view(),
            data.deep_view() == data_of(all.take(it.index() as int)),
    {
        let ghost i = it.index() as int;
        proof {
            assert(all[i] == entry.deep_view());
            assert(all.take(i + 1).drop_last() =~= all.take(i));
            assert(all.take(i + 1).last() == entry.deep_view());
        }
        let ghost before = data.deep_view();
        match entry {
            LogEntry::Data(r) => {
                data.push(r);
                assert(data.deep_view() =~= before.push(r.deep_view()));
            },
            LogEntry::Control(_) => {},
        }
    }
    assert(all.take(given.len() as int) =~= all);
    data
}

/// Encode partition records for a Fetch response: as RecordBatches from v4 on, as a
/// MessageSet without markers before. Where compression fails they are sent plain.
pub fn encode_fetch_record_set(entries: Vec<LogEntry>, version: i16, codec: CompressionCodec) -> (
    out: BytesMut)
    requires
        version >= 4 ==> times_close(entries.deep_view()),
    ensures
        is_fetch_set(entries.deep_view(), version, codec, out@.bytes),
{
    if version >= 4 {
        return encode_fetch_record_batches(entries, codec);
    }
    let data = only_data(entries);
    let slice = data.as_slice();
    assert(slice.deep_view() =~= data.deep_view());
    if data.len() == 0 || codec == CompressionCodec::Uncompressed {
        return encode_message_set(slice);
    }
    let compressed = encode_message_set_compressed(slice, codec);
    assert(records::is_message_set(slice.deep_view(), codec, records::outcome(compressed)));
    match compressed {
        Ok(set) => set,
        Err(_) => encode_message_set(slice),
    }
}

/// Whether the times of the records lie so close together that they can be encoded.
pub fn times_encodable(entries: &Vec<LogEntry>) -> (b: bool)
    ensures
        b == times_close(entries.deep_view()),
{
    let ghost all = entries.deep_view();
    let mut first: Option<i64> = None;
    let mut i: usize = 0;
    assert(all.take(0).len() == 0);
    while i < entries.len()
        invariant
            i <= entries@.len(),
            all == entries.deep_view(),
            times_close(all.take(i as int)),
            match first {
                Some(t) => open_run(all.take(i as int)).len() > 0 && open_run(
                    all.take(i as int),
                )[0].timestamp_ms == t,
                None => open_run(all.take(i as int)).len() == 0,
            },
        decreases entries@.len() - i,
    {
        let ghost before = all.take(i as int);
        let ghost now = all.take(i + 1);
        let ghost run = open_run(before);
        assert(all[i as int] == entries@[i as int].deep_view());
        assert(now.drop_last() =~= before);
        assert(now.last() == all[i as int]);
        match &entries[i] {
            LogEntry::Data(r) => {
                let start: i64 = match first {
                    Some(t) => t,
                    None => r.timestamp_ms,
                };
                let ghost longer = run.push(r.deep_view());
                assert(open_run(now) == longer);
                assert(longer[0].timestamp_ms == start);
                match r.timestamp_ms.checked_sub(start) {
                    None => {
                        proof {
                            assert(longer[run.len() as int].timestamp_ms == r.timestamp_ms);
                            if times_close(all) {
                                lemma_close_take(all, i + 1);
                            }
                        }
                        return false;
                    },
                    Some(_) => {
                        assert forall|k: int| 0 <= k < longer.len() implies i64::MIN <= (
                        #[trigger] longer[k]).timestamp_ms - longer[0].timestamp_ms
                            <= i64::MAX by {
                            if k < run.len() {
                                assert(longer[k] == run[k] && longer[0] == run[0]);
                            }
                        }
                    },
                }
                assert(closed_runs(now) == closed_runs(before));
                assert forall|k: int| 0 <= k < closed_runs(now).len() implies
                    records::times_comparable(#[trigger] closed_runs(now)[k]) by {
                    assert(records::times_comparable(closed_runs(before)[k]));
                }
                assert(times_close(now));
                first = Some(start);
            },
            LogEntry::Control(_) => {
                proof {
                    let runs = closed_runs(now);
                    assert forall|k: int| 0 <= k < runs.len() implies records::times_comparable(
                        #[trigger] runs[k],
                    ) by {
                        if k < closed_runs(before).len() {
                            assert(runs[k] == closed_runs(before)[k]);
                        }
                    }
                }
                assert(times_close(now));
                first = None;
            },
        }
        i += 1;
    }
    assert(all.take(i as int) =~= all);
    true
}

/// A topic of a Fetch response.
#[derive(Debug)]
pub struct FetchTopicOut {
    /// The key of the topic in the session.
    pub key: String,
    pub wire: TopicWireId,
    pub rows: Vec<FetchRow>,
}

/// What a [`FetchTopicOut`] says.
#[verifier::ext_equal]
pub struct FetchTopicOutView {
    pub key: Seq<char>,
    pub wire: WireView,
    pub rows: Seq<FetchRowView>,
}

impl DeepView for FetchTopicOut {
    type V = FetchTopicOutView;

    open spec fn deep_view(&self) -> FetchTopicOutView {
        FetchTopicOutView {
            key: self.key@,
            wire: self.wire.deep_view(),
            rows: self.rows.deep_view(),
        }
    }
}

impl Row for FetchTopicOut {
    open spec fn row(&self, o: Out, version: i16, flexible: bool) -> Out {
        message::rows_out(
            topic_id::wire_id_out(o, flexible, self.wire.deep_view()),
            self.rows@,
            version,
            flexible,
        ).end(flexible)
    }

    fn put(&self, out: &mut BytesMut, version: i16, flexible: bool) {
        write_wire_id(out, flexible, &self.wire);
        put_rows(out, self.rows.as_slice(), version, flexible);
        put_end(out, flexible);
    }
}

/// The topics without what is left out; a topic of which nothing is left goes.
pub open spec fn without_omitted(topics: Seq<FetchTopicOutView>) -> Seq<FetchTopicOutView>
    decreases topics.len(),
{
    if topics.len() == 0 {
        Seq::empty()
    } else {
        let t = topics.last();
        let rows = t.rows.filter(|r: FetchRowView| !r.omit);
        let init = without_omitted(topics.drop_last());
        if rows.len() == 0 {
            init
        } else {
            init.push(FetchTopicOutView { rows, ..t })
        }
    }
}

fn drop_omitted_rows(rows: Vec<FetchRow>) -> (kept: Vec<FetchRow>)
    ensures
        kept.deep_view() == rows.deep_view().filter(|r: FetchRowView| !r.omit),
{
    let ghost f = |r: FetchRowView| !r.omit;
    let ghost all = rows.deep_view();
    let mut kept: Vec<FetchRow> = Vec::new();
    let ghost given = rows@;
    proof {
        reveal(Seq::filter);
        assert(all.take(0).len() == 0);
        assert(kept.deep_view() =~= Seq::empty());
    }
    for row in it: rows.into_iter()
        invariant
            it.seq() == given,
            all.len() == given.len(),
            forall|k: int| 0 <= k < given.len() ==> #[trigger] all[k] == given[k].deep_view(),
            f == |r: FetchRowView| !r.omit,
            kept.deep_view() == all.take(it.index() as int).filter(f),
    {
        let ghost i = it.index() as int;
        let ghost before = kept.deep_view();
        proof {
            reveal(Seq::filter);
            assert(all[i] == row.deep_view());
            assert(all.take(i + 1).drop_last() =~= all.take(i));
            assert(all.take(i + 1).last() == row.deep_view());
        }
        if !row.omit {
            kept.push(row);
            assert(kept.deep_view() =~= before.push(row.deep_view()));
        }
    }
    assert(all.take(given.len() as int) =~= all);
    kept
}

/// Takes out what is left out; a topic of which nothing is left goes.
pub fn drop_omitted(topics: Vec<FetchTopicOut>) -> (kept: Vec<FetchTopicOut>)
    ensures
        kept.deep_view() == without_omitted(topics.deep_view()),
{
    let ghost all = topics.deep_view();
    let mut kept: Vec<FetchTopicOut> = Vec::new();
    let ghost given = topics@;
    proof {
        assert(all.take(0).len() == 0);
        assert(kept.deep_view() =~= Seq::empty());
    }
    for t in it: topics.into_iter()
        invariant
            it.seq() == given,
            all.len() == given.len(),
            forall|k: int| 0 <= k < given.len() ==> #[trigger] all[k] == given[k].deep_view(),
            kept.deep_view() == without_omitted(all.take(it.index() as int)),
    {
        let ghost i = it.index() as int;
        let ghost before = kept.deep_view();
        proof {
            assert(all[i] == t.deep_view());
            assert(all.take(i + 1).drop_last() =~= all.take(i));
            assert(all.take(i + 1).last() == t.deep_view());
        }
        let rows = drop_omitted_rows(t.rows);
        if rows.len() > 0 {
            let left = FetchTopicOut { key: t.key, wire: t.wire, rows };
            kept.push(left);
            assert(kept.deep_view() =~= before.push(left.deep_view()));
        }
    }
    assert(all.take(given.len() as int) =~= all);
    kept
}

/// What is told of a topic: the answers for its partitions, each under the number that it
/// was asked for with.
pub open spec fn topic_told(ask: FetchAskView, answers: Seq<FetchRowView>) -> FetchTopicOutView {
    FetchTopicOutView {
        key: ask.key,
        wire: ask.wire,
        rows: Seq::new(
            ask.parts.len(),
            |i: int| FetchRowView { partition: ask.parts[i].0, ..answers[i] },
        ),
    }
}

/// What is told of the topics that were asked for.
pub open spec fn topics_told(
    asks: Seq<FetchAskView>,
    answers: Seq<Seq<FetchRowView>>,
) -> Seq<FetchTopicOutView> {
    Seq::new(asks.len(), |i: int| topic_told(asks[i], answers[i]))
}

/// Whether there is an answer for each partition that was asked for.
pub open spec fn all_answered(
    asks: Seq<FetchAskView>,
    answers: Seq<Seq<FetchRowView>>,
) -> bool {
    &&& answers.len() == asks.len()
    &&& forall|i: int|
        0 <= i < asks.len() ==> (#[trigger] answers[i]).len() == asks[i].parts.len()
}

fn topic_rows(ask: &FetchAsk, answers: Vec<FetchRow>) -> (rows: Vec<FetchRow>)
    requires
        answers@.len() == ask.parts@.len(),
    ensures
        rows.deep_view() == topic_told(ask.deep_view(), answers.deep_view()).rows,
{
    let ghost given = answers@;
    let ghost said = answers.deep_view();
    let ghost want = topic_told(ask.deep_view(), said).rows;
    let n: usize = ask.parts.len();
    let mut rows: Vec<FetchRow> = Vec::new();
    let mut i: usize = 0;
    assert(rows.deep_view() =~= want.take(0));
    for answer in it: answers.into_iter()
        invariant
            it.seq() == given,
            n == given.len(),
            n == ask.parts@.len(),
            i == it.index(),
            said.len() == given.len(),
            forall|k: int| 0 <= k < given.len() ==> #[trigger] said[k] == given[k].deep_view(),
            want == topic_told(ask.deep_view(), said).rows,
            rows.deep_view() == want.take(i as int),
    {
        let ghost before = rows.deep_view();
        let mut row = answer;
        row.partition = ask.parts[i].0;
        assert(said[i as int] == answer.deep_view());
        assert(row.deep_view() == want[i as int]);
        rows.push(row);
        assert(rows.deep_view() =~= before.push(want[i as int]));
        assert(want.take(i + 1) =~= want.take(i as int).push(want[i as int]));
        i += 1;
    }
    assert(want.take(n as int) =~= want);
    rows
}

/// The topics of a response, of the answers for the partitions that were asked for.
pub fn fetch_topics(asks: &Vec<FetchAsk>, answers: Vec<Vec<FetchRow>>) -> (topics: Vec<
    FetchTopicOut,
>)
    requires
        all_answered(asks.deep_view(), answers.deep_view()),
    ensures
        topics.deep_view() == topics_told(asks.deep_view(), answers.deep_view()),
{
    let ghost given = answers@;
    let ghost all = asks.deep_view();
    let ghost said = answers.deep_view();
    let ghost want = topics_told(all, said);
    let n: usize = asks.len();
    let mut topics: Vec<FetchTopicOut> = Vec::new();
    let mut i: usize = 0;
    assert(topics.deep_view() =~= want.take(0));
    for rows in it: answers.into_iter()
        invariant
            it.seq() == given,
            n == given.len(),
            n == asks@.len(),
            i == it.index(),
            all == asks.deep_view(),
            said.len() == given.len(),
            forall|k: int| 0 <= k < given.len() ==> #[trigger] said[k] == given[k].deep_view(),
            all_answered(all, said),
            want == topics_told(all, said),
            topics.deep_view() == want.take(i as int),
    {
        let ghost before = topics.deep_view();
        let ask = &asks[i];
        assert(said[i as int] == rows.deep_view());
        assert(all[i as int] == ask.deep_view());
        let t = FetchTopicOut {
            key: ask.key.clone(),
            wire: ask.wire.clone(),
            rows: topic_rows(ask, rows),
        };
        assert(t.deep_view() == want[i as int]);
        topics.push(t);
        assert(topics.deep_view() =~= before.push(want[i as int]));
        assert(want.take(i + 1) =~= want.take(i as int).push(want[i as int]));
        i += 1;
    }
    assert(want.take(n as int) =~= want);
    topics
}

/// A topic without the rows that are left out.
pub open spec fn trimmed(t: FetchTopicOutView) -> FetchTopicOutView {
    FetchTopicOutView { rows: t.rows.filter(|r: FetchRowView| !r.omit), ..t }
}

proof fn lemma_without_omitted(topics: Seq<FetchTopicOutView>)
    ensures
        without_omitted(topics) == topics.map_values(
            |t: FetchTopicOutView| trimmed(t),
        ).filter(|t: FetchTopicOutView| t.rows.len() > 0),
    decreases topics.len(),
{
    reveal(Seq::filter);
    let m = topics.map_values(|t: FetchTopicOutView| trimmed(t));
    if topics.len() > 0 {
        lemma_without_omitted(topics.drop_last());
        assert(m.drop_last() =~= topics.drop_last().map_values(
            |t: FetchTopicOutView| trimmed(t),
        ));
        assert(m.last() == trimmed(topics.last()));
    }
}

/// A response covers exactly the partitions of its plan, less those that are left out. The
/// topics come in the order of the plan, each once; in a topic the partitions ascend, and
/// they are all the partitions that the plan has for it. Of that, the rows that are left out
/// go, and a topic of which nothing is left.
pub proof fn law_covered(
    order: Seq<Seq<char>>,
    topics: TopicsView,
    asks: Seq<FetchAskView>,
    answers: Seq<Seq<FetchRowView>>,
)
    requires
        fetch::asks_for_all(asks, order, topics),
        fetch::each_once(order, topics),
        all_answered(asks, answers),
    ensures
        ({
            let told = topics_told(asks, answers);
            &&& told.len() == order.len()
            &&& forall|i: int|
                0 <= i < told.len() ==> (#[trigger] told[i]).key == order[i] && told[i].wire
                    == topics[order[i]].wire
            &&& forall|i: int, a: int, b: int|
                0 <= i < told.len() && 0 <= a < b < told[i].rows.len() ==> (
                #[trigger] told[i].rows[a]).partition < (#[trigger] told[i].rows[b]).partition
            &&& forall|i: int, a: int|
                0 <= i < told.len() && 0 <= a < told[i].rows.len()
                    ==> topics[order[i]].partitions.contains_key(
                    (#[trigger] told[i].rows[a]).partition,
                )
            &&& forall|i: int, p: i32|
                0 <= i < told.len() && #[trigger] topics[order[i]].partitions.contains_key(p)
                    ==> exists|a: int|
                    0 <= a < told[i].rows.len() && (#[trigger] told[i].rows[a]).partition == p
            &&& without_omitted(told) == told.map_values(
                |t: FetchTopicOutView| trimmed(t),
            ).filter(|t: FetchTopicOutView| t.rows.len() > 0)
        }),
{
    let told = topics_told(asks, answers);
    fetch::law_asks(asks, order, topics);
    lemma_without_omitted(told);
    assert forall|i: int| 0 <= i < told.len() implies (#[trigger] told[i]).key == order[i]
        && told[i].wire == topics[order[i]].wire by {
        assert(fetch::asks_for(asks[i], order[i], topics[order[i]]));
    }
    assert forall|i: int, a: int, b: int|
        0 <= i < told.len() && 0 <= a < b < told[i].rows.len() implies (
    #[trigger] told[i].rows[a]).partition < (#[trigger] told[i].rows[b]).partition by {
        assert(fetch::asks_for(asks[i], order[i], topics[order[i]]));
        assert(i32::precedes(asks[i].parts[a].0, asks[i].parts[b].0));
    }
    assert forall|i: int, a: int|
        0 <= i < told.len() && 0 <= a < told[i].rows.len() implies topics[
        order[i]].partitions.contains_key((#[trigger] told[i].rows[a]).partition) by {
        assert(fetch::asks_for(asks[i], order[i], topics[order[i]]));
        table::lemma_map_of::<i32, SessionPartition>(asks[i].parts);
        assert(asks[i].parts[a].0 == told[i].rows[a].partition);
    }
    assert forall|i: int, p: i32|
        0 <= i < told.len() && #[trigger] topics[order[i]].partitions.contains_key(
            p,
        ) implies exists|a: int|
        0 <= a < told[i].rows.len() && (#[trigger] told[i].rows[a]).partition == p by {
        assert(fetch::asks_for(asks[i], order[i], topics[order[i]]));
        table::lemma_map_of::<i32, SessionPartition>(asks[i].parts);
        let parts = asks[i].parts;
        assert(table::map_of(parts).dom().contains(p));
        let a = choose|a: int| 0 <= a < parts.len() && (#[trigger] parts[a]).0 == p;
        assert(told[i].rows[a].partition == p);
    }
}

/// The session table after the client was told of the rows of a topic.
pub open spec fn rows_noted(
    v: ManagerView,
    id: i32,
    key: Seq<char>,
    rows: Seq<FetchRowView>,
) -> ManagerView
    decreases rows.len(),
{
    if rows.len() == 0 {
        v
    } else {
        let w = rows_noted(v, id, key, rows.drop_last());
        let r = rows.last();
        if r.note_cache && r.error == 0 && id != 0 {
            session_manager::noted(w, id, key, r.partition, r.hwm, r.lso)
        } else {
            w
        }
    }
}

/// The session table after the client was told of the topics.
pub open spec fn topics_noted(
    v: ManagerView,
    id: i32,
    topics: Seq<FetchTopicOutView>,
) -> ManagerView
    decreases topics.len(),
{
    if topics.len() == 0 {
        v
    } else {
        rows_noted(
            topics_noted(v, id, topics.drop_last()),
            id,
            topics.last().key,
            topics.last().rows,
        )
    }
}

fn note_rows(sessions: &mut FetchSessionManager, session_id: i32, key: &str, rows: &Vec<FetchRow>)
    ensures
        final(sessions)@ == rows_noted(old(sessions)@, session_id, key@, rows.deep_view()),
{
    let ghost v = sessions@;
    let ghost all = rows.deep_view();
    let mut i: usize = 0;
    assert(all.take(0).len() == 0);
    while i < rows.len()
        invariant
            i <= rows@.len(),
            all == rows.deep_view(),
            sessions@ == rows_noted(v, session_id, key@, all.take(i as int)),
        decreases rows@.len() - i,
    {
        let r = &rows[i];
        assert(all.take(i + 1).drop_last() =~= all.take(i as int));
        assert(all[i as int] == r.deep_view());
        if r.note_cache && r.error == 0 && session_id != 0 {
            sessions.note_returned(session_id, key, r.partition, r.hwm, r.lso);
        }
        i += 1;
    }
    assert(all.take(all.len() as int) =~= all);
}

/// Keeps in the session what the client is told.
pub fn note_fetched(
    sessions: &mut FetchSessionManager,
    session_id: i32,
    topics: &Vec<FetchTopicOut>,
)
    ensures
        final(sessions)@ == topics_noted(old(sessions)@, session_id, topics.deep_view()),
{
    let ghost v = sessions@;
    let ghost all = topics.deep_view();
    let mut i: usize = 0;
    assert(all.take(0).len() == 0);
    while i < topics.len()
        invariant
            i <= topics@.len(),
            all == topics.deep_view(),
            sessions@ == topics_noted(v, session_id, all.take(i as int)),
        decreases topics@.len() - i,
    {
        assert(all.take(i + 1).drop_last() =~= all.take(i as int));
        assert(all[i as int] == topics@[i as int].deep_view());
        note_rows(sessions, session_id, topics[i].key.as_str(), &topics[i].rows);
        i += 1;
    }
    assert(all.take(all.len() as int) =~= all);
}

/// The fields of a Fetch response in front of its topics: throttle time (v1+), error
/// and session (v7+).
pub open spec fn fetch_head_out(o: Out, version: i16, error: i16, session_id: i32) -> Out {
    let o = if version >= 1 {
        o.i32(0)
    } else {
        o
    };
    if version >= 7 {
        o.i16(error as int).i32(session_id as int)
    } else {
        o
    }
}

/// The leaders that rows tell of, in order.
pub open spec fn row_leaders(rows: Seq<FetchRowView>) -> Seq<i32>
    decreases rows.len(),
{
    if rows.len() == 0 {
        Seq::empty()
    } else {
        match rows.last().current_leader {
            Some(l) => row_leaders(rows.drop_last()).push(l.0),
            None => row_leaders(rows.drop_last()),
        }
    }
}

/// The leaders that topics tell of, in order.
pub open spec fn leaders_of(topics: Seq<FetchTopicOutView>) -> Seq<i32>
    decreases topics.len(),
{
    if topics.len() == 0 {
        Seq::empty()
    } else {
        leaders_of(topics.drop_last()) + row_leaders(topics.last().rows)
    }
}

/// The leaders that a Fetch response tells of.
pub fn fetch_leaders(topics: &Vec<FetchTopicOut>) -> (ids: Vec<i32>)
    ensures
        ids@ == leaders_of(topics.deep_view()),
{
    let ghost all = topics.deep_view();
    let mut ids: Vec<i32> = Vec::new();
    let mut i: usize = 0;
    assert(all.take(0).len() == 0);
    while i < topics.len()
        invariant
            i <= topics@.len(),
            all == topics.deep_view(),
            ids@ == leaders_of(all.take(i as int)),
        decreases topics@.len() - i,
    {
        let rows = &topics[i].rows;
        let ghost said = rows.deep_view();
        let ghost before = ids@;
        let mut k: usize = 0;
        assert(before + row_leaders(said.take(0)) =~= before);
        while k < rows.len()
            invariant
                k <= rows@.len(),
                said == rows.deep_view(),
                ids@ == before + row_leaders(said.take(k as int)),
            decreases rows@.len() - k,
        {
            assert(said[k as int] == rows@[k as int].deep_view());
            assert(said.take(k + 1).drop_last() =~= said.take(k as int));
            if let Some(l) = rows[k].current_leader {
                ids.push(l.0);
            }
            k += 1;
            assert(ids@ =~= before + row_leaders(said.take(k as int)));
        }
        assert(said.take(k as int) =~= said);
        assert(all[i as int] == topics@[i as int].deep_view());
        assert(all.take(i + 1).drop_last() =~= all.take(i as int));
        i += 1;
    }
    assert(all.take(i as int) =~= all);
    ids
}

/// Where in the log a client reads from: at the start, where it asks for less than that.
pub fn fetch_from(offset: i64) -> (from: u64)
    ensures
        from == (if offset >= 0 {
            offset as u64
        } else {
            0
        }),
{
    if offset >= 0 {
        offset as u64
    } else {
        0
    }
}

/// Up to where a client has to be told of aborted transactions, if it has to: from v4 on,
/// where it reads what is committed only.
pub fn aborted_until(ctx: &FetchContext, last_stable: u64) -> (end: Option<u64>)
    ensures
        end == (if ctx.read_committed && ctx.version >= 4 {
            Some(
                if last_stable <= i64::MAX {
                    last_stable
                } else {
                    0
                },
            )
        } else {
            None
        }),
{
    if !ctx.read_committed || ctx.version < 4 {
        return None;
    }
    if last_stable <= i64::MAX as u64 {
        Some(last_stable)
    } else {
        Some(0)
    }
}

/// Write Fetch response header before topic array (classic v0–11 / flexible v12).
pub fn put_fetch_response_header(out: &mut BytesMut, version: i16, error: i16, session_id: i32)
    ensures
        final(out)@ == fetch_head_out(old(out)@, version, error, session_id),
{
    if version >= 1 {
        put_i32(out, 0);
    }
    if version >= 7 {
        put_i16(out, error);
        put_i32(out, session_id);
    }
}

/// A Fetch response. The endpoints of the leaders that are told stand at its end (v16+).
pub open spec fn fetch_out(
    o: Out,
    version: i16,
    error: i16,
    session_id: i32,
    topics: Seq<FetchTopicOut>,
    endpoints: Seq<NodeEndpoint>,
) -> Out {
    let flexible = version >= 12;
    let o = message::rows_out(
        fetch_head_out(o, version, error, session_id),
        topics,
        version,
        flexible,
    );
    if version >= 16 && endpoints.len() > 0 {
        produce::endpoints_out(o, endpoints)
    } else {
        o.end(flexible)
    }
}

/// Writes a Fetch response.
pub fn encode_fetch(
    out: &mut BytesMut,
    version: i16,
    error: i16,
    session_id: i32,
    topics: &Vec<FetchTopicOut>,
    endpoints: &Vec<NodeEndpoint>,
)
    ensures
        final(out)@ == fetch_out(old(out)@, version, error, session_id, topics@, endpoints@),
{
    let flexible = version >= 12;
    put_fetch_response_header(out, version, error, session_id);
    put_rows(out, topics.as_slice(), version, flexible);
    if version >= 16 && endpoints.len() > 0 {
        put_node_endpoints_tag(out, endpoints);
    } else {
        put_end(out, flexible);
    }
}

/// Empty Fetch response (no topics): the answer to a request that cannot be read, and
/// to one whose session is refused.
pub fn put_fetch_empty_response(out: &mut BytesMut, version: i16, error: i16, session_id: i32)
    ensures
        final(out)@ == fetch_out(
            old(out)@,
            version,
            error,
            session_id,
            Seq::empty(),
            Seq::empty(),
        ),
{
    let topics: Vec<FetchTopicOut> = Vec::new();
    let endpoints: Vec<NodeEndpoint> = Vec::new();
    encode_fetch(out, version, error, session_id, &topics, &endpoints);
    assert(topics@ =~= Seq::empty());
    assert(endpoints@ =~= Seq::empty());
}

} // verus!
