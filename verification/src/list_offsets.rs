//! ListOffsets and OffsetForLeaderEpoch.

use bytes::{Bytes, BytesMut};
use vstd::prelude::*;

use crate::api::KafkaErrorCode;
use crate::buffer::{get_i32, get_i64, get_u8, put_i16, put_i32, put_i64, remaining, Contents};
use crate::codec::put_end;
use crate::message;
use crate::message::{
    drop_tags, put_rows, read_count, read_list, Element, Read, Row, TopicIn, TopicInView, TopicOut,
};
use crate::wire;
use crate::wire::{Out, Src, Step};

verus! {

/// Why a broker could not answer a question about a partition.
#[derive(Debug, Clone, Copy, PartialEq, Eq, Structural)]
pub enum LookupError {
    /// There is no such topic or partition.
    NotFound,
    /// Anything else.
    Other,
}

impl LookupError {
    /// The code that a client is given.
    pub open spec fn code(self) -> i16 {
        match self {
            LookupError::NotFound => KafkaErrorCode::UnknownTopicOrPartition.code(),
            LookupError::Other => KafkaErrorCode::Unknown.code(),
        }
    }

    /// The code that a client is given.
    pub fn as_i16(self) -> (c: i16)
        ensures
            c == self.code(),
    {
        match self {
            LookupError::NotFound => KafkaErrorCode::UnknownTopicOrPartition.as_i16(),
            LookupError::Other => KafkaErrorCode::Unknown.as_i16(),
        }
    }
}

/// A partition whose offsets are asked for.
#[derive(Debug, Clone, Copy, PartialEq, Eq, Structural)]
pub struct ListOffsetsPart {
    pub partition: i32,
    /// The leader epoch that the client knows (v4+), or -1.
    pub current_leader_epoch: i32,
    /// Which offset is asked for.
    pub timestamp: i64,
}

impl DeepView for ListOffsetsPart {
    type V = ListOffsetsPart;

    open spec fn deep_view(&self) -> ListOffsetsPart {
        *self
    }
}

impl Element for ListOffsetsPart {
    open spec fn at(b: Src, version: i16, flexible: bool) -> Step<ListOffsetsPart> {
        let fenced = flexible || version >= 4;
        if b.left() < (if fenced {
            16int
        } else {
            12
        }) {
            wire::stop(b)
        } else {
            let e = b.skip(4);
            let t = if fenced {
                e.skip(4)
            } else {
                e
            };
            let r = t.skip(8);
            let part = ListOffsetsPart {
                partition: b.i32() as i32,
                current_leader_epoch: if fenced {
                    e.i32() as i32
                } else {
                    (-1int) as i32
                },
                timestamp: t.i64() as i64,
            };
            if flexible {
                wire::keep(part, r.tags().rest)
            } else if version != 0 {
                wire::keep(part, r)
            } else if r.left() < 4 {
                wire::stop(r)
            } else {
                wire::keep(part, r.skip(4))
            }
        }
    }

    fn read(src: &mut Bytes, version: i16, flexible: bool) -> (r: Read<ListOffsetsPart>) {
        let fenced = flexible || version >= 4;
        if remaining(src) < (if fenced {
            16
        } else {
            12
        }) {
            return Read::End;
        }
        let partition: i32 = get_i32(src);
        let current_leader_epoch: i32 = if fenced {
            get_i32(src)
        } else {
            -1
        };
        let timestamp: i64 = get_i64(src);
        if !flexible && version == 0 {
            if remaining(src) < 4 {
                return Read::End;
            }
            let _max_num: i32 = get_i32(src);
        }
        drop_tags(src, flexible);
        Read::Item(ListOffsetsPart { partition, current_leader_epoch, timestamp })
    }
}

/// A ListOffsets request.
#[derive(Debug)]
pub struct ListOffsetsRequest {
    /// Whether the latest offset is the last stable one.
    pub read_committed: bool,
    pub topics: Vec<TopicIn<ListOffsetsPart>>,
}

/// What a [`ListOffsetsRequest`] says.
#[verifier::ext_equal]
pub struct ListOffsetsView {
    pub read_committed: bool,
    pub topics: Seq<TopicInView<ListOffsetsPart>>,
}

impl DeepView for ListOffsetsRequest {
    type V = ListOffsetsView;

    open spec fn deep_view(&self) -> ListOffsetsView {
        ListOffsetsView {
            read_committed: self.read_committed,
            topics: self.topics.deep_view(),
        }
    }
}

/// A ListOffsets request, or nothing where it cannot be read as far as its topics.
pub open spec fn list_offsets_at(b: Src, version: i16) -> Option<ListOffsetsView> {
    let flexible = version >= 6;
    let r = b.skip(4);
    if b.left() < 4 {
        None
    } else if version >= 2 && (r.left() < 1 || r.u8() > 1) {
        None
    } else {
        let t = if version >= 2 {
            r.skip(1)
        } else {
            r
        };
        let c = message::count_at(t, flexible);
        match c.value {
            Err(_) => None,
            Ok(n) => Some(
                ListOffsetsView {
                    read_committed: version >= 2 && r.u8() == 1,
                    topics: message::list_at::<TopicIn<ListOffsetsPart>>(
                        c.rest,
                        message::or_zero(n),
                        version,
                        flexible,
                    ).0,
                },
            ),
        }
    }
}

/// Reads a ListOffsets request. The timeout (v10+) and the tags behind the topics are
/// not looked at.
pub fn decode_list_offsets(src: &mut Bytes, version: i16) -> (r: Option<ListOffsetsRequest>)
    ensures
        r.deep_view() == list_offsets_at(old(src)@, version),
{
    let flexible = version >= 6;
    if remaining(src) < 4 {
        return None;
    }
    let _replica_id: i32 = get_i32(src);
    let mut read_committed = false;
    if version >= 2 {
        if remaining(src) < 1 {
            return None;
        }
        let isolation: u8 = get_u8(src);
        if isolation > 1 {
            return None;
        }
        read_committed = isolation == 1;
    }
    match read_count(src, flexible) {
        Err(_) => None,
        Ok(n) => {
            let n: usize = match n {
                Some(k) => k,
                None => 0,
            };
            let topics = read_list::<TopicIn<ListOffsetsPart>>(src, n, version, flexible);
            Some(ListOffsetsRequest { read_committed, topics })
        },
    }
}

/// The answer for a partition.
#[derive(Debug, Clone, Copy, PartialEq, Eq, Structural)]
pub struct ListOffsetsRow {
    pub partition: i32,
    pub error: i16,
    pub timestamp: i64,
    pub offset: i64,
    pub leader_epoch: i32,
}

impl Row for ListOffsetsRow {
    open spec fn row(&self, o: Out, version: i16, flexible: bool) -> Out {
        let o = o.i32(self.partition as int).i16(self.error as int);
        let o = if version == 0 {
            if self.error == 0 {
                o.i32(1).i64(self.timestamp as int).i64(self.offset as int)
            } else {
                o.i32(0)
            }
        } else {
            let o = o.i64(self.timestamp as int).i64(self.offset as int);
            if version >= 4 {
                o.i32(self.leader_epoch as int)
            } else {
                o
            }
        };
        o.end(flexible)
    }

    fn put(&self, out: &mut BytesMut, version: i16, flexible: bool) {
        put_i32(out, self.partition);
        put_i16(out, self.error);
        if version == 0 {
            if self.error == 0 {
                put_i32(out, 1);
                put_i64(out, self.timestamp);
                put_i64(out, self.offset);
            } else {
                put_i32(out, 0);
            }
        } else {
            put_i64(out, self.timestamp);
            put_i64(out, self.offset);
            if version >= 4 {
                put_i32(out, self.leader_epoch);
            }
        }
        put_end(out, flexible);
    }
}

/// The latest offset.
pub const LATEST: i64 = -1;

/// The earliest offset.
pub const EARLIEST: i64 = -2;

/// The offset of the record with the largest timestamp (v7+).
pub const MAX_TIMESTAMP: i64 = -3;

/// The earliest offset that is stored locally (v8+).
pub const EARLIEST_LOCAL: i64 = -4;

/// The latest offset in tiered storage (v9+), of which there is none.
pub const LATEST_TIERED: i64 = -5;

/// The earliest offset that is yet to be uploaded (v11+), of which there is none.
pub const EARLIEST_PENDING_UPLOAD: i64 = -6;

/// What the broker has to be asked for an offset.
#[derive(Debug, Clone, Copy, PartialEq, Eq, Structural)]
pub enum OffsetLookup {
    /// The timestamp is not one of the special ones that the version has.
    Invalid,
    /// Nothing: there is no such offset.
    Nothing,
    /// The record with the largest timestamp.
    MaxTimestamp,
    /// The earliest offset of the log.
    Earliest,
    /// The latest offset of the log.
    Latest,
}

/// What a timestamp asks for in a version.
pub open spec fn lookup_of(version: i16, timestamp: i64) -> OffsetLookup {
    if timestamp == LATEST {
        OffsetLookup::Latest
    } else if timestamp == EARLIEST || (timestamp == EARLIEST_LOCAL && version >= 8) {
        OffsetLookup::Earliest
    } else if timestamp == MAX_TIMESTAMP && version >= 7 {
        OffsetLookup::MaxTimestamp
    } else if (timestamp == LATEST_TIERED && version >= 9) || (timestamp == EARLIEST_PENDING_UPLOAD
        && version >= 11) {
        OffsetLookup::Nothing
    } else {
        OffsetLookup::Invalid
    }
}

/// What a timestamp asks for in a version.
pub fn offset_lookup(version: i16, timestamp: i64) -> (l: OffsetLookup)
    ensures
        l == lookup_of(version, timestamp),
{
    if timestamp == LATEST {
        OffsetLookup::Latest
    } else if timestamp == EARLIEST || (timestamp == EARLIEST_LOCAL && version >= 8) {
        OffsetLookup::Earliest
    } else if timestamp == MAX_TIMESTAMP && version >= 7 {
        OffsetLookup::MaxTimestamp
    } else if (timestamp == LATEST_TIERED && version >= 9) || (timestamp == EARLIEST_PENDING_UPLOAD
        && version >= 11) {
        OffsetLookup::Nothing
    } else {
        OffsetLookup::Invalid
    }
}

/// How the leader epoch that a client gives stands to the one that the broker has.
#[derive(Debug, Clone, Copy, PartialEq, Eq, Structural)]
pub enum Fence {
    /// The client may go on.
    Pass,
    /// The client is ahead of the broker.
    Ahead,
    /// The client is behind the broker.
    Behind,
}

/// The fence of a client that gives `given` where the broker has `current`, which is
/// -1 for a partition that the broker does not know. A client that gives -1 passes.
pub open spec fn fence_of(given: i32, current: i32) -> Fence {
    if given == -1 {
        Fence::Pass
    } else if given > current && current >= 0 {
        Fence::Ahead
    } else if given < current {
        Fence::Behind
    } else {
        Fence::Pass
    }
}

/// The fence of a client.
pub fn fence(given: i32, current: i32) -> (f: Fence)
    ensures
        f == fence_of(given, current),
{
    if given == -1 {
        Fence::Pass
    } else if given > current && current >= 0 {
        Fence::Ahead
    } else if given < current {
        Fence::Behind
    } else {
        Fence::Pass
    }
}

/// What the broker says of a partition whose offsets are asked for.
#[derive(Debug, Clone, Copy)]
pub struct OffsetAnswer {
    /// Whether the client may describe the topic.
    pub allowed: bool,
    /// The leader epoch of the partition, or -1 where it is not known.
    pub leader_epoch: i32,
    /// Where [`OffsetLookup::MaxTimestamp`] is asked: offset and timestamp of that
    /// record, if there is a record.
    pub max_timestamp: core::result::Result<Option<(u64, i64)>, LookupError>,
    /// Where the earliest or latest offset is asked: both of them, if the log has them.
    pub bounds: core::result::Result<Option<(u64, u64)>, LookupError>,
    /// The last stable offset.
    pub last_stable: u64,
}

/// The row for a partition.
pub open spec fn list_offsets_row_of(
    version: i16,
    read_committed: bool,
    p: ListOffsetsPart,
    a: OffsetAnswer,
) -> ListOffsetsRow {
    let row = |error: i16, timestamp: i64, offset: i64, leader_epoch: i32| ListOffsetsRow {
        partition: p.partition,
        error,
        timestamp,
        offset,
        leader_epoch,
    };
    let none = -1i64 as i64;
    let epoch = if a.leader_epoch < 0 {
        0i32
    } else {
        a.leader_epoch
    };
    let failed = |error: i16, leader_epoch: i32| row(error, p.timestamp, none, leader_epoch);
    let unknown_epoch = (-1int) as i32;
    if !a.allowed {
        failed(KafkaErrorCode::TopicAuthorizationFailed.code(), unknown_epoch)
    } else {
        match fence_of(p.current_leader_epoch, a.leader_epoch) {
            Fence::Ahead => failed(KafkaErrorCode::UnknownLeaderEpoch.code(), a.leader_epoch),
            Fence::Behind => failed(KafkaErrorCode::FencedLeaderEpoch.code(), a.leader_epoch),
            Fence::Pass => match lookup_of(version, p.timestamp) {
                OffsetLookup::Invalid => failed(
                    KafkaErrorCode::InvalidTimestamp.code(),
                    a.leader_epoch,
                ),
                OffsetLookup::Nothing => row(0i16, none, none, epoch),
                OffsetLookup::MaxTimestamp => match a.max_timestamp {
                    Ok(Some(m)) => row(0i16, m.1, m.0 as i64, epoch),
                    Ok(None) => row(0i16, none, none, epoch),
                    Err(e) => failed(e.code(), unknown_epoch),
                },
                OffsetLookup::Earliest => match a.bounds {
                    Ok(b) => row(
                        0i16,
                        p.timestamp,
                        match b {
                            Some(v) => v.0 as i64,
                            None => 0,
                        },
                        epoch,
                    ),
                    Err(e) => failed(e.code(), unknown_epoch),
                },
                OffsetLookup::Latest => match a.bounds {
                    Ok(b) => row(
                        0i16,
                        p.timestamp,
                        if read_committed {
                            a.last_stable as i64
                        } else {
                            match b {
                                Some(v) => v.1 as i64,
                                None => 0,
                            }
                        },
                        epoch,
                    ),
                    Err(e) => failed(e.code(), unknown_epoch),
                },
            },
        }
    }
}

/// The row for a partition.
pub fn list_offsets_row(
    version: i16,
    read_committed: bool,
    p: &ListOffsetsPart,
    a: &OffsetAnswer,
) -> (r: ListOffsetsRow)
    ensures
        r == list_offsets_row_of(version, read_committed, *p, *a),
{
    let mut row = ListOffsetsRow {
        partition: p.partition,
        error: 0,
        timestamp: p.timestamp,
        offset: -1,
        leader_epoch: -1,
    };
    if !a.allowed {
        row.error = KafkaErrorCode::TopicAuthorizationFailed.as_i16();
        return row;
    }
    row.leader_epoch = a.leader_epoch;
    match fence(p.current_leader_epoch, a.leader_epoch) {
        Fence::Ahead => {
            row.error = KafkaErrorCode::UnknownLeaderEpoch.as_i16();
            return row;
        },
        Fence::Behind => {
            row.error = KafkaErrorCode::FencedLeaderEpoch.as_i16();
            return row;
        },
        Fence::Pass => {},
    }
    let lookup = offset_lookup(version, p.timestamp);
    if lookup == OffsetLookup::Invalid {
        row.error = KafkaErrorCode::InvalidTimestamp.as_i16();
        return row;
    }
    if row.leader_epoch < 0 {
        row.leader_epoch = 0;
    }
    match lookup {
        OffsetLookup::MaxTimestamp => match a.max_timestamp {
            Ok(Some((offset, timestamp))) => {
                row.timestamp = timestamp;
                row.offset = offset as i64;
            },
            Ok(None) => {
                row.timestamp = -1;
            },
            Err(e) => {
                row.error = e.as_i16();
                row.leader_epoch = -1;
            },
        },
        OffsetLookup::Earliest => match a.bounds {
            Ok(Some((earliest, _latest))) => {
                row.offset = earliest as i64;
            },
            Ok(None) => {
                row.offset = 0;
            },
            Err(e) => {
                row.error = e.as_i16();
                row.leader_epoch = -1;
            },
        },
        OffsetLookup::Latest => match a.bounds {
            Ok(b) => {
                row.offset = if read_committed {
                    a.last_stable as i64
                } else {
                    match b {
                        Some((_earliest, latest)) => latest as i64,
                        None => 0,
                    }
                };
            },
            Err(e) => {
                row.error = e.as_i16();
                row.leader_epoch = -1;
            },
        },
        _ => {
            row.timestamp = -1;
        },
    }
    row
}

/// A response: the throttle time (v2+), then the topics.
pub open spec fn list_offsets_out(
    o: Out,
    version: i16,
    topics: Seq<TopicOut<ListOffsetsRow>>,
) -> Out {
    let o = if version >= 2 {
        o.i32(0)
    } else {
        o
    };
    message::rows_out(o, topics, version, version >= 6).end(version >= 6)
}

/// Writes a ListOffsets response. The answer to a request that cannot be read has no
/// topics.
pub fn encode_list_offsets(
    out: &mut BytesMut,
    version: i16,
    topics: &Vec<TopicOut<ListOffsetsRow>>,
)
    ensures
        final(out)@ == list_offsets_out(old(out)@, version, topics@),
{
    if version >= 2 {
        put_i32(out, 0);
    }
    put_rows(out, topics.as_slice(), version, version >= 6);
    put_end(out, version >= 6);
}

/// A partition that is refused is given no offset.
pub proof fn law_refused_has_no_offset(
    version: i16,
    read_committed: bool,
    p: ListOffsetsPart,
    a: OffsetAnswer,
)
    ensures
        list_offsets_row_of(version, read_committed, p, a).error != 0 ==> list_offsets_row_of(
            version,
            read_committed,
            p,
            a,
        ).offset == -1,
        list_offsets_row_of(version, read_committed, p, a).partition == p.partition,
{
}

/// A partition of an OffsetForLeaderEpoch request.
#[derive(Debug, Clone, Copy, PartialEq, Eq, Structural)]
pub struct LeaderEpochPart {
    pub partition: i32,
    /// The leader epoch that the client knows (v2+), or -1.
    pub current_leader_epoch: i32,
    /// The epoch whose end is asked for, or -1.
    pub leader_epoch: i32,
}

impl DeepView for LeaderEpochPart {
    type V = LeaderEpochPart;

    open spec fn deep_view(&self) -> LeaderEpochPart {
        *self
    }
}

impl Element for LeaderEpochPart {
    open spec fn at(b: Src, version: i16, flexible: bool) -> Step<LeaderEpochPart> {
        let fenced = flexible || version >= 2;
        if b.left() < (if fenced {
            12int
        } else {
            8
        }) {
            wire::stop(b)
        } else {
            let c = b.skip(4);
            let e = if fenced {
                c.skip(4)
            } else {
                c
            };
            wire::keep(
                LeaderEpochPart {
                    partition: b.i32() as i32,
                    current_leader_epoch: if fenced {
                        c.i32() as i32
                    } else {
                        (-1int) as i32
                    },
                    leader_epoch: e.i32() as i32,
                },
                message::after_tags(e.skip(4), flexible),
            )
        }
    }

    fn read(src: &mut Bytes, version: i16, flexible: bool) -> (r: Read<LeaderEpochPart>) {
        let fenced = flexible || version >= 2;
        if remaining(src) < (if fenced {
            12
        } else {
            8
        }) {
            return Read::End;
        }
        let partition: i32 = get_i32(src);
        let current_leader_epoch: i32 = if fenced {
            get_i32(src)
        } else {
            -1
        };
        let leader_epoch: i32 = get_i32(src);
        drop_tags(src, flexible);
        Read::Item(LeaderEpochPart { partition, current_leader_epoch, leader_epoch })
    }
}

/// The topics of an OffsetForLeaderEpoch request, or nothing where it cannot be read
/// as far as its topics.
pub open spec fn leader_epochs_at(b: Src, version: i16) -> Option<
    Seq<TopicInView<LeaderEpochPart>>,
> {
    let flexible = version >= 4;
    if version >= 3 && b.left() < 4 {
        None
    } else {
        let t = if version >= 3 {
            b.skip(4)
        } else {
            b
        };
        let c = message::count_at(t, flexible);
        match c.value {
            Err(_) => None,
            Ok(n) => Some(
                message::list_at::<TopicIn<LeaderEpochPart>>(
                    c.rest,
                    message::or_zero(n),
                    version,
                    flexible,
                ).0,
            ),
        }
    }
}

/// Reads an OffsetForLeaderEpoch request.
pub fn decode_offset_for_leader_epoch(src: &mut Bytes, version: i16) -> (r: Option<
    Vec<TopicIn<LeaderEpochPart>>,
>)
    ensures
        r.deep_view() == leader_epochs_at(old(src)@, version),
{
    let flexible = version >= 4;
    if version >= 3 {
        if remaining(src) < 4 {
            return None;
        }
        let _replica_id: i32 = get_i32(src);
    }
    match read_count(src, flexible) {
        Err(_) => None,
        Ok(n) => {
            let n: usize = match n {
                Some(k) => k,
                None => 0,
            };
            Some(read_list::<TopicIn<LeaderEpochPart>>(src, n, version, flexible))
        },
    }
}

/// The end of a leader epoch.
#[derive(Debug, Clone, Copy, PartialEq, Eq, Structural)]
pub struct LeaderEpochRow {
    pub error: i16,
    pub partition: i32,
    pub leader_epoch: i32,
    pub end_offset: i64,
}

impl Row for LeaderEpochRow {
    open spec fn row(&self, o: Out, version: i16, flexible: bool) -> Out {
        let o = o.i16(self.error as int).i32(self.partition as int);
        let o = if version >= 1 {
            o.i32(self.leader_epoch as int)
        } else {
            o
        };
        o.i64(self.end_offset as int).end(flexible)
    }

    fn put(&self, out: &mut BytesMut, version: i16, flexible: bool) {
        put_i16(out, self.error);
        put_i32(out, self.partition);
        if version >= 1 {
            put_i32(out, self.leader_epoch);
        }
        put_i64(out, self.end_offset);
        put_end(out, flexible);
    }
}

/// The row for a partition. `allowed`: the client may describe the topic. `current`:
/// the leader epoch of the partition, if the broker knows it. `found`: the epoch that
/// the broker has for the one asked for, and the offset at which it ends.
pub open spec fn leader_epoch_row_of(
    p: LeaderEpochPart,
    allowed: bool,
    current: Option<i32>,
    found: Option<(i32, i64)>,
) -> LeaderEpochRow {
    let row = |error: i16, leader_epoch: i32, end_offset: i64| LeaderEpochRow {
        error,
        partition: p.partition,
        leader_epoch,
        end_offset,
    };
    let none = (-1int) as i32;
    let no_end = -1i64 as i64;
    if !allowed {
        row(KafkaErrorCode::TopicAuthorizationFailed.code(), none, no_end)
    } else {
        match current {
            None => row(KafkaErrorCode::UnknownTopicOrPartition.code(), none, no_end),
            Some(epoch) => if p.current_leader_epoch != -1 && p.current_leader_epoch > epoch {
                row(KafkaErrorCode::UnknownLeaderEpoch.code(), epoch, no_end)
            } else if p.current_leader_epoch != -1 && p.current_leader_epoch < epoch {
                row(KafkaErrorCode::FencedLeaderEpoch.code(), epoch, no_end)
            } else if p.leader_epoch != -1 && p.leader_epoch > epoch {
                row(KafkaErrorCode::UnknownLeaderEpoch.code(), epoch, no_end)
            } else {
                match found {
                    Some(f) => row(0i16, f.0, f.1),
                    None => row(KafkaErrorCode::UnknownLeaderEpoch.code(), epoch, no_end),
                }
            },
        }
    }
}

/// The row for a partition.
pub fn leader_epoch_row(
    p: &LeaderEpochPart,
    allowed: bool,
    current: Option<i32>,
    found: Option<(i32, i64)>,
) -> (r: LeaderEpochRow)
    ensures
        r == leader_epoch_row_of(*p, allowed, current, found),
{
    let mut row = LeaderEpochRow {
        error: 0,
        partition: p.partition,
        leader_epoch: -1,
        end_offset: -1,
    };
    if !allowed {
        row.error = KafkaErrorCode::TopicAuthorizationFailed.as_i16();
        return row;
    }
    let epoch: i32 = match current {
        None => {
            row.error = KafkaErrorCode::UnknownTopicOrPartition.as_i16();
            return row;
        },
        Some(e) => e,
    };
    row.leader_epoch = epoch;
    if p.current_leader_epoch != -1 {
        if p.current_leader_epoch > epoch {
            row.error = KafkaErrorCode::UnknownLeaderEpoch.as_i16();
            return row;
        }
        if p.current_leader_epoch < epoch {
            row.error = KafkaErrorCode::FencedLeaderEpoch.as_i16();
            return row;
        }
    }
    if p.leader_epoch != -1 && p.leader_epoch > epoch {
        row.error = KafkaErrorCode::UnknownLeaderEpoch.as_i16();
        return row;
    }
    match found {
        Some((found_epoch, end_offset)) => {
            row.leader_epoch = found_epoch;
            row.end_offset = end_offset;
        },
        None => {
            row.error = KafkaErrorCode::UnknownLeaderEpoch.as_i16();
        },
    }
    row
}

/// A response: the throttle time (v2+), then the topics.
pub open spec fn leader_epochs_out(
    o: Out,
    version: i16,
    topics: Seq<TopicOut<LeaderEpochRow>>,
) -> Out {
    let o = if version >= 2 {
        o.i32(0)
    } else {
        o
    };
    message::rows_out(o, topics, version, version >= 4).end(version >= 4)
}

/// Writes an OffsetForLeaderEpoch response. The answer to a request that cannot be
/// read has no topics.
pub fn encode_offset_for_leader_epoch(
    out: &mut BytesMut,
    version: i16,
    topics: &Vec<TopicOut<LeaderEpochRow>>,
)
    ensures
        final(out)@ == leader_epochs_out(old(out)@, version, topics@),
{
    if version >= 2 {
        put_i32(out, 0);
    }
    put_rows(out, topics.as_slice(), version, version >= 4);
    put_end(out, version >= 4);
}

} // verus!
