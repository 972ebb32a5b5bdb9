//! DeleteRecords.

use bytes::{Bytes, BytesMut};
use vstd::prelude::*;

use crate::api::KafkaErrorCode;
use crate::buffer::{get_i32, get_i64, put_i16, put_i32, put_i64, remaining, Contents};
use crate::codec::put_end;
use crate::list_offsets::LookupError;
use crate::message;
use crate::message::{
    drop_tags, put_rows, read_count, read_list, Element, Read, Row, TopicInView, TopicOut,
    WholeTopic,
};
use crate::wire;
use crate::wire::{Out, Src, Step};

verus! {

/// A partition whose records before an offset are to be deleted.
#[derive(Debug, Clone, Copy, PartialEq, Eq, Structural)]
pub struct DeleteRecordsPart {
    pub partition: i32,
    pub offset: i64,
}

impl DeepView for DeleteRecordsPart {
    type V = DeleteRecordsPart;

    open spec fn deep_view(&self) -> DeleteRecordsPart {
        *self
    }
}

impl Element for DeleteRecordsPart {
    open spec fn at(b: Src, version: i16, flexible: bool) -> Step<DeleteRecordsPart> {
        if b.left() < 12 {
            wire::stop(b)
        } else {
            wire::keep(
                DeleteRecordsPart {
                    partition: b.i32() as i32,
                    offset: b.skip(4).i64() as i64,
                },
                message::after_tags(b.skip(4).skip(8), flexible),
            )
        }
    }

    fn read(src: &mut Bytes, version: i16, flexible: bool) -> (r: Read<DeleteRecordsPart>) {
        if remaining(src) < 12 {
            return Read::End;
        }
        let partition: i32 = get_i32(src);
        let offset: i64 = get_i64(src);
        drop_tags(src, flexible);
        Read::Item(DeleteRecordsPart { partition, offset })
    }
}

/// The topics of a DeleteRecords request, or nothing where they cannot be counted.
pub open spec fn delete_records_at(b: Src, version: i16) -> Option<
    Seq<TopicInView<DeleteRecordsPart>>,
> {
    let flexible = version >= 2;
    let c = message::count_at(b, flexible);
    match c.value {
        Err(_) => None,
        Ok(n) => Some(
            message::list_at::<WholeTopic<DeleteRecordsPart>>(
                c.rest,
                message::or_zero(n),
                version,
                flexible,
            ).0,
        ),
    }
}

/// Reads a DeleteRecords request. The timeout behind the topics is not looked at.
pub fn decode_delete_records(src: &mut Bytes, version: i16) -> (r: Option<
    Vec<WholeTopic<DeleteRecordsPart>>,
>)
    ensures
        r.deep_view() == delete_records_at(old(src)@, version),
{
    let flexible = version >= 2;
    match read_count(src, flexible) {
        Err(_) => None,
        Ok(n) => {
            let n: usize = match n {
                Some(k) => k,
                None => 0,
            };
            Some(read_list::<WholeTopic<DeleteRecordsPart>>(src, n, version, flexible))
        },
    }
}

/// The answer for a partition.
#[derive(Debug, Clone, Copy, PartialEq, Eq, Structural)]
pub struct DeleteRecordsRow {
    pub partition: i32,
    /// The first offset that is left.
    pub low_watermark: i64,
    pub error: i16,
}

impl Row for DeleteRecordsRow {
    open spec fn row(&self, o: Out, version: i16, flexible: bool) -> Out {
        o.i32(self.partition as int).i64(self.low_watermark as int).i16(self.error as int).end(
            flexible,
        )
    }

    fn put(&self, out: &mut BytesMut, version: i16, flexible: bool) {
        put_i32(out, self.partition);
        put_i64(out, self.low_watermark);
        put_i16(out, self.error);
        put_end(out, flexible);
    }
}

/// What the log says of a deletion: the first offset that is left and an error number,
/// or why nothing was deleted.
pub type DeleteRecordsOutcome = core::result::Result<(u64, u16), LookupError>;

/// The error number of a log whose leader is another broker.
pub const VOLANT_NOT_LEADER: u16 = 13;

/// Whether the log is asked to delete: the client may, and partition and offset are
/// not negative.
pub open spec fn asks_deletion(p: DeleteRecordsPart, allowed: bool) -> bool {
    allowed && p.partition >= 0 && p.offset >= 0
}

/// Which partition, and the offset before which it is to delete, the log is asked.
pub fn deletion_asked(p: &DeleteRecordsPart, allowed: bool) -> (r: Option<(u32, u64)>)
    ensures
        r == (if asks_deletion(*p, allowed) {
            Some((p.partition as u32, p.offset as u64))
        } else {
            None
        }),
{
    if allowed && p.partition >= 0 && p.offset >= 0 {
        Some((p.partition as u32, p.offset as u64))
    } else {
        None
    }
}

/// The row for a partition.
pub open spec fn delete_records_row_of(
    p: DeleteRecordsPart,
    allowed: bool,
    outcome: DeleteRecordsOutcome,
) -> DeleteRecordsRow {
    let row = |low_watermark: i64, error: i16| DeleteRecordsRow {
        partition: p.partition,
        low_watermark,
        error,
    };
    if !allowed {
        row(0, KafkaErrorCode::TopicAuthorizationFailed.code())
    } else if p.partition < 0 || p.offset < 0 {
        row(0, KafkaErrorCode::InvalidRequest.code())
    } else {
        match outcome {
            Ok(a) => row(
                a.0 as i64,
                if a.1 == 0 {
                    0i16
                } else if a.1 == VOLANT_NOT_LEADER {
                    KafkaErrorCode::NotLeaderForPartition.code()
                } else {
                    KafkaErrorCode::Unknown.code()
                },
            ),
            Err(e) => row(0, e.code()),
        }
    }
}

/// The row for a partition.
pub fn delete_records_row(
    p: &DeleteRecordsPart,
    allowed: bool,
    outcome: &DeleteRecordsOutcome,
) -> (r: DeleteRecordsRow)
    ensures
        r == delete_records_row_of(*p, allowed, *outcome),
{
    let mut row = DeleteRecordsRow { partition: p.partition, low_watermark: 0, error: 0 };
    if !allowed {
        row.error = KafkaErrorCode::TopicAuthorizationFailed.as_i16();
    } else if p.partition < 0 || p.offset < 0 {
        row.error = KafkaErrorCode::InvalidRequest.as_i16();
    } else {
        match outcome {
            Ok((low, err)) => {
                row.low_watermark = *low as i64;
                if *err == VOLANT_NOT_LEADER {
                    row.error = KafkaErrorCode::NotLeaderForPartition.as_i16();
                } else if *err != 0 {
                    row.error = KafkaErrorCode::Unknown.as_i16();
                }
            },
            Err(e) => {
                row.error = e.as_i16();
            },
        }
    }
    row
}

/// The deletion that followers are told of: the partition and the offset that the log
/// now starts at, where the deletion succeeded.
pub fn deletion_fanout(p: &DeleteRecordsPart, allowed: bool, outcome: &DeleteRecordsOutcome) -> (r:
    Option<(u32, u64)>)
    ensures
        r == (match *outcome {
            Ok(a) if asks_deletion(*p, allowed) && a.1 == 0 => Some((p.partition as u32, a.0)),
            _ => None,
        }),
{
    match deletion_asked(p, allowed) {
        None => None,
        Some((partition, _offset)) => match outcome {
            Ok((low, err)) => if *err == 0 {
                Some((partition, *low))
            } else {
                None
            },
            Err(_) => None,
        },
    }
}

/// Followers are told of a deletion exactly where the client is told that it succeeded.
pub proof fn law_fanout(p: DeleteRecordsPart, allowed: bool, outcome: DeleteRecordsOutcome)
    ensures
        delete_records_row_of(p, allowed, outcome).error == 0 <==> (asks_deletion(p, allowed)
            && outcome is Ok && outcome->Ok_0.1 == 0),
{
}

/// A DeleteRecords response.
pub open spec fn delete_records_out(
    o: Out,
    version: i16,
    topics: Seq<TopicOut<DeleteRecordsRow>>,
) -> Out {
    message::rows_out(o.i32(0), topics, version, version >= 2).end(version >= 2)
}

/// Writes a DeleteRecords response. The answer to a request that cannot be read has no
/// topics.
pub fn encode_delete_records(
    out: &mut BytesMut,
    version: i16,
    topics: &Vec<TopicOut<DeleteRecordsRow>>,
)
    ensures
        final(out)@ == delete_records_out(old(out)@, version, topics@),
{
    put_i32(out, 0);
    put_rows(out, topics.as_slice(), version, version >= 2);
    put_end(out, version >= 2);
}

} // verus!
