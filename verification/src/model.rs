//! Messages as producers send them and records as the log keeps them.

use bytes::Bytes;
use vstd::prelude::*;

use crate::buffer::Contents;
use crate::codec;

verus! {

/// A position in a partition log.
#[derive(Debug, Clone, Copy, PartialEq, Eq, Structural)]
pub struct Offset(pub u64);

impl Offset {
    /// The offset with the given number.
    pub fn new(n: u64) -> (o: Offset)
        ensures
            o.0 == n,
    {
        Offset(n)
    }

    /// The number of the offset.
    pub fn raw(self) -> (n: u64)
        ensures
            n == self.0,
    {
        self.0
    }
}

/// A message on its way into a log.
#[derive(Debug)]
pub struct Message {
    /// The key, if there is one.
    pub key: Option<Bytes>,
    /// The payload.
    pub value: Bytes,
    /// When it was made, in milliseconds, if that is known.
    pub timestamp_ms: Option<i64>,
    /// Header names and values, in order.
    pub headers: Vec<(String, Bytes)>,
}

/// A record that a log holds.
#[derive(Debug)]
pub struct Record {
    /// Where in the log it is.
    pub offset: Offset,
    /// The key, if there is one.
    pub key: Option<Bytes>,
    /// The payload.
    pub value: Bytes,
    /// When it was made, in milliseconds.
    pub timestamp_ms: i64,
    /// Header names and values, in order.
    pub headers: Vec<(String, Bytes)>,
}

/// Header names and values.
pub type HeadersView = Seq<(Seq<char>, Seq<u8>)>;

/// What a list of headers says.
pub open spec fn headers_view(h: Seq<(String, Bytes)>) -> HeadersView {
    Seq::new(h.len(), |i: int| (h[i].0@, h[i].1@.bytes))
}

/// What a [`Message`] says.
#[verifier::ext_equal]
pub struct MessageView {
    pub key: Option<Seq<u8>>,
    pub value: Seq<u8>,
    pub timestamp_ms: Option<i64>,
    pub headers: HeadersView,
}

/// What a [`Record`] says.
#[verifier::ext_equal]
pub struct RecordView {
    pub offset: u64,
    pub key: Option<Seq<u8>>,
    pub value: Seq<u8>,
    pub timestamp_ms: i64,
    pub headers: HeadersView,
}

impl DeepView for Message {
    type V = MessageView;

    open spec fn deep_view(&self) -> MessageView {
        MessageView {
            key: codec::blob_view(self.key),
            value: self.value@.bytes,
            timestamp_ms: self.timestamp_ms,
            headers: headers_view(self.headers@),
        }
    }
}

impl DeepView for Record {
    type V = RecordView;

    open spec fn deep_view(&self) -> RecordView {
        RecordView {
            offset: self.offset.0,
            key: codec::blob_view(self.key),
            value: self.value@.bytes,
            timestamp_ms: self.timestamp_ms,
            headers: headers_view(self.headers@),
        }
    }
}

} // verus!
