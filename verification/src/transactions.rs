//! ListTransactions, DescribeTransactions and DescribeProducers. All of them are
//! flexible in every version.

use bytes::{Bytes, BytesMut};
use vstd::prelude::*;
use vstd::string::*;

use crate::acl_api::borrowed;
use crate::api::KafkaErrorCode;
use crate::buffer::{advance, put_i16, put_i32, put_i64, put_u16, put_u64, remaining, Contents};
use crate::codec::{
    get_compact_nullable_string, put_compact_nullable_string, put_compact_string,
    put_empty_tag_buffer,
};
use crate::codec;
use crate::glob;
use crate::message;
use crate::message::{put_rows, read_loose_list, LooseString, LooseTopic, Row, TopicOut};
use crate::text::same;
use crate::wire::{Out, Src};

verus! {

/// A ListTransactions request.
#[derive(Debug)]
pub struct ListTransactionsRequest {
    /// The states that are asked for; all where there are none.
    pub states: Vec<LooseString>,
    /// The producers that are asked for; all where there are none.
    pub producers: Vec<i64>,
    /// The pattern that the ids match (v2+).
    pub pattern: Option<String>,
}

/// What a [`ListTransactionsRequest`] says.
#[verifier::ext_equal]
pub struct ListTransactionsView {
    pub states: Seq<Seq<char>>,
    pub producers: Seq<i64>,
    pub pattern: Option<Seq<char>>,
}

impl DeepView for ListTransactionsRequest {
    type V = ListTransactionsView;

    open spec fn deep_view(&self) -> ListTransactionsView {
        ListTransactionsView {
            states: self.states.deep_view(),
            producers: self.producers.deep_view(),
            pattern: self.pattern.deep_view(),
        }
    }
}

/// A ListTransactions request. A pattern that cannot be read is none.
pub open spec fn list_transactions_at(b: Src, version: i16) -> ListTransactionsView {
    let s = message::loose_list_at::<LooseString>(b, version, true);
    let p = message::loose_list_at::<i64>(s.1, version, true);
    let r = if version >= 1 && p.1.left() >= 8 {
        p.1.skip(8)
    } else {
        p.1
    };
    ListTransactionsView {
        states: s.0,
        producers: p.0,
        pattern: match r.compact_nullable().value {
            Ok(t) if version >= 2 => t,
            _ => None,
        },
    }
}

/// Reads a ListTransactions request. The duration (v1+) is not looked at.
pub fn decode_list_transactions(src: &mut Bytes, version: i16) -> (r: ListTransactionsRequest)
    ensures
        r.deep_view() == list_transactions_at(old(src)@, version),
{
    let states = read_loose_list::<LooseString>(src, version, true);
    let producers = read_loose_list::<i64>(src, version, true);
    if version >= 1 && remaining(src) >= 8 {
        advance(src, 8);
    }
    let mut pattern: Option<String> = None;
    if version >= 2 {
        if let Ok(t) = get_compact_nullable_string(src) {
            pattern = t;
        }
    }
    ListTransactionsRequest { states, producers, pattern }
}

/// The states that a transaction can be in.
pub open spec fn known_states() -> Set<Seq<char>> {
    set![
        "Empty"@,
        "Ongoing"@,
        "PrepareCommit"@,
        "PrepareAbort"@,
        "CompleteCommit"@,
        "CompleteAbort"@,
        "Dead"@,
        "PrepareEpochFence"@,
    ]
}

fn is_known_state(s: &str) -> (b: bool)
    ensures
        b == known_states().contains(s@),
{
    same(s, "Empty") || same(s, "Ongoing") || same(s, "PrepareCommit") || same(s, "PrepareAbort")
        || same(s, "CompleteCommit") || same(s, "CompleteAbort") || same(s, "Dead") || same(
        s,
        "PrepareEpochFence",
    )
}

/// Whether a transactional id matches a pattern. An empty pattern matches all.
pub open spec fn id_matches(pattern: Seq<char>, id: Seq<char>) -> bool {
    pattern.len() == 0 || glob::glob(
        vstd::utf8::encode_utf8(pattern),
        vstd::utf8::encode_utf8(id),
    )
}

/// Match a transactional id against ListTransactions v2 pattern.
///
/// `*` = any sequence (including empty), other characters are literal. Empty pattern
/// matches all.
pub fn txn_id_pattern_matches(pattern: &str, tid: &str) -> (b: bool)
    ensures
        b == id_matches(pattern@, tid@),
{
    if pattern.is_empty() {
        return true;
    }
    glob::matches(pattern.as_bytes(), tid.as_bytes())
}

/// A pattern matches an id character by character: a star stands for a sequence of whole
/// characters, every other character for itself.
pub proof fn law_id_matches(pattern: Seq<char>, id: Seq<char>)
    ensures
        id_matches(pattern, id) <==> pattern.len() == 0 || glob::char_glob(pattern, id),
{
    glob::law_glob_chars(pattern, id);
}

/// A transaction that is open.
#[derive(Debug)]
pub struct OpenTransaction {
    pub id: String,
    pub producer_id: u64,
    pub state: String,
}

/// What an [`OpenTransaction`] says.
#[verifier::ext_equal]
pub struct OpenTransactionView {
    pub id: Seq<char>,
    pub producer_id: u64,
    pub state: Seq<char>,
}

impl DeepView for OpenTransaction {
    type V = OpenTransactionView;

    open spec fn deep_view(&self) -> OpenTransactionView {
        OpenTransactionView { id: self.id@, producer_id: self.producer_id, state: self.state@ }
    }
}

impl Row for OpenTransaction {
    open spec fn row(&self, o: Out, version: i16, flexible: bool) -> Out {
        o.compact(self.id@).i64(self.producer_id as int).compact(self.state@).tags()
    }

    fn put(&self, out: &mut BytesMut, version: i16, flexible: bool) {
        put_compact_string(out, self.id.as_str());
        put_u64(out, self.producer_id);
        put_compact_string(out, self.state.as_str());
        put_empty_tag_buffer(out);
    }
}

impl Row for LooseString {
    open spec fn row(&self, o: Out, version: i16, flexible: bool) -> Out {
        o.compact(self.text@)
    }

    fn put(&self, out: &mut BytesMut, version: i16, flexible: bool) {
        put_compact_string(out, self.text.as_str());
    }
}

/// Whether a transaction is one of those that are asked for.
pub open spec fn is_listed(q: ListTransactionsView, t: OpenTransactionView) -> bool {
    &&& q.states.len() > 0 ==> q.states.contains(t.state)
    &&& q.producers.len() > 0 ==> q.producers.contains(t.producer_id as i64)
    &&& q.pattern matches Some(p) ==> id_matches(p, t.id)
}

fn listed(q: &ListTransactionsRequest, t: &OpenTransaction) -> (b: bool)
    ensures
        b == is_listed(q.deep_view(), t.deep_view()),
{
    let ghost qv = q.deep_view();
    if q.states.len() > 0 {
        let mut found = false;
        let mut i: usize = 0;
        while i < q.states.len()
            invariant
                i <= q.states@.len(),
                qv == q.deep_view(),
                found == (exists|k: int| 0 <= k < i && qv.states[k] == t.state@),
            decreases q.states@.len() - i,
        {
            assert(qv.states[i as int] == q.states@[i as int].text@);
            if same(q.states[i].text.as_str(), t.state.as_str()) {
                found = true;
            }
            i += 1;
        }
        assert(found == qv.states.contains(t.state@));
        if !found {
            return false;
        }
    }
    if q.producers.len() > 0 {
        let id: i64 = t.producer_id as i64;
        let mut found = false;
        let mut i: usize = 0;
        while i < q.producers.len()
            invariant
                i <= q.producers@.len(),
                qv == q.deep_view(),
                found == (exists|k: int| 0 <= k < i && qv.producers[k] == id),
            decreases q.producers@.len() - i,
        {
            assert(qv.producers[i as int] == q.producers@[i as int]);
            if q.producers[i] == id {
                found = true;
            }
            i += 1;
        }
        assert(found == qv.producers.contains(id));
        if !found {
            return false;
        }
    }
    match &q.pattern {
        Some(p) => txn_id_pattern_matches(p.as_str(), t.id.as_str()),
        None => true,
    }
}

/// The transactions that are asked for.
pub fn list_transactions(q: &ListTransactionsRequest, open: Vec<OpenTransaction>) -> (r: Vec<
    OpenTransaction,
>)
    ensures
        r.deep_view() == open.deep_view().filter(
            |t: OpenTransactionView| is_listed(q.deep_view(), t),
        ),
{
    let ghost f = |t: OpenTransactionView| is_listed(q.deep_view(), t);
    let ghost all = open.deep_view();
    let ghost given = open@;
    let mut r: Vec<OpenTransaction> = Vec::new();
    proof {
        reveal(Seq::filter);
        assert(all.take(0).len() == 0);
        assert(r.deep_view() =~= Seq::empty());
    }
    for t in it: open.into_iter()
        invariant
            it.seq() == given,
            all.len() == given.len(),
            forall|k: int| 0 <= k < given.len() ==> #[trigger] all[k] == given[k].deep_view(),
            f == |t: OpenTransactionView| is_listed(q.deep_view(), t),
            r.deep_view() == all.take(it.index() as int).filter(f),
    {
        let ghost i = it.index() as int;
        let ghost before = r.deep_view();
        proof {
            reveal(Seq::filter);
            assert(all[i] == t.deep_view());
            assert(all.take(i + 1).drop_last() =~= all.take(i));
            assert(all.take(i + 1).last() == t.deep_view());
        }
        if listed(q, &t) {
            r.push(t);
            assert(r.deep_view() =~= before.push(t.deep_view()));
        }
    }
    assert(all.take(given.len() as int) =~= all);
    r
}

/// The states that are asked for and do not exist.
pub fn unknown_states(states: Vec<LooseString>) -> (r: Vec<LooseString>)
    ensures
        r.deep_view() == states.deep_view().filter(
            |s: Seq<char>| !known_states().contains(s),
        ),
{
    let ghost f = |s: Seq<char>| !known_states().contains(s);
    let ghost all = states.deep_view();
    let ghost given = states@;
    let mut r: Vec<LooseString> = Vec::new();
    proof {
        reveal(Seq::filter);
        assert(all.take(0).len() == 0);
        assert(r.deep_view() =~= Seq::empty());
    }
    for s in it: states.into_iter()
        invariant
            it.seq() == given,
            all.len() == given.len(),
            forall|k: int| 0 <= k < given.len() ==> #[trigger] all[k] == given[k].deep_view(),
            f == |s: Seq<char>| !known_states().contains(s),
            r.deep_view() == all.take(it.index() as int).filter(f),
    {
        let ghost i = it.index() as int;
        let ghost before = r.deep_view();
        proof {
            reveal(Seq::filter);
            assert(all[i] == s.deep_view());
            assert(all.take(i + 1).drop_last() =~= all.take(i));
            assert(all.take(i + 1).last() == s.deep_view());
        }
        if !is_known_state(s.text.as_str()) {
            r.push(s);
            assert(r.deep_view() =~= before.push(s.deep_view()));
        }
    }
    assert(all.take(given.len() as int) =~= all);
    r
}

/// A ListTransactions response.
pub open spec fn list_transactions_out(
    o: Out,
    version: i16,
    error: i16,
    unknown: Seq<LooseString>,
    transactions: Seq<OpenTransaction>,
) -> Out {
    message::rows_out(
        message::rows_out(o.i32(0).i16(error as int), unknown, version, true),
        transactions,
        version,
        true,
    ).tags()
}

/// Writes a ListTransactions response. Where the client may not describe the cluster it
/// holds the error alone.
pub fn encode_list_transactions(
    out: &mut BytesMut,
    version: i16,
    error: i16,
    unknown: &Vec<LooseString>,
    transactions: &Vec<OpenTransaction>,
)
    ensures
        final(out)@ == list_transactions_out(
            old(out)@,
            version,
            error,
            unknown@,
            transactions@,
        ),
{
    put_i32(out, 0);
    put_i16(out, error);
    put_rows(out, unknown.as_slice(), version, true);
    put_rows(out, transactions.as_slice(), version, true);
    put_empty_tag_buffer(out);
}

/// The ids of a DescribeTransactions request.
pub fn decode_describe_transactions(src: &mut Bytes) -> (ids: Vec<LooseString>)
    ensures
        ids.deep_view() == message::loose_list_at::<LooseString>(old(src)@, 0, true).0,
{
    read_loose_list::<LooseString>(src, 0, true)
}

/// What a broker knows of a transaction.
#[derive(Debug)]
pub struct TransactionState {
    pub state: String,
    pub timeout_ms: i32,
    pub start_ms: i64,
    pub producer_id: u64,
    pub epoch: u16,
    /// The partitions that it has written to.
    pub topics: Vec<TopicOut<i32>>,
}

/// A transaction in a DescribeTransactions response.
#[derive(Debug)]
pub struct TransactionRow {
    pub error: i16,
    pub id: String,
    /// Nothing where there is nothing to tell.
    pub found: Option<TransactionState>,
}

impl Row for TransactionRow {
    open spec fn row(&self, o: Out, version: i16, flexible: bool) -> Out {
        let o = o.i16(self.error as int).compact(self.id@);
        match self.found {
            None => o.compact(""@).i32(0).i64(0).i64(-1).i16(-1).compact_len(0).tags(),
            Some(t) => message::rows_out(
                o.compact(t.state@).i32(t.timeout_ms as int).i64(t.start_ms as int).i64(
                    t.producer_id as int,
                ).i16(t.epoch as int),
                t.topics@,
                version,
                true,
            ).tags(),
        }
    }

    fn put(&self, out: &mut BytesMut, version: i16, flexible: bool) {
        put_i16(out, self.error);
        put_compact_string(out, self.id.as_str());
        match &self.found {
            None => {
                put_compact_string(out, "");
                put_i32(out, 0);
                put_i64(out, 0);
                put_i64(out, -1);
                put_i16(out, -1);
                codec::put_compact_array_len(out, 0);
            },
            Some(t) => {
                put_compact_string(out, t.state.as_str());
                put_i32(out, t.timeout_ms);
                put_i64(out, t.start_ms);
                put_u64(out, t.producer_id);
                put_u16(out, t.epoch);
                put_rows(out, t.topics.as_slice(), version, true);
            },
        }
        put_empty_tag_buffer(out);
    }
}

/// The row for a transaction. `allowed`: the client may describe the cluster. `found`:
/// what the broker knows of it.
pub fn describe_transaction_row(
    id: String,
    allowed: bool,
    found: Option<TransactionState>,
) -> (r: TransactionRow)
    ensures
        r.id == id,
        r.error == (if !allowed {
            KafkaErrorCode::ClusterAuthorizationFailed.code()
        } else if found is None {
            KafkaErrorCode::TransactionalIdNotFound.code()
        } else {
            0
        }),
        r.found == (if allowed {
            found
        } else {
            None
        }),
{
    if !allowed {
        TransactionRow {
            error: KafkaErrorCode::ClusterAuthorizationFailed.as_i16(),
            id,
            found: None,
        }
    } else if found.is_none() {
        TransactionRow {
            error: KafkaErrorCode::TransactionalIdNotFound.as_i16(),
            id,
            found: None,
        }
    } else {
        TransactionRow { error: 0, id, found }
    }
}

/// A DescribeTransactions response.
pub open spec fn describe_transactions_out(o: Out, rows: Seq<TransactionRow>) -> Out {
    message::rows_out(o.i32(0), rows, 0, true).tags()
}

/// DescribeTransactions v0.
pub fn encode_describe_transactions(out: &mut BytesMut, rows: &Vec<TransactionRow>)
    ensures
        final(out)@ == describe_transactions_out(old(out)@, rows@),
{
    put_i32(out, 0);
    put_rows(out, rows.as_slice(), 0, true);
    put_empty_tag_buffer(out);
}

/// The topics of a DescribeProducers request.
pub fn decode_describe_producers(src: &mut Bytes) -> (topics: Vec<LooseTopic<i32>>)
    ensures
        topics.deep_view() == message::loose_list_at::<LooseTopic<i32>>(old(src)@, 0, true).0,
{
    read_loose_list::<LooseTopic<i32>>(src, 0, true)
}

/// A producer that is active on a partition.
#[derive(Debug, Clone, Copy, PartialEq, Eq, Structural)]
pub struct ActiveProducer {
    pub producer_id: u64,
    pub epoch: i32,
    pub last_sequence: i32,
    pub last_timestamp: i64,
    pub coordinator_epoch: i32,
    pub txn_start_offset: i64,
}

impl Row for ActiveProducer {
    open spec fn row(&self, o: Out, version: i16, flexible: bool) -> Out {
        o.i64(self.producer_id as int).i32(self.epoch as int).i32(self.last_sequence as int).i64(
            self.last_timestamp as int,
        ).i32(self.coordinator_epoch as int).i64(self.txn_start_offset as int).tags()
    }

    fn put(&self, out: &mut BytesMut, version: i16, flexible: bool) {
        put_u64(out, self.producer_id);
        put_i32(out, self.epoch);
        put_i32(out, self.last_sequence);
        put_i64(out, self.last_timestamp);
        put_i32(out, self.coordinator_epoch);
        put_i64(out, self.txn_start_offset);
        put_empty_tag_buffer(out);
    }
}

/// A partition in a DescribeProducers response.
#[derive(Debug)]
pub struct ProducersRow {
    pub partition: i32,
    pub error: i16,
    pub message: Option<String>,
    pub active: Vec<ActiveProducer>,
}

impl Row for ProducersRow {
    open spec fn row(&self, o: Out, version: i16, flexible: bool) -> Out {
        message::rows_out(
            o.i32(self.partition as int).i16(self.error as int).compact_nullable(
                self.message.deep_view(),
            ),
            self.active@,
            version,
            true,
        ).tags()
    }

    fn put(&self, out: &mut BytesMut, version: i16, flexible: bool) {
        put_i32(out, self.partition);
        put_i16(out, self.error);
        put_compact_nullable_string(out, borrowed(&self.message));
        put_rows(out, self.active.as_slice(), version, true);
        put_empty_tag_buffer(out);
    }
}

/// The row for a partition. `allowed`: the client may describe the topic. `active`: the
/// producers of the partition, if there is such a partition.
pub fn describe_producers_row(
    partition: i32,
    allowed: bool,
    active: Option<Vec<ActiveProducer>>,
) -> (r: ProducersRow)
    ensures
        r.partition == partition,
        if !allowed {
            &&& r.error == KafkaErrorCode::TopicAuthorizationFailed.code()
            &&& r.message.deep_view() == Some("Topic authorization failed"@)
            &&& r.active@.len() == 0
        } else {
            match active {
                None => {
                    &&& r.error == KafkaErrorCode::UnknownTopicOrPartition.code()
                    &&& r.message.deep_view() == Some("Unknown topic or partition"@)
                    &&& r.active@.len() == 0
                },
                Some(a) => r.error == 0 && r.message is None && r.active == a,
            }
        },
{
    if !allowed {
        return ProducersRow {
            partition,
            error: KafkaErrorCode::TopicAuthorizationFailed.as_i16(),
            message: Some("Topic authorization failed".to_owned()),
            active: Vec::new(),
        };
    }
    match active {
        None => ProducersRow {
            partition,
            error: KafkaErrorCode::UnknownTopicOrPartition.as_i16(),
            message: Some("Unknown topic or partition".to_owned()),
            active: Vec::new(),
        },
        Some(a) => ProducersRow { partition, error: 0, message: None, active: a },
    }
}

/// A DescribeProducers response.
pub open spec fn describe_producers_out(o: Out, topics: Seq<TopicOut<ProducersRow>>) -> Out {
    message::rows_out(o.i32(0), topics, 0, true).tags()
}

/// DescribeProducers v0.
pub fn encode_describe_producers(out: &mut BytesMut, topics: &Vec<TopicOut<ProducersRow>>)
    ensures
        final(out)@ == describe_producers_out(old(out)@, topics@),
{
    put_i32(out, 0);
    put_rows(out, topics.as_slice(), 0, true);
    put_empty_tag_buffer(out);
}

} // verus!
