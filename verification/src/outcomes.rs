//! What requests come to: how the answers of the broker follow from what clients ask and what
//! the logs and groups hold.

use vstd::prelude::*;

use crate::compress;
use crate::compress::CompressionCodec;
use crate::consumer_protocol;
use crate::delete_records;
use crate::delete_records::{DeleteRecordsOutcome, DeleteRecordsPart};
use crate::fetch;
use crate::fetch::ForgottenView;
use crate::fetch_response;
use crate::fetch_response::{
    FetchContext, FetchMeta, FetchRowView, FetchStepView, FetchTopicOutView, LogEntryView,
};
use crate::fetch_session::SessionPartition;
use crate::list_offsets;
use crate::list_offsets::{LeaderEpochPart, ListOffsetsPart, LookupError, OffsetAnswer};
use crate::message::{TopicInView, TopicOut, WireTopicOut};
use crate::model::{MessageView, RecordView};
use crate::offsets;
use crate::offsets::{
    AskView, CommitEntryView, CommitPartView, FetchedOffsetView, OffsetDeletion, OffsetFetchView,
    OffsetRowView, PartitionError, WireTopicView,
};
use crate::produce;
use crate::produce::{
    AckError, BatchAction, IdempotentCheck, ProducePartView, ProducePlanView,
};
use crate::records;
use crate::records::{BatchView, RecordBatchProducer};
use crate::roundtrip;
use crate::session_manager;
use crate::session_manager::ManagerView;
use crate::topic_id;
use crate::topic_id::WireView;

verus! {

/// Whether a batch has a producer and a sequence number.
pub open spec fn is_numbered(b: BatchView) -> bool {
    b.producer.producer_id >= 0 && b.producer.base_sequence >= 0
}

/// The sequence numbers that are checked for a batch are those of its messages: one for each,
/// from the first number of the batch on. What is done with a batch goes by whether it has
/// messages, a number, and a transaction, and it is done for the producer of the batch.
pub proof fn law_batch_action(b: BatchView, transactional: bool)
    requires
        b.messages.len() <= u32::MAX,
    ensures
        match produce::batch_action_of(b, transactional) {
            BatchAction::Skip => b.messages.len() == 0,
            BatchAction::Append => b.messages.len() > 0 && !is_numbered(b),
            BatchAction::Buffer { producer_id, epoch, base_sequence } => {
                &&& b.messages.len() > 0 && is_numbered(b) && transactional
                &&& producer_id == b.producer.producer_id
                &&& b.producer.producer_epoch >= 0 ==> epoch == b.producer.producer_epoch
                &&& base_sequence == b.producer.base_sequence
            },
            BatchAction::Check { producer_id, epoch, base_sequence, count } => {
                &&& b.messages.len() > 0 && is_numbered(b) && !transactional
                &&& producer_id == b.producer.producer_id
                &&& b.producer.producer_epoch >= 0 ==> epoch == b.producer.producer_epoch
                &&& base_sequence == b.producer.base_sequence
                &&& count == b.messages.len()
            },
        },
{
}

/// Batches that follow each other are checked for sequence numbers that follow each other: the
/// number behind the last one of a batch is the first of the next, and a batch that is split in
/// two is checked for the same numbers.
pub proof fn law_sequence(a: BatchView, b: BatchView, whole: BatchView)
    requires
        is_numbered(a),
        a.messages.len() > 0,
        b.messages.len() > 0,
        whole.messages == a.messages + b.messages,
        whole.messages.len() <= u32::MAX,
        whole.producer == a.producer,
        b.producer.producer_id == a.producer.producer_id,
        b.producer.base_sequence == a.producer.base_sequence + a.messages.len(),
    ensures
        match (
            produce::batch_action_of(a, false),
            produce::batch_action_of(b, false),
            produce::batch_action_of(whole, false),
        ) {
            (
                BatchAction::Check { base_sequence: x, count: n, .. },
                BatchAction::Check { base_sequence: y, count: m, .. },
                BatchAction::Check { base_sequence: z, count: k, .. },
            ) => x + n == y && z == x && z + k == y + m,
            _ => false,
        },
{
}

/// A partition of a Produce request is appended to only where the client may write to it and
/// its records can be read, and then all its batches are. Otherwise it is answered with the
/// error that fits, and no offset.
pub proof fn law_produce_plan(part: ProducePartView, known: bool, allowed: bool)
    ensures
        match produce::produce_plan_of(part, known, allowed) {
            ProducePlanView::Append(batches) => {
                &&& known && allowed
                &&& part.records matches Some(data) && records::record_set(data) == Ok::<
                    Seq<BatchView>,
                    Seq<char>,
                >(batches)
                &&& exists|i: int|
                    0 <= i < batches.len() && (#[trigger] batches[i]).messages.len() > 0
            },
            ProducePlanView::Empty => {
                &&& known && allowed
                &&& part.records matches Some(data) && records::record_set(data) is Ok
            },
            ProducePlanView::Answer(row) => {
                &&& row.partition == part.partition
                &&& row.base_offset == -1
                &&& row.log_start_offset == -1
                &&& row.error == (if part.records is None {
                    4i16
                } else if !known {
                    100
                } else if !allowed {
                    29
                } else {
                    2
                })
                &&& part.records is Some && known && allowed ==> records::record_set(
                    part.records->Some_0,
                ) is Err
            },
        },
{
    if let ProducePlanView::Append(batches) = produce::produce_plan_of(part, known, allowed) {
        assert(!produce::all_empty(batches));
        let i = choose|i: int|
            0 <= i < batches.len() && (#[trigger] batches[i]).messages.len() != 0;
        assert(batches[i].messages.len() > 0);
    }
}

/// The answer for a partition tells where its records begin, or the error. The leader is told
/// only to clients that ask the wrong broker.
pub proof fn law_produce_row(
    version: i16,
    partition: i32,
    outcome: core::result::Result<i64, i16>,
    log_start: i64,
    leader: Option<(i32, i32)>,
)
    ensures
        ({
            let r = produce::produce_row_of(version, partition, outcome, log_start, leader);
            &&& r.partition == partition
            &&& match outcome {
                Ok(base) => r.error == 0 && r.base_offset == base && r.log_start_offset == log_start
                    && r.current_leader is None,
                Err(code) => {
                    &&& r.error == code
                    &&& r.base_offset == -1
                    &&& r.log_start_offset == -1
                    &&& r.current_leader == (if version >= 10 && (code == 6 || code == 74) {
                        leader
                    } else {
                        None
                    })
                },
            }
        }),
{
}

/// A batch that was seen before is answered with the offset that it has, and a batch that is
/// refused with its error; one that is new has an offset only where it was written already.
pub proof fn law_checked(offset: u64, error: u16, buffered: bool)
    requires
        offset <= i64::MAX,
    ensures
        produce::checked(IdempotentCheck::Duplicate { base_offset: offset }, buffered) == Ok::<
            Option<i64>,
            i16,
        >(Some(offset as i64)),
        produce::checked(IdempotentCheck::Accept { base_offset: offset }, true) == Ok::<
            Option<i64>,
            i16,
        >(Some(offset as i64)),
        produce::checked(IdempotentCheck::Accept { base_offset: offset }, false) == Ok::<
            Option<i64>,
            i16,
        >(None),
        produce::checked(IdempotentCheck::Reject { error_code: error }, buffered) is Err,
{
}

/// Full acknowledgement, none, or that of the leader.
pub proof fn law_acks(acks: i16)
    ensures
        produce::acks_of(-1i16 as i16) == 255,
        produce::acks_of(0) == 0,
        acks != -1 && acks != 0 ==> produce::acks_of(acks) == 1,
{
}

/// A client is pointed to the address of the first broker with the id, or to this one where
/// there is none.
pub proof fn law_address(
    brokers: Seq<(u32, Seq<char>, u16)>,
    id: i32,
    host: Seq<char>,
    port: u16,
    i: int,
)
    requires
        0 <= i <= brokers.len(),
        forall|j: int| 0 <= j < i ==> (#[trigger] brokers[j]).0 as i32 != id,
        i < brokers.len() ==> brokers[i].0 as i32 == id,
    ensures
        i < brokers.len() ==> produce::address_of(brokers, id, host, port) == (
            brokers[i].1,
            brokers[i].2 as i32,
        ),
        i == brokers.len() ==> produce::address_of(brokers, id, host, port) == (host, port as i32),
    decreases i,
{
    if i > 0 {
        assert(brokers[0].0 as i32 != id);
        let rest = brokers.skip(1);
        assert forall|j: int| 0 <= j < i - 1 implies (#[trigger] rest[j]).0 as i32 != id by {
            assert(rest[j] == brokers[j + 1]);
        }
        law_address(rest, id, host, port, i - 1);
    }
}

proof fn lemma_number(p: i32)
    ensures
        (p as u32) as i32 == p,
{
    assert((p as u32) as i32 == p) by (bit_vector);
}

/// Each partition that is committed for a topic that is known is remembered: under the name of
/// the topic and its own number, with its offset and what goes with it. Nothing else is.
pub proof fn law_commit_entries(
    catalog: Seq<(Seq<char>, u32)>,
    topics: Seq<WireTopicView<CommitPartView>>,
)
    ensures
        forall|i: int, j: int|
            #![trigger topics[i].parts[j]]
            0 <= i < topics.len() && 0 <= j < topics[i].parts.len() && topic_id::resolved(
                catalog,
                topics[i].wire,
            ).name is Some ==> is_remembered(
                offsets::entries_of(catalog, topics),
                topic_id::resolved(catalog, topics[i].wire).name->Some_0,
                topics[i].parts[j],
            ),
        forall|k: int|
            0 <= k < offsets::entries_of(catalog, topics).len() ==> comes_from(
                #[trigger] offsets::entries_of(catalog, topics)[k],
                catalog,
                topics,
            ),
    decreases topics.len(),
{
    let es = offsets::entries_of(catalog, topics);
    if topics.len() > 0 {
        let init = topics.drop_last();
        let before = offsets::entries_of(catalog, init);
        let t = topics.last();
        let own = offsets::topic_entries(catalog, t);
        law_commit_entries(catalog, init);
        assert forall|i: int, j: int|
            #![trigger topics[i].parts[j]]
            0 <= i < topics.len() && 0 <= j < topics[i].parts.len() && topic_id::resolved(
                catalog,
                topics[i].wire,
            ).name is Some implies is_remembered(
            es,
            topic_id::resolved(catalog, topics[i].wire).name->Some_0,
            topics[i].parts[j],
        ) by {
            let name = topic_id::resolved(catalog, topics[i].wire).name->Some_0;
            if i < init.len() {
                assert(init[i] == topics[i]);
                let p = init[i].parts[j];
                assert(is_remembered(before, name, p));
                let k = choose|k: int|
                    0 <= k < before.len() && remembers(#[trigger] before[k], name, p);
                assert(es[k] == before[k]);
            } else {
                assert(own[j] == offsets::commit_entry(name, t.parts[j]));
                lemma_number(t.parts[j].partition);
                assert(es[before.len() + j] == own[j]);
                assert(remembers(es[before.len() + j], name, topics[i].parts[j]));
            }
        }
        assert forall|k: int| 0 <= k < es.len() implies comes_from(
            #[trigger] es[k],
            catalog,
            topics,
        ) by {
            if k < before.len() {
                assert(comes_from(before[k], catalog, init));
                let (i, j) = choose|i: int, j: int|
                    #![trigger init[i].parts[j]]
                    0 <= i < init.len() && 0 <= j < init[i].parts.len() && (topic_id::resolved(
                        catalog,
                        init[i].wire,
                    ).name matches Some(n) && remembers(before[k], n, init[i].parts[j]));
                assert(topics[i].parts[j] == init[i].parts[j]);
            } else {
                let j = k - before.len();
                assert(es[k] == own[j]);
                let name = topic_id::resolved(catalog, t.wire).name->Some_0;
                assert(own[j] == offsets::commit_entry(name, t.parts[j]));
                lemma_number(t.parts[j].partition);
                assert(topics[topics.len() - 1].parts[j] == t.parts[j]);
            }
        }
    }
}

/// Whether an entry is what is to be remembered of a partition of a topic.
pub open spec fn remembers(e: CommitEntryView, topic: Seq<char>, p: CommitPartView) -> bool {
    &&& e.topic == topic
    &&& e.partition as i32 == p.partition
    &&& p.partition >= 0 ==> e.partition == p.partition
    &&& e.offset == p.offset
    &&& e.metadata == p.metadata
    &&& e.leader_epoch == p.leader_epoch
}

/// Whether one of the entries is what is to be remembered of a partition of a topic.
pub open spec fn is_remembered(
    es: Seq<CommitEntryView>,
    topic: Seq<char>,
    p: CommitPartView,
) -> bool {
    exists|k: int| 0 <= k < es.len() && remembers(#[trigger] es[k], topic, p)
}

/// Whether an entry is for a partition that is committed.
pub open spec fn comes_from(
    e: CommitEntryView,
    catalog: Seq<(Seq<char>, u32)>,
    topics: Seq<WireTopicView<CommitPartView>>,
) -> bool {
    exists|i: int, j: int|
        #![trigger topics[i].parts[j]]
        0 <= i < topics.len() && 0 <= j < topics[i].parts.len() && (topic_id::resolved(
            catalog,
            topics[i].wire,
        ).name matches Some(n) && remembers(e, n, topics[i].parts[j]))
}

/// What a group tells of an entry that it remembers.
pub open spec fn told_back(e: CommitEntryView) -> FetchedOffsetView {
    FetchedOffsetView {
        topic: e.topic,
        partition: e.partition,
        offset: e.offset,
        leader_epoch: e.leader_epoch,
        metadata: e.metadata,
    }
}

/// An offset that was committed is told to who asks for it: the group is asked for the topic
/// and the partition under which it remembers the entry, and the answer has the offset, the
/// leader epoch and the metadata that were committed.
pub proof fn law_commit_then_fetch(
    catalog: Seq<(Seq<char>, u32)>,
    w: WireView,
    p: CommitPartView,
    before: Seq<FetchedOffsetView>,
    behind: Seq<FetchedOffsetView>,
)
    requires
        topic_id::resolved(catalog, w).name is Some,
        p.offset <= i64::MAX,
        forall|i: int|
            0 <= i < before.len() ==> (#[trigger] before[i]).topic != topic_id::resolved(
                catalog,
                w,
            ).name->Some_0 || before[i].partition != p.partition as u32,
    ensures
        ({
            let name = topic_id::resolved(catalog, w).name->Some_0;
            let committed = seq![WireTopicView { wire: w, parts: seq![p] }];
            let asked = WireTopicView { wire: w, parts: seq![p.partition] };
            let es = offsets::entries_of(catalog, committed);
            let told = before + (seq![told_back(es[0])] + behind);
            &&& es.len() == 1
            &&& offsets::query_of(catalog, seq![asked]) == seq![(es[0].topic, es[0].partition)]
            &&& offsets::asked_topic(catalog, asked, told).wire == w
            &&& offsets::asked_topic(catalog, asked, told).rows == seq![
                (OffsetRowView {
                    partition: p.partition,
                    offset: p.offset as i64,
                    leader_epoch: p.leader_epoch,
                    metadata: Some(p.metadata),
                    error: 0,
                }),
            ]
        }),
{
    let name = topic_id::resolved(catalog, w).name->Some_0;
    let committed = seq![WireTopicView { wire: w, parts: seq![p] }];
    let asked = WireTopicView { wire: w, parts: seq![p.partition] };
    let es = offsets::entries_of(catalog, committed);
    reveal_with_fuel(offsets::entries_of, 2);
    reveal_with_fuel(offsets::query_of, 2);
    assert(committed.drop_last() =~= Seq::empty());
    assert(offsets::topic_entries(catalog, committed[0]) =~= seq![offsets::commit_entry(name, p)]);
    assert(es =~= seq![offsets::commit_entry(name, p)]);
    assert(seq![asked].drop_last() =~= Seq::empty());
    assert(offsets::query_of(catalog, seq![asked]) =~= seq![(es[0].topic, es[0].partition)]);
    let told = before + (seq![told_back(es[0])] + behind);
    lemma_first_of(before, told_back(es[0]), behind, name, p.partition as u32);
    assert(offsets::asked_topic(catalog, asked, told).rows =~= seq![
        (OffsetRowView {
            partition: p.partition,
            offset: p.offset as i64,
            leader_epoch: p.leader_epoch,
            metadata: Some(p.metadata),
            error: 0,
        }),
    ]);
}

proof fn lemma_first_of(
    before: Seq<FetchedOffsetView>,
    e: FetchedOffsetView,
    behind: Seq<FetchedOffsetView>,
    topic: Seq<char>,
    partition: u32,
)
    requires
        forall|i: int|
            0 <= i < before.len() ==> (#[trigger] before[i]).topic != topic || before[i].partition
                != partition,
        e.topic == topic,
        e.partition == partition,
    ensures
        offsets::first_of(before + (seq![e] + behind), topic, partition) == Some(e),
    decreases before.len(),
{
    let all = before + (seq![e] + behind);
    if before.len() > 0 {
        assert(all[0] == before[0]);
        assert forall|i: int| 0 <= i < before.skip(1).len() implies (#[trigger] before.skip(
            1,
        )[i]).topic != topic || before.skip(1)[i].partition != partition by {
            assert(before.skip(1)[i] == before[i + 1]);
        }
        lemma_first_of(before.skip(1), e, behind, topic, partition);
        assert(all.skip(1) =~= before.skip(1) + (seq![e] + behind));
    } else {
        assert(all[0] == e);
    }
}

/// A partition for which the group remembers nothing has no offset, and one of a topic that is
/// not known an error.
pub proof fn law_nothing_remembered(
    name: Option<Seq<char>>,
    partition: i32,
    fetched: Seq<FetchedOffsetView>,
)
    ensures
        ({
            let r = offsets::asked_row(name, partition, fetched);
            &&& r.partition == partition
            &&& name is None ==> r.offset == -1 && r.error == 100 && r.leader_epoch == -1
            &&& (name matches Some(n) && forall|i: int|
                0 <= i < fetched.len() ==> (#[trigger] fetched[i]).topic != n || fetched[i].partition
                    != partition as u32) ==> r.offset == -1 && r.error == 0 && r.leader_epoch == -1
        }),
{
    if let Some(n) = name {
        if forall|i: int|
            0 <= i < fetched.len() ==> (#[trigger] fetched[i]).topic != n || fetched[i].partition
                != partition as u32 {
            lemma_none_of(fetched, n, partition as u32);
        }
    }
}

proof fn lemma_none_of(fetched: Seq<FetchedOffsetView>, topic: Seq<char>, partition: u32)
    requires
        forall|i: int|
            0 <= i < fetched.len() ==> (#[trigger] fetched[i]).topic != topic || fetched[i].partition
                != partition,
    ensures
        offsets::first_of(fetched, topic, partition) is None,
    decreases fetched.len(),
{
    if fetched.len() > 0 {
        let rest = fetched.skip(1);
        assert(fetched[0].topic != topic || fetched[0].partition != partition);
        assert forall|i: int| 0 <= i < rest.len() implies (#[trigger] rest[i]).topic != topic
            || rest[i].partition != partition by {
            assert(rest[i] == fetched[i + 1]);
        }
        lemma_none_of(rest, topic, partition);
    }
}

/// The offsets that are deleted are those of the partitions that a request names, each under
/// the name of its topic; numbers that are none of a partition are left out.
pub proof fn law_delete_pairs(topics: Seq<TopicInView<i32>>, name: Seq<char>, partition: u32)
    ensures
        offsets::delete_pairs_of(topics).contains((name, partition)) <==> partition <= i32::MAX
            && exists|i: int, j: int|
            #![trigger topics[i].parts[j]]
            0 <= i < topics.len() && 0 <= j < topics[i].parts.len() && topics[i].name == name
                && topics[i].parts[j] == partition,
    decreases topics.len(),
{
    let all = offsets::delete_pairs_of(topics);
    if topics.len() > 0 {
        let init = topics.drop_last();
        let t = topics.last();
        let before = offsets::delete_pairs_of(init);
        let own = offsets::topic_pairs(t.name, t.parts);
        law_delete_pairs(init, name, partition);
        lemma_topic_pairs(t.name, t.parts, name, partition);
        assert(all == before + own);
        if all.contains((name, partition)) {
            let k = all.index_of((name, partition));
            if k < before.len() {
                assert(before[k] == (name, partition));
                let (i, j) = choose|i: int, j: int|
                    #![trigger init[i].parts[j]]
                    0 <= i < init.len() && 0 <= j < init[i].parts.len() && init[i].name == name
                        && init[i].parts[j] == partition;
                assert(topics[i].parts[j] == partition);
            } else {
                assert(own[k - before.len()] == (name, partition));
                let j = choose|j: int| 0 <= j < t.parts.len() && #[trigger] t.parts[j] == partition;
                assert(topics[topics.len() - 1].parts[j] == partition);
            }
        }
        if partition <= i32::MAX && exists|i: int, j: int|
            #![trigger topics[i].parts[j]]
            0 <= i < topics.len() && 0 <= j < topics[i].parts.len() && topics[i].name == name
                && topics[i].parts[j] == partition {
            let (i, j) = choose|i: int, j: int|
                #![trigger topics[i].parts[j]]
                0 <= i < topics.len() && 0 <= j < topics[i].parts.len() && topics[i].name == name
                    && topics[i].parts[j] == partition;
            if i < init.len() {
                assert(init[i].parts[j] == partition);
                let k = before.index_of((name, partition));
                assert(all[k] == (name, partition));
            } else {
                assert(t.parts[j] == partition);
                let k = own.index_of((name, partition));
                assert(all[before.len() + k] == (name, partition));
            }
        }
    }
}

proof fn lemma_topic_pairs(topic: Seq<char>, parts: Seq<i32>, name: Seq<char>, partition: u32)
    ensures
        offsets::topic_pairs(topic, parts).contains((name, partition)) <==> topic == name
            && partition <= i32::MAX && exists|j: int|
            0 <= j < parts.len() && #[trigger] parts[j] == partition,
    decreases parts.len(),
{
    let all = offsets::topic_pairs(topic, parts);
    if parts.len() > 0 {
        let init = parts.drop_last();
        let before = offsets::topic_pairs(topic, init);
        lemma_topic_pairs(topic, init, name, partition);
        if all.contains((name, partition)) {
            let k = all.index_of((name, partition));
            if k < before.len() {
                assert(before[k] == (name, partition));
                let j = choose|j: int| 0 <= j < init.len() && #[trigger] init[j] == partition;
                assert(parts[j] == partition);
            } else {
                assert(parts[parts.len() - 1] == partition);
            }
        }
        if topic == name && partition <= i32::MAX && exists|j: int|
            0 <= j < parts.len() && #[trigger] parts[j] == partition {
            let j = choose|j: int| 0 <= j < parts.len() && #[trigger] parts[j] == partition;
            if j < init.len() {
                assert(init[j] == partition);
                let k = before.index_of((name, partition));
                assert(all[k] == (name, partition));
            } else {
                assert(all[before.len() as int] == (name, partition));
            }
        }
    }
}

/// Where an offset is asked for by a time: the earliest is where the log begins, and the latest
/// where it ends, or up to where it is stable for who may see no more. Who may not describe the
/// topic, is not of the epoch of the leader, or asks for a time that there is not, gets an
/// error and no offset.
pub proof fn law_list_offsets(
    version: i16,
    read_committed: bool,
    p: ListOffsetsPart,
    a: OffsetAnswer,
)
    ensures
        ({
            let r = list_offsets::list_offsets_row_of(version, read_committed, p, a);
            let given = p.current_leader_epoch;
            let ahead = given != -1 && given > a.leader_epoch && a.leader_epoch >= 0;
            let behind = given != -1 && given < a.leader_epoch;
            let open = a.allowed && !ahead && !behind;
            &&& r.partition == p.partition
            &&& !a.allowed ==> r.error == 29 && r.offset == -1
            &&& a.allowed && ahead ==> r.error == 75 && r.offset == -1
            &&& a.allowed && behind ==> r.error == 74 && r.offset == -1
            &&& open && (p.timestamp == -2 || (p.timestamp == -4 && version >= 8)) ==> (
            a.bounds matches Ok(Some(b)) ==> b.0 <= i64::MAX ==> r.error == 0 && r.offset == b.0)
            &&& open && p.timestamp == -1 && !read_committed ==> (a.bounds matches Ok(Some(b))
                ==> b.1 <= i64::MAX ==> r.error == 0 && r.offset == b.1)
            &&& open && p.timestamp == -1 && read_committed ==> (a.bounds is Ok && a.last_stable
                <= i64::MAX ==> r.error == 0 && r.offset == a.last_stable)
            &&& open && p.timestamp == -3 && version >= 7 ==> (a.max_timestamp matches Ok(Some(m))
                ==> m.0 <= i64::MAX ==> r.error == 0 && r.offset == m.0 && r.timestamp == m.1)
            &&& open && p.timestamp >= 0 ==> r.error == 32 && r.offset == -1
            &&& r.error == 0 && a.leader_epoch >= 0 ==> r.leader_epoch == a.leader_epoch
        }),
{
}

/// Where an epoch ends is told as the log has it, to who may know and is of the epoch of the
/// leader.
pub proof fn law_epoch_end(
    p: LeaderEpochPart,
    allowed: bool,
    current: Option<i32>,
    found: Option<(i32, i64)>,
)
    ensures
        ({
            let r = list_offsets::leader_epoch_row_of(p, allowed, current, found);
            let given = p.current_leader_epoch;
            &&& r.partition == p.partition
            &&& r.error != 0 ==> r.end_offset == -1
            &&& !allowed ==> r.error == 29
            &&& allowed && current is None ==> r.error == 3
            &&& allowed && current is Some && given != -1 && given > current->Some_0 ==> r.error
                == 75
            &&& allowed && current is Some && given != -1 && given < current->Some_0 ==> r.error
                == 74
            &&& r.error == 0 ==> found == Some((r.leader_epoch, r.end_offset))
            &&& allowed && current is Some && (given == -1 || given == current->Some_0) && (
            p.leader_epoch == -1 || p.leader_epoch <= current->Some_0) && found is Some ==> r.error
                == 0
        }),
{
}

/// Records are deleted only for who may, and below an offset that there can be; the answer
/// tells where the log begins then.
pub proof fn law_delete_records(p: DeleteRecordsPart, allowed: bool, outcome: DeleteRecordsOutcome)
    ensures
        delete_records::asks_deletion(p, allowed) <==> allowed && p.partition >= 0 && p.offset >= 0,
        ({
            let r = delete_records::delete_records_row_of(p, allowed, outcome);
            &&& r.partition == p.partition
            &&& !allowed ==> r.error == 29
            &&& allowed && (p.partition < 0 || p.offset < 0) ==> r.error == 42
            &&& delete_records::asks_deletion(p, allowed) ==> match outcome {
                Ok(a) => {
                    &&& a.0 <= i64::MAX ==> r.low_watermark == a.0
                    &&& r.error == 0 <==> a.1 == 0
                    &&& a.1 == 13 ==> r.error == 6
                },
                Err(_) => r.error != 0,
            }
        }),
{
}

/// A fetch is fenced: a client that knows a later epoch than the broker, or an earlier one, is
/// refused, and in the second case told who leads. Nobody reads a topic that is not known, or
/// that they may not read.
pub proof fn law_fetch_start(
    ctx: FetchContext,
    partition: i32,
    part: SessionPartition,
    known: bool,
    allowed: bool,
    meta: Option<FetchMeta>,
)
    ensures
        ({
            let s = fetch_response::fetch_start_of(ctx, partition, part, known, allowed, meta);
            let given = part.current_leader_epoch;
            let at = if meta is Some {
                meta->Some_0.leader_epoch as int
            } else {
                -1
            };
            let ahead = given != -1 && at >= 0 && given > at;
            let behind = given != -1 && at >= 0 && given < at;
            match s {
                FetchStepView::Done(r) => {
                    &&& r.partition == partition
                    &&& r.records.len() == 0
                    &&& !r.omit
                    &&& r.hwm == -1 && r.lso == -1 && r.log_start == -1
                    &&& !known || !allowed || ahead || behind
                    &&& r.error == (if !known {
                        100i16
                    } else if !allowed {
                        29
                    } else if ahead {
                        75
                    } else {
                        74
                    })
                    &&& r.current_leader == (if known && allowed && behind {
                        Some((meta->Some_0.leader, meta->Some_0.leader_epoch))
                    } else {
                        None
                    })
                },
                FetchStepView::AskEpochEnd => {
                    &&& known && allowed && !ahead && !behind
                    &&& ctx.version >= 12 && part.last_fetched_epoch != -1
                },
                FetchStepView::AskPreferred => {
                    &&& known && allowed && !ahead && !behind
                    &&& ctx.version >= 11 && ctx.replica_id < 0 && !ctx.read_committed
                },
                FetchStepView::AskRecords => known && allowed && !ahead && !behind,
            }
        }),
{
}

/// A partition that is read is answered with its records and its offsets: up to where it is
/// written, up to where it is stable, and where it begins. Aborted transactions are told to
/// clients that read committed records only.
pub proof fn law_fetch_records(
    ctx: FetchContext,
    partition: i32,
    part: SessionPartition,
    meta: FetchMeta,
    last: Option<u64>,
    set: Seq<u8>,
    last_stable: u64,
    log_start: i64,
    aborted: Seq<(u64, u64)>,
)
    requires
        meta.hwm <= i64::MAX,
        last_stable <= i64::MAX,
    ensures
        ({
            let r = fetch_response::fetch_records_of(
                ctx,
                partition,
                part,
                Some(meta),
                last,
                set,
                last_stable,
                log_start,
                aborted,
            );
            &&& r.partition == partition
            &&& r.error == 0
            &&& r.records == set
            &&& r.hwm == meta.hwm
            &&& r.log_start == log_start
            &&& r.lso == (if ctx.version >= 4 {
                last_stable as int
            } else {
                meta.hwm as int
            })
            &&& ctx.read_committed && ctx.version >= 4 ==> r.aborted == aborted
            &&& !ctx.read_committed ==> r.aborted.len() == 0
            &&& r.current_leader is None && r.diverging is None && r.preferred_read_replica == -1
            &&& r.note_cache
        }),
{
}

/// A client whose log goes on past where its epoch ends is told where to go back to, and is
/// sent no records.
pub proof fn law_diverged(
    ctx: FetchContext,
    partition: i32,
    part: SessionPartition,
    meta: Option<FetchMeta>,
    end: Option<(i32, i64)>,
    last_stable: u64,
    log_start: i64,
)
    ensures
        match fetch_response::fetch_epoch_end_of(
            ctx,
            partition,
            part,
            meta,
            end,
            last_stable,
            log_start,
        ) {
            FetchStepView::Done(r) => {
                &&& end matches Some(e) && part.fetch_offset > e.1
                &&& r.diverging == end
                &&& r.partition == partition
                &&& r.error == 1
                &&& r.records.len() == 0
                &&& r.log_start == log_start
                &&& !r.omit
            },
            _ => !(end matches Some(e) && part.fetch_offset > e.1),
        },
{
}

/// A client that should rather read from another replica is told which, and is sent no records.
pub proof fn law_preferred(
    ctx: FetchContext,
    partition: i32,
    meta: Option<FetchMeta>,
    preferred: Option<u32>,
    last_stable: u64,
    log_start: i64,
)
    ensures
        match fetch_response::fetch_preferred_of(
            ctx,
            partition,
            meta,
            preferred,
            last_stable,
            log_start,
        ) {
            FetchStepView::Done(r) => {
                &&& preferred matches Some(id) && r.preferred_read_replica == id as i32
                &&& r.partition == partition
                &&& r.error == 0
                &&& r.records.len() == 0
                &&& !r.omit
            },
            s => preferred is None && s == FetchStepView::AskRecords,
        },
{
}

/// Each partition of a topic that was committed is answered, in its place, under its number and
/// with the error; a topic that is not known has its own.
pub proof fn law_commit_answer(
    out: WireTopicOut<PartitionError>,
    catalog: Seq<(Seq<char>, u32)>,
    t: WireTopicView<CommitPartView>,
    error: i16,
)
    requires
        offsets::answers_topic(out, t, offsets::topic_error(catalog, t.wire, error)),
    ensures
        out.wire.deep_view() == t.wire,
        out.rows@.len() == t.parts.len(),
        forall|i: int|
            0 <= i < t.parts.len() ==> (#[trigger] out.rows@[i]).partition == t.parts[i].partition
                && out.rows@[i].error == (if topic_id::resolved(catalog, t.wire).name is None {
                100
            } else {
                error
            }),
{
    let rows = out.rows;
    let said = rows.deep_view();
    assert(said == Seq::new(rows@.len(), |i: int| rows@[i].deep_view()));
    assert forall|i: int| 0 <= i < t.parts.len() implies (#[trigger] out.rows@[i]).partition
        == t.parts[i].partition && out.rows@[i].error == (if topic_id::resolved(
        catalog,
        t.wire,
    ).name is None {
        100
    } else {
        error
    }) by {
        assert(said[i] == out.rows@[i].deep_view());
    }
}

/// Each partition whose offset was to be deleted is answered, in its place and under its number.
pub proof fn law_delete_answer(
    out: TopicOut<PartitionError>,
    t: TopicInView<i32>,
    outcome: OffsetDeletion,
)
    requires
        offsets::answers_deletion(out, t, outcome),
    ensures
        out.name@ == t.name,
        out.rows@.len() == t.parts.len(),
        forall|i: int|
            0 <= i < t.parts.len() ==> (#[trigger] out.rows@[i]).partition == t.parts[i]
                && out.rows@[i].error == (if outcome is Denied {
                30int
            } else if t.parts[i] < 0 {
                42
            } else if outcome is Failed {
                -1
            } else {
                0
            }),
{
    let rows = out.rows;
    let said = rows.deep_view();
    assert(said == Seq::new(rows@.len(), |i: int| rows@[i].deep_view()));
    assert forall|i: int| 0 <= i < t.parts.len() implies (#[trigger] out.rows@[i]).partition
        == t.parts[i] && out.rows@[i].error == (if outcome is Denied {
        30int
    } else if t.parts[i] < 0 {
        42
    } else if outcome is Failed {
        -1
    } else {
        0
    }) by {
        assert(said[i] == out.rows@[i].deep_view());
    }
}

/// Whether a group has a topic with a part.
pub open spec fn has_part<P>(g: Seq<(Seq<char>, Seq<P>)>, topic: Seq<char>, p: P) -> bool {
    exists|k: int| 0 <= k < g.len() && (#[trigger] g[k]).0 == topic && g[k].1.contains(p)
}

proof fn lemma_add_part<P>(g: Seq<(Seq<char>, Seq<P>)>, t: Seq<char>, p: P, u: Seq<char>, q: P)
    ensures
        has_part(consumer_protocol::add_part(g, t, p), u, q) <==> has_part(g, u, q) || (u == t && q
            == p),
    decreases g.len(),
{
    let h = consumer_protocol::add_part(g, t, p);
    if g.len() == 0 {
        if u == t && q == p {
            assert(h[0].1[0] == q);
        }
    } else if g[0].0 == t {
        let more = g[0].1.push(p);
        assert forall|x: P| more.contains(x) <==> g[0].1.contains(x) || x == p by {
            assert(more[more.len() - 1] == p);
            if g[0].1.contains(x) {
                assert(more[g[0].1.index_of(x)] == x);
            }
        }
        assert(h[0].1 == more);
        if has_part(g, u, q) {
            let k = choose|k: int| 0 <= k < g.len() && (#[trigger] g[k]).0 == u && g[k].1.contains(q);
            assert(h[k].0 == u && h[k].1.contains(q));
        }
        if u == t && q == p {
            assert(h[0].0 == u && h[0].1.contains(q));
        }
        if has_part(h, u, q) {
            let k = choose|k: int| 0 <= k < h.len() && (#[trigger] h[k]).0 == u && h[k].1.contains(q);
            if k > 0 {
                assert(g[k] == h[k]);
            } else {
                assert(g[0].0 == h[0].0);
            }
        }
    } else if crate::text::before(t, g[0].0) {
        assert forall|k: int| 0 <= k < g.len() implies g[k] == #[trigger] h[k + 1] by {}
        if has_part(g, u, q) {
            let k = choose|k: int| 0 <= k < g.len() && (#[trigger] g[k]).0 == u && g[k].1.contains(q);
            assert(h[k + 1].0 == u);
        }
        if u == t && q == p {
            assert(h[0].1[0] == q);
        }
        if has_part(h, u, q) {
            let k = choose|k: int| 0 <= k < h.len() && (#[trigger] h[k]).0 == u && h[k].1.contains(q);
            if k > 0 {
                assert(g[k - 1] == h[k]);
            }
        }
    } else {
        let rest = g.skip(1);
        let r = consumer_protocol::add_part(rest, t, p);
        lemma_add_part(rest, t, p, u, q);
        assert(h[0] == g[0]);
        assert forall|k: int| 0 <= k < r.len() implies r[k] == #[trigger] h[k + 1] by {}
        if has_part(g, u, q) {
            let k = choose|k: int| 0 <= k < g.len() && (#[trigger] g[k]).0 == u && g[k].1.contains(q);
            if k > 0 {
                assert(rest[k - 1] == g[k]);
            } else {
                assert(h[0].0 == u);
            }
        }
        if has_part(r, u, q) {
            let k = choose|k: int| 0 <= k < r.len() && (#[trigger] r[k]).0 == u && r[k].1.contains(q);
            assert(h[k + 1].0 == u);
        }
        if has_part(h, u, q) {
            let k = choose|k: int| 0 <= k < h.len() && (#[trigger] h[k]).0 == u && h[k].1.contains(q);
            if k > 0 {
                assert(r[k - 1] == h[k]);
            } else {
                assert(g[0].0 == u);
            }
        }
        if has_part(rest, u, q) {
            let k = choose|k: int|
                0 <= k < rest.len() && (#[trigger] rest[k]).0 == u && rest[k].1.contains(q);
            assert(g[k + 1] == rest[k]);
        }
    }
}

proof fn lemma_by_topic<P>(a: Seq<(Seq<char>, P)>, u: Seq<char>, q: P)
    ensures
        has_part(consumer_protocol::by_topic(a), u, q) <==> a.contains((u, q)),
    decreases a.len(),
{
    if a.len() > 0 {
        let init = a.drop_last();
        lemma_by_topic(init, u, q);
        lemma_add_part(consumer_protocol::by_topic(init), a.last().0, a.last().1, u, q);
        if init.contains((u, q)) {
            assert(a[init.index_of((u, q))] == (u, q));
        }
        if a.last() == (u, q) {
            assert(a[a.len() - 1] == (u, q));
        }
        if a.contains((u, q)) && a.last() != (u, q) {
            assert(init[a.index_of((u, q))] == (u, q));
        }
    }
}

/// Who asks for all offsets of a group is told everything that it remembers: each partition
/// under its topic and its number, with its offset and what goes with it.
pub proof fn law_all_offsets(fetched: Seq<FetchedOffsetView>, i: int)
    requires
        0 <= i < fetched.len(),
        fetched[i].offset <= i64::MAX,
        fetched[i].partition <= i32::MAX,
    ensures
        has_part(
            offsets::all_groups(fetched),
            fetched[i].topic,
            OffsetRowView {
                partition: fetched[i].partition as i32,
                offset: fetched[i].offset as i64,
                leader_epoch: fetched[i].leader_epoch,
                metadata: Some(fetched[i].metadata),
                error: 0,
            },
        ),
{
    let all = Seq::new(
        fetched.len(),
        |i: int|
            (
                fetched[i].topic,
                offsets::remembered_row(fetched[i].partition as i32, fetched[i]),
            ),
    );
    let row = offsets::remembered_row(fetched[i].partition as i32, fetched[i]);
    assert(all[i] == (fetched[i].topic, row));
    lemma_by_topic(all, fetched[i].topic, row);
}

/// The answers of a topic are told under its name, or under its identifier.
pub proof fn law_told_topic(
    catalog: Seq<(Seq<char>, u32)>,
    by_id: bool,
    g: (Seq<char>, Seq<OffsetRowView>),
)
    ensures
        ({
            let t = offsets::told_topic(catalog, by_id, g);
            &&& t.name == g.0
            &&& t.rows == g.1
            &&& by_id ==> t.wire == WireView::Uuid(topic_id::name_uuid(catalog, g.0))
            &&& !by_id ==> t.wire == WireView::Name(g.0)
        }),
{
}

/// The records of a log, whatever markers stand between them, are sent in runs, in order, and
/// none is lost.
pub proof fn law_runs(entries: Seq<LogEntryView>)
    ensures
        fetch_response::closed_runs(entries).flatten() + fetch_response::open_run(entries)
            == fetch_response::data_of(entries),
        fetch_response::closed_runs(entries).len() == fetch_response::markers(entries).len(),
    decreases entries.len(),
{
    if entries.len() == 0 {
        assert(fetch_response::closed_runs(entries).flatten() =~= Seq::empty());
        assert(fetch_response::data_of(entries) =~= Seq::empty());
    } else {
        let init = entries.drop_last();
        law_runs(init);
        let closed = fetch_response::closed_runs(init);
        let open = fetch_response::open_run(init);
        match entries.last() {
            LogEntryView::Data(r) => {
                assert(closed.flatten() + open.push(r) =~= (closed.flatten() + open).push(r));
            },
            LogEntryView::Control(_) => {
                closed.lemma_flatten_push(open);
                assert((closed.flatten() + open) + Seq::<RecordView>::empty() =~= closed.flatten()
                    + open);
            },
        }
    }
}

/// What a consumer is sent of a log without markers is read as the records of the log, all of
/// them and in order, compressed or not, in every version.
pub proof fn law_records_arrive(
    entries: Seq<LogEntryView>,
    version: i16,
    codec: CompressionCodec,
    out: Seq<u8>,
)
    requires
        entries.len() > 0,
        forall|i: int| 0 <= i < entries.len() ==> (#[trigger] entries[i]) is Data,
        fetch_response::is_fetch_set(entries, version, codec, out),
        roundtrip::all_fit_batch(
            fetch_response::data_of(entries),
            fetch_response::data_of(entries)[0].timestamp_ms,
        ),
        forall|i: int|
            0 <= i < entries.len() ==> roundtrip::fits_message_set(
                #[trigger] fetch_response::data_of(entries)[i],
            ),
        out.len() <= i32::MAX,
    ensures
        ({
            let data = fetch_response::data_of(entries);
            &&& data.len() == entries.len()
            &&& forall|i: int|
                0 <= i < entries.len() ==> (#[trigger] entries[i]) == LogEntryView::Data(data[i])
            &&& records::flat(records::record_set(out)) == Ok::<Seq<MessageView>, Seq<char>>(
                if version < 4 {
                    data.map_values(|r: RecordView| roundtrip::plain_message(r))
                } else {
                    data.map_values(|r: RecordView| roundtrip::whole_message(r))
                },
            )
        }),
{
    let data = fetch_response::data_of(entries);
    lemma_only_data(entries);
    if version < 4 {
        if codec == CompressionCodec::Uncompressed {
            roundtrip::law_compressed_message_set(data, codec, out);
        } else {
            let r = choose|r: core::result::Result<Seq<u8>, Seq<char>>|
                {
                    &&& #[trigger] records::is_message_set(data, codec, r)
                    &&& out == fetch_response::or_plain(r, records::message_set_out(data))
                };
            if r is Ok {
                assert(r == compress::intact(out));
                roundtrip::law_compressed_message_set(data, codec, out);
            } else {
                roundtrip::law_compressed_message_set(data, CompressionCodec::Uncompressed, out);
            }
        }
    } else {
        let none = RecordBatchProducer::spec_none();
        let (batches, last) = choose|batches: Seq<Seq<u8>>, last: Seq<u8>|
            {
                &&& #[trigger] fetch_response::are_runs(
                    fetch_response::closed_runs(entries),
                    codec,
                    batches,
                )
                &&& #[trigger] fetch_response::is_run(
                    fetch_response::open_run(entries),
                    codec,
                    last,
                )
                &&& out == fetch_response::woven(batches, fetch_response::markers(entries)) + last
            };
        assert(batches.len() == 0);
        assert(fetch_response::woven(batches, fetch_response::markers(entries)) + last =~= last);
        assert(out == last);
        assert(fetch_response::open_run(entries) == data);
        roundtrip::law_plain_batch(data, none);
        if codec == CompressionCodec::Uncompressed {
            roundtrip::law_record_batch(data, codec, none, out);
        } else {
            let r = choose|r: core::result::Result<Seq<u8>, Seq<char>>|
                {
                    &&& #[trigger] records::is_record_batch(data, codec, none, r)
                    &&& out == fetch_response::or_plain(r, fetch_response::plain_run(data))
                };
            if r is Ok {
                assert(r == compress::intact(out));
                roundtrip::law_record_batch(data, codec, none, out);
            } else {
                roundtrip::law_record_batch(data, CompressionCodec::Uncompressed, none, out);
            }
        }
    }
}

proof fn lemma_only_data(entries: Seq<LogEntryView>)
    requires
        forall|i: int| 0 <= i < entries.len() ==> (#[trigger] entries[i]) is Data,
    ensures
        ({
            let data = fetch_response::data_of(entries);
            &&& data.len() == entries.len()
            &&& forall|i: int|
                0 <= i < entries.len() ==> (#[trigger] entries[i]) == LogEntryView::Data(data[i])
            &&& fetch_response::closed_runs(entries).len() == 0
            &&& fetch_response::open_run(entries) == data
        }),
    decreases entries.len(),
{
    if entries.len() > 0 {
        let init = entries.drop_last();
        assert forall|i: int| 0 <= i < init.len() implies (#[trigger] init[i]) is Data by {
            assert(init[i] == entries[i]);
        }
        lemma_only_data(init);
        assert(entries[entries.len() - 1] is Data);
        let data = fetch_response::data_of(entries);
        assert forall|i: int| 0 <= i < entries.len() implies (#[trigger] entries[i])
            == LogEntryView::Data(data[i]) by {
            if i < init.len() {
                assert(init[i] == entries[i]);
            }
        }
    }
}

/// About how much room records take: their values and keys, and 32 bytes for each.
pub open spec fn room(records: Seq<RecordView>) -> int
    decreases records.len(),
{
    if records.len() == 0 {
        0
    } else {
        let r = records.last();
        room(records.drop_last()) + r.value.len() + (match r.key {
            Some(k) => k.len() as int,
            None => 0,
        }) + 32
    }
}

proof fn lemma_room(records: Seq<RecordView>, i: nat, max_bytes: int)
    requires
        i <= records.len(),
        i <= 1 || room(records.take(i as int)) <= max_bytes,
    ensures
        ({
            let n = fetch_response::selected_from(
                records,
                i,
                room(records.take(i as int)),
                max_bytes,
            );
            &&& i <= n <= records.len()
            &&& n <= 1 || room(records.take(n as int)) <= max_bytes
            &&& n < records.len() ==> n >= 1 && room(records.take(n as int + 1)) > max_bytes
        }),
    decreases records.len() - i,
{
    if i < records.len() {
        assert(records.take(i as int + 1).drop_last() =~= records.take(i as int));
        assert(records.take(i as int + 1).last() == records[i as int]);
        if !(i > 0 && room(records.take(i as int + 1)) > max_bytes) {
            lemma_room(records, i + 1, max_bytes);
        }
    }
}

/// As many records are returned as fit what the client takes, and one in any case: not more,
/// and not fewer.
pub proof fn law_room(records: Seq<RecordView>, max_bytes: int)
    ensures
        ({
            let n = fetch_response::selected_from(records, 0, 0, max_bytes);
            &&& n <= records.len()
            &&& records.len() > 0 ==> n >= 1
            &&& n > 1 ==> room(records.take(n as int)) <= max_bytes
            &&& n < records.len() ==> room(records.take(n as int + 1)) > max_bytes
        }),
{
    assert(records.take(0).len() == 0);
    lemma_room(records, 0, max_bytes);
}

/// The leaders that a response points to are those that its partitions tell of.
pub proof fn law_row_leaders(rows: Seq<FetchRowView>, r: FetchRowView)
    ensures
        fetch_response::row_leaders(rows.push(r)) == (match r.current_leader {
            Some(l) => fetch_response::row_leaders(rows).push(l.0),
            None => fetch_response::row_leaders(rows),
        }),
        fetch_response::row_leaders(Seq::empty()).len() == 0,
{
    assert(rows.push(r).drop_last() =~= rows);
}

/// A commit is answered with what the group says, for who may; without entries it is a success.
pub proof fn law_commit_error(allowed: bool, entries: nat, result: Option<u16>)
    ensures
        offsets::commit_error_of(allowed, entries, result) == (if !allowed {
            30int
        } else if entries == 0 {
            0
        } else {
            match result {
                Some(0) => 0,
                Some(9) => 27,
                Some(10) => 25,
                Some(11) => 22,
                _ => -1,
            }
        }),
{
}

/// Offsets are told to who may read the group; who asks for nothing is told nothing, without an
/// error.
pub proof fn law_offset_fetch_refused(q: OffsetFetchView, version: i16, allowed: bool, e: i16)
    ensures
        offsets::offset_fetch_refusal_of(None, version, allowed) == Some(42i16),
        !allowed ==> offsets::offset_fetch_refusal_of(Some(q), version, allowed) == Some(
            if version >= 2 {
                30i16
            } else {
                0
            },
        ),
        allowed && q.ask is Nothing ==> offsets::offset_fetch_refusal_of(Some(q), version, allowed)
            == Some(0i16),
        allowed && q.ask == AskView::Unreadable(e) ==> offsets::offset_fetch_refusal_of(
            Some(q),
            version,
            allowed,
        ) == Some(e),
        allowed && (q.ask is All || q.ask is Listed) ==> offsets::offset_fetch_refusal_of(
            Some(q),
            version,
            allowed,
        ) is None,
        offsets::group_refusal_of(q.ask, allowed) == (if !allowed {
            Some(30i16)
        } else if q.ask is Nothing {
            Some(0i16)
        } else {
            None
        }),
{
}

/// An offset is held back only where the client wants stable ones and it is not; everything else
/// that is told of the partition stays.
pub proof fn law_held_back(row: OffsetRowView, require_stable: bool, unstable: bool)
    ensures
        ({
            let r = offsets::stable_row_of(row, require_stable, unstable);
            let held = require_stable && unstable && row.offset >= 0 && row.error == 0;
            &&& r.partition == row.partition
            &&& r.leader_epoch == row.leader_epoch
            &&& r.metadata == row.metadata
            &&& held ==> r.offset == -1 && r.error == 81
            &&& !held ==> r.offset == row.offset && r.error == row.error
        }),
{
}

/// An append that was acknowledged has the offset of its first record, and one that was not the
/// error.
pub proof fn law_appended(offset: u64, e: LookupError)
    requires
        offset <= i64::MAX,
    ensures
        produce::appended(Ok((Some(offset), None))) == Ok::<Option<i64>, i16>(Some(offset as i64)),
        produce::appended(Ok((None, None))) == Ok::<Option<i64>, i16>(Some(0i64)),
        produce::appended(Ok((Some(offset), Some(AckError::NotLeader)))) == Err::<Option<i64>, i16>(
            6i16,
        ),
        produce::appended(Ok((Some(offset), Some(AckError::Other)))) matches Err(c) && c == -1,
        produce::appended(Err(e)) matches Err(c) && c == (if e is NotFound {
            3int
        } else {
            -1
        }),
{
}

/// The rack that is told of a broker is the one that it has.
pub proof fn law_rack(racks: Seq<(u32, Seq<char>)>, id: u32, i: int)
    requires
        0 <= i <= racks.len(),
        forall|j: int| 0 <= j < i ==> (#[trigger] racks[j]).0 != id,
        i < racks.len() ==> racks[i].0 == id,
    ensures
        i < racks.len() ==> produce::rack_of(racks, id) == Some(racks[i].1),
        i == racks.len() ==> produce::rack_of(racks, id) is None,
    decreases i,
{
    if i > 0 {
        assert(racks[0].0 != id);
        let rest = racks.skip(1);
        assert forall|j: int| 0 <= j < i - 1 implies (#[trigger] rest[j]).0 != id by {
            assert(rest[j] == racks[j + 1]);
        }
        law_rack(rest, id, i - 1);
    }
}

/// What is forgotten of a session is what the request says, topic by topic.
pub proof fn law_forgotten(catalog: Seq<(Seq<char>, u32)>, f: Seq<ForgottenView>, i: int)
    requires
        0 <= i < f.len(),
    ensures
        fetch::forgotten_keys(catalog, f).len() == f.len(),
        fetch::forgotten_keys(catalog, f)[i] == (fetch::request_key(catalog, f[i].wire), f[i].parts),
        f[i].wire matches WireView::Name(n) ==> fetch::request_key(catalog, f[i].wire) == n,
{
}

/// What a client is told of a partition without an error is remembered in its session; a row
/// with an error, or that is not to be kept, changes nothing.
pub proof fn law_rows_noted(
    v: ManagerView,
    id: i32,
    key: Seq<char>,
    rows: Seq<FetchRowView>,
    r: FetchRowView,
)
    requires
        id != 0,
    ensures
        ({
            let before = fetch_response::rows_noted(v, id, key, rows);
            let w = fetch_response::rows_noted(v, id, key, rows.push(r));
            &&& r.error != 0 || !r.note_cache ==> w == before
            &&& r.error == 0 && r.note_cache && session_manager::follows(
                before,
                id,
                key,
                r.partition,
            ) ==> {
                let p = w.sessions[id].topics[key].partitions[r.partition];
                p.last_hwm == Some(r.hwm) && p.last_lso == Some(r.lso)
            }
        }),
        fetch_response::rows_noted(v, id, key, Seq::empty()) == v,
{
    let before = fetch_response::rows_noted(v, id, key, rows);
    assert(rows.push(r).drop_last() =~= rows);
    if session_manager::follows(before, id, key, r.partition) {
        session_manager::law_noted(before, id, key, r.partition, r.hwm, r.lso, key, r.partition);
    }
}

/// Topics are remembered one after the other, each under its key.
pub proof fn law_topics_noted(
    v: ManagerView,
    id: i32,
    topics: Seq<FetchTopicOutView>,
    t: FetchTopicOutView,
)
    ensures
        fetch_response::topics_noted(v, id, topics.push(t)) == fetch_response::rows_noted(
            fetch_response::topics_noted(v, id, topics),
            id,
            t.key,
            t.rows,
        ),
        fetch_response::topics_noted(v, id, Seq::empty()) == v,
{
    assert(topics.push(t).drop_last() =~= topics);
}

} // verus!
