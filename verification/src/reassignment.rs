//! Where partitions are and who leads them: AlterPartitionReassignments,
//! ListPartitionReassignments, ElectLeaders and UnregisterBroker.

use bytes::{Bytes, BytesMut};
use vstd::prelude::*;
use vstd::string::*;

use crate::acl_api;
use crate::acl_api::{borrowed, not_controller_message};
use crate::admin;
use crate::admin::{pass_over, Majority, Verdict, VerdictView};
use crate::api::KafkaErrorCode;
use crate::buffer::{get_i32, get_i8, put_i16, put_i32, put_u32, remaining, Contents};
use crate::codec::{get_compact_array_len, put_array_len, put_compact_nullable_string, put_end};
use crate::error::Error;
use crate::message;
use crate::message::{
    drop_tags, put_rows, read_list, read_loose_list, Element, LooseTopic, Read, Row, TopicInView,
    TopicOut,
};
use crate::text;
use crate::text::{contains, starts_with};
use crate::wire;
use crate::wire::{Out, Src, Step};

verus! {

/// A partition and the verdict on it.
#[derive(Debug)]
pub struct PartVerdict {
    pub partition: i32,
    pub verdict: Verdict,
}

/// Partition, error, message.
impl Row for PartVerdict {
    open spec fn row(&self, o: Out, version: i16, flexible: bool) -> Out {
        self.verdict.row(o.i32(self.partition as int), version, flexible)
    }

    fn put(&self, out: &mut BytesMut, version: i16, flexible: bool) {
        put_i32(out, self.partition);
        self.verdict.put(out, version, flexible);
    }
}

/// That the client may not touch a topic.
pub open spec fn denied() -> VerdictView {
    admin::wrong(KafkaErrorCode::TopicAuthorizationFailed, "topic authorization failed"@)
}

/// That there is no such partition.
pub open spec fn unknown_partition() -> VerdictView {
    admin::wrong(KafkaErrorCode::UnknownTopicOrPartition, "unknown topic or partition"@)
}

fn say_denied() -> (v: Verdict)
    ensures
        v.deep_view() == denied(),
{
    Verdict::wrong(KafkaErrorCode::TopicAuthorizationFailed, "topic authorization failed")
}

fn say_unknown() -> (v: Verdict)
    ensures
        v.deep_view() == unknown_partition(),
{
    Verdict::wrong(KafkaErrorCode::UnknownTopicOrPartition, "unknown topic or partition")
}

/// A partition in an AlterPartitionReassignments request.
#[derive(Debug)]
pub struct ReassignPart {
    pub partition: i32,
    /// The brokers that are to hold it; nothing where a reassignment is to be cancelled.
    pub replicas: Option<Vec<i32>>,
}

/// What a [`ReassignPart`] says.
#[verifier::ext_equal]
pub struct ReassignPartView {
    pub partition: i32,
    pub replicas: Option<Seq<i32>>,
}

impl DeepView for ReassignPart {
    type V = ReassignPartView;

    open spec fn deep_view(&self) -> ReassignPartView {
        ReassignPartView { partition: self.partition, replicas: self.replicas.deep_view() }
    }
}

/// Brokers that may be null. Where they cannot be counted, they are null.
pub open spec fn replicas_at(b: Src, version: i16) -> (Option<Seq<i32>>, Src) {
    let c = b.compact_len();
    match c.value {
        Ok(Some(n)) => {
            let l = message::list_at::<i32>(c.rest, n as nat, version, true);
            (Some(l.0), l.1)
        },
        _ => (None, c.rest),
    }
}

impl Element for ReassignPart {
    open spec fn at(b: Src, version: i16, flexible: bool) -> Step<ReassignPartView> {
        if b.left() < 4 {
            wire::stop(b)
        } else {
            let r = replicas_at(b.skip(4), version);
            wire::keep(
                ReassignPartView { partition: b.i32() as i32, replicas: r.0 },
                message::after_tags(r.1, true),
            )
        }
    }

    fn read(src: &mut Bytes, version: i16, flexible: bool) -> (r: Read<ReassignPart>) {
        if remaining(src) < 4 {
            return Read::End;
        }
        let partition: i32 = get_i32(src);
        let replicas = match get_compact_array_len(src) {
            Ok(Some(n)) => Some(read_list::<i32>(src, n, version, true)),
            _ => None,
        };
        drop_tags(src, true);
        Read::Item(ReassignPart { partition, replicas })
    }
}

/// Reads an AlterPartitionReassignments request. The timeout is not looked at.
pub fn decode_alter_partition_reassignments(src: &mut Bytes) -> (r: Vec<LooseTopic<ReassignPart>>)
    ensures
        r.deep_view() == message::loose_list_at::<LooseTopic<ReassignPart>>(
            admin::over(old(src)@, 4),
            0,
            true,
        ).0,
{
    pass_over(src, 4);
    read_loose_list::<LooseTopic<ReassignPart>>(src, 0, true)
}

/// Whether all numbers are numbers of brokers.
pub open spec fn all_brokers(ids: Seq<i32>) -> bool {
    forall|i: int| 0 <= i < ids.len() ==> #[trigger] ids[i] >= 0
}

/// The verdict on a partition before the broker is told to move it, if it is not.
/// `allowed`: the client may alter the topic. `partitions`: how many partitions the topic
/// has, nothing where there is no such topic.
pub open spec fn reassign_refusal_of(
    p: ReassignPartView,
    allowed: bool,
    partitions: Option<usize>,
) -> Option<VerdictView> {
    if !allowed {
        Some(denied())
    } else if p.partition < 0 {
        Some(unknown_partition())
    } else {
        match p.replicas {
            None => Some(
                if partitions is Some && p.partition < partitions->0 {
                    admin::wrong(
                        KafkaErrorCode::NoReassignmentInProgress,
                        "no reassignment in progress"@,
                    )
                } else {
                    unknown_partition()
                },
            ),
            Some(ids) => if all_brokers(ids) {
                None
            } else {
                Some(
                    admin::wrong(
                        KafkaErrorCode::InvalidReplicaAssignment,
                        "invalid replica assignment"@,
                    ),
                )
            },
        }
    }
}

/// What is to be done about a partition.
#[derive(Debug)]
pub enum ReassignStep {
    /// Nothing.
    Refuse(Verdict),
    /// It is to be held by these brokers.
    Move(Vec<u32>),
}

/// Whether `s` is what is to be done about a partition.
pub open spec fn is_reassign_step(
    s: ReassignStep,
    p: ReassignPartView,
    allowed: bool,
    partitions: Option<usize>,
) -> bool {
    match reassign_refusal_of(p, allowed, partitions) {
        Some(v) => s matches ReassignStep::Refuse(w) && w.deep_view() == v,
        None => s matches ReassignStep::Move(ids) && p.replicas is Some && ids@.len()
            == p.replicas->0.len() && forall|i: int|
            0 <= i < ids@.len() ==> #[trigger] ids@[i] == p.replicas->0[i],
    }
}

/// What is to be done about a partition.
pub fn reassign_step(p: &ReassignPart, allowed: bool, partitions: Option<usize>) -> (s: ReassignStep)
    ensures
        is_reassign_step(s, p.deep_view(), allowed, partitions),
{
    if !allowed {
        return ReassignStep::Refuse(say_denied());
    }
    if p.partition < 0 {
        return ReassignStep::Refuse(say_unknown());
    }
    match &p.replicas {
        None => match partitions {
            Some(n) => {
                if (p.partition as usize) < n {
                    ReassignStep::Refuse(
                        Verdict::wrong(
                            KafkaErrorCode::NoReassignmentInProgress,
                            "no reassignment in progress",
                        ),
                    )
                } else {
                    ReassignStep::Refuse(say_unknown())
                }
            },
            None => ReassignStep::Refuse(say_unknown()),
        },
        Some(wished) => {
            let ghost all = wished.deep_view();
            assert(p.deep_view().replicas == Some(all));
            let mut ids: Vec<u32> = Vec::new();
            let mut i: usize = 0;
            while i < wished.len()
                invariant
                    i <= wished@.len(),
                    all == wished.deep_view(),
                    ids@.len() == i,
                    forall|j: int| 0 <= j < i ==> #[trigger] ids@[j] == all[j],
                    forall|j: int| 0 <= j < i ==> #[trigger] all[j] >= 0,
                    reassign_refusal_of(p.deep_view(), allowed, partitions) == (
                    if all_brokers(all) {
                        None
                    } else {
                        Some(
                            admin::wrong(
                                KafkaErrorCode::InvalidReplicaAssignment,
                                "invalid replica assignment"@,
                            ),
                        )
                    }),
                decreases wished@.len() - i,
            {
                let id: i32 = wished[i];
                assert(all[i as int] == id);
                if id < 0 {
                    return ReassignStep::Refuse(
                        Verdict::wrong(
                            KafkaErrorCode::InvalidReplicaAssignment,
                            "invalid replica assignment",
                        ),
                    );
                }
                ids.push(id as u32);
                i += 1;
            }
            assert(all_brokers(all));
            ReassignStep::Move(ids)
        },
    }
}

/// The verdict on a partition that the broker was told to move.
pub open spec fn reassign_verdict(result: core::result::Result<Majority, Error>) -> VerdictView {
    match result {
        Ok(m) => admin::majority_verdict(m),
        Err(Error::NotFound(_)) => unknown_partition(),
        Err(Error::InvalidArgument(m)) => if "not controller"@.is_prefix_of(m@) {
            admin::wrong(KafkaErrorCode::NotController, m@)
        } else if text::holds(m@, "out of range"@) {
            admin::wrong(KafkaErrorCode::UnknownTopicOrPartition, m@)
        } else if text::holds(m@, "reassign requires cluster"@) {
            admin::wrong(KafkaErrorCode::InvalidRequest, m@)
        } else {
            admin::wrong(KafkaErrorCode::InvalidReplicaAssignment, m@)
        },
        Err(_) => admin::bare(KafkaErrorCode::Unknown),
    }
}

/// The verdict on a partition that the broker was told to move.
pub fn after_reassign(result: core::result::Result<Majority, Error>) -> (v: Verdict)
    ensures
        v.deep_view() == reassign_verdict(result),
{
    match result {
        Ok(m) => m.verdict(),
        Err(Error::NotFound(_)) => say_unknown(),
        Err(Error::InvalidArgument(m)) => {
            if starts_with(m.as_str(), "not controller") {
                Verdict::wrong(KafkaErrorCode::NotController, m.as_str())
            } else if contains(m.as_str(), "out of range") {
                Verdict::wrong(KafkaErrorCode::UnknownTopicOrPartition, m.as_str())
            } else if contains(m.as_str(), "reassign requires cluster") {
                Verdict::wrong(KafkaErrorCode::InvalidRequest, m.as_str())
            } else {
                Verdict::wrong(KafkaErrorCode::InvalidReplicaAssignment, m.as_str())
            }
        },
        Err(_) => Verdict::bare(KafkaErrorCode::Unknown),
    }
}

/// The verdict on a request as a whole. `controller`: the broker that is the controller
/// where this one should be and is not.
pub open spec fn controller_verdict(controller: Option<u32>) -> VerdictView {
    match controller {
        Some(id) => admin::wrong(
            KafkaErrorCode::NotController,
            acl_api::not_controller_text(id),
        ),
        None => admin::fine(),
    }
}

/// The verdict on a request as a whole.
pub fn check_controller(controller: Option<u32>) -> (v: Verdict)
    ensures
        v.deep_view() == controller_verdict(controller),
{
    match controller {
        Some(id) => {
            let m = not_controller_message(id);
            Verdict::wrong(KafkaErrorCode::NotController, m.as_str())
        },
        None => Verdict::fine(),
    }
}

/// A response about reassignments: throttle time, error, message, topics.
pub open spec fn reassignments_out<R: Row>(o: Out, top: Verdict, topics: Seq<TopicOut<R>>) -> Out {
    message::rows_out(
        o.i32(0).i16(top.error as int).compact_nullable(top.message.deep_view()),
        topics,
        0,
        true,
    ).tags()
}

/// Writes an AlterPartitionReassignments response.
pub fn encode_alter_partition_reassignments(
    out: &mut BytesMut,
    top: &Verdict,
    topics: &Vec<TopicOut<PartVerdict>>,
)
    ensures
        final(out)@ == reassignments_out(old(out)@, *top, topics@),
{
    put_i32(out, 0);
    put_i16(out, top.error);
    put_compact_nullable_string(out, borrowed(&top.message));
    put_rows(out, topics.as_slice(), 0, true);
    put_end(out, true);
}

/// The topics that a request names; nothing where it means all. Topics that cannot be
/// counted are none.
pub open spec fn topics_filter_at(b: Src, version: i16, flexible: bool) -> Option<
    Seq<TopicInView<i32>>,
> {
    if flexible {
        let c = b.compact_len();
        match c.value {
            Err(_) => Some(Seq::empty()),
            Ok(None) => None,
            Ok(Some(n)) => Some(
                message::list_at::<LooseTopic<i32>>(c.rest, n as nat, version, true).0,
            ),
        }
    } else if b.left() < 4 {
        Some(Seq::empty())
    } else if b.i32() < 0 {
        None
    } else {
        Some(message::list_at::<LooseTopic<i32>>(b.skip(4), b.i32() as nat, version, false).0)
    }
}

fn no_topics() -> (r: Vec<LooseTopic<i32>>)
    ensures
        r.deep_view() == Seq::<TopicInView<i32>>::empty(),
{
    let none: Vec<LooseTopic<i32>> = Vec::new();
    assert(none.deep_view() =~= Seq::empty());
    none
}

fn read_topics_filter(src: &mut Bytes, version: i16, flexible: bool) -> (r: Option<
    Vec<LooseTopic<i32>>,
>)
    ensures
        r.deep_view() == topics_filter_at(old(src)@, version, flexible),
{
    if flexible {
        match get_compact_array_len(src) {
            Err(_) => Some(no_topics()),
            Ok(None) => None,
            Ok(Some(n)) => Some(read_list::<LooseTopic<i32>>(src, n, version, true)),
        }
    } else if remaining(src) < 4 {
        Some(no_topics())
    } else {
        let n: i32 = get_i32(src);
        if n < 0 {
            None
        } else {
            Some(read_list::<LooseTopic<i32>>(src, n as usize, version, false))
        }
    }
}

/// Reads a ListPartitionReassignments request. The timeout is not looked at.
pub fn decode_list_partition_reassignments(src: &mut Bytes) -> (r: Option<Vec<LooseTopic<i32>>>)
    ensures
        r.deep_view() == topics_filter_at(admin::over(old(src)@, 4), 0, true),
{
    pass_over(src, 4);
    read_topics_filter(src, 0, true)
}

/// A partition and the brokers that hold it.
#[derive(Debug)]
pub struct HeldPartition {
    pub partition: u32,
    pub replicas: Vec<u32>,
}

/// What a [`HeldPartition`] says.
#[verifier::ext_equal]
pub struct HeldView {
    pub partition: u32,
    pub replicas: Seq<u32>,
}

impl DeepView for HeldPartition {
    type V = HeldView;

    open spec fn deep_view(&self) -> HeldView {
        HeldView { partition: self.partition, replicas: self.replicas@ }
    }
}

/// A partition in a ListPartitionReassignments response.
#[derive(Debug)]
pub struct ReassignRow {
    pub partition: i32,
    pub replicas: Vec<u32>,
    pub verdict: Verdict,
}

/// What a [`ReassignRow`] says.
#[verifier::ext_equal]
pub struct ReassignRowView {
    pub partition: i32,
    pub replicas: Seq<u32>,
    pub verdict: VerdictView,
}

impl DeepView for ReassignRow {
    type V = ReassignRowView;

    open spec fn deep_view(&self) -> ReassignRowView {
        ReassignRowView {
            partition: self.partition,
            replicas: self.replicas@,
            verdict: self.verdict.deep_view(),
        }
    }
}

impl Row for u32 {
    open spec fn row(&self, o: Out, version: i16, flexible: bool) -> Out {
        o.i32(*self as int)
    }

    fn put(&self, out: &mut BytesMut, version: i16, flexible: bool) {
        put_u32(out, *self);
    }
}

/// Partition, brokers, no brokers that are added, none that are removed, error, message.
impl Row for ReassignRow {
    open spec fn row(&self, o: Out, version: i16, flexible: bool) -> Out {
        message::rows_out(o.i32(self.partition as int), self.replicas@, version, true).array_len(
            true,
            0,
        ).array_len(true, 0).i16(self.verdict.error as int).compact_nullable(
            self.verdict.message.deep_view(),
        ).tags()
    }

    fn put(&self, out: &mut BytesMut, version: i16, flexible: bool) {
        put_i32(out, self.partition);
        put_rows(out, self.replicas.as_slice(), version, true);
        put_array_len(out, true, 0);
        put_array_len(out, true, 0);
        put_i16(out, self.verdict.error);
        put_compact_nullable_string(out, borrowed(&self.verdict.message));
        put_end(out, true);
    }
}

/// The partitions that are meant: those that were asked for, or all where none were.
pub open spec fn indexes_of(requested: Seq<i32>, known: Seq<HeldView>) -> Seq<i32> {
    if requested.len() > 0 {
        requested
    } else {
        Seq::new(known.len(), |i: int| known[i].partition as i32)
    }
}

/// The partitions that are meant.
pub fn list_partition_indexes(requested: &Vec<i32>, known: &Vec<HeldPartition>) -> (r: Vec<i32>)
    ensures
        r@ == indexes_of(requested@, known.deep_view()),
{
    let ghost all = known.deep_view();
    let mut r: Vec<i32> = Vec::new();
    let mut i: usize = 0;
    if requested.len() > 0 {
        while i < requested.len()
            invariant
                i <= requested@.len(),
                r@ == requested@.take(i as int),
            decreases requested@.len() - i,
        {
            r.push(requested[i]);
            assert(requested@.take(i + 1) =~= requested@.take(i as int).push(
                requested@[i as int],
            ));
            i += 1;
        }
        assert(requested@.take(requested@.len() as int) =~= requested@);
        return r;
    }
    while i < known.len()
        invariant
            i <= known@.len(),
            all == known.deep_view(),
            r@.len() == i,
            forall|j: int| 0 <= j < i ==> #[trigger] r@[j] == all[j].partition as i32,
        decreases known@.len() - i,
    {
        assert(all[i as int] == known@[i as int].deep_view());
        r.push(known[i].partition as i32);
        i += 1;
    }
    assert(r@ =~= Seq::new(all.len(), |i: int| all[i].partition as i32));
    r
}

/// The brokers that hold a partition, if there is such a partition.
pub open spec fn held_by(known: Seq<HeldView>, partition: u32) -> Option<Seq<u32>>
    decreases known.len(),
{
    if known.len() == 0 {
        None
    } else if known[0].partition == partition {
        Some(known[0].replicas)
    } else {
        held_by(known.skip(1), partition)
    }
}

fn copy_ids(ids: &Vec<u32>) -> (r: Vec<u32>)
    ensures
        r@ == ids@,
{
    let mut r: Vec<u32> = Vec::new();
    let mut i: usize = 0;
    while i < ids.len()
        invariant
            i <= ids@.len(),
            r@ == ids@.take(i as int),
        decreases ids@.len() - i,
    {
        r.push(ids[i]);
        assert(ids@.take(i + 1) =~= ids@.take(i as int).push(ids@[i as int]));
        i += 1;
    }
    assert(ids@.take(ids@.len() as int) =~= ids@);
    r
}

fn find_held(known: &Vec<HeldPartition>, partition: u32) -> (r: Option<Vec<u32>>)
    ensures
        match (r, held_by(known.deep_view(), partition)) {
            (Some(a), Some(b)) => a@ == b,
            (None, None) => true,
            _ => false,
        },
{
    let ghost all = known.deep_view();
    let mut i: usize = 0;
    assert(all.skip(0) =~= all);
    while i < known.len()
        invariant
            i <= known@.len(),
            all == known.deep_view(),
            held_by(all, partition) == held_by(all.skip(i as int), partition),
        decreases known@.len() - i,
    {
        let ghost tail = all.skip(i as int);
        assert(tail[0] == known@[i as int].deep_view());
        assert(tail.skip(1) =~= all.skip(i + 1));
        if known[i].partition == partition {
            return Some(copy_ids(&known[i].replicas));
        }
        i += 1;
    }
    None
}

/// The row for a partition of a topic that a request names.
pub open spec fn named_row(
    partition: i32,
    allowed: bool,
    known: Option<Seq<HeldView>>,
) -> ReassignRowView {
    let held = match known {
        Some(k) => held_by(k, partition as u32),
        None => None,
    };
    if !allowed {
        ReassignRowView { partition, replicas: Seq::empty(), verdict: denied() }
    } else if partition >= 0 && held is Some {
        ReassignRowView { partition, replicas: held->0, verdict: admin::fine() }
    } else {
        ReassignRowView { partition, replicas: Seq::empty(), verdict: unknown_partition() }
    }
}

/// The rows for a topic that a request names. `allowed`: the client may describe it.
/// `known`: its partitions, nothing where there is no such topic.
pub open spec fn named_rows_of(
    requested: Seq<i32>,
    allowed: bool,
    known: Option<Seq<HeldView>>,
) -> Seq<ReassignRowView> {
    let meant = indexes_of(
        requested,
        match known {
            Some(k) => k,
            None => Seq::empty(),
        },
    );
    Seq::new(meant.len(), |i: int| named_row(meant[i], allowed, known))
}

fn make_named_row(partition: i32, allowed: bool, known: &Option<Vec<HeldPartition>>) -> (r:
    ReassignRow)
    ensures
        r.deep_view() == named_row(partition, allowed, known.deep_view()),
{
    let held: Option<Vec<u32>> = match known {
        Some(k) => find_held(k, partition as u32),
        None => None,
    };
    if !allowed {
        let none: Vec<u32> = Vec::new();
        return ReassignRow { partition, replicas: none, verdict: say_denied() };
    }
    if partition >= 0 {
        if let Some(replicas) = held {
            return ReassignRow { partition, replicas, verdict: Verdict::fine() };
        }
    }
    let none: Vec<u32> = Vec::new();
    ReassignRow { partition, replicas: none, verdict: say_unknown() }
}

/// The rows for a topic that a request names.
pub fn named_rows(requested: &Vec<i32>, allowed: bool, known: &Option<Vec<HeldPartition>>) -> (r:
    Vec<ReassignRow>)
    ensures
        r.deep_view() == named_rows_of(requested@, allowed, known.deep_view()),
{
    let none: Vec<HeldPartition> = Vec::new();
    assert(none.deep_view() =~= Seq::empty());
    let meant = match known {
        Some(k) => list_partition_indexes(requested, k),
        None => list_partition_indexes(requested, &none),
    };
    let ghost want = named_rows_of(requested@, allowed, known.deep_view());
    let mut r: Vec<ReassignRow> = Vec::new();
    let mut i: usize = 0;
    while i < meant.len()
        invariant
            i <= meant@.len(),
            want == Seq::new(
                meant@.len(),
                |i: int| named_row(meant@[i], allowed, known.deep_view()),
            ),
            r@.len() == i,
            forall|j: int| 0 <= j < i ==> (#[trigger] r@[j]).deep_view() == want[j],
        decreases meant@.len() - i,
    {
        r.push(make_named_row(meant[i], allowed, known));
        i += 1;
    }
    assert(r.deep_view() =~= want);
    r
}

/// The rows for a topic where all topics are asked for.
pub fn held_rows(parts: Vec<HeldPartition>) -> (r: Vec<ReassignRow>)
    ensures
        r.deep_view() == Seq::new(
            parts@.len(),
            |i: int|
                ReassignRowView {
                    partition: parts.deep_view()[i].partition as i32,
                    replicas: parts.deep_view()[i].replicas,
                    verdict: admin::fine(),
                },
        ),
{
    let ghost given = parts@;
    let ghost want = Seq::new(
        parts@.len(),
        |i: int|
            ReassignRowView {
                partition: parts.deep_view()[i].partition as i32,
                replicas: parts.deep_view()[i].replicas,
                verdict: admin::fine(),
            },
    );
    assert forall|j: int| 0 <= j < given.len() implies (#[trigger] want[j]) == (ReassignRowView {
        partition: given[j].partition as i32,
        replicas: given[j].replicas@,
        verdict: admin::fine(),
    }) by {
        assert(parts.deep_view()[j] == given[j].deep_view());
    }
    let mut r: Vec<ReassignRow> = Vec::new();
    for p in it: parts.into_iter()
        invariant
            it.seq() == given,
            want.len() == given.len(),
            forall|j: int|
                0 <= j < given.len() ==> (#[trigger] want[j]) == (ReassignRowView {
                    partition: given[j].partition as i32,
                    replicas: given[j].replicas@,
                    verdict: admin::fine(),
                }),
            r@.len() == it.index(),
            forall|j: int| 0 <= j < r@.len() ==> (#[trigger] r@[j]).deep_view() == want[j],
    {
        let ghost k = r@.len() as int;
        assert(want[k] == (ReassignRowView {
            partition: p.partition as i32,
            replicas: p.replicas@,
            verdict: admin::fine(),
        }));
        r.push(
            ReassignRow {
                partition: p.partition as i32,
                replicas: p.replicas,
                verdict: Verdict::fine(),
            },
        );
    }
    assert(r.deep_view() =~= want);
    r
}

/// The verdict on a ListPartitionReassignments request as a whole. `all`: it asks for all
/// topics. `allowed`: the client may describe the cluster.
pub open spec fn list_verdict_of(controller: Option<u32>, all: bool, allowed: bool) -> VerdictView {
    if controller is None && all && !allowed {
        admin::wrong(KafkaErrorCode::TopicAuthorizationFailed, "cluster authorization failed"@)
    } else {
        controller_verdict(controller)
    }
}

/// The verdict on a ListPartitionReassignments request as a whole. Where it is an error,
/// the response has no topics.
pub fn list_verdict(controller: Option<u32>, all: bool, allowed: bool) -> (v: Verdict)
    ensures
        v.deep_view() == list_verdict_of(controller, all, allowed),
{
    if controller.is_none() && all && !allowed {
        Verdict::wrong(
            KafkaErrorCode::TopicAuthorizationFailed,
            "cluster authorization failed",
        )
    } else {
        check_controller(controller)
    }
}

/// Writes a ListPartitionReassignments response.
pub fn encode_list_partition_reassignments(
    out: &mut BytesMut,
    top: &Verdict,
    topics: &Vec<TopicOut<ReassignRow>>,
)
    ensures
        final(out)@ == reassignments_out(old(out)@, *top, topics@),
{
    put_i32(out, 0);
    put_i16(out, top.error);
    put_compact_nullable_string(out, borrowed(&top.message));
    put_rows(out, topics.as_slice(), 0, true);
    put_end(out, true);
}

/// An ElectLeaders request.
#[derive(Debug)]
pub struct ElectRequest {
    /// The kind of election (v1+): 0 for one among the replicas that are in sync.
    pub election_type: i8,
    /// The topics; nothing where all are meant.
    pub topics: Option<Vec<LooseTopic<i32>>>,
}

/// What an [`ElectRequest`] says.
#[verifier::ext_equal]
pub struct ElectView {
    pub election_type: i8,
    pub topics: Option<Seq<TopicInView<i32>>>,
}

impl DeepView for ElectRequest {
    type V = ElectView;

    open spec fn deep_view(&self) -> ElectView {
        ElectView { election_type: self.election_type, topics: self.topics.deep_view() }
    }
}

/// An ElectLeaders request.
pub open spec fn elect_leaders_at(b: Src, version: i16) -> ElectView {
    let typed = version >= 1 && b.left() >= 1;
    let r = if typed {
        b.skip(1)
    } else {
        b
    };
    ElectView {
        election_type: if typed {
            b.i8() as i8
        } else {
            0
        },
        topics: topics_filter_at(admin::over(r, 4), version, version >= 1),
    }
}

/// Reads an ElectLeaders request. The timeout is not looked at.
pub fn decode_elect_leaders(src: &mut Bytes, version: i16) -> (r: ElectRequest)
    ensures
        r.deep_view() == elect_leaders_at(old(src)@, version),
{
    let mut election_type: i8 = 0;
    if version >= 1 && remaining(src) >= 1 {
        election_type = get_i8(src);
    }
    pass_over(src, 4);
    let topics = read_topics_filter(src, version, version >= 1);
    ElectRequest { election_type, topics }
}

/// What is to be done about a request for elections.
#[derive(Debug)]
pub enum ElectionPlan {
    /// The whole request is answered with an error.
    Refuse(i16),
    /// Leaders are to be elected for these partitions.
    Elect(Vec<LooseTopic<i32>>),
}

/// What is to be done about a request for elections. `controller`: the broker that is the
/// controller, where this one is not. `held`: all the partitions there are.
pub fn election_plan(
    controller: Option<u32>,
    asked: Option<Vec<LooseTopic<i32>>>,
    held: Vec<LooseTopic<i32>>,
) -> (p: ElectionPlan)
    ensures
        p == (match (controller, asked) {
            (Some(_), _) => ElectionPlan::Refuse(KafkaErrorCode::NotController.code()),
            (None, Some(topics)) => ElectionPlan::Elect(topics),
            (None, None) => ElectionPlan::Elect(held),
        }),
{
    match controller {
        Some(_) => ElectionPlan::Refuse(KafkaErrorCode::NotController.as_i16()),
        None => match asked {
            Some(topics) => ElectionPlan::Elect(topics),
            None => ElectionPlan::Elect(held),
        },
    }
}

/// The verdict on a partition before a leader is elected, if none is. `allowed`: the
/// client may alter the topic. `known`: there is such a partition.
pub open spec fn elect_refusal(
    partition: i32,
    election_type: i8,
    allowed: bool,
    known: bool,
) -> Option<VerdictView> {
    if !allowed {
        Some(denied())
    } else if partition < 0 {
        Some(unknown_partition())
    } else if election_type != 0 {
        Some(
            if known {
                admin::wrong(
                    KafkaErrorCode::EligibleLeadersNotAvailable,
                    "unclean leader election refused"@,
                )
            } else {
                unknown_partition()
            },
        )
    } else {
        None
    }
}

/// The verdict on a partition before a leader is elected, if none is.
pub fn refuse_election(partition: i32, election_type: i8, allowed: bool, known: bool) -> (r: Option<
    Verdict,
>)
    ensures
        r.deep_view() == elect_refusal(partition, election_type, allowed, known),
{
    if !allowed {
        Some(say_denied())
    } else if partition < 0 {
        Some(say_unknown())
    } else if election_type != 0 {
        if known {
            Some(
                Verdict::wrong(
                    KafkaErrorCode::EligibleLeadersNotAvailable,
                    "unclean leader election refused",
                ),
            )
        } else {
            Some(say_unknown())
        }
    } else {
        None
    }
}

/// An unclean election is never carried out.
pub proof fn law_no_unclean_election(partition: i32, election_type: i8, allowed: bool, known: bool)
    requires
        election_type != 0,
    ensures
        elect_refusal(partition, election_type, allowed, known) is Some,
        elect_refusal(partition, election_type, allowed, known)->0.error != 0,
{
}

/// What came of an election.
#[derive(Debug, Clone, Copy, PartialEq, Eq, Structural)]
pub enum Election {
    /// The leader was the preferred one already.
    Unchanged,
    /// The leader is another; what the other brokers said.
    Changed(Majority),
}

/// The verdict on a partition for which the broker was told to elect a leader.
pub open spec fn elect_verdict(result: core::result::Result<Election, Error>) -> VerdictView {
    match result {
        Ok(Election::Unchanged) => admin::fine(),
        Ok(Election::Changed(m)) => admin::majority_verdict(m),
        Err(Error::NotFound(m)) => admin::wrong(KafkaErrorCode::UnknownTopicOrPartition, m@),
        Err(Error::InvalidArgument(m)) => if "not controller"@.is_prefix_of(m@) {
            admin::wrong(KafkaErrorCode::NotController, m@)
        } else if text::holds(m@, "eligible leaders"@) {
            admin::wrong(KafkaErrorCode::EligibleLeadersNotAvailable, m@)
        } else {
            admin::wrong(KafkaErrorCode::InvalidRequest, m@)
        },
        Err(_) => admin::bare(KafkaErrorCode::Unknown),
    }
}

/// The verdict on a partition for which the broker was told to elect a leader.
pub fn after_election(result: core::result::Result<Election, Error>) -> (v: Verdict)
    ensures
        v.deep_view() == elect_verdict(result),
{
    match result {
        Ok(Election::Unchanged) => Verdict::fine(),
        Ok(Election::Changed(m)) => m.verdict(),
        Err(Error::NotFound(m)) => Verdict::wrong(
            KafkaErrorCode::UnknownTopicOrPartition,
            m.as_str(),
        ),
        Err(Error::InvalidArgument(m)) => {
            if starts_with(m.as_str(), "not controller") {
                Verdict::wrong(KafkaErrorCode::NotController, m.as_str())
            } else if contains(m.as_str(), "eligible leaders") {
                Verdict::wrong(KafkaErrorCode::EligibleLeadersNotAvailable, m.as_str())
            } else {
                Verdict::wrong(KafkaErrorCode::InvalidRequest, m.as_str())
            }
        },
        Err(_) => Verdict::bare(KafkaErrorCode::Unknown),
    }
}

/// An ElectLeaders response: throttle time, error, topics.
pub open spec fn elect_leaders_out(
    o: Out,
    version: i16,
    error: i16,
    topics: Seq<TopicOut<PartVerdict>>,
) -> Out {
    message::rows_out(o.i32(0).i16(error as int), topics, version, version >= 1).end(version >= 1)
}

/// Writes an ElectLeaders response. The error is `NotController`, and there are no
/// topics, where this broker is not the controller.
pub fn encode_elect_leaders(
    out: &mut BytesMut,
    version: i16,
    error: i16,
    topics: &Vec<TopicOut<PartVerdict>>,
)
    ensures
        final(out)@ == elect_leaders_out(old(out)@, version, error, topics@),
{
    put_i32(out, 0);
    put_i16(out, error);
    put_rows(out, topics.as_slice(), version, version >= 1);
    put_end(out, version >= 1);
}

/// The broker of an UnregisterBroker request, if there is one.
pub open spec fn unregister_broker_at(b: Src) -> Option<i32> {
    if b.left() < 4 {
        None
    } else {
        Some(b.i32() as i32)
    }
}

/// Reads the broker of an UnregisterBroker request, which is all that matters of it.
pub fn decode_unregister_broker(src: &mut Bytes) -> (r: Option<i32>)
    ensures
        r == unregister_broker_at(old(src)@),
{
    if remaining(src) < 4 {
        None
    } else {
        Some(get_i32(src))
    }
}

/// The verdict on an UnregisterBroker request before the broker is removed, if it is
/// not. `allowed`: the client may alter the cluster. `cluster`: there is a cluster.
/// `controller`: the broker that is the controller where this one is not.
pub open spec fn unregister_refusal(
    broker: Option<i32>,
    allowed: bool,
    cluster: bool,
    controller: Option<u32>,
) -> Option<VerdictView> {
    match broker {
        None => Some(admin::wrong(KafkaErrorCode::InvalidRequest, "truncated BrokerId"@)),
        Some(id) => if !allowed {
            Some(
                admin::wrong(
                    KafkaErrorCode::ClusterAuthorizationFailed,
                    "cluster authorization failed"@,
                ),
            )
        } else if !cluster {
            Some(admin::wrong(KafkaErrorCode::InvalidRequest, "unregister requires cluster"@))
        } else if controller is Some {
            Some(controller_verdict(controller))
        } else if id < 0 {
            Some(admin::wrong(KafkaErrorCode::InvalidRequest, "invalid broker id"@))
        } else {
            None
        },
    }
}

/// The verdict on an UnregisterBroker request before the broker is removed, if it is
/// not.
pub fn refuse_unregister(
    broker: Option<i32>,
    allowed: bool,
    cluster: bool,
    controller: Option<u32>,
) -> (r: Option<Verdict>)
    ensures
        r.deep_view() == unregister_refusal(broker, allowed, cluster, controller),
{
    match broker {
        None => Some(Verdict::wrong(KafkaErrorCode::InvalidRequest, "truncated BrokerId")),
        Some(id) => {
            if !allowed {
                Some(
                    Verdict::wrong(
                        KafkaErrorCode::ClusterAuthorizationFailed,
                        "cluster authorization failed",
                    ),
                )
            } else if !cluster {
                Some(
                    Verdict::wrong(
                        KafkaErrorCode::InvalidRequest,
                        "unregister requires cluster",
                    ),
                )
            } else if controller.is_some() {
                Some(check_controller(controller))
            } else if id < 0 {
                Some(Verdict::wrong(KafkaErrorCode::InvalidRequest, "invalid broker id"))
            } else {
                None
            }
        },
    }
}

/// The verdict on a broker that was to be removed. `shown`: the text of the error.
pub open spec fn unregister_verdict(
    result: core::result::Result<(), Error>,
    shown: Seq<char>,
) -> VerdictView {
    match result {
        Ok(_) => admin::fine(),
        Err(Error::InvalidArgument(m)) => if text::holds(m@, "requires cluster"@) {
            admin::wrong(KafkaErrorCode::InvalidRequest, "unregister requires cluster"@)
        } else if "not controller"@.is_prefix_of(m@) {
            admin::wrong(KafkaErrorCode::NotController, m@)
        } else {
            admin::wrong(KafkaErrorCode::InvalidRequest, m@)
        },
        Err(Error::Protocol(m)) => if text::holds(m@, "not enough replicas"@) {
            admin::wrong(KafkaErrorCode::NotEnoughReplicas, m@)
        } else {
            admin::wrong(KafkaErrorCode::Unknown, shown)
        },
        Err(_) => admin::wrong(KafkaErrorCode::Unknown, shown),
    }
}

/// The verdict on a broker that was to be removed.
pub fn after_unregister(result: core::result::Result<(), Error>, shown: &str) -> (v: Verdict)
    ensures
        v.deep_view() == unregister_verdict(result, shown@),
{
    match result {
        Ok(_) => Verdict::fine(),
        Err(Error::InvalidArgument(m)) => {
            if contains(m.as_str(), "requires cluster") {
                Verdict::wrong(KafkaErrorCode::InvalidRequest, "unregister requires cluster")
            } else if starts_with(m.as_str(), "not controller") {
                Verdict::wrong(KafkaErrorCode::NotController, m.as_str())
            } else {
                Verdict::wrong(KafkaErrorCode::InvalidRequest, m.as_str())
            }
        },
        Err(Error::Protocol(m)) => {
            if contains(m.as_str(), "not enough replicas") {
                Verdict::wrong(KafkaErrorCode::NotEnoughReplicas, m.as_str())
            } else {
                Verdict::wrong(KafkaErrorCode::Unknown, shown)
            }
        },
        Err(_) => Verdict::wrong(KafkaErrorCode::Unknown, shown),
    }
}

/// An UnregisterBroker response: throttle time, error, message.
pub open spec fn unregister_out(o: Out, v: Verdict) -> Out {
    v.row(o.i32(0), 0, true)
}

/// Writes an UnregisterBroker response.
pub fn encode_unregister_broker(out: &mut BytesMut, v: &Verdict)
    ensures
        final(out)@ == unregister_out(old(out)@, *v),
{
    put_i32(out, 0);
    v.put(out, 0, true);
}

} // verus!
