//! What is left of administration: UpdateFeatures, DescribeLogDirs,
//! DescribeClientQuotas and AlterClientQuotas.

use bytes::{Bytes, BytesMut};
use vstd::prelude::*;
use vstd::string::*;

use crate::acl_api::borrowed;
use crate::admin;
use crate::admin::{pass_over, Verdict, VerdictView};
use crate::api::KafkaErrorCode;
use crate::buffer::{advance, get_i32, put_i16, put_i32, put_i64, put_u8, remaining, Contents};
use crate::codec;
use crate::codec::{
    get_compact_array_len, get_compact_string, put_array_len, put_compact_nullable_string, put_end,
    put_text,
};
use crate::membership;
use crate::membership::read_or_null;
use crate::message;
use crate::message::{
    drop_tags, put_rows, read_list, read_loose_list, Element, LooseTopic, Read, Row, TopicInView,
    TopicOut, WholeTopic,
};
use crate::reassignment;
use crate::reassignment::check_controller;
use crate::wire;
use crate::wire::{Out, Src, Step};

verus! {

/// A feature in an UpdateFeatures request. The versions are not looked at.
#[derive(Debug)]
pub struct FeatureIn {
    pub name: String,
}

impl DeepView for FeatureIn {
    type V = Seq<char>;

    open spec fn deep_view(&self) -> Seq<char> {
        self.name@
    }
}

impl Element for FeatureIn {
    open spec fn at(b: Src, version: i16, flexible: bool) -> Step<Seq<char>> {
        let n = b.compact();
        match n.value {
            Err(_) => wire::stop(n.rest),
            Ok(name) => if n.rest.left() < 2 {
                wire::stop(n.rest)
            } else {
                wire::keep(
                    name,
                    message::after_tags(admin::over(n.rest.skip(2), 1), true),
                )
            },
        }
    }

    fn read(src: &mut Bytes, version: i16, flexible: bool) -> (r: Read<FeatureIn>) {
        let name = match get_compact_string(src) {
            Err(_) => return Read::End,
            Ok(n) => n,
        };
        if remaining(src) < 2 {
            return Read::End;
        }
        advance(src, 2);
        pass_over(src, 1);
        drop_tags(src, true);
        Read::Item(FeatureIn { name })
    }
}

/// Reads an UpdateFeatures request: the features that it names. The timeout is not
/// looked at.
pub fn decode_update_features(src: &mut Bytes) -> (r: Vec<FeatureIn>)
    ensures
        r.deep_view() == message::loose_list_at::<FeatureIn>(
            admin::over(old(src)@, 4),
            0,
            true,
        ).0,
{
    pass_over(src, 4);
    read_loose_list::<FeatureIn>(src, 0, true)
}

/// The verdict on an UpdateFeatures request as a whole. `controller`: the broker that is
/// the controller where this one should be and is not. `allowed`: the client may alter
/// the cluster.
pub open spec fn features_verdict_of(controller: Option<u32>, allowed: bool) -> VerdictView {
    if controller is None && !allowed {
        admin::wrong(
            KafkaErrorCode::ClusterAuthorizationFailed,
            "cluster authorization failed"@,
        )
    } else {
        reassignment::controller_verdict(controller)
    }
}

/// The verdict on an UpdateFeatures request as a whole.
pub fn features_verdict(controller: Option<u32>, allowed: bool) -> (v: Verdict)
    ensures
        v.deep_view() == features_verdict_of(controller, allowed),
{
    if controller.is_none() && !allowed {
        Verdict::wrong(
            KafkaErrorCode::ClusterAuthorizationFailed,
            "cluster authorization failed",
        )
    } else {
        check_controller(controller)
    }
}

/// The answer for a feature: there are none that could be updated.
impl Row for FeatureIn {
    open spec fn row(&self, o: Out, version: i16, flexible: bool) -> Out {
        o.text(true, self.name@).i16(
            KafkaErrorCode::FeatureUpdateFailed.code() as int,
        ).compact_nullable(Some("empty / not supported"@)).tags()
    }

    fn put(&self, out: &mut BytesMut, version: i16, flexible: bool) {
        put_text(out, true, self.name.as_str());
        put_i16(out, KafkaErrorCode::FeatureUpdateFailed.as_i16());
        put_compact_nullable_string(out, Some("empty / not supported"));
        put_end(out, true);
    }
}

/// An UpdateFeatures response: throttle time, error, message, and the features where
/// there is no error.
pub open spec fn update_features_out(o: Out, top: Verdict, features: Seq<FeatureIn>) -> Out {
    message::rows_out(
        o.i32(0).i16(top.error as int).compact_nullable(top.message.deep_view()),
        if top.error == 0 {
            features
        } else {
            Seq::empty()
        },
        0,
        true,
    ).tags()
}

/// Writes an UpdateFeatures response.
pub fn encode_update_features(out: &mut BytesMut, top: &Verdict, features: &Vec<FeatureIn>)
    ensures
        final(out)@ == update_features_out(old(out)@, *top, features@),
{
    put_i32(out, 0);
    put_i16(out, top.error);
    put_compact_nullable_string(out, borrowed(&top.message));
    if top.error == 0 {
        put_rows(out, features.as_slice(), 0, true);
    } else {
        let none: Vec<FeatureIn> = Vec::new();
        assert(none@ =~= Seq::empty());
        put_rows(out, none.as_slice(), 0, true);
    }
    put_end(out, true);
}

/// A topic in a DescribeLogDirs request. A classic request that ends after the name ends
/// before the topic.
#[derive(Debug)]
pub struct LogDirAsk {
    pub name: String,
    pub parts: Vec<i32>,
}

impl DeepView for LogDirAsk {
    type V = TopicInView<i32>;

    open spec fn deep_view(&self) -> TopicInView<i32> {
        TopicInView { name: self.name@, parts: self.parts.deep_view() }
    }
}

impl Element for LogDirAsk {
    open spec fn at(b: Src, version: i16, flexible: bool) -> Step<TopicInView<i32>> {
        if flexible {
            LooseTopic::<i32>::at(b, version, true)
        } else {
            WholeTopic::<i32>::at(b, version, false)
        }
    }

    fn read(src: &mut Bytes, version: i16, flexible: bool) -> (r: Read<LogDirAsk>) {
        if flexible {
            match LooseTopic::<i32>::read(src, version, true) {
                Read::Item(t) => Read::Item(LogDirAsk { name: t.name, parts: t.parts }),
                Read::Last(t) => Read::Last(LogDirAsk { name: t.name, parts: t.parts }),
                Read::Pass => Read::Pass,
                Read::End => Read::End,
            }
        } else {
            match WholeTopic::<i32>::read(src, version, false) {
                Read::Item(t) => Read::Item(LogDirAsk { name: t.name, parts: t.parts }),
                Read::Last(t) => Read::Last(LogDirAsk { name: t.name, parts: t.parts }),
                Read::Pass => Read::Pass,
                Read::End => Read::End,
            }
        }
    }
}

/// The topics that a DescribeLogDirs request names; nothing where it means all. A
/// classic request that is empty means all.
pub open spec fn log_dirs_at(b: Src, flexible: bool) -> Option<Seq<TopicInView<i32>>> {
    if flexible {
        let c = b.compact_len();
        match c.value {
            Err(_) => Some(Seq::empty()),
            Ok(None) => None,
            Ok(Some(n)) => Some(message::list_at::<LogDirAsk>(c.rest, n as nat, 0, true).0),
        }
    } else if b.left() < 4 || b.i32() < 0 {
        None
    } else {
        Some(message::list_at::<LogDirAsk>(b.skip(4), b.i32() as nat, 0, false).0)
    }
}

/// Reads the topics of a DescribeLogDirs request.
pub fn parse_describe_log_dirs_topics(src: &mut Bytes, flexible: bool) -> (r: Option<Vec<LogDirAsk>>)
    ensures
        r.deep_view() == log_dirs_at(old(src)@, flexible),
{
    if flexible {
        match get_compact_array_len(src) {
            Err(_) => {
                let none: Vec<LogDirAsk> = Vec::new();
                assert(none.deep_view() =~= Seq::empty());
                Some(none)
            },
            Ok(None) => None,
            Ok(Some(n)) => Some(read_list::<LogDirAsk>(src, n, 0, true)),
        }
    } else {
        if remaining(src) < 4 {
            return None;
        }
        let n: i32 = get_i32(src);
        if n < 0 {
            None
        } else {
            Some(read_list::<LogDirAsk>(src, n as usize, 0, false))
        }
    }
}

/// Whether a client may see the logs of a topic: it may describe the cluster, or that topic.
pub fn may_see_logs(cluster: bool, topic: bool) -> (b: bool)
    ensures
        b == (cluster || topic),
{
    cluster || topic
}

/// The topics that the client may see. `allowed[i]`: the client may describe topic `i`.
pub open spec fn visible_of(topics: Seq<TopicInView<i32>>, allowed: Seq<bool>) -> Seq<
    TopicInView<i32>,
>
    decreases topics.len(),
{
    if topics.len() == 0 || topics.len() != allowed.len() {
        Seq::empty()
    } else {
        let before = visible_of(topics.drop_last(), allowed.drop_last());
        if allowed.last() {
            before.push(topics.last())
        } else {
            before
        }
    }
}

/// The topics that the client may see.
pub fn visible_topics(topics: Vec<LogDirAsk>, allowed: &Vec<bool>) -> (r: Vec<LogDirAsk>)
    requires
        allowed@.len() == topics@.len(),
    ensures
        r.deep_view() == visible_of(topics.deep_view(), allowed@),
{
    let ghost all = topics.deep_view();
    let ghost given = topics@;
    let mut r: Vec<LogDirAsk> = Vec::new();
    let n: usize = allowed.len();
    let mut i: usize = 0;
    assert(r.deep_view() =~= Seq::empty());
    assert(all.take(0).len() == 0);
    for t in it: topics.into_iter()
        invariant
            it.seq() == given,
            all.len() == given.len(),
            allowed@.len() == given.len(),
            n == given.len(),
            i == it.index(),
            forall|j: int| 0 <= j < all.len() ==> (#[trigger] all[j]) == given[j].deep_view(),
            r.deep_view() == visible_of(all.take(i as int), allowed@.take(i as int)),
    {
        let ghost seen = r.deep_view();
        assert(all[i as int] == t.deep_view());
        assert(all.take(i + 1).drop_last() =~= all.take(i as int));
        assert(allowed@.take(i + 1).drop_last() =~= allowed@.take(i as int));
        assert(all.take(i + 1).last() == t.deep_view());
        if allowed[i] {
            let ghost v = t.deep_view();
            r.push(t);
            assert(r.deep_view() =~= seen.push(v));
        }
        i += 1;
    }
    assert(all.take(all.len() as int) =~= all);
    assert(allowed@.take(allowed@.len() as int) =~= allowed@);
    r
}

/// The error for the log directory: all topics are asked for, and the client may not
/// describe the cluster.
pub open spec fn log_dir_error_of(all: bool, cluster_allowed: bool) -> i16 {
    if all && !cluster_allowed {
        KafkaErrorCode::ClusterAuthorizationFailed.code()
    } else {
        0
    }
}

/// The error for the log directory. Where there is one, the response has no topics.
pub fn log_dir_error(all: bool, cluster_allowed: bool) -> (e: i16)
    ensures
        e == log_dir_error_of(all, cluster_allowed),
{
    if all && !cluster_allowed {
        KafkaErrorCode::ClusterAuthorizationFailed.as_i16()
    } else {
        0
    }
}

/// A partition in a DescribeLogDirs response.
#[derive(Debug, Clone, Copy, PartialEq, Eq, Structural)]
pub struct LogDirRow {
    pub partition: i32,
    pub size: i64,
    pub offset_lag: i64,
    pub is_future: bool,
}

impl Row for LogDirRow {
    open spec fn row(&self, o: Out, version: i16, flexible: bool) -> Out {
        o.i32(self.partition as int).i64(self.size as int).i64(self.offset_lag as int).byte(
            if self.is_future {
                1
            } else {
                0
            },
        ).end(flexible)
    }

    fn put(&self, out: &mut BytesMut, version: i16, flexible: bool) {
        put_i32(out, self.partition);
        put_i64(out, self.size);
        put_i64(out, self.offset_lag);
        if self.is_future {
            put_u8(out, 1);
        } else {
            put_u8(out, 0);
        }
        put_end(out, flexible);
    }
}

/// A DescribeLogDirs response: throttle time, and one directory with error, path and
/// topics.
pub open spec fn log_dirs_out(
    o: Out,
    flexible: bool,
    dir_error: i16,
    path: Seq<char>,
    topics: Seq<TopicOut<LogDirRow>>,
) -> Out {
    message::rows_out(
        o.i32(0).array_len(flexible, 1).i16(dir_error as int).text(flexible, path),
        topics,
        0,
        flexible,
    ).end(flexible).end(flexible)
}

/// Writes a DescribeLogDirs response.
pub fn write_describe_log_dirs(
    out: &mut BytesMut,
    flexible: bool,
    dir_error: i16,
    path: &str,
    topics: &Vec<TopicOut<LogDirRow>>,
)
    ensures
        final(out)@ == log_dirs_out(old(out)@, flexible, dir_error, path@, topics@),
{
    put_i32(out, 0);
    put_array_len(out, flexible, 1);
    put_i16(out, dir_error);
    put_text(out, flexible, path);
    put_rows(out, topics.as_slice(), 0, flexible);
    put_end(out, flexible);
    put_end(out, flexible);
}

/// A DescribeClientQuotas response: throttle time, error, message, no quotas.
pub open spec fn describe_quotas_out(o: Out, allowed: bool) -> Out {
    if allowed {
        o.i32(0).i16(0).compact_nullable(None).array_len(true, 0).tags()
    } else {
        o.i32(0).i16(
            KafkaErrorCode::ClusterAuthorizationFailed.code() as int,
        ).compact_nullable(Some("cluster authorization failed"@)).array_len(true, 0).tags()
    }
}

/// Writes a DescribeClientQuotas response. There are no quotas, whatever the request
/// asks for. `allowed`: the client may describe the cluster.
pub fn encode_describe_client_quotas(out: &mut BytesMut, allowed: bool)
    ensures
        final(out)@ == describe_quotas_out(old(out)@, allowed),
{
    put_i32(out, 0);
    if allowed {
        put_i16(out, 0);
        put_compact_nullable_string(out, None);
    } else {
        put_i16(out, KafkaErrorCode::ClusterAuthorizationFailed.as_i16());
        put_compact_nullable_string(out, Some("cluster authorization failed"));
    }
    put_array_len(out, true, 0);
    put_end(out, true);
}

/// What a quota is for.
#[derive(Debug)]
pub struct QuotaEntity {
    pub entity_type: String,
    pub entity_name: Option<String>,
}

/// What a [`QuotaEntity`] says.
#[verifier::ext_equal]
pub struct QuotaEntityView {
    pub entity_type: Seq<char>,
    pub entity_name: Option<Seq<char>>,
}

impl DeepView for QuotaEntity {
    type V = QuotaEntityView;

    open spec fn deep_view(&self) -> QuotaEntityView {
        QuotaEntityView {
            entity_type: self.entity_type@,
            entity_name: self.entity_name.deep_view(),
        }
    }
}

impl Element for QuotaEntity {
    open spec fn at(b: Src, version: i16, flexible: bool) -> Step<QuotaEntityView> {
        let t = b.compact();
        match t.value {
            Err(_) => wire::stop(t.rest),
            Ok(entity_type) => {
                let n = codec::opt_text_at(t.rest, true);
                wire::keep(
                    QuotaEntityView { entity_type, entity_name: membership::or_null(n.value) },
                    message::after_tags(n.rest, true),
                )
            },
        }
    }

    fn read(src: &mut Bytes, version: i16, flexible: bool) -> (r: Read<QuotaEntity>) {
        let entity_type = match get_compact_string(src) {
            Err(_) => return Read::End,
            Ok(t) => t,
        };
        let entity_name = read_or_null(src, true);
        drop_tags(src, true);
        Read::Item(QuotaEntity { entity_type, entity_name })
    }
}

impl Row for QuotaEntity {
    open spec fn row(&self, o: Out, version: i16, flexible: bool) -> Out {
        o.text(true, self.entity_type@).compact_nullable(self.entity_name.deep_view()).tags()
    }

    fn put(&self, out: &mut BytesMut, version: i16, flexible: bool) {
        put_text(out, true, self.entity_type.as_str());
        put_compact_nullable_string(out, borrowed(&self.entity_name));
        put_end(out, true);
    }
}

/// A change of a quota, which is not looked at.
#[derive(Debug)]
pub struct QuotaOp;

impl DeepView for QuotaOp {
    type V = ();

    open spec fn deep_view(&self) -> () {
        ()
    }
}

impl Element for QuotaOp {
    open spec fn at(b: Src, version: i16, flexible: bool) -> Step<()> {
        let k = b.compact();
        match k.value {
            Err(_) => wire::stop(k.rest),
            Ok(_) => if k.rest.left() < 9 {
                wire::stop(k.rest)
            } else {
                wire::keep((), message::after_tags(k.rest.skip(9), true))
            },
        }
    }

    fn read(src: &mut Bytes, version: i16, flexible: bool) -> (r: Read<QuotaOp>) {
        if get_compact_string(src).is_err() {
            return Read::End;
        }
        if remaining(src) < 9 {
            return Read::End;
        }
        advance(src, 9);
        drop_tags(src, true);
        Read::Item(QuotaOp)
    }
}

/// An entry in an AlterClientQuotas request: what the quotas are for.
#[derive(Debug)]
pub struct QuotaEntry {
    pub entity: Vec<QuotaEntity>,
}

impl DeepView for QuotaEntry {
    type V = Seq<QuotaEntityView>;

    open spec fn deep_view(&self) -> Seq<QuotaEntityView> {
        self.entity.deep_view()
    }
}

impl Element for QuotaEntry {
    open spec fn at(b: Src, version: i16, flexible: bool) -> Step<Seq<QuotaEntityView>> {
        let e = message::loose_list_at::<QuotaEntity>(b, version, true);
        let o = message::loose_list_at::<QuotaOp>(e.1, version, true);
        wire::keep(e.0, message::after_tags(o.1, true))
    }

    fn read(src: &mut Bytes, version: i16, flexible: bool) -> (r: Read<QuotaEntry>) {
        let entity = read_loose_list::<QuotaEntity>(src, version, true);
        let _ops = read_loose_list::<QuotaOp>(src, version, true);
        drop_tags(src, true);
        Read::Item(QuotaEntry { entity })
    }
}

/// Reads the entries of an AlterClientQuotas request.
pub fn parse_alter_client_quotas_request(src: &mut Bytes) -> (r: Vec<QuotaEntry>)
    ensures
        r.deep_view() == message::loose_list_at::<QuotaEntry>(old(src)@, 0, true).0,
{
    read_loose_list::<QuotaEntry>(src, 0, true)
}

/// The answer for an entry: quotas are not supported.
#[derive(Debug)]
pub struct QuotaRow {
    /// Whether the client may not alter the cluster.
    pub denied: bool,
    pub entity: Vec<QuotaEntity>,
}

/// Error, message, what the quotas are for.
impl Row for QuotaRow {
    open spec fn row(&self, o: Out, version: i16, flexible: bool) -> Out {
        let o = if self.denied {
            o.i16(KafkaErrorCode::ClusterAuthorizationFailed.code() as int).compact_nullable(
                Some("cluster authorization failed"@),
            )
        } else {
            o.i16(KafkaErrorCode::InvalidRequest.code() as int).compact_nullable(
                Some("quotas not supported"@),
            )
        };
        message::rows_out(o, self.entity@, version, true).tags()
    }

    fn put(&self, out: &mut BytesMut, version: i16, flexible: bool) {
        if self.denied {
            put_i16(out, KafkaErrorCode::ClusterAuthorizationFailed.as_i16());
            put_compact_nullable_string(out, Some("cluster authorization failed"));
        } else {
            put_i16(out, KafkaErrorCode::InvalidRequest.as_i16());
            put_compact_nullable_string(out, Some("quotas not supported"));
        }
        put_rows(out, self.entity.as_slice(), version, true);
        put_end(out, true);
    }
}

/// The answers for the entries of an AlterClientQuotas request.
pub fn quota_rows(entries: Vec<QuotaEntry>, denied: bool) -> (rows: Vec<QuotaRow>)
    ensures
        rows@.len() == entries@.len(),
        forall|i: int|
            0 <= i < rows@.len() ==> (#[trigger] rows@[i]).denied == denied && rows@[i].entity
                == entries@[i].entity,
{
    let ghost given = entries@;
    let mut rows: Vec<QuotaRow> = Vec::new();
    for e in it: entries.into_iter()
        invariant
            it.seq() == given,
            rows@.len() == it.index(),
            forall|j: int|
                0 <= j < rows@.len() ==> (#[trigger] rows@[j]).denied == denied
                    && rows@[j].entity == given[j].entity,
    {
        rows.push(QuotaRow { denied, entity: e.entity });
    }
    rows
}

/// An AlterClientQuotas response: throttle time, entries.
pub open spec fn alter_quotas_out(o: Out, rows: Seq<QuotaRow>) -> Out {
    message::rows_out(o.i32(0), rows, 0, true).tags()
}

/// Writes an AlterClientQuotas response.
pub fn encode_alter_client_quotas(out: &mut BytesMut, rows: &Vec<QuotaRow>)
    ensures
        final(out)@ == alter_quotas_out(old(out)@, rows@),
{
    put_i32(out, 0);
    put_rows(out, rows.as_slice(), 0, true);
    put_end(out, true);
}

} // verus!
