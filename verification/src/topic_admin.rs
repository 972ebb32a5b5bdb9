//! Topics as an administrator sees them: CreateTopics, DeleteTopics and
//! CreatePartitions.

use bytes::{Bytes, BytesMut};
use vstd::prelude::*;
use vstd::string::*;

use crate::acl_api::borrowed;
use crate::admin;
use crate::admin::{pass_over, Majority, Verdict, VerdictView};
use crate::api::KafkaErrorCode;
use crate::buffer::{get_i16, get_i32, put_i16, put_i32, remaining, Contents};
use crate::codec;
use crate::codec::{
    get_uuid, put_compact_nullable_string, put_end, put_opt_text, put_text, put_unsigned_varint,
    put_uuid, read_nullable_string, read_string,
};
use crate::error::Error;
use crate::message;
use crate::message::{
    drop_tags, put_rows, read_count, read_flag, read_list, read_loose_list, Element, Read, Row,
};
use crate::text;
use crate::text::contains;
use crate::topic_id;
use crate::topic_id::{
    echo_uuid, kafka_uuid_zero, resolve_delete_entry, uuid_for_numeric_id, Catalog,
};
use crate::wire;
use crate::wire::{Out, Src, Step};

verus! {

/// Default partition count when CreateTopics v4+ sends `num_partitions = -1`.
pub const DEFAULT_TOPIC_PARTITIONS: u32 = 1;

/// The replicas that a CreateTopics request wishes for a partition, which are not
/// looked at.
#[derive(Debug)]
pub struct WishedReplicas;

impl DeepView for WishedReplicas {
    type V = ();

    open spec fn deep_view(&self) -> () {
        ()
    }
}

/// Partition and brokers.
impl Element for WishedReplicas {
    open spec fn at(b: Src, version: i16, flexible: bool) -> Step<()> {
        let l = message::loose_list_at::<i32>(b.skip(4), version, flexible);
        if b.left() < 4 || (!flexible && b.left() < 8) {
            wire::stop(b)
        } else {
            wire::keep((), message::after_tags(l.1, flexible))
        }
    }

    fn read(src: &mut Bytes, version: i16, flexible: bool) -> (r: Read<WishedReplicas>) {
        let n: usize = remaining(src);
        if n < 4 || (!flexible && n < 8) {
            return Read::End;
        }
        let _partition: i32 = get_i32(src);
        let _brokers = read_loose_list::<i32>(src, version, flexible);
        drop_tags(src, flexible);
        Read::Item(WishedReplicas)
    }
}

/// A setting of a topic.
#[derive(Debug)]
pub struct ConfigIn {
    pub key: String,
    /// The value, empty where it is null.
    pub value: String,
}

impl DeepView for ConfigIn {
    type V = (Seq<char>, Seq<char>);

    open spec fn deep_view(&self) -> (Seq<char>, Seq<char>) {
        (self.key@, self.value@)
    }
}

impl Element for ConfigIn {
    open spec fn at(b: Src, version: i16, flexible: bool) -> Step<(Seq<char>, Seq<char>)> {
        let k = codec::text_at(b, flexible);
        match k.value {
            Err(_) => wire::stop(k.rest),
            Ok(key) => {
                let v = codec::opt_text_at(k.rest, flexible);
                match v.value {
                    Err(_) => wire::stop(v.rest),
                    Ok(value) => wire::keep(
                        (
                            key,
                            match value {
                                Some(s) => s,
                                None => Seq::empty(),
                            },
                        ),
                        message::after_tags(v.rest, flexible),
                    ),
                }
            },
        }
    }

    fn read(src: &mut Bytes, version: i16, flexible: bool) -> (r: Read<ConfigIn>) {
        let key = match read_string(src, flexible) {
            Err(_) => return Read::End,
            Ok(k) => k,
        };
        let value = match read_nullable_string(src, flexible) {
            Err(_) => return Read::End,
            Ok(Some(v)) => v,
            Ok(None) => crate::membership::blank(),
        };
        drop_tags(src, flexible);
        Read::Item(ConfigIn { key, value })
    }
}

/// A topic that is to be created.
#[derive(Debug)]
pub struct NewTopic {
    pub name: String,
    pub partitions: i32,
    pub configs: Vec<ConfigIn>,
}

/// What a [`NewTopic`] says.
#[verifier::ext_equal]
pub struct NewTopicView {
    pub name: Seq<char>,
    pub partitions: i32,
    pub configs: Seq<(Seq<char>, Seq<char>)>,
}

impl DeepView for NewTopic {
    type V = NewTopicView;

    open spec fn deep_view(&self) -> NewTopicView {
        NewTopicView {
            name: self.name@,
            partitions: self.partitions,
            configs: self.configs.deep_view(),
        }
    }
}

/// The part of a topic behind the replication factor.
pub open spec fn new_topic_tail(
    b: Src,
    version: i16,
    flexible: bool,
    name: Seq<char>,
    partitions: i32,
) -> Step<NewTopicView> {
    if flexible {
        let a = message::loose_list_at::<WishedReplicas>(b, version, true);
        let c = message::loose_list_at::<ConfigIn>(a.1, version, true);
        wire::keep(
            NewTopicView { name, partitions, configs: c.0 },
            message::after_tags(c.1, true),
        )
    } else {
        let n = message::count_at(b, false);
        match n.value {
            Err(_) => wire::stop(n.rest),
            Ok(k) => {
                let a = message::list_at::<WishedReplicas>(
                    n.rest,
                    message::or_zero(k),
                    version,
                    false,
                );
                let m = message::count_at(a.1, false);
                match m.value {
                    Err(_) => Step {
                        item: Some(
                            NewTopicView { name, partitions, configs: Seq::empty() },
                        ),
                        more: false,
                        rest: m.rest,
                    },
                    Ok(j) => {
                        let c = message::list_at::<ConfigIn>(
                            m.rest,
                            message::or_zero(j),
                            version,
                            false,
                        );
                        wire::keep(NewTopicView { name, partitions, configs: c.0 }, c.1)
                    },
                }
            },
        }
    }
}

fn read_new_topic_tail(
    src: &mut Bytes,
    version: i16,
    flexible: bool,
    name: String,
    partitions: i32,
) -> (r: Read<NewTopic>)
    ensures
        message::step_of(r, final(src)@) == new_topic_tail(
            old(src)@,
            version,
            flexible,
            name@,
            partitions,
        ),
{
    if flexible {
        let _wished = read_loose_list::<WishedReplicas>(src, version, true);
        let configs = read_loose_list::<ConfigIn>(src, version, true);
        drop_tags(src, true);
        return Read::Item(NewTopic { name, partitions, configs });
    }
    let n: usize = match read_count(src, false) {
        Err(_) => return Read::End,
        Ok(Some(k)) => k,
        Ok(None) => 0,
    };
    let _wished = read_list::<WishedReplicas>(src, n, version, false);
    match read_count(src, false) {
        Err(_) => {
            let configs: Vec<ConfigIn> = Vec::new();
            assert(configs.deep_view() =~= Seq::empty());
            Read::Last(NewTopic { name, partitions, configs })
        },
        Ok(k) => {
            let n: usize = match k {
                Some(j) => j,
                None => 0,
            };
            let configs = read_list::<ConfigIn>(src, n, version, false);
            Read::Item(NewTopic { name, partitions, configs })
        },
    }
}

/// Name, partitions, replication factor (which is not looked at), wished replicas,
/// settings. A classic request that ends before the settings ends with a topic that has
/// none.
impl Element for NewTopic {
    open spec fn at(b: Src, version: i16, flexible: bool) -> Step<NewTopicView> {
        let n = codec::text_at(b, flexible);
        match n.value {
            Err(_) => wire::stop(n.rest),
            Ok(name) => if n.rest.left() < 6 {
                wire::stop(n.rest)
            } else {
                new_topic_tail(
                    n.rest.skip(4).skip(2),
                    version,
                    flexible,
                    name,
                    n.rest.i32() as i32,
                )
            },
        }
    }

    fn read(src: &mut Bytes, version: i16, flexible: bool) -> (r: Read<NewTopic>) {
        let name = match read_string(src, flexible) {
            Err(_) => return Read::End,
            Ok(n) => n,
        };
        if remaining(src) < 6 {
            return Read::End;
        }
        let partitions: i32 = get_i32(src);
        let _factor: i16 = get_i16(src);
        read_new_topic_tail(src, version, flexible, name, partitions)
    }
}

/// The topics of a CreateTopics request, and whether they are only to be checked (v1+).
pub open spec fn create_topics_at(b: Src, version: i16) -> (Seq<NewTopicView>, bool) {
    let l = message::loose_list_at::<NewTopic>(b, version, version >= 5);
    (l.0, version >= 1 && message::flag_at(admin::over(l.1, 4)))
}

/// Reads a CreateTopics request. The timeout is not looked at.
pub fn decode_create_topics(src: &mut Bytes, version: i16) -> (r: (Vec<NewTopic>, bool))
    ensures
        (r.0.deep_view(), r.1) == create_topics_at(old(src)@, version),
{
    let topics = read_loose_list::<NewTopic>(src, version, version >= 5);
    pass_over(src, 4);
    let validate_only = version >= 1 && read_flag(src);
    (topics, validate_only)
}

/// The answer for a topic that was to be created.
#[derive(Debug)]
pub struct CreatedTopic {
    pub name: String,
    pub verdict: Verdict,
    /// The number of partitions, or -1.
    pub partitions: i32,
    /// The replication factor, or -1.
    pub replication: i16,
    /// The number of the topic where it was created.
    pub numeric_id: Option<u32>,
}

/// What a [`CreatedTopic`] says beside the name.
#[verifier::ext_equal]
pub struct CreatedView {
    pub verdict: VerdictView,
    pub partitions: i32,
    pub replication: i16,
    pub numeric_id: Option<u32>,
}

impl CreatedTopic {
    /// What it says beside the name.
    pub open spec fn outcome(&self) -> CreatedView {
        CreatedView {
            verdict: self.verdict.deep_view(),
            partitions: self.partitions,
            replication: self.replication,
            numeric_id: self.numeric_id,
        }
    }
}

/// The TopicId of a topic that may not be there.
pub open spec fn uuid_or_zero(numeric_id: Option<u32>) -> Seq<u8> {
    match numeric_id {
        Some(id) => topic_id::topic_uuid(id),
        None => topic_id::zero_uuid(),
    }
}

/// Name, TopicId (v7+), error, message (v1+), and in the flexible versions the number of
/// partitions, the replication factor and no settings.
impl Row for CreatedTopic {
    open spec fn row(&self, o: Out, version: i16, flexible: bool) -> Out {
        let o = o.text(flexible, self.name@);
        let o = if version >= 7 {
            o.raw(uuid_or_zero(self.numeric_id))
        } else {
            o
        };
        let o = o.i16(self.verdict.error as int);
        let o = if version >= 1 {
            o.opt_text(flexible, self.verdict.message.deep_view())
        } else {
            o
        };
        if flexible {
            o.i32(self.partitions as int).i16(self.replication as int).uvarint(0).tags()
        } else {
            o
        }
    }

    fn put(&self, out: &mut BytesMut, version: i16, flexible: bool) {
        put_text(out, flexible, self.name.as_str());
        if version >= 7 {
            let uuid = match self.numeric_id {
                Some(id) => uuid_for_numeric_id(id),
                None => kafka_uuid_zero(),
            };
            put_uuid(out, &uuid);
        }
        put_i16(out, self.verdict.error);
        if version >= 1 {
            put_opt_text(out, flexible, borrowed(&self.verdict.message));
        }
        if flexible {
            put_i32(out, self.partitions);
            put_i16(out, self.replication);
            put_unsigned_varint_null_array(out);
            put_end(out, true);
        }
    }
}

/// Compact null array length (`uvarint(0)`).
pub fn put_unsigned_varint_null_array(dst: &mut BytesMut)
    ensures
        final(dst)@ == old(dst)@.uvarint(0),
{
    put_unsigned_varint(dst, 0);
}

/// A topic that is not created.
pub open spec fn not_created(verdict: VerdictView) -> CreatedView {
    CreatedView {
        verdict,
        partitions: (-1int) as i32,
        replication: (-1int) as i16,
        numeric_id: None,
    }
}

fn refuse_topic(name: String, verdict: Verdict) -> (r: CreatedTopic)
    ensures
        r.name == name,
        r.outcome() == not_created(verdict.deep_view()),
{
    CreatedTopic { name, verdict, partitions: -1, replication: -1, numeric_id: None }
}

/// The number of partitions that a topic is to have, where it can have so many.
pub open spec fn wished_partitions(version: i16, partitions: i32) -> Option<u32> {
    if partitions == -1 && version >= 4 {
        Some(DEFAULT_TOPIC_PARTITIONS)
    } else if partitions <= 0 {
        None
    } else {
        Some(partitions as u32)
    }
}

/// The number of partitions that a topic is to have.
pub fn partitions_wished(version: i16, partitions: i32) -> (r: Option<u32>)
    ensures
        r == wished_partitions(version, partitions),
{
    if partitions == -1 && version >= 4 {
        Some(DEFAULT_TOPIC_PARTITIONS)
    } else if partitions <= 0 {
        None
    } else {
        Some(partitions as u32)
    }
}

/// The answer for a topic before it is created, if it is not. `allowed`: the client may
/// create it. `exists`: it is there already.
pub open spec fn creation_refusal(
    version: i16,
    partitions: i32,
    allowed: bool,
    exists_already: bool,
    validate_only: bool,
) -> Option<CreatedView> {
    if !allowed {
        Some(
            not_created(
                admin::wrong(
                    KafkaErrorCode::TopicAuthorizationFailed,
                    "topic authorization failed"@,
                ),
            ),
        )
    } else {
        match wished_partitions(version, partitions) {
            None => Some(
                not_created(
                    admin::wrong(
                        KafkaErrorCode::InvalidPartitions,
                        "invalid partition count"@,
                    ),
                ),
            ),
            Some(n) => if exists_already {
                Some(
                    not_created(
                        admin::wrong(
                            KafkaErrorCode::TopicAlreadyExists,
                            "topic already exists"@,
                        ),
                    ),
                )
            } else if validate_only {
                Some(
                    CreatedView {
                        verdict: admin::fine(),
                        partitions: n as i32,
                        replication: 1,
                        numeric_id: None,
                    },
                )
            } else {
                None
            },
        }
    }
}

/// Whether a client may create a topic: it may create on the cluster, or that topic.
pub fn may_create(cluster: bool, topic: bool) -> (b: bool)
    ensures
        b == (cluster || topic),
{
    cluster || topic
}

/// The answer for a topic before it is created, if it is not.
pub fn refuse_creation(
    t: &NewTopic,
    version: i16,
    allowed: bool,
    exists_already: bool,
    validate_only: bool,
) -> (r: Option<CreatedTopic>)
    ensures
        match (
            r,
            creation_refusal(version, t.partitions, allowed, exists_already, validate_only),
        ) {
            (Some(c), Some(w)) => c.name@ == t.name@ && c.outcome() == w,
            (None, None) => true,
            _ => false,
        },
{
    let name = t.name.clone();
    if !allowed {
        return Some(
            refuse_topic(
                name,
                Verdict::wrong(
                    KafkaErrorCode::TopicAuthorizationFailed,
                    "topic authorization failed",
                ),
            ),
        );
    }
    match partitions_wished(version, t.partitions) {
        None => Some(
            refuse_topic(
                name,
                Verdict::wrong(KafkaErrorCode::InvalidPartitions, "invalid partition count"),
            ),
        ),
        Some(n) => {
            if exists_already {
                Some(
                    refuse_topic(
                        name,
                        Verdict::wrong(
                            KafkaErrorCode::TopicAlreadyExists,
                            "topic already exists",
                        ),
                    ),
                )
            } else if validate_only {
                Some(
                    CreatedTopic {
                        name,
                        verdict: Verdict::fine(),
                        partitions: n as i32,
                        replication: 1,
                        numeric_id: None,
                    },
                )
            } else {
                None
            }
        },
    }
}

/// What came of creating a topic: its number and what the other brokers said, or why it
/// was not created.
pub open spec fn creation_outcome(
    partitions: u32,
    result: core::result::Result<(u32, Majority), Error>,
) -> CreatedView {
    match result {
        Ok(r) => if r.1 is Reached {
            CreatedView {
                verdict: admin::fine(),
                partitions: partitions as i32,
                replication: 1,
                numeric_id: Some(r.0),
            }
        } else {
            not_created(admin::majority_verdict(r.1))
        },
        Err(Error::InvalidArgument(m)) => if text::holds(m@, "already exists"@) {
            not_created(
                admin::wrong(KafkaErrorCode::TopicAlreadyExists, "topic already exists"@),
            )
        } else {
            not_created(admin::wrong(KafkaErrorCode::InvalidTopicException, m@))
        },
        Err(_) => not_created(admin::bare(KafkaErrorCode::Unknown)),
    }
}

/// The answer for a topic that the broker was told to create.
pub fn after_creation(
    name: String,
    partitions: u32,
    result: core::result::Result<(u32, Majority), Error>,
) -> (r: CreatedTopic)
    ensures
        r.name == name,
        r.outcome() == creation_outcome(partitions, result),
{
    match result {
        Ok((id, m)) => match m {
            Majority::Reached => CreatedTopic {
                name,
                verdict: Verdict::fine(),
                partitions: partitions as i32,
                replication: 1,
                numeric_id: Some(id),
            },
            _ => refuse_topic(name, m.verdict()),
        },
        Err(Error::InvalidArgument(m)) => {
            if contains(m.as_str(), "already exists") {
                refuse_topic(
                    name,
                    Verdict::wrong(
                        KafkaErrorCode::TopicAlreadyExists,
                        "topic already exists",
                    ),
                )
            } else {
                refuse_topic(
                    name,
                    Verdict::wrong(KafkaErrorCode::InvalidTopicException, m.as_str()),
                )
            }
        },
        Err(_) => refuse_topic(name, Verdict::bare(KafkaErrorCode::Unknown)),
    }
}

/// A topic has a number in the answer if and only if it was created and a majority of
/// the brokers took it over. Then the answer is free of errors.
pub proof fn law_created_topic(
    partitions: u32,
    result: core::result::Result<(u32, Majority), Error>,
)
    ensures
        creation_outcome(partitions, result).numeric_id is Some <==> result is Ok
            && result->Ok_0.1 is Reached,
        creation_outcome(partitions, result).numeric_id is Some ==> creation_outcome(
            partitions,
            result,
        ).verdict == admin::fine(),
        creation_outcome(partitions, result).numeric_id is None ==> creation_outcome(
            partitions,
            result,
        ).verdict.error != 0,
{
}

/// A CreateTopics response: throttle time (v2+), topics.
pub open spec fn create_topics_out(o: Out, version: i16, topics: Seq<CreatedTopic>) -> Out {
    let flexible = version >= 5;
    let o = if version >= 2 {
        o.i32(0)
    } else {
        o
    };
    message::rows_out(o, topics, version, flexible).end(flexible)
}

/// Writes a CreateTopics response.
pub fn encode_create_topics(out: &mut BytesMut, version: i16, topics: &Vec<CreatedTopic>)
    ensures
        final(out)@ == create_topics_out(old(out)@, version, topics@),
{
    let flexible = version >= 5;
    if version >= 2 {
        put_i32(out, 0);
    }
    put_rows(out, topics.as_slice(), version, flexible);
    put_end(out, flexible);
}

/// A topic in a DeleteTopics request: by name, or (v6+) by name or TopicId.
#[derive(Debug)]
pub struct DoomedTopic {
    pub name: Option<String>,
    pub uuid: [u8; 16],
}

/// What a [`DoomedTopic`] says.
#[verifier::ext_equal]
pub struct DoomedView {
    pub name: Option<Seq<char>>,
    pub uuid: Seq<u8>,
}

impl DeepView for DoomedTopic {
    type V = DoomedView;

    open spec fn deep_view(&self) -> DoomedView {
        DoomedView { name: self.name.deep_view(), uuid: self.uuid@ }
    }
}

impl Element for DoomedTopic {
    open spec fn at(b: Src, version: i16, flexible: bool) -> Step<DoomedView> {
        if version >= 6 {
            let n = codec::opt_text_at(b, true);
            match n.value {
                Err(_) => wire::stop(n.rest),
                Ok(name) => {
                    let u = codec::uuid_at(n.rest);
                    match u.value {
                        Err(_) => wire::stop(u.rest),
                        Ok(uuid) => wire::keep(
                            DoomedView { name, uuid },
                            message::after_tags(u.rest, true),
                        ),
                    }
                },
            }
        } else {
            let n = codec::text_at(b, flexible);
            match n.value {
                Err(_) => wire::stop(n.rest),
                Ok(name) => wire::keep(
                    DoomedView { name: Some(name), uuid: topic_id::zero_uuid() },
                    n.rest,
                ),
            }
        }
    }

    fn read(src: &mut Bytes, version: i16, flexible: bool) -> (r: Read<DoomedTopic>) {
        if version >= 6 {
            let name = match read_nullable_string(src, true) {
                Err(_) => return Read::End,
                Ok(n) => n,
            };
            let uuid = match get_uuid(src) {
                Err(_) => return Read::End,
                Ok(u) => u,
            };
            drop_tags(src, true);
            Read::Item(DoomedTopic { name, uuid })
        } else {
            match read_string(src, flexible) {
                Err(_) => Read::End,
                Ok(name) => Read::Item(
                    DoomedTopic { name: Some(name), uuid: kafka_uuid_zero() },
                ),
            }
        }
    }
}

/// Reads a DeleteTopics request. The timeout is not looked at.
pub fn decode_delete_topics(src: &mut Bytes, version: i16) -> (r: Vec<DoomedTopic>)
    ensures
        r.deep_view() == message::loose_list_at::<DoomedTopic>(
            old(src)@,
            version,
            version >= 4,
        ).0,
{
    read_loose_list::<DoomedTopic>(src, version, version >= 4)
}

/// The topic that is to be deleted, if it can be told which.
pub fn doomed_name(catalog: &Catalog, t: &DoomedTopic) -> (r: Option<String>)
    ensures
        r.deep_view() == topic_id::delete_entry(
            catalog.deep_view(),
            t.name.deep_view(),
            t.uuid@,
        ).resolved_name,
{
    resolve_delete_entry(catalog, copied(&t.name), t.uuid).resolved_name
}

fn copied(s: &Option<String>) -> (r: Option<String>)
    ensures
        r.deep_view() == s.deep_view(),
{
    match s {
        Some(t) => Some(t.clone()),
        None => None,
    }
}

/// What came of deleting a topic.
#[derive(Debug)]
pub enum TopicDeletion {
    /// The client may not delete it.
    Denied,
    /// It is deleted; what the other brokers said.
    Deleted(Majority),
    /// There is no such topic.
    NotFound,
    /// The broker failed.
    Failed,
}

/// What came of deleting a topic, from what the broker said.
pub open spec fn deletion_of(result: core::result::Result<Majority, Error>) -> TopicDeletion {
    match result {
        Ok(m) => TopicDeletion::Deleted(m),
        Err(Error::NotFound(_)) => TopicDeletion::NotFound,
        Err(_) => TopicDeletion::Failed,
    }
}

/// What came of deleting a topic, from what the broker said.
pub fn after_deletion(result: core::result::Result<Majority, Error>) -> (d: TopicDeletion)
    ensures
        d == deletion_of(result),
{
    match result {
        Ok(m) => TopicDeletion::Deleted(m),
        Err(Error::NotFound(_)) => TopicDeletion::NotFound,
        Err(_) => TopicDeletion::Failed,
    }
}

/// The verdict on a topic that is to be deleted. `known`: it can be told which topic is
/// meant.
pub open spec fn deletion_verdict(known: bool, d: TopicDeletion) -> VerdictView {
    if !known {
        admin::wrong(KafkaErrorCode::UnknownTopicId, "unknown topic id"@)
    } else {
        match d {
            TopicDeletion::Denied => admin::wrong(
                KafkaErrorCode::TopicAuthorizationFailed,
                "topic authorization failed"@,
            ),
            TopicDeletion::Deleted(m) => admin::majority_verdict(m),
            TopicDeletion::NotFound => admin::wrong(
                KafkaErrorCode::UnknownTopicOrPartition,
                "unknown topic or partition"@,
            ),
            TopicDeletion::Failed => admin::bare(KafkaErrorCode::Unknown),
        }
    }
}

/// The answer for a topic that was to be deleted.
#[derive(Debug)]
pub struct DeletedTopic {
    pub name: Option<String>,
    /// The TopicId that is told (v6+).
    pub uuid: [u8; 16],
    pub verdict: Verdict,
}

/// Name, TopicId (v6+), error, message (v5+).
impl Row for DeletedTopic {
    open spec fn row(&self, o: Out, version: i16, flexible: bool) -> Out {
        let o = if version >= 6 {
            o.compact_nullable(self.name.deep_view()).raw(self.uuid@)
        } else {
            o.text(
                flexible,
                match self.name {
                    Some(n) => n@,
                    None => Seq::empty(),
                },
            )
        };
        let o = o.i16(self.verdict.error as int);
        let o = if version >= 5 {
            o.compact_nullable(self.verdict.message.deep_view())
        } else {
            o
        };
        o.end(flexible)
    }

    fn put(&self, out: &mut BytesMut, version: i16, flexible: bool) {
        if version >= 6 {
            put_compact_nullable_string(out, borrowed(&self.name));
            put_uuid(out, &self.uuid);
        } else {
            match &self.name {
                Some(n) => put_text(out, flexible, n.as_str()),
                None => {
                    let none = crate::membership::blank();
                    put_text(out, flexible, none.as_str());
                },
            }
        }
        put_i16(out, self.verdict.error);
        if version >= 5 {
            put_compact_nullable_string(out, borrowed(&self.verdict.message));
        }
        put_end(out, flexible);
    }
}

/// Whether `r` is the answer for a topic that was to be deleted.
pub open spec fn answers_doomed(
    r: DeletedTopic,
    catalog: Seq<(Seq<char>, u32)>,
    t: DoomedView,
    d: TopicDeletion,
) -> bool {
    let e = topic_id::delete_entry(catalog, t.name, t.uuid);
    &&& r.name.deep_view() == (if t.name is Some {
        t.name
    } else {
        e.resolved_name
    })
    &&& r.uuid@ == topic_id::echoed_uuid(t.uuid, e.numeric_id)
    &&& r.verdict.deep_view() == deletion_verdict(!e.unknown_topic_id, d)
}

/// The answer for a topic that was to be deleted. What came of deleting it does not
/// matter where it cannot be told which topic is meant.
pub fn deleted_topic(catalog: &Catalog, t: DoomedTopic, d: TopicDeletion) -> (r: DeletedTopic)
    ensures
        answers_doomed(r, catalog.deep_view(), t.deep_view(), d),
{
    let e = resolve_delete_entry(catalog, copied(&t.name), t.uuid);
    let verdict = if e.unknown_topic_id {
        Verdict::wrong(KafkaErrorCode::UnknownTopicId, "unknown topic id")
    } else {
        match d {
            TopicDeletion::Denied => Verdict::wrong(
                KafkaErrorCode::TopicAuthorizationFailed,
                "topic authorization failed",
            ),
            TopicDeletion::Deleted(m) => m.verdict(),
            TopicDeletion::NotFound => Verdict::wrong(
                KafkaErrorCode::UnknownTopicOrPartition,
                "unknown topic or partition",
            ),
            TopicDeletion::Failed => Verdict::bare(KafkaErrorCode::Unknown),
        }
    };
    let uuid = echo_uuid(t.uuid, e.numeric_id);
    let name = match t.name {
        Some(n) => Some(n),
        None => e.resolved_name,
    };
    DeletedTopic { name, uuid, verdict }
}

/// A DeleteTopics response: throttle time (v1+), topics.
pub open spec fn delete_topics_out(o: Out, version: i16, topics: Seq<DeletedTopic>) -> Out {
    let flexible = version >= 4;
    let o = if version >= 1 {
        o.i32(0)
    } else {
        o
    };
    message::rows_out(o, topics, version, flexible).end(flexible)
}

/// Writes a DeleteTopics response.
pub fn encode_delete_topics(out: &mut BytesMut, version: i16, topics: &Vec<DeletedTopic>)
    ensures
        final(out)@ == delete_topics_out(old(out)@, version, topics@),
{
    let flexible = version >= 4;
    if version >= 1 {
        put_i32(out, 0);
    }
    put_rows(out, topics.as_slice(), version, flexible);
    put_end(out, flexible);
}

/// The brokers that a CreatePartitions request wishes for a new partition, which are
/// not looked at.
#[derive(Debug)]
pub struct WishedBrokers;

impl DeepView for WishedBrokers {
    type V = ();

    open spec fn deep_view(&self) -> () {
        ()
    }
}

impl Element for WishedBrokers {
    open spec fn at(b: Src, version: i16, flexible: bool) -> Step<()> {
        let l = message::loose_list_at::<i32>(b, version, flexible);
        if !flexible && b.left() < 4 {
            wire::stop(b)
        } else {
            wire::keep((), message::after_tags(l.1, flexible))
        }
    }

    fn read(src: &mut Bytes, version: i16, flexible: bool) -> (r: Read<WishedBrokers>) {
        if !flexible && remaining(src) < 4 {
            return Read::End;
        }
        let _brokers = read_loose_list::<i32>(src, version, flexible);
        drop_tags(src, flexible);
        Read::Item(WishedBrokers)
    }
}

/// A topic that is to have more partitions.
#[derive(Debug)]
pub struct GrownTopic {
    pub name: String,
    pub count: i32,
}

impl DeepView for GrownTopic {
    type V = (Seq<char>, i32);

    open spec fn deep_view(&self) -> (Seq<char>, i32) {
        (self.name@, self.count)
    }
}

/// Name, number of partitions, wished brokers.
impl Element for GrownTopic {
    open spec fn at(b: Src, version: i16, flexible: bool) -> Step<(Seq<char>, i32)> {
        let n = codec::text_at(b, flexible);
        match n.value {
            Err(_) => wire::stop(n.rest),
            Ok(name) => if n.rest.left() < 4 {
                wire::stop(n.rest)
            } else {
                let r = n.rest.skip(4);
                let a = message::loose_list_at::<WishedBrokers>(r, version, flexible);
                if !flexible && r.left() < 4 {
                    wire::stop(r)
                } else {
                    wire::keep(
                        (name, n.rest.i32() as i32),
                        message::after_tags(a.1, flexible),
                    )
                }
            },
        }
    }

    fn read(src: &mut Bytes, version: i16, flexible: bool) -> (r: Read<GrownTopic>) {
        let name = match read_string(src, flexible) {
            Err(_) => return Read::End,
            Ok(n) => n,
        };
        if remaining(src) < 4 {
            return Read::End;
        }
        let count: i32 = get_i32(src);
        if !flexible && remaining(src) < 4 {
            return Read::End;
        }
        let _wished = read_loose_list::<WishedBrokers>(src, version, flexible);
        drop_tags(src, flexible);
        Read::Item(GrownTopic { name, count })
    }
}

/// The topics of a CreatePartitions request, and whether they are only to be checked.
pub open spec fn create_partitions_at(b: Src, version: i16) -> (Seq<(Seq<char>, i32)>, bool) {
    let l = message::loose_list_at::<GrownTopic>(b, version, version >= 2);
    (l.0, message::flag_at(admin::over(l.1, 4)))
}

/// Reads a CreatePartitions request. The timeout is not looked at.
pub fn decode_create_partitions(src: &mut Bytes, version: i16) -> (r: (Vec<GrownTopic>, bool))
    ensures
        (r.0.deep_view(), r.1) == create_partitions_at(old(src)@, version),
{
    let topics = read_loose_list::<GrownTopic>(src, version, version >= 2);
    pass_over(src, 4);
    let validate_only = read_flag(src);
    (topics, validate_only)
}

/// The verdict on a topic before it gets more partitions, if it does not. `allowed`:
/// the client may alter it. `current`: how many partitions it has, nothing where there
/// is no such topic.
pub open spec fn growth_refusal(
    count: i32,
    allowed: bool,
    validate_only: bool,
    current: Option<usize>,
) -> Option<VerdictView> {
    if !allowed {
        Some(
            admin::wrong(
                KafkaErrorCode::TopicAuthorizationFailed,
                "topic authorization failed"@,
            ),
        )
    } else if count <= 0 {
        Some(admin::wrong(KafkaErrorCode::InvalidPartitions, "invalid partition count"@))
    } else if validate_only {
        Some(
            match current {
                None => admin::wrong(
                    KafkaErrorCode::UnknownTopicOrPartition,
                    "topic not found"@,
                ),
                Some(n) => if count < n as i32 {
                    admin::wrong(
                        KafkaErrorCode::InvalidPartitions,
                        "partition count must not decrease"@,
                    )
                } else {
                    admin::fine()
                },
            },
        )
    } else {
        None
    }
}

/// The verdict on a topic before it gets more partitions, if it does not.
pub fn refuse_growth(count: i32, allowed: bool, validate_only: bool, current: Option<usize>) -> (r:
    Option<Verdict>)
    ensures
        r.deep_view() == growth_refusal(count, allowed, validate_only, current),
{
    if !allowed {
        Some(
            Verdict::wrong(
                KafkaErrorCode::TopicAuthorizationFailed,
                "topic authorization failed",
            ),
        )
    } else if count <= 0 {
        Some(Verdict::wrong(KafkaErrorCode::InvalidPartitions, "invalid partition count"))
    } else if validate_only {
        match current {
            None => Some(
                Verdict::wrong(KafkaErrorCode::UnknownTopicOrPartition, "topic not found"),
            ),
            Some(n) => {
                if count < n as i32 {
                    Some(
                        Verdict::wrong(
                            KafkaErrorCode::InvalidPartitions,
                            "partition count must not decrease",
                        ),
                    )
                } else {
                    Some(Verdict::fine())
                }
            },
        }
    } else {
        None
    }
}

/// The verdict on a topic that the broker was told to give more partitions.
pub open spec fn growth_verdict(result: core::result::Result<Majority, Error>) -> VerdictView {
    match result {
        Ok(m) => admin::majority_verdict(m),
        Err(Error::NotFound(_)) => admin::wrong(
            KafkaErrorCode::UnknownTopicOrPartition,
            "topic not found"@,
        ),
        Err(Error::InvalidArgument(m)) => admin::wrong(KafkaErrorCode::InvalidPartitions, m@),
        Err(_) => admin::bare(KafkaErrorCode::Unknown),
    }
}

/// The verdict on a topic that the broker was told to give more partitions.
pub fn after_growth(result: core::result::Result<Majority, Error>) -> (v: Verdict)
    ensures
        v.deep_view() == growth_verdict(result),
{
    match result {
        Ok(m) => m.verdict(),
        Err(Error::NotFound(_)) => Verdict::wrong(
            KafkaErrorCode::UnknownTopicOrPartition,
            "topic not found",
        ),
        Err(Error::InvalidArgument(m)) => Verdict::wrong(
            KafkaErrorCode::InvalidPartitions,
            m.as_str(),
        ),
        Err(_) => Verdict::bare(KafkaErrorCode::Unknown),
    }
}

/// A name and the verdict on what has it.
#[derive(Debug)]
pub struct NamedVerdict {
    pub name: String,
    pub verdict: Verdict,
}

impl Row for NamedVerdict {
    open spec fn row(&self, o: Out, version: i16, flexible: bool) -> Out {
        self.verdict.row(o.text(flexible, self.name@), version, flexible)
    }

    fn put(&self, out: &mut BytesMut, version: i16, flexible: bool) {
        put_text(out, flexible, self.name.as_str());
        self.verdict.put(out, version, flexible);
    }
}

/// A CreatePartitions response: throttle time, topics.
pub open spec fn create_partitions_out(o: Out, version: i16, topics: Seq<NamedVerdict>) -> Out {
    message::rows_out(o.i32(0), topics, version, version >= 2).end(version >= 2)
}

/// Writes a CreatePartitions response.
pub fn encode_create_partitions(out: &mut BytesMut, version: i16, topics: &Vec<NamedVerdict>)
    ensures
        final(out)@ == create_partitions_out(old(out)@, version, topics@),
{
    put_i32(out, 0);
    put_rows(out, topics.as_slice(), version, version >= 2);
    put_end(out, version >= 2);
}

} // verus!
