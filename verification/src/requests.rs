//! What the broker finds in requests: each is taken as it was sent by a client that lays it
//! out as the protocol has it.

use vstd::prelude::*;

use crate::admin;
use crate::cluster_admin::{FeatureIn, LogDirAsk, QuotaEntity, QuotaEntityView, QuotaEntry, QuotaOp};
use crate::configs;
use crate::configs::{
    AlterEntry, AlteredResource, AlteredView, ConfigOp, ConfigOpView, ConfigResource,
    ConfigResourceView,
};
use crate::credentials;
use crate::credentials::{
    AlterScramView, ScramDeletion, ScramUpsertion, TaggedName, UpsertionView,
};
use crate::delete_records;
use crate::delete_records::DeleteRecordsPart;
use crate::fetch;
use crate::fetch::{
    FetchHead, FetchPart, FetchTopic, FetchTopicView, FetchView, ForgottenTopic, ForgottenView,
};
use crate::group_admin;
use crate::group_admin::{GroupFilterView, SharePart, ShareTopic, ShareTopicView};
use crate::list_offsets;
use crate::list_offsets::{LeaderEpochPart, ListOffsetsPart, ListOffsetsView};
use crate::membership;
use crate::membership::{
    JoinMemberView, JoinProtocol, JoinProtocolView, JoinView, LeaveMember, MemberHeadView,
    SyncAssignment, SyncAssignmentView, SyncView,
};
use crate::message;
use crate::message::{Element, LooseString, LooseTopic, TopicIn, TopicInView, WholeTopic};
use crate::metadata;
use crate::metadata::{MetadataEntry, MetadataEntryView, MetadataView};
use crate::offsets;
use crate::offsets::{
    AskView, CommitPart, CommitPartView, CommitView, GroupAsk, GroupAskView, OffsetDeleteView,
    OffsetFetchView, WireTopicIn, WireTopicView,
};
use crate::produce;
use crate::produce::{
    ProducePart, ProducePartView, ProduceTopic, ProduceTopicView, ProduceView,
};
use crate::reassignment;
use crate::reassignment::{ElectView, ReassignPart, ReassignPartView};
use crate::roundtrip;
use crate::schema;
use crate::schema::{Kind, Told, Value};
use crate::topic_admin;
use crate::topic_admin::{
    ConfigIn, DoomedTopic, DoomedView, GrownTopic, NewTopic, NewTopicView, WishedBrokers,
    WishedReplicas,
};
use crate::topic_id;
use crate::topic_id::WireView;
use crate::transactions;
use crate::wire;
use crate::wire::{Out, Src};

verus! {

/// A string that a client may leave out, as it is taken: empty where it is.
pub open spec fn or_empty(s: Option<Seq<char>>) -> Seq<char> {
    match s {
        Some(t) => t,
        None => Seq::empty(),
    }
}

/// A number in an array, as a client sends it.
pub open spec fn number_sent(version: i16, flexible: bool, x: i32) -> Told {
    Told::new().i32(x as int)
}

/// A number in an array, as it is taken.
pub open spec fn number_taken(version: i16, flexible: bool, x: i32) -> i32 {
    x
}

/// A number in an array is taken as it was sent.
pub proof fn law_number(x: i32, version: i16, flexible: bool)
    ensures
        schema::taken::<i32>(
            number_sent(version, flexible, x),
            version,
            flexible,
            number_taken(version, flexible, x),
        ),
{
    broadcast use schema::group_sent;

}

proof fn lemma_many_number(items: Seq<i32>, version: i16, flexible: bool)
    ensures
        ({
            let f = |x: i32| number_sent(version, flexible, x);
            let v = |x: i32| number_taken(version, flexible, x);
            schema::field_fits(
                Kind::List(flexible, schema::kinds_of(items, f)),
                Value::List(schema::values_of(items, f)),
            ) ==> schema::list_taken::<i32, i32>(items, f, v, version, flexible)
        }),
{
    let f = |x: i32| number_sent(version, flexible, x);
    let v = |x: i32| number_taken(version, flexible, x);
    if schema::field_fits(
        Kind::List(flexible, schema::kinds_of(items, f)),
        Value::List(schema::values_of(items, f)),
    ) {
        assert forall|i: int| 0 <= i < items.len() implies schema::taken::<i32>(
            f(#[trigger] items[i]),
            version,
            flexible,
            v(items[i]),
        ) by {
            law_number(items[i], version, flexible);
        }
        schema::lemma_sent_list::<i32, i32>(items, f, v, version, flexible);
    }
}

/// A setting of a topic that is to be created: its name, and its value, as a client sends it.
pub open spec fn config_sent(
    version: i16,
    flexible: bool,
    x: (Seq<char>, Option<Seq<char>>),
) -> Told {
    Told::new().text(flexible, x.0).opt_text(flexible, x.1).end(flexible)
}

/// A setting of a topic that is to be created: its name, and its value, as it is taken.
pub open spec fn config_taken(
    version: i16,
    flexible: bool,
    x: (Seq<char>, Option<Seq<char>>),
) -> (Seq<char>, Seq<char>) {
    (x.0, or_empty(x.1))
}

/// A setting of a topic that is to be created: its name, and its value is taken as it was sent.
pub proof fn law_config(x: (Seq<char>, Option<Seq<char>>), version: i16, flexible: bool)
    ensures
        schema::taken::<ConfigIn>(
            config_sent(version, flexible, x),
            version,
            flexible,
            config_taken(version, flexible, x),
        ),
{
    broadcast use schema::group_sent;

}

proof fn lemma_many_config(items: Seq<(Seq<char>, Option<Seq<char>>)>, version: i16, flexible: bool)
    ensures
        ({
            let f = |x: (Seq<char>, Option<Seq<char>>)| config_sent(version, flexible, x);
            let v = |x: (Seq<char>, Option<Seq<char>>)| config_taken(version, flexible, x);
            schema::field_fits(
                Kind::List(flexible, schema::kinds_of(items, f)),
                Value::List(schema::values_of(items, f)),
            ) ==> schema::list_taken::<(Seq<char>, Option<Seq<char>>), ConfigIn>(items, f, v, version, flexible)
        }),
{
    let f = |x: (Seq<char>, Option<Seq<char>>)| config_sent(version, flexible, x);
    let v = |x: (Seq<char>, Option<Seq<char>>)| config_taken(version, flexible, x);
    if schema::field_fits(
        Kind::List(flexible, schema::kinds_of(items, f)),
        Value::List(schema::values_of(items, f)),
    ) {
        assert forall|i: int| 0 <= i < items.len() implies schema::taken::<ConfigIn>(
            f(#[trigger] items[i]),
            version,
            flexible,
            v(items[i]),
        ) by {
            law_config(items[i], version, flexible);
        }
        schema::lemma_sent_list::<(Seq<char>, Option<Seq<char>>), ConfigIn>(
            items,
            f,
            v,
            version,
            flexible,
        );
    }
}

/// The replicas that are wished for a partition, as a client sends it.
pub open spec fn wished_replicas_sent(version: i16, flexible: bool, x: (i32, Seq<i32>)) -> Told {
    Told::new().i32(x.0 as int).list(
        flexible,
        x.1,
        |x: i32| number_sent(version, flexible, x),
    ).end(flexible)
}

/// The replicas that are wished for a partition, as it is taken.
pub open spec fn wished_replicas_taken(version: i16, flexible: bool, x: (i32, Seq<i32>)) -> () {
    ()
}

/// The replicas that are wished for a partition is taken as it was sent.
pub proof fn law_wished_replicas(x: (i32, Seq<i32>), version: i16, flexible: bool)
    ensures
        schema::taken::<WishedReplicas>(
            wished_replicas_sent(version, flexible, x),
            version,
            flexible,
            wished_replicas_taken(version, flexible, x),
        ),
{
    broadcast use schema::group_sent;

    if wished_replicas_sent(version, flexible, x).fits() {
        lemma_many_number(x.1, version, flexible);
    }
}

proof fn lemma_many_wished_replicas(items: Seq<(i32, Seq<i32>)>, version: i16, flexible: bool)
    ensures
        ({
            let f = |x: (i32, Seq<i32>)| wished_replicas_sent(version, flexible, x);
            let v = |x: (i32, Seq<i32>)| wished_replicas_taken(version, flexible, x);
            schema::field_fits(
                Kind::List(flexible, schema::kinds_of(items, f)),
                Value::List(schema::values_of(items, f)),
            ) ==> schema::list_taken::<(i32, Seq<i32>), WishedReplicas>(items, f, v, version, flexible)
        }),
{
    let f = |x: (i32, Seq<i32>)| wished_replicas_sent(version, flexible, x);
    let v = |x: (i32, Seq<i32>)| wished_replicas_taken(version, flexible, x);
    if schema::field_fits(
        Kind::List(flexible, schema::kinds_of(items, f)),
        Value::List(schema::values_of(items, f)),
    ) {
        assert forall|i: int| 0 <= i < items.len() implies schema::taken::<WishedReplicas>(
            f(#[trigger] items[i]),
            version,
            flexible,
            v(items[i]),
        ) by {
            law_wished_replicas(items[i], version, flexible);
        }
        schema::lemma_sent_list::<(i32, Seq<i32>), WishedReplicas>(items, f, v, version, flexible);
    }
}

/// A topic as a client asks for it in a CreateTopics request.
pub struct TopicWish {
    pub name: Seq<char>,
    pub partitions: i32,
    pub replication: i16,
    pub replicas: Seq<(i32, Seq<i32>)>,
    pub configs: Seq<(Seq<char>, Option<Seq<char>>)>,
}

/// A topic of a CreateTopics request, with as many partitions as it asks for, as a client sends
/// it.
pub open spec fn new_topic_sent(version: i16, flexible: bool, x: TopicWish) -> Told {
    Told::new().text(flexible, x.name).i32(x.partitions as int).i16(x.replication as int).list(
        flexible,
        x.replicas,
        |x: (i32, Seq<i32>)| wished_replicas_sent(version, flexible, x),
    ).list(
        flexible,
        x.configs,
        |x: (Seq<char>, Option<Seq<char>>)| config_sent(version, flexible, x),
    ).end(flexible)
}

/// A topic of a CreateTopics request, with as many partitions as it asks for, as it is taken.
pub open spec fn new_topic_taken(version: i16, flexible: bool, x: TopicWish) -> NewTopicView {
    NewTopicView {
        name: x.name,
        partitions: x.partitions,
        configs: x.configs.map_values(
            |x: (Seq<char>, Option<Seq<char>>)| config_taken(version, flexible, x),
        ),
    }
}

/// A topic of a CreateTopics request, with as many partitions as it asks for is taken as it was
/// sent.
pub proof fn law_new_topic(x: TopicWish, version: i16, flexible: bool)
    ensures
        schema::taken::<NewTopic>(
            new_topic_sent(version, flexible, x),
            version,
            flexible,
            new_topic_taken(version, flexible, x),
        ),
{
    broadcast use schema::group_sent;

    if new_topic_sent(version, flexible, x).fits() {
        lemma_many_wished_replicas(x.replicas, version, flexible);
        lemma_many_config(x.configs, version, flexible);
    }
}

proof fn lemma_many_new_topic(items: Seq<TopicWish>, version: i16, flexible: bool)
    ensures
        ({
            let f = |x: TopicWish| new_topic_sent(version, flexible, x);
            let v = |x: TopicWish| new_topic_taken(version, flexible, x);
            schema::field_fits(
                Kind::List(flexible, schema::kinds_of(items, f)),
                Value::List(schema::values_of(items, f)),
            ) ==> schema::list_taken::<TopicWish, NewTopic>(items, f, v, version, flexible)
        }),
{
    let f = |x: TopicWish| new_topic_sent(version, flexible, x);
    let v = |x: TopicWish| new_topic_taken(version, flexible, x);
    if schema::field_fits(
        Kind::List(flexible, schema::kinds_of(items, f)),
        Value::List(schema::values_of(items, f)),
    ) {
        assert forall|i: int| 0 <= i < items.len() implies schema::taken::<NewTopic>(
            f(#[trigger] items[i]),
            version,
            flexible,
            v(items[i]),
        ) by {
            law_new_topic(items[i], version, flexible);
        }
        schema::lemma_sent_list::<TopicWish, NewTopic>(items, f, v, version, flexible);
    }
}

/// The brokers that are wished for a new partition, as a client sends it.
pub open spec fn wished_brokers_sent(version: i16, flexible: bool, x: Seq<i32>) -> Told {
    Told::new().list(
        flexible,
        x,
        |x: i32| number_sent(version, flexible, x),
    ).end(flexible)
}

/// The brokers that are wished for a new partition, as it is taken.
pub open spec fn wished_brokers_taken(version: i16, flexible: bool, x: Seq<i32>) -> () {
    ()
}

/// The brokers that are wished for a new partition is taken as it was sent.
pub proof fn law_wished_brokers(x: Seq<i32>, version: i16, flexible: bool)
    ensures
        schema::taken::<WishedBrokers>(
            wished_brokers_sent(version, flexible, x),
            version,
            flexible,
            wished_brokers_taken(version, flexible, x),
        ),
{
    broadcast use schema::group_sent;

    if wished_brokers_sent(version, flexible, x).fits() {
        lemma_many_number(x, version, flexible);
    }
}

proof fn lemma_many_wished_brokers(items: Seq<Seq<i32>>, version: i16, flexible: bool)
    ensures
        ({
            let f = |x: Seq<i32>| wished_brokers_sent(version, flexible, x);
            let v = |x: Seq<i32>| wished_brokers_taken(version, flexible, x);
            schema::field_fits(
                Kind::List(flexible, schema::kinds_of(items, f)),
                Value::List(schema::values_of(items, f)),
            ) ==> schema::list_taken::<Seq<i32>, WishedBrokers>(items, f, v, version, flexible)
        }),
{
    let f = |x: Seq<i32>| wished_brokers_sent(version, flexible, x);
    let v = |x: Seq<i32>| wished_brokers_taken(version, flexible, x);
    if schema::field_fits(
        Kind::List(flexible, schema::kinds_of(items, f)),
        Value::List(schema::values_of(items, f)),
    ) {
        assert forall|i: int| 0 <= i < items.len() implies schema::taken::<WishedBrokers>(
            f(#[trigger] items[i]),
            version,
            flexible,
            v(items[i]),
        ) by {
            law_wished_brokers(items[i], version, flexible);
        }
        schema::lemma_sent_list::<Seq<i32>, WishedBrokers>(items, f, v, version, flexible);
    }
}

/// A topic of a CreatePartitions request, with the number of partitions that it is to have, as
/// a client sends it.
pub open spec fn grown_topic_sent(
    version: i16,
    flexible: bool,
    x: (Seq<char>, i32, Seq<Seq<i32>>),
) -> Told {
    Told::new().text(flexible, x.0).i32(x.1 as int).list(
        flexible,
        x.2,
        |x: Seq<i32>| wished_brokers_sent(version, flexible, x),
    ).end(flexible)
}

/// A topic of a CreatePartitions request, with the number of partitions that it is to have, as
/// it is taken.
pub open spec fn grown_topic_taken(
    version: i16,
    flexible: bool,
    x: (Seq<char>, i32, Seq<Seq<i32>>),
) -> (Seq<char>, i32) {
    (x.0, x.1)
}

/// A topic of a CreatePartitions request, with the number of partitions that it is to have is
/// taken as it was sent.
pub proof fn law_grown_topic(x: (Seq<char>, i32, Seq<Seq<i32>>), version: i16, flexible: bool)
    ensures
        schema::taken::<GrownTopic>(
            grown_topic_sent(version, flexible, x),
            version,
            flexible,
            grown_topic_taken(version, flexible, x),
        ),
{
    broadcast use schema::group_sent;

    if grown_topic_sent(version, flexible, x).fits() {
        lemma_many_wished_brokers(x.2, version, flexible);
    }
}

proof fn lemma_many_grown_topic(
    items: Seq<(Seq<char>, i32, Seq<Seq<i32>>)>,
    version: i16,
    flexible: bool,
)
    ensures
        ({
            let f = |x: (Seq<char>, i32, Seq<Seq<i32>>)| grown_topic_sent(version, flexible, x);
            let v = |x: (Seq<char>, i32, Seq<Seq<i32>>)| grown_topic_taken(version, flexible, x);
            schema::field_fits(
                Kind::List(flexible, schema::kinds_of(items, f)),
                Value::List(schema::values_of(items, f)),
            ) ==> schema::list_taken::<(Seq<char>, i32, Seq<Seq<i32>>), GrownTopic>(items, f, v, version, flexible)
        }),
{
    let f = |x: (Seq<char>, i32, Seq<Seq<i32>>)| grown_topic_sent(version, flexible, x);
    let v = |x: (Seq<char>, i32, Seq<Seq<i32>>)| grown_topic_taken(version, flexible, x);
    if schema::field_fits(
        Kind::List(flexible, schema::kinds_of(items, f)),
        Value::List(schema::values_of(items, f)),
    ) {
        assert forall|i: int| 0 <= i < items.len() implies schema::taken::<GrownTopic>(
            f(#[trigger] items[i]),
            version,
            flexible,
            v(items[i]),
        ) by {
            law_grown_topic(items[i], version, flexible);
        }
        schema::lemma_sent_list::<(Seq<char>, i32, Seq<Seq<i32>>), GrownTopic>(
            items,
            f,
            v,
            version,
            flexible,
        );
    }
}

/// A topic of a DeleteTopics request, under its name or its identifier, as a client sends it.
pub open spec fn doomed_topic_sent(
    version: i16,
    flexible: bool,
    x: (Option<Seq<char>>, Seq<u8>),
) -> Told {
    if version >= 6 {
        Told::new().opt_text(true, x.0).uuid(x.1).end(true)
    } else {
        Told::new().text(flexible, or_empty(x.0))
    }
}

/// A topic of a DeleteTopics request, under its name or its identifier, as it is taken.
pub open spec fn doomed_topic_taken(
    version: i16,
    flexible: bool,
    x: (Option<Seq<char>>, Seq<u8>),
) -> DoomedView {
    if version >= 6 {
        DoomedView { name: x.0, uuid: x.1 }
    } else {
        DoomedView { name: Some(or_empty(x.0)), uuid: topic_id::zero_uuid() }
    }
}

/// A topic of a DeleteTopics request, under its name or its identifier is taken as it was sent.
pub proof fn law_doomed_topic(x: (Option<Seq<char>>, Seq<u8>), version: i16, flexible: bool)
    ensures
        schema::taken::<DoomedTopic>(
            doomed_topic_sent(version, flexible, x),
            version,
            flexible,
            doomed_topic_taken(version, flexible, x),
        ),
{
    broadcast use schema::group_sent;

}

proof fn lemma_many_doomed_topic(
    items: Seq<(Option<Seq<char>>, Seq<u8>)>,
    version: i16,
    flexible: bool,
)
    ensures
        ({
            let f = |x: (Option<Seq<char>>, Seq<u8>)| doomed_topic_sent(version, flexible, x);
            let v = |x: (Option<Seq<char>>, Seq<u8>)| doomed_topic_taken(version, flexible, x);
            schema::field_fits(
                Kind::List(flexible, schema::kinds_of(items, f)),
                Value::List(schema::values_of(items, f)),
            ) ==> schema::list_taken::<(Option<Seq<char>>, Seq<u8>), DoomedTopic>(items, f, v, version, flexible)
        }),
{
    let f = |x: (Option<Seq<char>>, Seq<u8>)| doomed_topic_sent(version, flexible, x);
    let v = |x: (Option<Seq<char>>, Seq<u8>)| doomed_topic_taken(version, flexible, x);
    if schema::field_fits(
        Kind::List(flexible, schema::kinds_of(items, f)),
        Value::List(schema::values_of(items, f)),
    ) {
        assert forall|i: int| 0 <= i < items.len() implies schema::taken::<DoomedTopic>(
            f(#[trigger] items[i]),
            version,
            flexible,
            v(items[i]),
        ) by {
            law_doomed_topic(items[i], version, flexible);
        }
        schema::lemma_sent_list::<(Option<Seq<char>>, Seq<u8>), DoomedTopic>(
            items,
            f,
            v,
            version,
            flexible,
        );
    }
}

/// A topic as clients name it: by its name, or in later versions by its identifier.
pub struct TopicName {
    pub name: Seq<char>,
    pub id: Seq<u8>,
}

/// The field that names a topic.
pub open spec fn topic_name_sent(t: Told, flexible: bool, by_id: bool, n: TopicName) -> Told {
    if by_id {
        t.uuid(n.id)
    } else {
        t.text(flexible, n.name)
    }
}

/// The topic that is named.
pub open spec fn topic_name_taken(by_id: bool, n: TopicName) -> WireView {
    if by_id {
        WireView::Uuid(n.id)
    } else {
        WireView::Name(n.name)
    }
}

/// A partition of a Produce request with its record set, as a client sends it.
pub open spec fn produce_part_sent(
    version: i16,
    flexible: bool,
    x: (i32, Option<Seq<u8>>),
) -> Told {
    Told::new().i32(x.0 as int).blob(flexible, x.1).end(flexible)
}

/// A partition of a Produce request with its record set, as it is taken.
pub open spec fn produce_part_taken(
    version: i16,
    flexible: bool,
    x: (i32, Option<Seq<u8>>),
) -> ProducePartView {
    ProducePartView {
        partition: x.0,
        records: Some(
            match x.1 {
                Some(d) => d,
                None => Seq::empty(),
            },
        ),
    }
}

/// A partition of a Produce request with its record set is taken as it was sent.
pub proof fn law_produce_part(x: (i32, Option<Seq<u8>>), version: i16, flexible: bool)
    ensures
        schema::taken::<ProducePart>(
            produce_part_sent(version, flexible, x),
            version,
            flexible,
            produce_part_taken(version, flexible, x),
        ),
{
    broadcast use schema::group_sent;

}

proof fn lemma_many_produce_part(items: Seq<(i32, Option<Seq<u8>>)>, version: i16, flexible: bool)
    ensures
        ({
            let f = |x: (i32, Option<Seq<u8>>)| produce_part_sent(version, flexible, x);
            let v = |x: (i32, Option<Seq<u8>>)| produce_part_taken(version, flexible, x);
            schema::field_fits(
                Kind::List(flexible, schema::kinds_of(items, f)),
                Value::List(schema::values_of(items, f)),
            ) ==> schema::list_taken::<(i32, Option<Seq<u8>>), ProducePart>(items, f, v, version, flexible)
        }),
{
    let f = |x: (i32, Option<Seq<u8>>)| produce_part_sent(version, flexible, x);
    let v = |x: (i32, Option<Seq<u8>>)| produce_part_taken(version, flexible, x);
    if schema::field_fits(
        Kind::List(flexible, schema::kinds_of(items, f)),
        Value::List(schema::values_of(items, f)),
    ) {
        assert forall|i: int| 0 <= i < items.len() implies schema::taken::<ProducePart>(
            f(#[trigger] items[i]),
            version,
            flexible,
            v(items[i]),
        ) by {
            law_produce_part(items[i], version, flexible);
        }
        schema::lemma_sent_list::<(i32, Option<Seq<u8>>), ProducePart>(
            items,
            f,
            v,
            version,
            flexible,
        );
    }
}

/// A topic of a Produce request, as a client sends it.
pub open spec fn produce_topic_sent(
    version: i16,
    flexible: bool,
    x: (TopicName, Seq<(i32, Option<Seq<u8>>)>),
) -> Told {
    topic_name_sent(Told::new(), flexible, version >= 13, x.0).list(
        flexible,
        x.1,
        |x: (i32, Option<Seq<u8>>)| produce_part_sent(version, flexible, x),
    ).end(flexible)
}

/// A topic of a Produce request, as it is taken.
pub open spec fn produce_topic_taken(
    version: i16,
    flexible: bool,
    x: (TopicName, Seq<(i32, Option<Seq<u8>>)>),
) -> ProduceTopicView {
    ProduceTopicView {
        wire: topic_name_taken(version >= 13, x.0),
        declared: x.1.len(),
        parts: x.1.map_values(|x: (i32, Option<Seq<u8>>)| produce_part_taken(version, flexible, x)),
    }
}

/// A topic of a Produce request is taken as it was sent.
pub proof fn law_produce_topic(
    x: (TopicName, Seq<(i32, Option<Seq<u8>>)>),
    version: i16,
    flexible: bool,
)
    requires
        x.1.len() <= i32::MAX,
    ensures
        schema::taken::<ProduceTopic>(
            produce_topic_sent(version, flexible, x),
            version,
            flexible,
            produce_topic_taken(version, flexible, x),
        ),
{
    broadcast use schema::group_sent;

    if produce_topic_sent(version, flexible, x).fits() {
        lemma_many_produce_part(x.1, version, flexible);
        assert(produce::count32(x.1.len() as usize) == x.1.len());
    }
}

proof fn lemma_many_produce_topic(
    items: Seq<(TopicName, Seq<(i32, Option<Seq<u8>>)>)>,
    version: i16,
    flexible: bool,
)
    requires
        forall|i: int| 0 <= i < items.len() ==> (#[trigger] items[i]).1.len() <= i32::MAX,
    ensures
        ({
            let f = |x: (TopicName, Seq<(i32, Option<Seq<u8>>)>)| produce_topic_sent(
                version,
                flexible,
                x,
            );
            let v = |x: (TopicName, Seq<(i32, Option<Seq<u8>>)>)| produce_topic_taken(
                version,
                flexible,
                x,
            );
            schema::field_fits(
                Kind::List(flexible, schema::kinds_of(items, f)),
                Value::List(schema::values_of(items, f)),
            ) ==> schema::list_taken::<(TopicName, Seq<(i32, Option<Seq<u8>>)>), ProduceTopic>(items, f, v, version, flexible)
        }),
{
    let f = |x: (TopicName, Seq<(i32, Option<Seq<u8>>)>)| produce_topic_sent(version, flexible, x);
    let v = |x: (TopicName, Seq<(i32, Option<Seq<u8>>)>)| produce_topic_taken(version, flexible, x);
    if schema::field_fits(
        Kind::List(flexible, schema::kinds_of(items, f)),
        Value::List(schema::values_of(items, f)),
    ) {
        assert forall|i: int| 0 <= i < items.len() implies schema::taken::<ProduceTopic>(
            f(#[trigger] items[i]),
            version,
            flexible,
            v(items[i]),
        ) by {
            law_produce_topic(items[i], version, flexible);
        }
        schema::lemma_sent_list::<(TopicName, Seq<(i32, Option<Seq<u8>>)>), ProduceTopic>(
            items,
            f,
            v,
            version,
            flexible,
        );
    }
}

/// A partition as a client asks for it in a Fetch request.
pub struct FetchWish {
    pub partition: i32,
    pub current_leader_epoch: i32,
    pub fetch_offset: i64,
    pub last_fetched_epoch: i32,
    /// The start of the log of a follower.
    pub log_start: i64,
    pub max_bytes: i32,
}

/// A partition of a Fetch request, with the offset to read from, as a client sends it.
pub open spec fn fetch_part_sent(version: i16, flexible: bool, x: FetchWish) -> Told {
    let t = Told::new().i32(x.partition as int);
    let t = if version >= 9 {
        t.i32(x.current_leader_epoch as int)
    } else {
        t
    };
    let t = t.i64(x.fetch_offset as int);
    let t = if version >= 12 {
        t.i32(x.last_fetched_epoch as int)
    } else {
        t
    };
    let t = if version >= 5 {
        t.i64(x.log_start as int)
    } else {
        t
    };
    t.i32(x.max_bytes as int).end(flexible)
}

/// A partition of a Fetch request, with the offset to read from, as it is taken.
pub open spec fn fetch_part_taken(version: i16, flexible: bool, x: FetchWish) -> FetchPart {
    FetchPart {
        partition: x.partition,
        current_leader_epoch: if version >= 9 {
            x.current_leader_epoch
        } else {
            (-1int) as i32
        },
        fetch_offset: x.fetch_offset,
        last_fetched_epoch: if version >= 12 {
            x.last_fetched_epoch
        } else {
            (-1int) as i32
        },
        max_bytes: if x.max_bytes < 0 {
            0
        } else {
            x.max_bytes as usize
        },
    }
}

/// A partition of a Fetch request, with the offset to read from is taken as it was sent.
pub proof fn law_fetch_part(x: FetchWish, version: i16, flexible: bool)
    ensures
        schema::taken::<FetchPart>(
            fetch_part_sent(version, flexible, x),
            version,
            flexible,
            fetch_part_taken(version, flexible, x),
        ),
{
    broadcast use schema::group_sent;

}

proof fn lemma_many_fetch_part(items: Seq<FetchWish>, version: i16, flexible: bool)
    ensures
        ({
            let f = |x: FetchWish| fetch_part_sent(version, flexible, x);
            let v = |x: FetchWish| fetch_part_taken(version, flexible, x);
            schema::field_fits(
                Kind::List(flexible, schema::kinds_of(items, f)),
                Value::List(schema::values_of(items, f)),
            ) ==> schema::list_taken::<FetchWish, FetchPart>(items, f, v, version, flexible)
        }),
{
    let f = |x: FetchWish| fetch_part_sent(version, flexible, x);
    let v = |x: FetchWish| fetch_part_taken(version, flexible, x);
    if schema::field_fits(
        Kind::List(flexible, schema::kinds_of(items, f)),
        Value::List(schema::values_of(items, f)),
    ) {
        assert forall|i: int| 0 <= i < items.len() implies schema::taken::<FetchPart>(
            f(#[trigger] items[i]),
            version,
            flexible,
            v(items[i]),
        ) by {
            law_fetch_part(items[i], version, flexible);
        }
        schema::lemma_sent_list::<FetchWish, FetchPart>(items, f, v, version, flexible);
    }
}

/// A topic of a Fetch request, as a client sends it.
pub open spec fn fetch_topic_sent(
    version: i16,
    flexible: bool,
    x: (TopicName, Seq<FetchWish>),
) -> Told {
    topic_name_sent(Told::new(), flexible, version >= 13, x.0).list(
        flexible,
        x.1,
        |x: FetchWish| fetch_part_sent(version, flexible, x),
    ).end(flexible)
}

/// A topic of a Fetch request, as it is taken.
pub open spec fn fetch_topic_taken(
    version: i16,
    flexible: bool,
    x: (TopicName, Seq<FetchWish>),
) -> FetchTopicView {
    FetchTopicView {
        wire: topic_name_taken(version >= 13, x.0),
        parts: x.1.map_values(|x: FetchWish| fetch_part_taken(version, flexible, x)),
    }
}

/// A topic of a Fetch request is taken as it was sent.
pub proof fn law_fetch_topic(x: (TopicName, Seq<FetchWish>), version: i16, flexible: bool)
    requires
        x.1.len() <= i32::MAX,
    ensures
        schema::taken::<FetchTopic>(
            fetch_topic_sent(version, flexible, x),
            version,
            flexible,
            fetch_topic_taken(version, flexible, x),
        ),
{
    broadcast use schema::group_sent;

    if fetch_topic_sent(version, flexible, x).fits() {
        lemma_many_fetch_part(x.1, version, flexible);
        assert(produce::count32(x.1.len() as usize) == x.1.len());
    }
}

proof fn lemma_many_fetch_topic(
    items: Seq<(TopicName, Seq<FetchWish>)>,
    version: i16,
    flexible: bool,
)
    requires
        forall|i: int| 0 <= i < items.len() ==> (#[trigger] items[i]).1.len() <= i32::MAX,
    ensures
        ({
            let f = |x: (TopicName, Seq<FetchWish>)| fetch_topic_sent(version, flexible, x);
            let v = |x: (TopicName, Seq<FetchWish>)| fetch_topic_taken(version, flexible, x);
            schema::field_fits(
                Kind::List(flexible, schema::kinds_of(items, f)),
                Value::List(schema::values_of(items, f)),
            ) ==> schema::list_taken::<(TopicName, Seq<FetchWish>), FetchTopic>(items, f, v, version, flexible)
        }),
{
    let f = |x: (TopicName, Seq<FetchWish>)| fetch_topic_sent(version, flexible, x);
    let v = |x: (TopicName, Seq<FetchWish>)| fetch_topic_taken(version, flexible, x);
    if schema::field_fits(
        Kind::List(flexible, schema::kinds_of(items, f)),
        Value::List(schema::values_of(items, f)),
    ) {
        assert forall|i: int| 0 <= i < items.len() implies schema::taken::<FetchTopic>(
            f(#[trigger] items[i]),
            version,
            flexible,
            v(items[i]),
        ) by {
            law_fetch_topic(items[i], version, flexible);
        }
        schema::lemma_sent_list::<(TopicName, Seq<FetchWish>), FetchTopic>(
            items,
            f,
            v,
            version,
            flexible,
        );
    }
}

/// A topic that a Fetch request takes out of its session, with the partitions, as a client
/// sends it.
pub open spec fn forgotten_sent(version: i16, flexible: bool, x: (TopicName, Seq<i32>)) -> Told {
    topic_name_sent(Told::new(), flexible, version >= 13, x.0).list(
        flexible,
        x.1,
        |x: i32| number_sent(version, flexible, x),
    ).end(flexible)
}

/// A topic that a Fetch request takes out of its session, with the partitions, as it is taken.
pub open spec fn forgotten_taken(
    version: i16,
    flexible: bool,
    x: (TopicName, Seq<i32>),
) -> ForgottenView {
    ForgottenView {
        wire: topic_name_taken(version >= 13, x.0),
        parts: x.1.map_values(|x: i32| number_taken(version, flexible, x)),
    }
}

/// A topic that a Fetch request takes out of its session, with the partitions is taken as it
/// was sent.
pub proof fn law_forgotten(x: (TopicName, Seq<i32>), version: i16, flexible: bool)
    ensures
        schema::taken::<ForgottenTopic>(
            forgotten_sent(version, flexible, x),
            version,
            flexible,
            forgotten_taken(version, flexible, x),
        ),
{
    broadcast use schema::group_sent;

    if forgotten_sent(version, flexible, x).fits() {
        lemma_many_number(x.1, version, flexible);
    }
}

proof fn lemma_many_forgotten(items: Seq<(TopicName, Seq<i32>)>, version: i16, flexible: bool)
    ensures
        ({
            let f = |x: (TopicName, Seq<i32>)| forgotten_sent(version, flexible, x);
            let v = |x: (TopicName, Seq<i32>)| forgotten_taken(version, flexible, x);
            schema::field_fits(
                Kind::List(flexible, schema::kinds_of(items, f)),
                Value::List(schema::values_of(items, f)),
            ) ==> schema::list_taken::<(TopicName, Seq<i32>), ForgottenTopic>(items, f, v, version, flexible)
        }),
{
    let f = |x: (TopicName, Seq<i32>)| forgotten_sent(version, flexible, x);
    let v = |x: (TopicName, Seq<i32>)| forgotten_taken(version, flexible, x);
    if schema::field_fits(
        Kind::List(flexible, schema::kinds_of(items, f)),
        Value::List(schema::values_of(items, f)),
    ) {
        assert forall|i: int| 0 <= i < items.len() implies schema::taken::<ForgottenTopic>(
            f(#[trigger] items[i]),
            version,
            flexible,
            v(items[i]),
        ) by {
            law_forgotten(items[i], version, flexible);
        }
        schema::lemma_sent_list::<(TopicName, Seq<i32>), ForgottenTopic>(
            items,
            f,
            v,
            version,
            flexible,
        );
    }
}

/// A partition of a ListOffsets request, with the time that is asked for; the number that the
/// first version has is not used, as a client sends it.
pub open spec fn list_offsets_part_sent(
    version: i16,
    flexible: bool,
    x: (ListOffsetsPart, i32),
) -> Told {
    let t = Told::new().i32(x.0.partition as int);
    let t = if flexible || version >= 4 {
        t.i32(x.0.current_leader_epoch as int)
    } else {
        t
    };
    let t = t.i64(x.0.timestamp as int);
    let t = if version == 0 && !flexible {
        t.i32(x.1 as int)
    } else {
        t
    };
    t.end(flexible)
}

/// A partition of a ListOffsets request, with the time that is asked for; the number that the
/// first version has is not used, as it is taken.
pub open spec fn list_offsets_part_taken(
    version: i16,
    flexible: bool,
    x: (ListOffsetsPart, i32),
) -> ListOffsetsPart {
    ListOffsetsPart {
        current_leader_epoch: if flexible || version >= 4 {
            x.0.current_leader_epoch
        } else {
            (-1int) as i32
        },
        ..x.0
    }
}

/// A partition of a ListOffsets request, with the time that is asked for; the number that the
/// first version has is not used is taken as it was sent.
pub proof fn law_list_offsets_part(x: (ListOffsetsPart, i32), version: i16, flexible: bool)
    ensures
        schema::taken::<ListOffsetsPart>(
            list_offsets_part_sent(version, flexible, x),
            version,
            flexible,
            list_offsets_part_taken(version, flexible, x),
        ),
{
    broadcast use schema::group_sent;

}

proof fn lemma_many_list_offsets_part(
    items: Seq<(ListOffsetsPart, i32)>,
    version: i16,
    flexible: bool,
)
    ensures
        ({
            let f = |x: (ListOffsetsPart, i32)| list_offsets_part_sent(version, flexible, x);
            let v = |x: (ListOffsetsPart, i32)| list_offsets_part_taken(version, flexible, x);
            schema::field_fits(
                Kind::List(flexible, schema::kinds_of(items, f)),
                Value::List(schema::values_of(items, f)),
            ) ==> schema::list_taken::<(ListOffsetsPart, i32), ListOffsetsPart>(items, f, v, version, flexible)
        }),
{
    let f = |x: (ListOffsetsPart, i32)| list_offsets_part_sent(version, flexible, x);
    let v = |x: (ListOffsetsPart, i32)| list_offsets_part_taken(version, flexible, x);
    if schema::field_fits(
        Kind::List(flexible, schema::kinds_of(items, f)),
        Value::List(schema::values_of(items, f)),
    ) {
        assert forall|i: int| 0 <= i < items.len() implies schema::taken::<ListOffsetsPart>(
            f(#[trigger] items[i]),
            version,
            flexible,
            v(items[i]),
        ) by {
            law_list_offsets_part(items[i], version, flexible);
        }
        schema::lemma_sent_list::<(ListOffsetsPart, i32), ListOffsetsPart>(
            items,
            f,
            v,
            version,
            flexible,
        );
    }
}

/// A partition of an OffsetForLeaderEpoch request, with the epoch that is asked for, as a
/// client sends it.
pub open spec fn epoch_part_sent(version: i16, flexible: bool, x: LeaderEpochPart) -> Told {
    let t = Told::new().i32(x.partition as int);
    let t = if flexible || version >= 2 {
        t.i32(x.current_leader_epoch as int)
    } else {
        t
    };
    t.i32(x.leader_epoch as int).end(flexible)
}

/// A partition of an OffsetForLeaderEpoch request, with the epoch that is asked for, as it is
/// taken.
pub open spec fn epoch_part_taken(
    version: i16,
    flexible: bool,
    x: LeaderEpochPart,
) -> LeaderEpochPart {
    LeaderEpochPart {
        current_leader_epoch: if flexible || version >= 2 {
            x.current_leader_epoch
        } else {
            (-1int) as i32
        },
        ..x
    }
}

/// A partition of an OffsetForLeaderEpoch request, with the epoch that is asked for is taken as
/// it was sent.
pub proof fn law_epoch_part(x: LeaderEpochPart, version: i16, flexible: bool)
    ensures
        schema::taken::<LeaderEpochPart>(
            epoch_part_sent(version, flexible, x),
            version,
            flexible,
            epoch_part_taken(version, flexible, x),
        ),
{
    broadcast use schema::group_sent;

}

proof fn lemma_many_epoch_part(items: Seq<LeaderEpochPart>, version: i16, flexible: bool)
    ensures
        ({
            let f = |x: LeaderEpochPart| epoch_part_sent(version, flexible, x);
            let v = |x: LeaderEpochPart| epoch_part_taken(version, flexible, x);
            schema::field_fits(
                Kind::List(flexible, schema::kinds_of(items, f)),
                Value::List(schema::values_of(items, f)),
            ) ==> schema::list_taken::<LeaderEpochPart, LeaderEpochPart>(items, f, v, version, flexible)
        }),
{
    let f = |x: LeaderEpochPart| epoch_part_sent(version, flexible, x);
    let v = |x: LeaderEpochPart| epoch_part_taken(version, flexible, x);
    if schema::field_fits(
        Kind::List(flexible, schema::kinds_of(items, f)),
        Value::List(schema::values_of(items, f)),
    ) {
        assert forall|i: int| 0 <= i < items.len() implies schema::taken::<LeaderEpochPart>(
            f(#[trigger] items[i]),
            version,
            flexible,
            v(items[i]),
        ) by {
            law_epoch_part(items[i], version, flexible);
        }
        schema::lemma_sent_list::<LeaderEpochPart, LeaderEpochPart>(items, f, v, version, flexible);
    }
}

/// A partition of a DeleteRecords request, with the offset before which records go, as a client
/// sends it.
pub open spec fn delete_part_sent(version: i16, flexible: bool, x: DeleteRecordsPart) -> Told {
    Told::new().i32(x.partition as int).i64(x.offset as int).end(flexible)
}

/// A partition of a DeleteRecords request, with the offset before which records go, as it is
/// taken.
pub open spec fn delete_part_taken(
    version: i16,
    flexible: bool,
    x: DeleteRecordsPart,
) -> DeleteRecordsPart {
    x
}

/// A partition of a DeleteRecords request, with the offset before which records go is taken as
/// it was sent.
pub proof fn law_delete_part(x: DeleteRecordsPart, version: i16, flexible: bool)
    ensures
        schema::taken::<DeleteRecordsPart>(
            delete_part_sent(version, flexible, x),
            version,
            flexible,
            delete_part_taken(version, flexible, x),
        ),
{
    broadcast use schema::group_sent;

}

proof fn lemma_many_delete_part(items: Seq<DeleteRecordsPart>, version: i16, flexible: bool)
    ensures
        ({
            let f = |x: DeleteRecordsPart| delete_part_sent(version, flexible, x);
            let v = |x: DeleteRecordsPart| delete_part_taken(version, flexible, x);
            schema::field_fits(
                Kind::List(flexible, schema::kinds_of(items, f)),
                Value::List(schema::values_of(items, f)),
            ) ==> schema::list_taken::<DeleteRecordsPart, DeleteRecordsPart>(items, f, v, version, flexible)
        }),
{
    let f = |x: DeleteRecordsPart| delete_part_sent(version, flexible, x);
    let v = |x: DeleteRecordsPart| delete_part_taken(version, flexible, x);
    if schema::field_fits(
        Kind::List(flexible, schema::kinds_of(items, f)),
        Value::List(schema::values_of(items, f)),
    ) {
        assert forall|i: int| 0 <= i < items.len() implies schema::taken::<DeleteRecordsPart>(
            f(#[trigger] items[i]),
            version,
            flexible,
            v(items[i]),
        ) by {
            law_delete_part(items[i], version, flexible);
        }
        schema::lemma_sent_list::<DeleteRecordsPart, DeleteRecordsPart>(
            items,
            f,
            v,
            version,
            flexible,
        );
    }
}

/// A string in an array, as a client sends it.
pub open spec fn text_sent(version: i16, flexible: bool, x: Seq<char>) -> Told {
    Told::new().text(flexible, x)
}

/// A string in an array, as it is taken.
pub open spec fn text_taken(version: i16, flexible: bool, x: Seq<char>) -> Seq<char> {
    x
}

/// A string in an array is taken as it was sent.
pub proof fn law_text(x: Seq<char>, version: i16, flexible: bool)
    ensures
        schema::taken::<String>(
            text_sent(version, flexible, x),
            version,
            flexible,
            text_taken(version, flexible, x),
        ),
{
    broadcast use schema::group_sent;

}

proof fn lemma_many_text(items: Seq<Seq<char>>, version: i16, flexible: bool)
    ensures
        ({
            let f = |x: Seq<char>| text_sent(version, flexible, x);
            let v = |x: Seq<char>| text_taken(version, flexible, x);
            schema::field_fits(
                Kind::List(flexible, schema::kinds_of(items, f)),
                Value::List(schema::values_of(items, f)),
            ) ==> schema::list_taken::<Seq<char>, String>(items, f, v, version, flexible)
        }),
{
    let f = |x: Seq<char>| text_sent(version, flexible, x);
    let v = |x: Seq<char>| text_taken(version, flexible, x);
    if schema::field_fits(
        Kind::List(flexible, schema::kinds_of(items, f)),
        Value::List(schema::values_of(items, f)),
    ) {
        assert forall|i: int| 0 <= i < items.len() implies schema::taken::<String>(
            f(#[trigger] items[i]),
            version,
            flexible,
            v(items[i]),
        ) by {
            law_text(items[i], version, flexible);
        }
        schema::lemma_sent_list::<Seq<char>, String>(items, f, v, version, flexible);
    }
}

/// A string in an array that goes on behind one that cannot be read, as a client sends it.
pub open spec fn loose_text_sent(version: i16, flexible: bool, x: Seq<char>) -> Told {
    Told::new().text(flexible, x)
}

/// A string in an array that goes on behind one that cannot be read, as it is taken.
pub open spec fn loose_text_taken(version: i16, flexible: bool, x: Seq<char>) -> Seq<char> {
    x
}

/// A string in an array that goes on behind one that cannot be read is taken as it was sent.
pub proof fn law_loose_text(x: Seq<char>, version: i16, flexible: bool)
    ensures
        schema::taken::<LooseString>(
            loose_text_sent(version, flexible, x),
            version,
            flexible,
            loose_text_taken(version, flexible, x),
        ),
{
    broadcast use schema::group_sent;

}

proof fn lemma_many_loose_text(items: Seq<Seq<char>>, version: i16, flexible: bool)
    ensures
        ({
            let f = |x: Seq<char>| loose_text_sent(version, flexible, x);
            let v = |x: Seq<char>| loose_text_taken(version, flexible, x);
            schema::field_fits(
                Kind::List(flexible, schema::kinds_of(items, f)),
                Value::List(schema::values_of(items, f)),
            ) ==> schema::list_taken::<Seq<char>, LooseString>(items, f, v, version, flexible)
        }),
{
    let f = |x: Seq<char>| loose_text_sent(version, flexible, x);
    let v = |x: Seq<char>| loose_text_taken(version, flexible, x);
    if schema::field_fits(
        Kind::List(flexible, schema::kinds_of(items, f)),
        Value::List(schema::values_of(items, f)),
    ) {
        assert forall|i: int| 0 <= i < items.len() implies schema::taken::<LooseString>(
            f(#[trigger] items[i]),
            version,
            flexible,
            v(items[i]),
        ) by {
            law_loose_text(items[i], version, flexible);
        }
        schema::lemma_sent_list::<Seq<char>, LooseString>(items, f, v, version, flexible);
    }
}

/// A long number in an array, as a client sends it.
pub open spec fn long_sent(version: i16, flexible: bool, x: i64) -> Told {
    Told::new().i64(x as int)
}

/// A long number in an array, as it is taken.
pub open spec fn long_taken(version: i16, flexible: bool, x: i64) -> i64 {
    x
}

/// A long number in an array is taken as it was sent.
pub proof fn law_long(x: i64, version: i16, flexible: bool)
    ensures
        schema::taken::<i64>(
            long_sent(version, flexible, x),
            version,
            flexible,
            long_taken(version, flexible, x),
        ),
{
    broadcast use schema::group_sent;

}

proof fn lemma_many_long(items: Seq<i64>, version: i16, flexible: bool)
    ensures
        ({
            let f = |x: i64| long_sent(version, flexible, x);
            let v = |x: i64| long_taken(version, flexible, x);
            schema::field_fits(
                Kind::List(flexible, schema::kinds_of(items, f)),
                Value::List(schema::values_of(items, f)),
            ) ==> schema::list_taken::<i64, i64>(items, f, v, version, flexible)
        }),
{
    let f = |x: i64| long_sent(version, flexible, x);
    let v = |x: i64| long_taken(version, flexible, x);
    if schema::field_fits(
        Kind::List(flexible, schema::kinds_of(items, f)),
        Value::List(schema::values_of(items, f)),
    ) {
        assert forall|i: int| 0 <= i < items.len() implies schema::taken::<i64>(
            f(#[trigger] items[i]),
            version,
            flexible,
            v(items[i]),
        ) by {
            law_long(items[i], version, flexible);
        }
        schema::lemma_sent_list::<i64, i64>(items, f, v, version, flexible);
    }
}

/// A topic of a ListOffsets request, as a client sends it.
pub open spec fn list_offsets_topic_sent(
    version: i16,
    flexible: bool,
    x: (Seq<char>, Seq<(ListOffsetsPart, i32)>),
) -> Told {
    Told::new().text(flexible, x.0).list(
        flexible,
        x.1,
        |x: (ListOffsetsPart, i32)| list_offsets_part_sent(version, flexible, x),
    ).end(flexible)
}

/// A topic of a ListOffsets request, as it is taken.
pub open spec fn list_offsets_topic_taken(
    version: i16,
    flexible: bool,
    x: (Seq<char>, Seq<(ListOffsetsPart, i32)>),
) -> TopicInView<ListOffsetsPart> {
    TopicInView {
        name: x.0,
        parts: x.1.map_values(
            |x: (ListOffsetsPart, i32)| list_offsets_part_taken(version, flexible, x),
        ),
    }
}

/// A topic of a ListOffsets request is taken as it was sent.
pub proof fn law_list_offsets_topic(
    x: (Seq<char>, Seq<(ListOffsetsPart, i32)>),
    version: i16,
    flexible: bool,
)
    ensures
        schema::taken::<TopicIn<ListOffsetsPart>>(
            list_offsets_topic_sent(version, flexible, x),
            version,
            flexible,
            list_offsets_topic_taken(version, flexible, x),
        ),
{
    broadcast use schema::group_sent;

    if list_offsets_topic_sent(version, flexible, x).fits() {
        lemma_many_list_offsets_part(x.1, version, flexible);
    }
}

proof fn lemma_many_list_offsets_topic(
    items: Seq<(Seq<char>, Seq<(ListOffsetsPart, i32)>)>,
    version: i16,
    flexible: bool,
)
    ensures
        ({
            let f = |x: (Seq<char>, Seq<(ListOffsetsPart, i32)>)| list_offsets_topic_sent(
                version,
                flexible,
                x,
            );
            let v = |x: (Seq<char>, Seq<(ListOffsetsPart, i32)>)| list_offsets_topic_taken(
                version,
                flexible,
                x,
            );
            schema::field_fits(
                Kind::List(flexible, schema::kinds_of(items, f)),
                Value::List(schema::values_of(items, f)),
            ) ==> schema::list_taken::<(Seq<char>, Seq<(ListOffsetsPart, i32)>), TopicIn<ListOffsetsPart>>(items, f, v, version, flexible)
        }),
{
    let f = |x: (Seq<char>, Seq<(ListOffsetsPart, i32)>)| list_offsets_topic_sent(
        version,
        flexible,
        x,
    );
    let v = |x: (Seq<char>, Seq<(ListOffsetsPart, i32)>)| list_offsets_topic_taken(
        version,
        flexible,
        x,
    );
    if schema::field_fits(
        Kind::List(flexible, schema::kinds_of(items, f)),
        Value::List(schema::values_of(items, f)),
    ) {
        assert forall|i: int| 0 <= i < items.len() implies schema::taken::<TopicIn<ListOffsetsPart>>(
            f(#[trigger] items[i]),
            version,
            flexible,
            v(items[i]),
        ) by {
            law_list_offsets_topic(items[i], version, flexible);
        }
        schema::lemma_sent_list::<(Seq<char>, Seq<(ListOffsetsPart, i32)>), TopicIn<ListOffsetsPart>>(
            items,
            f,
            v,
            version,
            flexible,
        );
    }
}

/// A topic of an OffsetForLeaderEpoch request, as a client sends it.
pub open spec fn epoch_topic_sent(
    version: i16,
    flexible: bool,
    x: (Seq<char>, Seq<LeaderEpochPart>),
) -> Told {
    Told::new().text(flexible, x.0).list(
        flexible,
        x.1,
        |x: LeaderEpochPart| epoch_part_sent(version, flexible, x),
    ).end(flexible)
}

/// A topic of an OffsetForLeaderEpoch request, as it is taken.
pub open spec fn epoch_topic_taken(
    version: i16,
    flexible: bool,
    x: (Seq<char>, Seq<LeaderEpochPart>),
) -> TopicInView<LeaderEpochPart> {
    TopicInView {
        name: x.0,
        parts: x.1.map_values(|x: LeaderEpochPart| epoch_part_taken(version, flexible, x)),
    }
}

/// A topic of an OffsetForLeaderEpoch request is taken as it was sent.
pub proof fn law_epoch_topic(x: (Seq<char>, Seq<LeaderEpochPart>), version: i16, flexible: bool)
    ensures
        schema::taken::<TopicIn<LeaderEpochPart>>(
            epoch_topic_sent(version, flexible, x),
            version,
            flexible,
            epoch_topic_taken(version, flexible, x),
        ),
{
    broadcast use schema::group_sent;

    if epoch_topic_sent(version, flexible, x).fits() {
        lemma_many_epoch_part(x.1, version, flexible);
    }
}

proof fn lemma_many_epoch_topic(
    items: Seq<(Seq<char>, Seq<LeaderEpochPart>)>,
    version: i16,
    flexible: bool,
)
    ensures
        ({
            let f = |x: (Seq<char>, Seq<LeaderEpochPart>)| epoch_topic_sent(version, flexible, x);
            let v = |x: (Seq<char>, Seq<LeaderEpochPart>)| epoch_topic_taken(version, flexible, x);
            schema::field_fits(
                Kind::List(flexible, schema::kinds_of(items, f)),
                Value::List(schema::values_of(items, f)),
            ) ==> schema::list_taken::<(Seq<char>, Seq<LeaderEpochPart>), TopicIn<LeaderEpochPart>>(items, f, v, version, flexible)
        }),
{
    let f = |x: (Seq<char>, Seq<LeaderEpochPart>)| epoch_topic_sent(version, flexible, x);
    let v = |x: (Seq<char>, Seq<LeaderEpochPart>)| epoch_topic_taken(version, flexible, x);
    if schema::field_fits(
        Kind::List(flexible, schema::kinds_of(items, f)),
        Value::List(schema::values_of(items, f)),
    ) {
        assert forall|i: int| 0 <= i < items.len() implies schema::taken::<TopicIn<LeaderEpochPart>>(
            f(#[trigger] items[i]),
            version,
            flexible,
            v(items[i]),
        ) by {
            law_epoch_topic(items[i], version, flexible);
        }
        schema::lemma_sent_list::<(Seq<char>, Seq<LeaderEpochPart>), TopicIn<LeaderEpochPart>>(
            items,
            f,
            v,
            version,
            flexible,
        );
    }
}

/// A topic of a DeleteRecords request, as a client sends it.
pub open spec fn delete_topic_sent(
    version: i16,
    flexible: bool,
    x: (Seq<char>, Seq<DeleteRecordsPart>),
) -> Told {
    Told::new().text(flexible, x.0).list(
        flexible,
        x.1,
        |x: DeleteRecordsPart| delete_part_sent(version, flexible, x),
    ).end(flexible)
}

/// A topic of a DeleteRecords request, as it is taken.
pub open spec fn delete_topic_taken(
    version: i16,
    flexible: bool,
    x: (Seq<char>, Seq<DeleteRecordsPart>),
) -> TopicInView<DeleteRecordsPart> {
    TopicInView {
        name: x.0,
        parts: x.1.map_values(|x: DeleteRecordsPart| delete_part_taken(version, flexible, x)),
    }
}

/// A topic of a DeleteRecords request is taken as it was sent.
pub proof fn law_delete_topic(x: (Seq<char>, Seq<DeleteRecordsPart>), version: i16, flexible: bool)
    ensures
        schema::taken::<WholeTopic<DeleteRecordsPart>>(
            delete_topic_sent(version, flexible, x),
            version,
            flexible,
            delete_topic_taken(version, flexible, x),
        ),
{
    broadcast use schema::group_sent;

    if delete_topic_sent(version, flexible, x).fits() {
        lemma_many_delete_part(x.1, version, flexible);
    }
}

proof fn lemma_many_delete_topic(
    items: Seq<(Seq<char>, Seq<DeleteRecordsPart>)>,
    version: i16,
    flexible: bool,
)
    ensures
        ({
            let f = |x: (Seq<char>, Seq<DeleteRecordsPart>)| delete_topic_sent(
                version,
                flexible,
                x,
            );
            let v = |x: (Seq<char>, Seq<DeleteRecordsPart>)| delete_topic_taken(
                version,
                flexible,
                x,
            );
            schema::field_fits(
                Kind::List(flexible, schema::kinds_of(items, f)),
                Value::List(schema::values_of(items, f)),
            ) ==> schema::list_taken::<(Seq<char>, Seq<DeleteRecordsPart>), WholeTopic<DeleteRecordsPart>>(items, f, v, version, flexible)
        }),
{
    let f = |x: (Seq<char>, Seq<DeleteRecordsPart>)| delete_topic_sent(version, flexible, x);
    let v = |x: (Seq<char>, Seq<DeleteRecordsPart>)| delete_topic_taken(version, flexible, x);
    if schema::field_fits(
        Kind::List(flexible, schema::kinds_of(items, f)),
        Value::List(schema::values_of(items, f)),
    ) {
        assert forall|i: int| 0 <= i < items.len() implies schema::taken::<WholeTopic<DeleteRecordsPart>>(
            f(#[trigger] items[i]),
            version,
            flexible,
            v(items[i]),
        ) by {
            law_delete_topic(items[i], version, flexible);
        }
        schema::lemma_sent_list::<(Seq<char>, Seq<DeleteRecordsPart>), WholeTopic<DeleteRecordsPart>>(
            items,
            f,
            v,
            version,
            flexible,
        );
    }
}

/// A topic with the numbers of its partitions, as a client sends it.
pub open spec fn plain_topic_sent(version: i16, flexible: bool, x: (Seq<char>, Seq<i32>)) -> Told {
    Told::new().text(flexible, x.0).list(
        flexible,
        x.1,
        |x: i32| number_sent(version, flexible, x),
    ).end(flexible)
}

/// A topic with the numbers of its partitions, as it is taken.
pub open spec fn plain_topic_taken(
    version: i16,
    flexible: bool,
    x: (Seq<char>, Seq<i32>),
) -> TopicInView<i32> {
    TopicInView {
        name: x.0,
        parts: x.1.map_values(|x: i32| number_taken(version, flexible, x)),
    }
}

/// A topic with the numbers of its partitions is taken as it was sent.
pub proof fn law_plain_topic(x: (Seq<char>, Seq<i32>), version: i16, flexible: bool)
    ensures
        schema::taken::<LooseTopic<i32>>(
            plain_topic_sent(version, flexible, x),
            version,
            flexible,
            plain_topic_taken(version, flexible, x),
        ),
{
    broadcast use schema::group_sent;

    if plain_topic_sent(version, flexible, x).fits() {
        lemma_many_number(x.1, version, flexible);
    }
}

proof fn lemma_many_plain_topic(items: Seq<(Seq<char>, Seq<i32>)>, version: i16, flexible: bool)
    ensures
        ({
            let f = |x: (Seq<char>, Seq<i32>)| plain_topic_sent(version, flexible, x);
            let v = |x: (Seq<char>, Seq<i32>)| plain_topic_taken(version, flexible, x);
            schema::field_fits(
                Kind::List(flexible, schema::kinds_of(items, f)),
                Value::List(schema::values_of(items, f)),
            ) ==> schema::list_taken::<(Seq<char>, Seq<i32>), LooseTopic<i32>>(items, f, v, version, flexible)
        }),
{
    let f = |x: (Seq<char>, Seq<i32>)| plain_topic_sent(version, flexible, x);
    let v = |x: (Seq<char>, Seq<i32>)| plain_topic_taken(version, flexible, x);
    if schema::field_fits(
        Kind::List(flexible, schema::kinds_of(items, f)),
        Value::List(schema::values_of(items, f)),
    ) {
        assert forall|i: int| 0 <= i < items.len() implies schema::taken::<LooseTopic<i32>>(
            f(#[trigger] items[i]),
            version,
            flexible,
            v(items[i]),
        ) by {
            law_plain_topic(items[i], version, flexible);
        }
        schema::lemma_sent_list::<(Seq<char>, Seq<i32>), LooseTopic<i32>>(
            items,
            f,
            v,
            version,
            flexible,
        );
    }
}

/// A topic of an OffsetDelete request with the numbers of its partitions, as a client sends it.
pub open spec fn whole_topic_sent(version: i16, flexible: bool, x: (Seq<char>, Seq<i32>)) -> Told {
    Told::new().text(flexible, x.0).list(
        flexible,
        x.1,
        |x: i32| number_sent(version, flexible, x),
    ).end(flexible)
}

/// A topic of an OffsetDelete request with the numbers of its partitions, as it is taken.
pub open spec fn whole_topic_taken(
    version: i16,
    flexible: bool,
    x: (Seq<char>, Seq<i32>),
) -> TopicInView<i32> {
    TopicInView {
        name: x.0,
        parts: x.1.map_values(|x: i32| number_taken(version, flexible, x)),
    }
}

/// A topic of an OffsetDelete request with the numbers of its partitions is taken as it was
/// sent.
pub proof fn law_whole_topic(x: (Seq<char>, Seq<i32>), version: i16, flexible: bool)
    ensures
        schema::taken::<WholeTopic<i32>>(
            whole_topic_sent(version, flexible, x),
            version,
            flexible,
            whole_topic_taken(version, flexible, x),
        ),
{
    broadcast use schema::group_sent;

    if whole_topic_sent(version, flexible, x).fits() {
        lemma_many_number(x.1, version, flexible);
    }
}

proof fn lemma_many_whole_topic(items: Seq<(Seq<char>, Seq<i32>)>, version: i16, flexible: bool)
    ensures
        ({
            let f = |x: (Seq<char>, Seq<i32>)| whole_topic_sent(version, flexible, x);
            let v = |x: (Seq<char>, Seq<i32>)| whole_topic_taken(version, flexible, x);
            schema::field_fits(
                Kind::List(flexible, schema::kinds_of(items, f)),
                Value::List(schema::values_of(items, f)),
            ) ==> schema::list_taken::<(Seq<char>, Seq<i32>), WholeTopic<i32>>(items, f, v, version, flexible)
        }),
{
    let f = |x: (Seq<char>, Seq<i32>)| whole_topic_sent(version, flexible, x);
    let v = |x: (Seq<char>, Seq<i32>)| whole_topic_taken(version, flexible, x);
    if schema::field_fits(
        Kind::List(flexible, schema::kinds_of(items, f)),
        Value::List(schema::values_of(items, f)),
    ) {
        assert forall|i: int| 0 <= i < items.len() implies schema::taken::<WholeTopic<i32>>(
            f(#[trigger] items[i]),
            version,
            flexible,
            v(items[i]),
        ) by {
            law_whole_topic(items[i], version, flexible);
        }
        schema::lemma_sent_list::<(Seq<char>, Seq<i32>), WholeTopic<i32>>(
            items,
            f,
            v,
            version,
            flexible,
        );
    }
}

/// A topic of a DescribeLogDirs request, as a client sends it.
pub open spec fn log_dir_ask_sent(version: i16, flexible: bool, x: (Seq<char>, Seq<i32>)) -> Told {
    Told::new().text(flexible, x.0).list(
        flexible,
        x.1,
        |x: i32| number_sent(version, flexible, x),
    ).end(flexible)
}

/// A topic of a DescribeLogDirs request, as it is taken.
pub open spec fn log_dir_ask_taken(
    version: i16,
    flexible: bool,
    x: (Seq<char>, Seq<i32>),
) -> TopicInView<i32> {
    TopicInView {
        name: x.0,
        parts: x.1.map_values(|x: i32| number_taken(version, flexible, x)),
    }
}

/// A topic of a DescribeLogDirs request is taken as it was sent.
pub proof fn law_log_dir_ask(x: (Seq<char>, Seq<i32>), version: i16, flexible: bool)
    ensures
        schema::taken::<LogDirAsk>(
            log_dir_ask_sent(version, flexible, x),
            version,
            flexible,
            log_dir_ask_taken(version, flexible, x),
        ),
{
    broadcast use schema::group_sent;

    if log_dir_ask_sent(version, flexible, x).fits() {
        lemma_many_number(x.1, version, flexible);
    }
}

proof fn lemma_many_log_dir_ask(items: Seq<(Seq<char>, Seq<i32>)>, version: i16, flexible: bool)
    ensures
        ({
            let f = |x: (Seq<char>, Seq<i32>)| log_dir_ask_sent(version, flexible, x);
            let v = |x: (Seq<char>, Seq<i32>)| log_dir_ask_taken(version, flexible, x);
            schema::field_fits(
                Kind::List(flexible, schema::kinds_of(items, f)),
                Value::List(schema::values_of(items, f)),
            ) ==> schema::list_taken::<(Seq<char>, Seq<i32>), LogDirAsk>(items, f, v, version, flexible)
        }),
{
    let f = |x: (Seq<char>, Seq<i32>)| log_dir_ask_sent(version, flexible, x);
    let v = |x: (Seq<char>, Seq<i32>)| log_dir_ask_taken(version, flexible, x);
    if schema::field_fits(
        Kind::List(flexible, schema::kinds_of(items, f)),
        Value::List(schema::values_of(items, f)),
    ) {
        assert forall|i: int| 0 <= i < items.len() implies schema::taken::<LogDirAsk>(
            f(#[trigger] items[i]),
            version,
            flexible,
            v(items[i]),
        ) by {
            law_log_dir_ask(items[i], version, flexible);
        }
        schema::lemma_sent_list::<(Seq<char>, Seq<i32>), LogDirAsk>(items, f, v, version, flexible);
    }
}

/// A protocol of a JoinGroup request with its metadata, as a client sends it.
pub open spec fn join_protocol_sent(
    version: i16,
    flexible: bool,
    x: (Seq<char>, Option<Seq<u8>>),
) -> Told {
    Told::new().text(flexible, x.0).blob(flexible, x.1).end(flexible)
}

/// A protocol of a JoinGroup request with its metadata, as it is taken.
pub open spec fn join_protocol_taken(
    version: i16,
    flexible: bool,
    x: (Seq<char>, Option<Seq<u8>>),
) -> JoinProtocolView {
    JoinProtocolView {
        name: x.0,
        metadata: match x.1 {
            Some(d) => d,
            None => Seq::empty(),
        },
    }
}

/// A protocol of a JoinGroup request with its metadata is taken as it was sent.
pub proof fn law_join_protocol(x: (Seq<char>, Option<Seq<u8>>), version: i16, flexible: bool)
    ensures
        schema::taken::<JoinProtocol>(
            join_protocol_sent(version, flexible, x),
            version,
            flexible,
            join_protocol_taken(version, flexible, x),
        ),
{
    broadcast use schema::group_sent;

}

proof fn lemma_many_join_protocol(
    items: Seq<(Seq<char>, Option<Seq<u8>>)>,
    version: i16,
    flexible: bool,
)
    ensures
        ({
            let f = |x: (Seq<char>, Option<Seq<u8>>)| join_protocol_sent(version, flexible, x);
            let v = |x: (Seq<char>, Option<Seq<u8>>)| join_protocol_taken(version, flexible, x);
            schema::field_fits(
                Kind::List(flexible, schema::kinds_of(items, f)),
                Value::List(schema::values_of(items, f)),
            ) ==> schema::list_taken::<(Seq<char>, Option<Seq<u8>>), JoinProtocol>(items, f, v, version, flexible)
        }),
{
    let f = |x: (Seq<char>, Option<Seq<u8>>)| join_protocol_sent(version, flexible, x);
    let v = |x: (Seq<char>, Option<Seq<u8>>)| join_protocol_taken(version, flexible, x);
    if schema::field_fits(
        Kind::List(flexible, schema::kinds_of(items, f)),
        Value::List(schema::values_of(items, f)),
    ) {
        assert forall|i: int| 0 <= i < items.len() implies schema::taken::<JoinProtocol>(
            f(#[trigger] items[i]),
            version,
            flexible,
            v(items[i]),
        ) by {
            law_join_protocol(items[i], version, flexible);
        }
        schema::lemma_sent_list::<(Seq<char>, Option<Seq<u8>>), JoinProtocol>(
            items,
            f,
            v,
            version,
            flexible,
        );
    }
}

/// The assignment of a member in a SyncGroup request, as a client sends it.
pub open spec fn sync_assignment_sent(
    version: i16,
    flexible: bool,
    x: (Seq<char>, Option<Seq<u8>>),
) -> Told {
    Told::new().text(flexible, x.0).blob(flexible, x.1).end(flexible)
}

/// The assignment of a member in a SyncGroup request, as it is taken.
pub open spec fn sync_assignment_taken(
    version: i16,
    flexible: bool,
    x: (Seq<char>, Option<Seq<u8>>),
) -> SyncAssignmentView {
    SyncAssignmentView {
        member_id: x.0,
        assignment: match x.1 {
            Some(d) => d,
            None => Seq::empty(),
        },
    }
}

/// The assignment of a member in a SyncGroup request is taken as it was sent.
pub proof fn law_sync_assignment(x: (Seq<char>, Option<Seq<u8>>), version: i16, flexible: bool)
    ensures
        schema::taken::<SyncAssignment>(
            sync_assignment_sent(version, flexible, x),
            version,
            flexible,
            sync_assignment_taken(version, flexible, x),
        ),
{
    broadcast use schema::group_sent;

}

proof fn lemma_many_sync_assignment(
    items: Seq<(Seq<char>, Option<Seq<u8>>)>,
    version: i16,
    flexible: bool,
)
    ensures
        ({
            let f = |x: (Seq<char>, Option<Seq<u8>>)| sync_assignment_sent(version, flexible, x);
            let v = |x: (Seq<char>, Option<Seq<u8>>)| sync_assignment_taken(version, flexible, x);
            schema::field_fits(
                Kind::List(flexible, schema::kinds_of(items, f)),
                Value::List(schema::values_of(items, f)),
            ) ==> schema::list_taken::<(Seq<char>, Option<Seq<u8>>), SyncAssignment>(items, f, v, version, flexible)
        }),
{
    let f = |x: (Seq<char>, Option<Seq<u8>>)| sync_assignment_sent(version, flexible, x);
    let v = |x: (Seq<char>, Option<Seq<u8>>)| sync_assignment_taken(version, flexible, x);
    if schema::field_fits(
        Kind::List(flexible, schema::kinds_of(items, f)),
        Value::List(schema::values_of(items, f)),
    ) {
        assert forall|i: int| 0 <= i < items.len() implies schema::taken::<SyncAssignment>(
            f(#[trigger] items[i]),
            version,
            flexible,
            v(items[i]),
        ) by {
            law_sync_assignment(items[i], version, flexible);
        }
        schema::lemma_sent_list::<(Seq<char>, Option<Seq<u8>>), SyncAssignment>(
            items,
            f,
            v,
            version,
            flexible,
        );
    }
}

/// Whether a member of a LeaveGroup request says who it is.
pub open spec fn is_somebody(x: (Seq<char>, Option<Seq<char>>, Option<Seq<char>>)) -> bool {
    x.0.len() > 0 || or_empty(x.1).len() > 0
}

/// A member of a LeaveGroup request, as a client sends it: its id, its instance, and why it
/// leaves.
pub open spec fn leave_member_sent(
    version: i16,
    flexible: bool,
    x: (Seq<char>, Option<Seq<char>>, Option<Seq<char>>),
) -> Told {
    let t = Told::new().text(flexible, x.0).opt_text(flexible, x.1);
    let t = if flexible && version >= 5 {
        t.opt_text(true, x.2)
    } else {
        t
    };
    t.end(flexible)
}

/// A member of a LeaveGroup request is taken as it was sent: under its id, or else under the
/// one that its instance has.
pub proof fn law_leave_member(
    x: (Seq<char>, Option<Seq<char>>, Option<Seq<char>>),
    version: i16,
    flexible: bool,
)
    requires
        is_somebody(x),
    ensures
        schema::taken::<LeaveMember>(
            leave_member_sent(version, flexible, x),
            version,
            flexible,
            JoinMemberView {
                member_id: if x.0.len() > 0 {
                    x.0
                } else {
                    membership::static_id(or_empty(x.1))
                },
                instance_id: x.1,
            },
        ),
{
    broadcast use schema::group_sent;

}

/// A topic of a Metadata request, under its identifier or its name, as a client sends it.
pub open spec fn metadata_entry_sent(
    version: i16,
    flexible: bool,
    x: (Seq<u8>, Option<Seq<char>>),
) -> Told {
    if version >= 10 {
        Told::new().uuid(x.0).opt_text(true, x.1).end(true)
    } else {
        Told::new().text(flexible, or_empty(x.1)).end(flexible)
    }
}

/// A topic of a Metadata request, under its identifier or its name, as it is taken.
pub open spec fn metadata_entry_taken(
    version: i16,
    flexible: bool,
    x: (Seq<u8>, Option<Seq<char>>),
) -> MetadataEntryView {
    if version >= 10 {
        MetadataEntryView { uuid: x.0, name: x.1 }
    } else {
        MetadataEntryView { uuid: topic_id::zero_uuid(), name: Some(or_empty(x.1)) }
    }
}

/// A topic of a Metadata request, under its identifier or its name is taken as it was sent.
pub proof fn law_metadata_entry(x: (Seq<u8>, Option<Seq<char>>), version: i16, flexible: bool)
    ensures
        schema::taken::<MetadataEntry>(
            metadata_entry_sent(version, flexible, x),
            version,
            flexible,
            metadata_entry_taken(version, flexible, x),
        ),
{
    broadcast use schema::group_sent;

}

proof fn lemma_many_metadata_entry(
    items: Seq<(Seq<u8>, Option<Seq<char>>)>,
    version: i16,
    flexible: bool,
)
    ensures
        ({
            let f = |x: (Seq<u8>, Option<Seq<char>>)| metadata_entry_sent(version, flexible, x);
            let v = |x: (Seq<u8>, Option<Seq<char>>)| metadata_entry_taken(version, flexible, x);
            schema::field_fits(
                Kind::List(flexible, schema::kinds_of(items, f)),
                Value::List(schema::values_of(items, f)),
            ) ==> schema::list_taken::<(Seq<u8>, Option<Seq<char>>), MetadataEntry>(items, f, v, version, flexible)
        }),
{
    let f = |x: (Seq<u8>, Option<Seq<char>>)| metadata_entry_sent(version, flexible, x);
    let v = |x: (Seq<u8>, Option<Seq<char>>)| metadata_entry_taken(version, flexible, x);
    if schema::field_fits(
        Kind::List(flexible, schema::kinds_of(items, f)),
        Value::List(schema::values_of(items, f)),
    ) {
        assert forall|i: int| 0 <= i < items.len() implies schema::taken::<MetadataEntry>(
            f(#[trigger] items[i]),
            version,
            flexible,
            v(items[i]),
        ) by {
            law_metadata_entry(items[i], version, flexible);
        }
        schema::lemma_sent_list::<(Seq<u8>, Option<Seq<char>>), MetadataEntry>(
            items,
            f,
            v,
            version,
            flexible,
        );
    }
}

/// An offset as a client commits it.
pub struct CommitWish {
    pub partition: i32,
    pub offset: i64,
    pub leader_epoch: i32,
    /// The time of the commit, which only one version has.
    pub time: i64,
    pub metadata: Option<Seq<char>>,
}

/// A partition of an OffsetCommit request, with the offset and what goes with it, as a client
/// sends it.
pub open spec fn commit_part_sent(version: i16, flexible: bool, x: CommitWish) -> Told {
    let t = Told::new().i32(x.partition as int).i64(x.offset as int);
    let t = if version >= 6 || flexible {
        t.i32(x.leader_epoch as int)
    } else {
        t
    };
    let t = if version == 1 {
        t.i64(x.time as int)
    } else {
        t
    };
    let t = if flexible {
        t.opt_text(true, x.metadata)
    } else {
        t.text(false, or_empty(x.metadata))
    };
    t.end(flexible)
}

/// A partition of an OffsetCommit request, with the offset and what goes with it, as it is
/// taken.
pub open spec fn commit_part_taken(version: i16, flexible: bool, x: CommitWish) -> CommitPartView {
    CommitPartView {
        partition: x.partition,
        offset: if x.offset < 0 {
            0
        } else {
            x.offset as u64
        },
        leader_epoch: if version >= 6 || flexible {
            x.leader_epoch
        } else {
            (-1int) as i32
        },
        metadata: or_empty(x.metadata),
    }
}

/// A partition of an OffsetCommit request, with the offset and what goes with it is taken as it
/// was sent.
#[verifier::spinoff_prover]
#[verifier::rlimit(80)]
pub proof fn law_commit_part(x: CommitWish, version: i16, flexible: bool)
    ensures
        schema::taken::<CommitPart>(
            commit_part_sent(version, flexible, x),
            version,
            flexible,
            commit_part_taken(version, flexible, x),
        ),
{
    broadcast use schema::group_sent;

    if commit_part_sent(version, flexible, x).fits() {
        let b = |r: Src| schema::sent(commit_part_sent(version, flexible, x), r);
        assert forall|r: Src| #[trigger] b(r).skip(12) == b(r).skip(4).skip(8) by {
            assert(b(r).skip(12).bytes =~= b(r).skip(4).skip(8).bytes);
        }
        assert forall|r: Src| #[trigger]
            CommitPart::at(
                schema::sent(commit_part_sent(version, flexible, x), r),
                version,
                flexible,
            )
                == wire::keep(commit_part_taken(version, flexible, x), r) by {
            assert(b(r).skip(12) == b(r).skip(4).skip(8));
        }
    }
}

proof fn lemma_many_commit_part(items: Seq<CommitWish>, version: i16, flexible: bool)
    ensures
        ({
            let f = |x: CommitWish| commit_part_sent(version, flexible, x);
            let v = |x: CommitWish| commit_part_taken(version, flexible, x);
            schema::field_fits(
                Kind::List(flexible, schema::kinds_of(items, f)),
                Value::List(schema::values_of(items, f)),
            ) ==> schema::list_taken::<CommitWish, CommitPart>(items, f, v, version, flexible)
        }),
{
    let f = |x: CommitWish| commit_part_sent(version, flexible, x);
    let v = |x: CommitWish| commit_part_taken(version, flexible, x);
    if schema::field_fits(
        Kind::List(flexible, schema::kinds_of(items, f)),
        Value::List(schema::values_of(items, f)),
    ) {
        assert forall|i: int| 0 <= i < items.len() implies schema::taken::<CommitPart>(
            f(#[trigger] items[i]),
            version,
            flexible,
            v(items[i]),
        ) by {
            law_commit_part(items[i], version, flexible);
        }
        schema::lemma_sent_list::<CommitWish, CommitPart>(items, f, v, version, flexible);
    }
}

/// A topic of an OffsetCommit request, as a client sends it.
pub open spec fn commit_topic_sent(
    version: i16,
    flexible: bool,
    x: (TopicName, Seq<CommitWish>),
) -> Told {
    topic_name_sent(Told::new(), flexible, version >= 10, x.0).list(
        flexible,
        x.1,
        |x: CommitWish| commit_part_sent(version, flexible, x),
    ).end(flexible)
}

/// A topic of an OffsetCommit request, as it is taken.
pub open spec fn commit_topic_taken(
    version: i16,
    flexible: bool,
    x: (TopicName, Seq<CommitWish>),
) -> WireTopicView<CommitPartView> {
    WireTopicView {
        wire: topic_name_taken(version >= 10, x.0),
        parts: x.1.map_values(|x: CommitWish| commit_part_taken(version, flexible, x)),
    }
}

/// A topic of an OffsetCommit request is taken as it was sent.
pub proof fn law_commit_topic(x: (TopicName, Seq<CommitWish>), version: i16, flexible: bool)
    ensures
        schema::taken::<WireTopicIn<CommitPart>>(
            commit_topic_sent(version, flexible, x),
            version,
            flexible,
            commit_topic_taken(version, flexible, x),
        ),
{
    broadcast use schema::group_sent;

    if commit_topic_sent(version, flexible, x).fits() {
        lemma_many_commit_part(x.1, version, flexible);
    }
}

proof fn lemma_many_commit_topic(
    items: Seq<(TopicName, Seq<CommitWish>)>,
    version: i16,
    flexible: bool,
)
    ensures
        ({
            let f = |x: (TopicName, Seq<CommitWish>)| commit_topic_sent(version, flexible, x);
            let v = |x: (TopicName, Seq<CommitWish>)| commit_topic_taken(version, flexible, x);
            schema::field_fits(
                Kind::List(flexible, schema::kinds_of(items, f)),
                Value::List(schema::values_of(items, f)),
            ) ==> schema::list_taken::<(TopicName, Seq<CommitWish>), WireTopicIn<CommitPart>>(items, f, v, version, flexible)
        }),
{
    let f = |x: (TopicName, Seq<CommitWish>)| commit_topic_sent(version, flexible, x);
    let v = |x: (TopicName, Seq<CommitWish>)| commit_topic_taken(version, flexible, x);
    if schema::field_fits(
        Kind::List(flexible, schema::kinds_of(items, f)),
        Value::List(schema::values_of(items, f)),
    ) {
        assert forall|i: int| 0 <= i < items.len() implies schema::taken::<WireTopicIn<CommitPart>>(
            f(#[trigger] items[i]),
            version,
            flexible,
            v(items[i]),
        ) by {
            law_commit_topic(items[i], version, flexible);
        }
        schema::lemma_sent_list::<(TopicName, Seq<CommitWish>), WireTopicIn<CommitPart>>(
            items,
            f,
            v,
            version,
            flexible,
        );
    }
}

/// A topic of an OffsetFetch request, as a client sends it.
pub open spec fn offset_topic_sent(version: i16, flexible: bool, x: (TopicName, Seq<i32>)) -> Told {
    topic_name_sent(Told::new(), flexible, version >= 10, x.0).list(
        flexible,
        x.1,
        |x: i32| number_sent(version, flexible, x),
    ).end(flexible)
}

/// A topic of an OffsetFetch request, as it is taken.
pub open spec fn offset_topic_taken(
    version: i16,
    flexible: bool,
    x: (TopicName, Seq<i32>),
) -> WireTopicView<i32> {
    WireTopicView {
        wire: topic_name_taken(version >= 10, x.0),
        parts: x.1.map_values(|x: i32| number_taken(version, flexible, x)),
    }
}

/// A topic of an OffsetFetch request is taken as it was sent.
pub proof fn law_offset_topic(x: (TopicName, Seq<i32>), version: i16, flexible: bool)
    ensures
        schema::taken::<WireTopicIn<i32>>(
            offset_topic_sent(version, flexible, x),
            version,
            flexible,
            offset_topic_taken(version, flexible, x),
        ),
{
    broadcast use schema::group_sent;

    if offset_topic_sent(version, flexible, x).fits() {
        lemma_many_number(x.1, version, flexible);
    }
}

proof fn lemma_many_offset_topic(items: Seq<(TopicName, Seq<i32>)>, version: i16, flexible: bool)
    ensures
        ({
            let f = |x: (TopicName, Seq<i32>)| offset_topic_sent(version, flexible, x);
            let v = |x: (TopicName, Seq<i32>)| offset_topic_taken(version, flexible, x);
            schema::field_fits(
                Kind::List(flexible, schema::kinds_of(items, f)),
                Value::List(schema::values_of(items, f)),
            ) ==> schema::list_taken::<(TopicName, Seq<i32>), WireTopicIn<i32>>(items, f, v, version, flexible)
        }),
{
    let f = |x: (TopicName, Seq<i32>)| offset_topic_sent(version, flexible, x);
    let v = |x: (TopicName, Seq<i32>)| offset_topic_taken(version, flexible, x);
    if schema::field_fits(
        Kind::List(flexible, schema::kinds_of(items, f)),
        Value::List(schema::values_of(items, f)),
    ) {
        assert forall|i: int| 0 <= i < items.len() implies schema::taken::<WireTopicIn<i32>>(
            f(#[trigger] items[i]),
            version,
            flexible,
            v(items[i]),
        ) by {
            law_offset_topic(items[i], version, flexible);
        }
        schema::lemma_sent_list::<(TopicName, Seq<i32>), WireTopicIn<i32>>(
            items,
            f,
            v,
            version,
            flexible,
        );
    }
}

/// A resource of a DescribeConfigs request, with the settings that are asked for, as a client
/// sends it.
pub open spec fn config_resource_sent(
    version: i16,
    flexible: bool,
    x: (i8, Seq<char>, Seq<Seq<char>>),
) -> Told {
    Told::new().i8(x.0 as int).text(flexible, x.1).list(
        flexible,
        x.2,
        |x: Seq<char>| text_sent(version, flexible, x),
    ).end(flexible)
}

/// A resource of a DescribeConfigs request, with the settings that are asked for, as it is
/// taken.
pub open spec fn config_resource_taken(
    version: i16,
    flexible: bool,
    x: (i8, Seq<char>, Seq<Seq<char>>),
) -> ConfigResourceView {
    ConfigResourceView {
        rtype: x.0,
        name: x.1,
        keys: Some(x.2.map_values(|x: Seq<char>| text_taken(version, flexible, x))),
    }
}

/// A resource of a DescribeConfigs request, with the settings that are asked for is taken as it
/// was sent.
pub proof fn law_config_resource(x: (i8, Seq<char>, Seq<Seq<char>>), version: i16, flexible: bool)
    ensures
        schema::taken::<ConfigResource>(
            config_resource_sent(version, flexible, x),
            version,
            flexible,
            config_resource_taken(version, flexible, x),
        ),
{
    broadcast use schema::group_sent;

    if config_resource_sent(version, flexible, x).fits() {
        lemma_many_text(x.2, version, flexible);
    }
}

proof fn lemma_many_config_resource(
    items: Seq<(i8, Seq<char>, Seq<Seq<char>>)>,
    version: i16,
    flexible: bool,
)
    ensures
        ({
            let f = |x: (i8, Seq<char>, Seq<Seq<char>>)| config_resource_sent(version, flexible, x);
            let v = |x: (i8, Seq<char>, Seq<Seq<char>>)| config_resource_taken(
                version,
                flexible,
                x,
            );
            schema::field_fits(
                Kind::List(flexible, schema::kinds_of(items, f)),
                Value::List(schema::values_of(items, f)),
            ) ==> schema::list_taken::<(i8, Seq<char>, Seq<Seq<char>>), ConfigResource>(items, f, v, version, flexible)
        }),
{
    let f = |x: (i8, Seq<char>, Seq<Seq<char>>)| config_resource_sent(version, flexible, x);
    let v = |x: (i8, Seq<char>, Seq<Seq<char>>)| config_resource_taken(version, flexible, x);
    if schema::field_fits(
        Kind::List(flexible, schema::kinds_of(items, f)),
        Value::List(schema::values_of(items, f)),
    ) {
        assert forall|i: int| 0 <= i < items.len() implies schema::taken::<ConfigResource>(
            f(#[trigger] items[i]),
            version,
            flexible,
            v(items[i]),
        ) by {
            law_config_resource(items[i], version, flexible);
        }
        schema::lemma_sent_list::<(i8, Seq<char>, Seq<Seq<char>>), ConfigResource>(
            items,
            f,
            v,
            version,
            flexible,
        );
    }
}

/// A setting of an AlterConfigs request, as a client sends it.
pub open spec fn alter_entry_sent(
    version: i16,
    flexible: bool,
    x: (Seq<char>, Option<Seq<char>>),
) -> Told {
    Told::new().text(flexible, x.0).opt_text(flexible, x.1).end(flexible)
}

/// A setting of an AlterConfigs request, as it is taken.
pub open spec fn alter_entry_taken(
    version: i16,
    flexible: bool,
    x: (Seq<char>, Option<Seq<char>>),
) -> (Seq<char>, Seq<char>) {
    (x.0, or_empty(x.1))
}

/// A setting of an AlterConfigs request is taken as it was sent.
pub proof fn law_alter_entry(x: (Seq<char>, Option<Seq<char>>), version: i16, flexible: bool)
    ensures
        schema::taken::<AlterEntry>(
            alter_entry_sent(version, flexible, x),
            version,
            flexible,
            alter_entry_taken(version, flexible, x),
        ),
{
    broadcast use schema::group_sent;

}

proof fn lemma_many_alter_entry(
    items: Seq<(Seq<char>, Option<Seq<char>>)>,
    version: i16,
    flexible: bool,
)
    ensures
        ({
            let f = |x: (Seq<char>, Option<Seq<char>>)| alter_entry_sent(version, flexible, x);
            let v = |x: (Seq<char>, Option<Seq<char>>)| alter_entry_taken(version, flexible, x);
            schema::field_fits(
                Kind::List(flexible, schema::kinds_of(items, f)),
                Value::List(schema::values_of(items, f)),
            ) ==> schema::list_taken::<(Seq<char>, Option<Seq<char>>), AlterEntry>(items, f, v, version, flexible)
        }),
{
    let f = |x: (Seq<char>, Option<Seq<char>>)| alter_entry_sent(version, flexible, x);
    let v = |x: (Seq<char>, Option<Seq<char>>)| alter_entry_taken(version, flexible, x);
    if schema::field_fits(
        Kind::List(flexible, schema::kinds_of(items, f)),
        Value::List(schema::values_of(items, f)),
    ) {
        assert forall|i: int| 0 <= i < items.len() implies schema::taken::<AlterEntry>(
            f(#[trigger] items[i]),
            version,
            flexible,
            v(items[i]),
        ) by {
            law_alter_entry(items[i], version, flexible);
        }
        schema::lemma_sent_list::<(Seq<char>, Option<Seq<char>>), AlterEntry>(
            items,
            f,
            v,
            version,
            flexible,
        );
    }
}

/// A setting of an IncrementalAlterConfigs request, with what is to be done to it, as a client
/// sends it.
pub open spec fn config_op_sent(
    version: i16,
    flexible: bool,
    x: (Seq<char>, i8, Option<Seq<char>>),
) -> Told {
    Told::new().text(flexible, x.0).i8(x.1 as int).opt_text(flexible, x.2).end(flexible)
}

/// A setting of an IncrementalAlterConfigs request, with what is to be done to it, as it is
/// taken.
pub open spec fn config_op_taken(
    version: i16,
    flexible: bool,
    x: (Seq<char>, i8, Option<Seq<char>>),
) -> ConfigOpView {
    ConfigOpView::Entry { key: x.0, op: x.1, value: or_empty(x.2) }
}

/// A setting of an IncrementalAlterConfigs request, with what is to be done to it is taken as
/// it was sent.
pub proof fn law_config_op(x: (Seq<char>, i8, Option<Seq<char>>), version: i16, flexible: bool)
    ensures
        schema::taken::<ConfigOp>(
            config_op_sent(version, flexible, x),
            version,
            flexible,
            config_op_taken(version, flexible, x),
        ),
{
    broadcast use schema::group_sent;

}

proof fn lemma_many_config_op(
    items: Seq<(Seq<char>, i8, Option<Seq<char>>)>,
    version: i16,
    flexible: bool,
)
    ensures
        ({
            let f = |x: (Seq<char>, i8, Option<Seq<char>>)| config_op_sent(version, flexible, x);
            let v = |x: (Seq<char>, i8, Option<Seq<char>>)| config_op_taken(version, flexible, x);
            schema::field_fits(
                Kind::List(flexible, schema::kinds_of(items, f)),
                Value::List(schema::values_of(items, f)),
            ) ==> schema::list_taken::<(Seq<char>, i8, Option<Seq<char>>), ConfigOp>(items, f, v, version, flexible)
        }),
{
    let f = |x: (Seq<char>, i8, Option<Seq<char>>)| config_op_sent(version, flexible, x);
    let v = |x: (Seq<char>, i8, Option<Seq<char>>)| config_op_taken(version, flexible, x);
    if schema::field_fits(
        Kind::List(flexible, schema::kinds_of(items, f)),
        Value::List(schema::values_of(items, f)),
    ) {
        assert forall|i: int| 0 <= i < items.len() implies schema::taken::<ConfigOp>(
            f(#[trigger] items[i]),
            version,
            flexible,
            v(items[i]),
        ) by {
            law_config_op(items[i], version, flexible);
        }
        schema::lemma_sent_list::<(Seq<char>, i8, Option<Seq<char>>), ConfigOp>(
            items,
            f,
            v,
            version,
            flexible,
        );
    }
}

/// A resource of an AlterConfigs request, as a client sends it.
pub open spec fn altered_sent(
    version: i16,
    flexible: bool,
    x: (i8, Seq<char>, Seq<(Seq<char>, Option<Seq<char>>)>),
) -> Told {
    Told::new().i8(x.0 as int).text(flexible, x.1).list(
        flexible,
        x.2,
        |x: (Seq<char>, Option<Seq<char>>)| alter_entry_sent(version, flexible, x),
    ).end(flexible)
}

/// A resource of an AlterConfigs request, as it is taken.
pub open spec fn altered_taken(
    version: i16,
    flexible: bool,
    x: (i8, Seq<char>, Seq<(Seq<char>, Option<Seq<char>>)>),
) -> AlteredView<(Seq<char>, Seq<char>)> {
    AlteredView {
        rtype: x.0,
        name: x.1,
        entries: x.2.map_values(
            |x: (Seq<char>, Option<Seq<char>>)| alter_entry_taken(version, flexible, x),
        ),
    }
}

/// A resource of an AlterConfigs request is taken as it was sent.
pub proof fn law_altered(
    x: (i8, Seq<char>, Seq<(Seq<char>, Option<Seq<char>>)>),
    version: i16,
    flexible: bool,
)
    ensures
        schema::taken::<AlteredResource<AlterEntry>>(
            altered_sent(version, flexible, x),
            version,
            flexible,
            altered_taken(version, flexible, x),
        ),
{
    broadcast use schema::group_sent;

    if altered_sent(version, flexible, x).fits() {
        lemma_many_alter_entry(x.2, version, flexible);
    }
}

proof fn lemma_many_altered(
    items: Seq<(i8, Seq<char>, Seq<(Seq<char>, Option<Seq<char>>)>)>,
    version: i16,
    flexible: bool,
)
    ensures
        ({
            let f = |x: (i8, Seq<char>, Seq<(Seq<char>, Option<Seq<char>>)>)| altered_sent(
                version,
                flexible,
                x,
            );
            let v = |x: (i8, Seq<char>, Seq<(Seq<char>, Option<Seq<char>>)>)| altered_taken(
                version,
                flexible,
                x,
            );
            schema::field_fits(
                Kind::List(flexible, schema::kinds_of(items, f)),
                Value::List(schema::values_of(items, f)),
            ) ==> schema::list_taken::<(i8, Seq<char>, Seq<(Seq<char>, Option<Seq<char>>)>), AlteredResource<AlterEntry>>(items, f, v, version, flexible)
        }),
{
    let f = |x: (i8, Seq<char>, Seq<(Seq<char>, Option<Seq<char>>)>)| altered_sent(
        version,
        flexible,
        x,
    );
    let v = |x: (i8, Seq<char>, Seq<(Seq<char>, Option<Seq<char>>)>)| altered_taken(
        version,
        flexible,
        x,
    );
    if schema::field_fits(
        Kind::List(flexible, schema::kinds_of(items, f)),
        Value::List(schema::values_of(items, f)),
    ) {
        assert forall|i: int| 0 <= i < items.len() implies schema::taken::<AlteredResource<AlterEntry>>(
            f(#[trigger] items[i]),
            version,
            flexible,
            v(items[i]),
        ) by {
            law_altered(items[i], version, flexible);
        }
        schema::lemma_sent_list::<(i8, Seq<char>, Seq<(Seq<char>, Option<Seq<char>>)>), AlteredResource<AlterEntry>>(
            items,
            f,
            v,
            version,
            flexible,
        );
    }
}

/// A resource of an IncrementalAlterConfigs request, as a client sends it.
pub open spec fn altered_ops_sent(
    version: i16,
    flexible: bool,
    x: (i8, Seq<char>, Seq<(Seq<char>, i8, Option<Seq<char>>)>),
) -> Told {
    Told::new().i8(x.0 as int).text(flexible, x.1).list(
        flexible,
        x.2,
        |x: (Seq<char>, i8, Option<Seq<char>>)| config_op_sent(version, flexible, x),
    ).end(flexible)
}

/// A resource of an IncrementalAlterConfigs request, as it is taken.
pub open spec fn altered_ops_taken(
    version: i16,
    flexible: bool,
    x: (i8, Seq<char>, Seq<(Seq<char>, i8, Option<Seq<char>>)>),
) -> AlteredView<ConfigOpView> {
    AlteredView {
        rtype: x.0,
        name: x.1,
        entries: x.2.map_values(
            |x: (Seq<char>, i8, Option<Seq<char>>)| config_op_taken(version, flexible, x),
        ),
    }
}

/// A resource of an IncrementalAlterConfigs request is taken as it was sent.
pub proof fn law_altered_ops(
    x: (i8, Seq<char>, Seq<(Seq<char>, i8, Option<Seq<char>>)>),
    version: i16,
    flexible: bool,
)
    ensures
        schema::taken::<AlteredResource<ConfigOp>>(
            altered_ops_sent(version, flexible, x),
            version,
            flexible,
            altered_ops_taken(version, flexible, x),
        ),
{
    broadcast use schema::group_sent;

    if altered_ops_sent(version, flexible, x).fits() {
        lemma_many_config_op(x.2, version, flexible);
    }
}

proof fn lemma_many_altered_ops(
    items: Seq<(i8, Seq<char>, Seq<(Seq<char>, i8, Option<Seq<char>>)>)>,
    version: i16,
    flexible: bool,
)
    ensures
        ({
            let f = |x: (i8, Seq<char>, Seq<(Seq<char>, i8, Option<Seq<char>>)>)| altered_ops_sent(
                version,
                flexible,
                x,
            );
            let v = |x: (i8, Seq<char>, Seq<(Seq<char>, i8, Option<Seq<char>>)>)| altered_ops_taken(
                version,
                flexible,
                x,
            );
            schema::field_fits(
                Kind::List(flexible, schema::kinds_of(items, f)),
                Value::List(schema::values_of(items, f)),
            ) ==> schema::list_taken::<(i8, Seq<char>, Seq<(Seq<char>, i8, Option<Seq<char>>)>), AlteredResource<ConfigOp>>(items, f, v, version, flexible)
        }),
{
    let f = |x: (i8, Seq<char>, Seq<(Seq<char>, i8, Option<Seq<char>>)>)| altered_ops_sent(
        version,
        flexible,
        x,
    );
    let v = |x: (i8, Seq<char>, Seq<(Seq<char>, i8, Option<Seq<char>>)>)| altered_ops_taken(
        version,
        flexible,
        x,
    );
    if schema::field_fits(
        Kind::List(flexible, schema::kinds_of(items, f)),
        Value::List(schema::values_of(items, f)),
    ) {
        assert forall|i: int| 0 <= i < items.len() implies schema::taken::<AlteredResource<ConfigOp>>(
            f(#[trigger] items[i]),
            version,
            flexible,
            v(items[i]),
        ) by {
            law_altered_ops(items[i], version, flexible);
        }
        schema::lemma_sent_list::<(i8, Seq<char>, Seq<(Seq<char>, i8, Option<Seq<char>>)>), AlteredResource<ConfigOp>>(
            items,
            f,
            v,
            version,
            flexible,
        );
    }
}

/// A user of a DescribeUserScramCredentials request, as a client sends it.
pub open spec fn tagged_name_sent(version: i16, flexible: bool, x: Seq<char>) -> Told {
    Told::new().text(true, x).end(true)
}

/// A user of a DescribeUserScramCredentials request, as it is taken.
pub open spec fn tagged_name_taken(version: i16, flexible: bool, x: Seq<char>) -> Seq<char> {
    x
}

/// A user of a DescribeUserScramCredentials request is taken as it was sent.
pub proof fn law_tagged_name(x: Seq<char>, version: i16, flexible: bool)
    ensures
        schema::taken::<TaggedName>(
            tagged_name_sent(version, flexible, x),
            version,
            flexible,
            tagged_name_taken(version, flexible, x),
        ),
{
    broadcast use schema::group_sent;

}

proof fn lemma_many_tagged_name(items: Seq<Seq<char>>, version: i16, flexible: bool)
    ensures
        ({
            let f = |x: Seq<char>| tagged_name_sent(version, flexible, x);
            let v = |x: Seq<char>| tagged_name_taken(version, flexible, x);
            schema::field_fits(
                Kind::List(flexible, schema::kinds_of(items, f)),
                Value::List(schema::values_of(items, f)),
            ) ==> schema::list_taken::<Seq<char>, TaggedName>(items, f, v, version, flexible)
        }),
{
    let f = |x: Seq<char>| tagged_name_sent(version, flexible, x);
    let v = |x: Seq<char>| tagged_name_taken(version, flexible, x);
    if schema::field_fits(
        Kind::List(flexible, schema::kinds_of(items, f)),
        Value::List(schema::values_of(items, f)),
    ) {
        assert forall|i: int| 0 <= i < items.len() implies schema::taken::<TaggedName>(
            f(#[trigger] items[i]),
            version,
            flexible,
            v(items[i]),
        ) by {
            law_tagged_name(items[i], version, flexible);
        }
        schema::lemma_sent_list::<Seq<char>, TaggedName>(items, f, v, version, flexible);
    }
}

/// A credential that is to be deleted, as a client sends it.
pub open spec fn scram_deletion_sent(version: i16, flexible: bool, x: (Seq<char>, i8)) -> Told {
    Told::new().text(true, x.0).i8(x.1 as int).end(true)
}

/// A credential that is to be deleted, as it is taken.
pub open spec fn scram_deletion_taken(
    version: i16,
    flexible: bool,
    x: (Seq<char>, i8),
) -> (Seq<char>, i8) {
    x
}

/// A credential that is to be deleted is taken as it was sent.
pub proof fn law_scram_deletion(x: (Seq<char>, i8), version: i16, flexible: bool)
    ensures
        schema::taken::<ScramDeletion>(
            scram_deletion_sent(version, flexible, x),
            version,
            flexible,
            scram_deletion_taken(version, flexible, x),
        ),
{
    broadcast use schema::group_sent;

}

proof fn lemma_many_scram_deletion(items: Seq<(Seq<char>, i8)>, version: i16, flexible: bool)
    ensures
        ({
            let f = |x: (Seq<char>, i8)| scram_deletion_sent(version, flexible, x);
            let v = |x: (Seq<char>, i8)| scram_deletion_taken(version, flexible, x);
            schema::field_fits(
                Kind::List(flexible, schema::kinds_of(items, f)),
                Value::List(schema::values_of(items, f)),
            ) ==> schema::list_taken::<(Seq<char>, i8), ScramDeletion>(items, f, v, version, flexible)
        }),
{
    let f = |x: (Seq<char>, i8)| scram_deletion_sent(version, flexible, x);
    let v = |x: (Seq<char>, i8)| scram_deletion_taken(version, flexible, x);
    if schema::field_fits(
        Kind::List(flexible, schema::kinds_of(items, f)),
        Value::List(schema::values_of(items, f)),
    ) {
        assert forall|i: int| 0 <= i < items.len() implies schema::taken::<ScramDeletion>(
            f(#[trigger] items[i]),
            version,
            flexible,
            v(items[i]),
        ) by {
            law_scram_deletion(items[i], version, flexible);
        }
        schema::lemma_sent_list::<(Seq<char>, i8), ScramDeletion>(items, f, v, version, flexible);
    }
}

/// A credential that is to be made or replaced, as a client sends it.
pub open spec fn scram_upsertion_sent(version: i16, flexible: bool, x: UpsertionView) -> Told {
    Told::new().text(true, x.name).i8(x.mechanism as int).i32(x.iterations as int).blob(
        true,
        Some(x.salt),
    ).blob(true, Some(x.salted)).end(true)
}

/// A credential that is to be made or replaced, as it is taken.
pub open spec fn scram_upsertion_taken(
    version: i16,
    flexible: bool,
    x: UpsertionView,
) -> UpsertionView {
    x
}

/// A credential that is to be made or replaced is taken as it was sent.
pub proof fn law_scram_upsertion(x: UpsertionView, version: i16, flexible: bool)
    ensures
        schema::taken::<ScramUpsertion>(
            scram_upsertion_sent(version, flexible, x),
            version,
            flexible,
            scram_upsertion_taken(version, flexible, x),
        ),
{
    broadcast use schema::group_sent;

}

proof fn lemma_many_scram_upsertion(items: Seq<UpsertionView>, version: i16, flexible: bool)
    ensures
        ({
            let f = |x: UpsertionView| scram_upsertion_sent(version, flexible, x);
            let v = |x: UpsertionView| scram_upsertion_taken(version, flexible, x);
            schema::field_fits(
                Kind::List(flexible, schema::kinds_of(items, f)),
                Value::List(schema::values_of(items, f)),
            ) ==> schema::list_taken::<UpsertionView, ScramUpsertion>(items, f, v, version, flexible)
        }),
{
    let f = |x: UpsertionView| scram_upsertion_sent(version, flexible, x);
    let v = |x: UpsertionView| scram_upsertion_taken(version, flexible, x);
    if schema::field_fits(
        Kind::List(flexible, schema::kinds_of(items, f)),
        Value::List(schema::values_of(items, f)),
    ) {
        assert forall|i: int| 0 <= i < items.len() implies schema::taken::<ScramUpsertion>(
            f(#[trigger] items[i]),
            version,
            flexible,
            v(items[i]),
        ) by {
            law_scram_upsertion(items[i], version, flexible);
        }
        schema::lemma_sent_list::<UpsertionView, ScramUpsertion>(items, f, v, version, flexible);
    }
}

/// A feature of an UpdateFeatures request, with the level and the kind of the update, as a
/// client sends it.
pub open spec fn feature_sent(version: i16, flexible: bool, x: (Seq<char>, i16, i8)) -> Told {
    Told::new().text(true, x.0).i16(x.1 as int).i8(x.2 as int).end(true)
}

/// A feature of an UpdateFeatures request, with the level and the kind of the update, as it is
/// taken.
pub open spec fn feature_taken(version: i16, flexible: bool, x: (Seq<char>, i16, i8)) -> Seq<char> {
    x.0
}

/// A feature of an UpdateFeatures request, with the level and the kind of the update is taken
/// as it was sent.
pub proof fn law_feature(x: (Seq<char>, i16, i8), version: i16, flexible: bool)
    ensures
        schema::taken::<FeatureIn>(
            feature_sent(version, flexible, x),
            version,
            flexible,
            feature_taken(version, flexible, x),
        ),
{
    broadcast use schema::group_sent;

}

proof fn lemma_many_feature(items: Seq<(Seq<char>, i16, i8)>, version: i16, flexible: bool)
    ensures
        ({
            let f = |x: (Seq<char>, i16, i8)| feature_sent(version, flexible, x);
            let v = |x: (Seq<char>, i16, i8)| feature_taken(version, flexible, x);
            schema::field_fits(
                Kind::List(flexible, schema::kinds_of(items, f)),
                Value::List(schema::values_of(items, f)),
            ) ==> schema::list_taken::<(Seq<char>, i16, i8), FeatureIn>(items, f, v, version, flexible)
        }),
{
    let f = |x: (Seq<char>, i16, i8)| feature_sent(version, flexible, x);
    let v = |x: (Seq<char>, i16, i8)| feature_taken(version, flexible, x);
    if schema::field_fits(
        Kind::List(flexible, schema::kinds_of(items, f)),
        Value::List(schema::values_of(items, f)),
    ) {
        assert forall|i: int| 0 <= i < items.len() implies schema::taken::<FeatureIn>(
            f(#[trigger] items[i]),
            version,
            flexible,
            v(items[i]),
        ) by {
            law_feature(items[i], version, flexible);
        }
        schema::lemma_sent_list::<(Seq<char>, i16, i8), FeatureIn>(items, f, v, version, flexible);
    }
}

/// An entity of an AlterClientQuotas request, as a client sends it.
pub open spec fn quota_entity_sent(version: i16, flexible: bool, x: QuotaEntityView) -> Told {
    Told::new().text(true, x.entity_type).opt_text(true, x.entity_name).end(true)
}

/// An entity of an AlterClientQuotas request, as it is taken.
pub open spec fn quota_entity_taken(
    version: i16,
    flexible: bool,
    x: QuotaEntityView,
) -> QuotaEntityView {
    x
}

/// An entity of an AlterClientQuotas request is taken as it was sent.
pub proof fn law_quota_entity(x: QuotaEntityView, version: i16, flexible: bool)
    ensures
        schema::taken::<QuotaEntity>(
            quota_entity_sent(version, flexible, x),
            version,
            flexible,
            quota_entity_taken(version, flexible, x),
        ),
{
    broadcast use schema::group_sent;

}

proof fn lemma_many_quota_entity(items: Seq<QuotaEntityView>, version: i16, flexible: bool)
    ensures
        ({
            let f = |x: QuotaEntityView| quota_entity_sent(version, flexible, x);
            let v = |x: QuotaEntityView| quota_entity_taken(version, flexible, x);
            schema::field_fits(
                Kind::List(flexible, schema::kinds_of(items, f)),
                Value::List(schema::values_of(items, f)),
            ) ==> schema::list_taken::<QuotaEntityView, QuotaEntity>(items, f, v, version, flexible)
        }),
{
    let f = |x: QuotaEntityView| quota_entity_sent(version, flexible, x);
    let v = |x: QuotaEntityView| quota_entity_taken(version, flexible, x);
    if schema::field_fits(
        Kind::List(flexible, schema::kinds_of(items, f)),
        Value::List(schema::values_of(items, f)),
    ) {
        assert forall|i: int| 0 <= i < items.len() implies schema::taken::<QuotaEntity>(
            f(#[trigger] items[i]),
            version,
            flexible,
            v(items[i]),
        ) by {
            law_quota_entity(items[i], version, flexible);
        }
        schema::lemma_sent_list::<QuotaEntityView, QuotaEntity>(items, f, v, version, flexible);
    }
}

/// A quota of an AlterClientQuotas request, as a client sends it.
pub open spec fn quota_op_sent(version: i16, flexible: bool, x: (Seq<char>, i64, i8)) -> Told {
    Told::new().text(true, x.0).i64(x.1 as int).i8(x.2 as int).end(true)
}

/// A quota of an AlterClientQuotas request, as it is taken.
pub open spec fn quota_op_taken(version: i16, flexible: bool, x: (Seq<char>, i64, i8)) -> () {
    ()
}

/// A quota of an AlterClientQuotas request is taken as it was sent.
pub proof fn law_quota_op(x: (Seq<char>, i64, i8), version: i16, flexible: bool)
    ensures
        schema::taken::<QuotaOp>(
            quota_op_sent(version, flexible, x),
            version,
            flexible,
            quota_op_taken(version, flexible, x),
        ),
{
    broadcast use schema::group_sent;

    if quota_op_sent(version, flexible, x).fits() {
        assert forall|r: Src| #[trigger]
            QuotaOp::at(schema::sent(quota_op_sent(version, flexible, x), r), version, flexible)
                == wire::keep((), r) by {
            let b = schema::sent(quota_op_sent(version, flexible, x), r).compact().rest;
            assert(b.skip(9).bytes =~= b.skip(8).skip(1).bytes);
        }
    }
}

proof fn lemma_many_quota_op(items: Seq<(Seq<char>, i64, i8)>, version: i16, flexible: bool)
    ensures
        ({
            let f = |x: (Seq<char>, i64, i8)| quota_op_sent(version, flexible, x);
            let v = |x: (Seq<char>, i64, i8)| quota_op_taken(version, flexible, x);
            schema::field_fits(
                Kind::List(flexible, schema::kinds_of(items, f)),
                Value::List(schema::values_of(items, f)),
            ) ==> schema::list_taken::<(Seq<char>, i64, i8), QuotaOp>(items, f, v, version, flexible)
        }),
{
    let f = |x: (Seq<char>, i64, i8)| quota_op_sent(version, flexible, x);
    let v = |x: (Seq<char>, i64, i8)| quota_op_taken(version, flexible, x);
    if schema::field_fits(
        Kind::List(flexible, schema::kinds_of(items, f)),
        Value::List(schema::values_of(items, f)),
    ) {
        assert forall|i: int| 0 <= i < items.len() implies schema::taken::<QuotaOp>(
            f(#[trigger] items[i]),
            version,
            flexible,
            v(items[i]),
        ) by {
            law_quota_op(items[i], version, flexible);
        }
        schema::lemma_sent_list::<(Seq<char>, i64, i8), QuotaOp>(items, f, v, version, flexible);
    }
}

/// An entry of an AlterClientQuotas request, as a client sends it.
pub open spec fn quota_entry_sent(
    version: i16,
    flexible: bool,
    x: (Seq<QuotaEntityView>, Seq<(Seq<char>, i64, i8)>),
) -> Told {
    Told::new().list(
        true,
        x.0,
        |x: QuotaEntityView| quota_entity_sent(version, true, x),
    ).list(
        true,
        x.1,
        |x: (Seq<char>, i64, i8)| quota_op_sent(version, true, x),
    ).end(true)
}

/// An entry of an AlterClientQuotas request, as it is taken.
pub open spec fn quota_entry_taken(
    version: i16,
    flexible: bool,
    x: (Seq<QuotaEntityView>, Seq<(Seq<char>, i64, i8)>),
) -> Seq<QuotaEntityView> {
    x.0.map_values(|x: QuotaEntityView| quota_entity_taken(version, true, x))
}

/// An entry of an AlterClientQuotas request is taken as it was sent.
pub proof fn law_quota_entry(
    x: (Seq<QuotaEntityView>, Seq<(Seq<char>, i64, i8)>),
    version: i16,
    flexible: bool,
)
    ensures
        schema::taken::<QuotaEntry>(
            quota_entry_sent(version, flexible, x),
            version,
            flexible,
            quota_entry_taken(version, flexible, x),
        ),
{
    broadcast use schema::group_sent;

    if quota_entry_sent(version, flexible, x).fits() {
        lemma_many_quota_entity(x.0, version, true);
        lemma_many_quota_op(x.1, version, true);
    }
}

proof fn lemma_many_quota_entry(
    items: Seq<(Seq<QuotaEntityView>, Seq<(Seq<char>, i64, i8)>)>,
    version: i16,
    flexible: bool,
)
    ensures
        ({
            let f = |x: (Seq<QuotaEntityView>, Seq<(Seq<char>, i64, i8)>)| quota_entry_sent(
                version,
                flexible,
                x,
            );
            let v = |x: (Seq<QuotaEntityView>, Seq<(Seq<char>, i64, i8)>)| quota_entry_taken(
                version,
                flexible,
                x,
            );
            schema::field_fits(
                Kind::List(flexible, schema::kinds_of(items, f)),
                Value::List(schema::values_of(items, f)),
            ) ==> schema::list_taken::<(Seq<QuotaEntityView>, Seq<(Seq<char>, i64, i8)>), QuotaEntry>(items, f, v, version, flexible)
        }),
{
    let f = |x: (Seq<QuotaEntityView>, Seq<(Seq<char>, i64, i8)>)| quota_entry_sent(
        version,
        flexible,
        x,
    );
    let v = |x: (Seq<QuotaEntityView>, Seq<(Seq<char>, i64, i8)>)| quota_entry_taken(
        version,
        flexible,
        x,
    );
    if schema::field_fits(
        Kind::List(flexible, schema::kinds_of(items, f)),
        Value::List(schema::values_of(items, f)),
    ) {
        assert forall|i: int| 0 <= i < items.len() implies schema::taken::<QuotaEntry>(
            f(#[trigger] items[i]),
            version,
            flexible,
            v(items[i]),
        ) by {
            law_quota_entry(items[i], version, flexible);
        }
        schema::lemma_sent_list::<(Seq<QuotaEntityView>, Seq<(Seq<char>, i64, i8)>), QuotaEntry>(
            items,
            f,
            v,
            version,
            flexible,
        );
    }
}

/// A partition of an InitializeShareGroupState request, with the epoch and the offset, as a
/// client sends it.
pub open spec fn share_part_sent(version: i16, flexible: bool, x: (i32, i32, i64)) -> Told {
    Told::new().i32(x.0 as int).i32(x.1 as int).i64(x.2 as int).end(true)
}

/// A partition of an InitializeShareGroupState request, with the epoch and the offset, as it is
/// taken.
pub open spec fn share_part_taken(version: i16, flexible: bool, x: (i32, i32, i64)) -> i32 {
    x.0
}

/// A partition of an InitializeShareGroupState request, with the epoch and the offset is taken
/// as it was sent.
pub proof fn law_share_part(x: (i32, i32, i64), version: i16, flexible: bool)
    ensures
        schema::taken::<SharePart>(
            share_part_sent(version, flexible, x),
            version,
            flexible,
            share_part_taken(version, flexible, x),
        ),
{
    broadcast use schema::group_sent;

}

proof fn lemma_many_share_part(items: Seq<(i32, i32, i64)>, version: i16, flexible: bool)
    ensures
        ({
            let f = |x: (i32, i32, i64)| share_part_sent(version, flexible, x);
            let v = |x: (i32, i32, i64)| share_part_taken(version, flexible, x);
            schema::field_fits(
                Kind::List(flexible, schema::kinds_of(items, f)),
                Value::List(schema::values_of(items, f)),
            ) ==> schema::list_taken::<(i32, i32, i64), SharePart>(items, f, v, version, flexible)
        }),
{
    let f = |x: (i32, i32, i64)| share_part_sent(version, flexible, x);
    let v = |x: (i32, i32, i64)| share_part_taken(version, flexible, x);
    if schema::field_fits(
        Kind::List(flexible, schema::kinds_of(items, f)),
        Value::List(schema::values_of(items, f)),
    ) {
        assert forall|i: int| 0 <= i < items.len() implies schema::taken::<SharePart>(
            f(#[trigger] items[i]),
            version,
            flexible,
            v(items[i]),
        ) by {
            law_share_part(items[i], version, flexible);
        }
        schema::lemma_sent_list::<(i32, i32, i64), SharePart>(items, f, v, version, flexible);
    }
}

/// A topic of an InitializeShareGroupState request, as a client sends it.
pub open spec fn share_topic_sent(
    version: i16,
    flexible: bool,
    x: (Seq<u8>, Seq<(i32, i32, i64)>),
) -> Told {
    Told::new().uuid(x.0).list(
        true,
        x.1,
        |x: (i32, i32, i64)| share_part_sent(version, true, x),
    ).end(true)
}

/// A topic of an InitializeShareGroupState request, as it is taken.
pub open spec fn share_topic_taken(
    version: i16,
    flexible: bool,
    x: (Seq<u8>, Seq<(i32, i32, i64)>),
) -> ShareTopicView {
    ShareTopicView { topic_id: x.0, parts: x.1.map_values(
        |x: (i32, i32, i64)| share_part_taken(version, true, x),
    ) }
}

/// A topic of an InitializeShareGroupState request is taken as it was sent.
pub proof fn law_share_topic(x: (Seq<u8>, Seq<(i32, i32, i64)>), version: i16, flexible: bool)
    ensures
        schema::taken::<ShareTopic>(
            share_topic_sent(version, flexible, x),
            version,
            flexible,
            share_topic_taken(version, flexible, x),
        ),
{
    broadcast use schema::group_sent;

    if share_topic_sent(version, flexible, x).fits() {
        lemma_many_share_part(x.1, version, true);
    }
}

proof fn lemma_many_share_topic(
    items: Seq<(Seq<u8>, Seq<(i32, i32, i64)>)>,
    version: i16,
    flexible: bool,
)
    ensures
        ({
            let f = |x: (Seq<u8>, Seq<(i32, i32, i64)>)| share_topic_sent(version, flexible, x);
            let v = |x: (Seq<u8>, Seq<(i32, i32, i64)>)| share_topic_taken(version, flexible, x);
            schema::field_fits(
                Kind::List(flexible, schema::kinds_of(items, f)),
                Value::List(schema::values_of(items, f)),
            ) ==> schema::list_taken::<(Seq<u8>, Seq<(i32, i32, i64)>), ShareTopic>(items, f, v, version, flexible)
        }),
{
    let f = |x: (Seq<u8>, Seq<(i32, i32, i64)>)| share_topic_sent(version, flexible, x);
    let v = |x: (Seq<u8>, Seq<(i32, i32, i64)>)| share_topic_taken(version, flexible, x);
    if schema::field_fits(
        Kind::List(flexible, schema::kinds_of(items, f)),
        Value::List(schema::values_of(items, f)),
    ) {
        assert forall|i: int| 0 <= i < items.len() implies schema::taken::<ShareTopic>(
            f(#[trigger] items[i]),
            version,
            flexible,
            v(items[i]),
        ) by {
            law_share_topic(items[i], version, flexible);
        }
        schema::lemma_sent_list::<(Seq<u8>, Seq<(i32, i32, i64)>), ShareTopic>(
            items,
            f,
            v,
            version,
            flexible,
        );
    }
}

/// A partition of an AlterPartitionReassignments request, with its replicas, or none to stop,
/// as a client sends it.
pub open spec fn reassign_part_sent(
    version: i16,
    flexible: bool,
    x: (i32, Option<Seq<i32>>),
) -> Told {
    let t = Told::new().i32(x.0 as int);
    t.opt_list(true, x.1, |x: i32| number_sent(version, true, x)).end(true)
}

/// A partition of an AlterPartitionReassignments request, with its replicas, or none to stop,
/// as it is taken.
pub open spec fn reassign_part_taken(
    version: i16,
    flexible: bool,
    x: (i32, Option<Seq<i32>>),
) -> ReassignPartView {
    ReassignPartView {
        partition: x.0,
        replicas: match x.1 {
            Some(ids) => Some(ids.map_values(|x: i32| number_taken(version, true, x))),
            None => None,
        },
    }
}

/// A partition of an AlterPartitionReassignments request, with its replicas, or none to stop is
/// taken as it was sent.
pub proof fn law_reassign_part(x: (i32, Option<Seq<i32>>), version: i16, flexible: bool)
    ensures
        schema::taken::<ReassignPart>(
            reassign_part_sent(version, flexible, x),
            version,
            flexible,
            reassign_part_taken(version, flexible, x),
        ),
{
    broadcast use schema::group_sent;

    if reassign_part_sent(version, flexible, x).fits() {
        if let Some(ids) = x.1 {
            lemma_many_number(ids, version, true);
        }
    }
}

proof fn lemma_many_reassign_part(items: Seq<(i32, Option<Seq<i32>>)>, version: i16, flexible: bool)
    ensures
        ({
            let f = |x: (i32, Option<Seq<i32>>)| reassign_part_sent(version, flexible, x);
            let v = |x: (i32, Option<Seq<i32>>)| reassign_part_taken(version, flexible, x);
            schema::field_fits(
                Kind::List(flexible, schema::kinds_of(items, f)),
                Value::List(schema::values_of(items, f)),
            ) ==> schema::list_taken::<(i32, Option<Seq<i32>>), ReassignPart>(items, f, v, version, flexible)
        }),
{
    let f = |x: (i32, Option<Seq<i32>>)| reassign_part_sent(version, flexible, x);
    let v = |x: (i32, Option<Seq<i32>>)| reassign_part_taken(version, flexible, x);
    if schema::field_fits(
        Kind::List(flexible, schema::kinds_of(items, f)),
        Value::List(schema::values_of(items, f)),
    ) {
        assert forall|i: int| 0 <= i < items.len() implies schema::taken::<ReassignPart>(
            f(#[trigger] items[i]),
            version,
            flexible,
            v(items[i]),
        ) by {
            law_reassign_part(items[i], version, flexible);
        }
        schema::lemma_sent_list::<(i32, Option<Seq<i32>>), ReassignPart>(
            items,
            f,
            v,
            version,
            flexible,
        );
    }
}

/// A flag.
pub open spec fn flag(b: bool) -> int {
    if b {
        1
    } else {
        0
    }
}

/// A CreateTopics request: the topics, a timeout, and whether they are only to be checked, as a
/// client sends it.
pub open spec fn create_topics_sent(version: i16, x: (Seq<TopicWish>, i32, bool)) -> Told {
    let flexible = version >= 5;
    let t = Told::new().list(
        flexible,
        x.0,
        |x: TopicWish| new_topic_sent(version, flexible, x),
    ).i32(x.1 as int);
    let t = if version >= 1 {
        t.i8(flag(x.2))
    } else {
        t
    };
    t.end(flexible)
}

/// A CreateTopics request: the topics, a timeout, and whether they are only to be checked is
/// taken as it was sent.
pub proof fn law_create_topics(x: (Seq<TopicWish>, i32, bool), version: i16, r: Src)
    requires
        create_topics_sent(version, x).fits(),
    ensures
        topic_admin::create_topics_at(schema::sent(create_topics_sent(version, x), r), version) == (
            x.0.map_values(|x: TopicWish| new_topic_taken(version, version >= 5, x)),
            version >= 1 && x.2,
        ),
{
    broadcast use schema::group_sent;

    lemma_many_new_topic(x.0, version, version >= 5);
}

/// A DeleteTopics request: the topics, and a timeout, as a client sends it.
pub open spec fn delete_topics_sent(
    version: i16,
    x: (Seq<(Option<Seq<char>>, Seq<u8>)>, i32),
) -> Told {
    let flexible = version >= 4;
    Told::new().list(
        flexible,
        x.0,
        |x: (Option<Seq<char>>, Seq<u8>)| doomed_topic_sent(version, flexible, x),
    ).i32(x.1 as int).end(flexible)
}

/// A DeleteTopics request: the topics, and a timeout is taken as it was sent.
pub proof fn law_delete_topics(x: (Seq<(Option<Seq<char>>, Seq<u8>)>, i32), version: i16, r: Src)
    requires
        delete_topics_sent(version, x).fits(),
    ensures
        message::loose_list_at::<DoomedTopic>(
            schema::sent(delete_topics_sent(version, x), r),
            version,
            version >= 4,
        ).0
            == x.0.map_values(
                |x: (Option<Seq<char>>, Seq<u8>)| doomed_topic_taken(version, version >= 4, x),
            ),
{
    broadcast use schema::group_sent;

    lemma_many_doomed_topic(x.0, version, version >= 4);
}

/// A CreatePartitions request: the topics, a timeout, and whether they are only to be checked,
/// as a client sends it.
pub open spec fn create_partitions_sent(
    version: i16,
    x: (Seq<(Seq<char>, i32, Seq<Seq<i32>>)>, i32, bool),
) -> Told {
    let flexible = version >= 2;
    Told::new().list(
        flexible,
        x.0,
        |x: (Seq<char>, i32, Seq<Seq<i32>>)| grown_topic_sent(version, flexible, x),
    ).i32(x.1 as int).i8(flag(x.2)).end(flexible)
}

/// A CreatePartitions request: the topics, a timeout, and whether they are only to be checked
/// is taken as it was sent.
pub proof fn law_create_partitions(
    x: (Seq<(Seq<char>, i32, Seq<Seq<i32>>)>, i32, bool),
    version: i16,
    r: Src,
)
    requires
        create_partitions_sent(version, x).fits(),
    ensures
        topic_admin::create_partitions_at(schema::sent(create_partitions_sent(version, x), r), version) == (
            x.0.map_values(
                |x: (Seq<char>, i32, Seq<Seq<i32>>)| grown_topic_taken(version, version >= 2, x),
            ),
            x.2,
        ),
{
    broadcast use schema::group_sent;

    lemma_many_grown_topic(x.0, version, version >= 2);
}

/// A Produce request: the transaction, the acknowledgements that are asked for, a timeout, and
/// the topics, as a client sends it.
pub open spec fn produce_sent(
    version: i16,
    x: (Option<Seq<char>>, i16, i32, Seq<(TopicName, Seq<(i32, Option<Seq<u8>>)>)>),
) -> Told {
    let flexible = version >= 9;
    let t = if version >= 3 {
        Told::new().opt_text(flexible, x.0)
    } else {
        Told::new()
    };
    t.i16(x.1 as int).i32(x.2 as int).list(
        flexible,
        x.3,
        |x: (TopicName, Seq<(i32, Option<Seq<u8>>)>)| produce_topic_sent(version, flexible, x),
    ).end(flexible)
}

/// A Produce request: the transaction, the acknowledgements that are asked for, a timeout, and
/// the topics is taken as it was sent.
#[verifier::spinoff_prover]
#[verifier::rlimit(40)]
pub proof fn law_produce(
    x: (Option<Seq<char>>, i16, i32, Seq<(TopicName, Seq<(i32, Option<Seq<u8>>)>)>),
    version: i16,
    r: Src,
)
    requires
        produce_sent(version, x).fits(),
        x.3.len() <= i32::MAX,
        forall|i: int| 0 <= i < x.3.len() ==> (#[trigger] x.3[i]).1.len() <= i32::MAX,
    ensures
        produce::produce_at(schema::sent(produce_sent(version, x), r), version) == Some(
            ProduceView {
                acks: x.1,
                declared: x.3.len(),
                topics: x.3.map_values(
                    |x: (TopicName, Seq<(i32, Option<Seq<u8>>)>)| produce_topic_taken(
                        version,
                        version >= 9,
                        x,
                    ),
                ),
            },
        ),
{
    broadcast use schema::group_sent;

    lemma_many_produce_topic(x.3, version, version >= 9);
    assert(produce::count32(x.3.len() as usize) == x.3.len());
    if version < 3 {
        assert(produce::produce_at(schema::sent(produce_sent(version, x), r), version) == Some(
            ProduceView {
                acks: x.1,
                declared: x.3.len(),
                topics: x.3.map_values(
                    |x: (TopicName, Seq<(i32, Option<Seq<u8>>)>)| produce_topic_taken(
                        version,
                        version >= 9,
                        x,
                    ),
                ),
            },
        ));
    } else if version < 9 {
        assert(produce::produce_at(schema::sent(produce_sent(version, x), r), version) == Some(
            ProduceView {
                acks: x.1,
                declared: x.3.len(),
                topics: x.3.map_values(
                    |x: (TopicName, Seq<(i32, Option<Seq<u8>>)>)| produce_topic_taken(
                        version,
                        version >= 9,
                        x,
                    ),
                ),
            },
        ));
    } else {
        assert(produce::produce_at(schema::sent(produce_sent(version, x), r), version) == Some(
            ProduceView {
                acks: x.1,
                declared: x.3.len(),
                topics: x.3.map_values(
                    |x: (TopicName, Seq<(i32, Option<Seq<u8>>)>)| produce_topic_taken(
                        version,
                        version >= 9,
                        x,
                    ),
                ),
            },
        ));
    }
}

/// The tag by which a replica says who it is.
proof fn lemma_replica_tag(id: i32, version: i16, r: Src)
    ensures
        ({
            let body = Told::new().i32(id as int).i64(-1).end(true).bytes();
            &&& body.len() <= u32::MAX
            &&& version >= 15 ==> forall|old_id: i32| #[trigger]
                fetch::replica_after_tags(
                    schema::field_then(Kind::Tags, Value::Tags(seq![(1nat, body)]), r),
                    version,
                    old_id,
                ) == id
        }),
        version < 15 ==> forall|old_id: i32| #[trigger]
            fetch::replica_after_tags(
                schema::field_then(Kind::Tags, Value::Tags(Seq::empty()), r),
                version,
                old_id,
            ) == old_id,
{
    broadcast use schema::group_fields;

    let t = Told::new().i32(id as int).i64(-1).end(true);
    let body = t.bytes();
    wire::lemma_be_len(4, id as int);
    wire::lemma_be_len(8, -1);
    assert(schema::said(Out::new(), t).bytes =~= body);
    assert(body =~= wire::be32(id as int) + (wire::be64(-1) + wire::uvarint(0)));
    let ts = seq![(1nat, body)];
    let b = schema::field_then(Kind::Tags, Value::Tags(ts), r);
    assert(ts.drop_last() =~= Seq::empty());
    assert(schema::tags_bytes(ts.drop_last()) =~= Seq::empty());
    assert(b.bytes =~= wire::uvarint(1) + (wire::uvarint(1) + (wire::uvarint(body.len()) + (body
        + r.bytes))));
    roundtrip::law_uvarint(1, wire::uvarint(1) + (wire::uvarint(body.len()) + (body + r.bytes)));
    roundtrip::law_uvarint(1, wire::uvarint(body.len()) + (body + r.bytes));
    roundtrip::law_uvarint(body.len() as u32, body + r.bytes);
    let tail = (wire::be64(-1) + wire::uvarint(0)) + r.bytes;
    assert(body + r.bytes =~= wire::be32(id as int) + tail);
    roundtrip::law_i32(id, tail);
    reveal_with_fuel(fetch::tagged_replica, 3);
    let none = Seq::<(nat, Seq<u8>)>::empty();
    assert(schema::tags_bytes(none) =~= Seq::empty());
    let e = schema::field_then(Kind::Tags, Value::Tags(none), r);
    assert(e.bytes =~= wire::uvarint(0) + r.bytes);
    roundtrip::law_uvarint(0, r.bytes);
}

/// A Fetch request as a client makes it.
pub struct FetchCall {
    pub replica_id: i32,
    pub max_wait: i32,
    pub min_bytes: i32,
    pub max_bytes: i32,
    pub read_committed: bool,
    pub session_id: i32,
    pub session_epoch: i32,
    pub topics: Seq<(TopicName, Seq<FetchWish>)>,
    pub forgotten: Seq<(TopicName, Seq<i32>)>,
    pub rack: Seq<char>,
}

/// What a Fetch request begins with, as a client sends it: who asks, how long it waits and how
/// much it takes, what it may see, and the session.
pub open spec fn fetch_head_sent(version: i16, x: FetchCall) -> Told {
    let t = if version <= 14 {
        Told::new().i32(x.replica_id as int)
    } else {
        Told::new()
    };
    let t = t.i32(x.max_wait as int).i32(x.min_bytes as int);
    let t = if version >= 3 {
        t.i32(x.max_bytes as int)
    } else {
        t
    };
    let t = if version >= 4 {
        t.i8(flag(x.read_committed))
    } else {
        t
    };
    if version >= 7 {
        t.i32(x.session_id as int).i32(x.session_epoch as int)
    } else {
        t
    }
}

/// The topics of a Fetch request, as a client sends them.
pub open spec fn fetch_topics_sent(version: i16, x: FetchCall) -> Told {
    let flexible = version >= 12;
    Told::new().list(
        flexible,
        x.topics,
        |x: (TopicName, Seq<FetchWish>)| fetch_topic_sent(version, flexible, x),
    )
}

/// What a Fetch request ends with, as a client sends it: the topics that leave the session,
/// the rack of the client, and in later versions the replica that asks.
pub open spec fn fetch_tail_sent(version: i16, x: FetchCall) -> Told {
    let flexible = version >= 12;
    let t = if version >= 7 {
        Told::new().list(
            flexible,
            x.forgotten,
            |x: (TopicName, Seq<i32>)| forgotten_sent(version, flexible, x),
        )
    } else {
        Told::new()
    };
    let t = if version >= 11 {
        t.text(flexible, x.rack)
    } else {
        t
    };
    if version >= 15 {
        t.tags(seq![(1nat, Told::new().i32(x.replica_id as int).i64(-1).end(true).bytes())])
    } else {
        t.end(flexible)
    }
}

/// The session that a Fetch request belongs to is taken as it was sent.
pub proof fn law_fetch_head(x: FetchCall, version: i16, b: Src)
    ensures
        fetch::fetch_head_at(schema::sent(fetch_head_sent(version, x), b), version) == Some(
            FetchHead {
                replica_id: if version <= 14 {
                    x.replica_id
                } else {
                    (-1int) as i32
                },
                read_committed: version >= 4 && x.read_committed,
                session_id: if version >= 7 {
                    x.session_id
                } else {
                    0
                },
                session_epoch: if version >= 7 {
                    x.session_epoch
                } else {
                    (-1int) as i32
                },
                rest: b,
            },
        ),
{
    broadcast use schema::group_sent;

    let want = fetch::fetch_head_at(schema::sent(fetch_head_sent(version, x), b), version);
    if version < 3 {
        assert(want is Some);
    } else if version < 4 {
        assert(want is Some);
    } else if version < 7 {
        assert(want is Some);
    } else if version < 15 {
        assert(want is Some);
    } else {
        assert(want is Some);
    }
}

/// What leaves the session of a Fetch request, and where the client stands, is taken as it
/// was sent.
#[verifier::spinoff_prover]
#[verifier::rlimit(40)]
pub proof fn law_fetch_tail(x: FetchCall, version: i16, first: i32, r: Src)
    requires
        fetch_tail_sent(version, x).fits(),
    ensures
        fetch::fetch_tail_at(schema::sent(fetch_tail_sent(version, x), r), version, first) == (
            if version >= 7 {
                x.forgotten.map_values(
                    |x: (TopicName, Seq<i32>)| forgotten_taken(version, version >= 12, x),
                )
            } else {
                Seq::empty()
            },
            if version >= 11 && x.rack.len() > 0 {
                Some(x.rack)
            } else {
                None
            },
            if version >= 15 {
                x.replica_id
            } else {
                first
            },
        ),
{
    broadcast use schema::group_sent;

    lemma_many_forgotten(x.forgotten, version, version >= 12);
    lemma_replica_tag(x.replica_id, version, r);
    let got = fetch::fetch_tail_at(schema::sent(fetch_tail_sent(version, x), r), version, first);
    if version < 7 {
        assert(got.2 == first);
    } else if version < 11 {
        assert(got.2 == first);
    } else if version < 12 {
        assert(got.2 == first);
    } else if version < 15 {
        assert(got.2 == first);
    } else {
        assert(got.2 == x.replica_id);
    }
}

/// A Fetch request is taken as it was sent.
pub proof fn law_fetch(x: FetchCall, version: i16, r: Src)
    requires
        fetch_topics_sent(version, x).fits(),
        fetch_tail_sent(version, x).fits(),
        x.topics.len() <= i32::MAX,
        forall|i: int| 0 <= i < x.topics.len() ==> (#[trigger] x.topics[i]).1.len() <= i32::MAX,
    ensures
        fetch::fetch_at(
            schema::sent(
                fetch_head_sent(version, x),
                schema::sent(
                    fetch_topics_sent(version, x),
                    schema::sent(fetch_tail_sent(version, x), r),
                ),
            ),
            version,
        ) == Some(
            FetchView {
                replica_id: x.replica_id,
                read_committed: version >= 4 && x.read_committed,
                session_id: if version >= 7 {
                    x.session_id
                } else {
                    0
                },
                session_epoch: if version >= 7 {
                    x.session_epoch
                } else {
                    (-1int) as i32
                },
                topics: x.topics.map_values(
                    |x: (TopicName, Seq<FetchWish>)| fetch_topic_taken(version, version >= 12, x),
                ),
                forgotten: if version >= 7 {
                    x.forgotten.map_values(
                        |x: (TopicName, Seq<i32>)| forgotten_taken(version, version >= 12, x),
                    )
                } else {
                    Seq::empty()
                },
                rack: if version >= 11 && x.rack.len() > 0 {
                    Some(x.rack)
                } else {
                    None
                },
            },
        ),
{
    let tail = schema::sent(fetch_tail_sent(version, x), r);
    let body = schema::sent(fetch_topics_sent(version, x), tail);
    let first = if version <= 14 {
        x.replica_id
    } else {
        (-1int) as i32
    };
    law_fetch_head(x, version, body);
    law_fetch_tail(x, version, first, r);
    assert(produce::count32(x.topics.len() as usize) == x.topics.len());
    lemma_fetch_topics(x, version, tail);
}

proof fn lemma_fetch_topics(x: FetchCall, version: i16, tail: Src)
    requires
        fetch_topics_sent(version, x).fits(),
        x.topics.len() <= i32::MAX,
        forall|i: int| 0 <= i < x.topics.len() ==> (#[trigger] x.topics[i]).1.len() <= i32::MAX,
    ensures
        ({
            let c = message::count_at(
                schema::sent(fetch_topics_sent(version, x), tail),
                version >= 12,
            );
            &&& c.value == Ok::<Option<usize>, Seq<char>>(Some(x.topics.len() as usize))
            &&& message::list_at::<FetchTopic>(c.rest, x.topics.len(), version, version >= 12) == (
                x.topics.map_values(
                    |x: (TopicName, Seq<FetchWish>)| fetch_topic_taken(version, version >= 12, x),
                ),
                tail,
            )
        }),
{
    broadcast use schema::group_sent;

    lemma_many_fetch_topic(x.topics, version, version >= 12);
}

/// A ListOffsets request: who asks, what it may see, and the topics, as a client sends it.
pub open spec fn list_offsets_sent(
    version: i16,
    x: (i32, bool, Seq<(Seq<char>, Seq<(ListOffsetsPart, i32)>)>),
) -> Told {
    let flexible = version >= 6;
    let t = Told::new().i32(x.0 as int);
    let t = if version >= 2 {
        t.i8(flag(x.1))
    } else {
        t
    };
    t.list(
        flexible,
        x.2,
        |x: (Seq<char>, Seq<(ListOffsetsPart, i32)>)| list_offsets_topic_sent(version, flexible, x),
    ).end(flexible)
}

/// A ListOffsets request: who asks, what it may see, and the topics is taken as it was sent.
pub proof fn law_list_offsets(
    x: (i32, bool, Seq<(Seq<char>, Seq<(ListOffsetsPart, i32)>)>),
    version: i16,
    r: Src,
)
    requires
        list_offsets_sent(version, x).fits(),
    ensures
        list_offsets::list_offsets_at(schema::sent(list_offsets_sent(version, x), r), version) == Some(
            ListOffsetsView {
                read_committed: version >= 2 && x.1,
                topics: x.2.map_values(
                    |x: (Seq<char>, Seq<(ListOffsetsPart, i32)>)| list_offsets_topic_taken(
                        version,
                        version >= 6,
                        x,
                    ),
                ),
            },
        ),
{
    broadcast use schema::group_sent;

    lemma_many_list_offsets_topic(x.2, version, version >= 6);
}

/// An OffsetForLeaderEpoch request: who asks, and the topics, as a client sends it.
pub open spec fn leader_epochs_sent(
    version: i16,
    x: (i32, Seq<(Seq<char>, Seq<LeaderEpochPart>)>),
) -> Told {
    let flexible = version >= 4;
    let t = if version >= 3 {
        Told::new().i32(x.0 as int)
    } else {
        Told::new()
    };
    t.list(
        flexible,
        x.1,
        |x: (Seq<char>, Seq<LeaderEpochPart>)| epoch_topic_sent(version, flexible, x),
    ).end(flexible)
}

/// An OffsetForLeaderEpoch request: who asks, and the topics is taken as it was sent.
pub proof fn law_leader_epochs(
    x: (i32, Seq<(Seq<char>, Seq<LeaderEpochPart>)>),
    version: i16,
    r: Src,
)
    requires
        leader_epochs_sent(version, x).fits(),
    ensures
        list_offsets::leader_epochs_at(schema::sent(leader_epochs_sent(version, x), r), version) == Some(
            x.1.map_values(
                |x: (Seq<char>, Seq<LeaderEpochPart>)| epoch_topic_taken(version, version >= 4, x),
            ),
        ),
{
    broadcast use schema::group_sent;

    lemma_many_epoch_topic(x.1, version, version >= 4);
}

/// A DeleteRecords request: the topics, and a timeout, as a client sends it.
pub open spec fn delete_records_sent(
    version: i16,
    x: (Seq<(Seq<char>, Seq<DeleteRecordsPart>)>, i32),
) -> Told {
    let flexible = version >= 2;
    Told::new().list(
        flexible,
        x.0,
        |x: (Seq<char>, Seq<DeleteRecordsPart>)| delete_topic_sent(version, flexible, x),
    ).i32(x.1 as int).end(flexible)
}

/// A DeleteRecords request: the topics, and a timeout is taken as it was sent.
pub proof fn law_delete_records(
    x: (Seq<(Seq<char>, Seq<DeleteRecordsPart>)>, i32),
    version: i16,
    r: Src,
)
    requires
        delete_records_sent(version, x).fits(),
    ensures
        delete_records::delete_records_at(schema::sent(delete_records_sent(version, x), r), version) == Some(
            x.0.map_values(
                |x: (Seq<char>, Seq<DeleteRecordsPart>)| delete_topic_taken(
                    version,
                    version >= 2,
                    x,
                ),
            ),
        ),
{
    broadcast use schema::group_sent;

    lemma_many_delete_topic(x.0, version, version >= 2);
}

/// The member that a client is: under its id, or else under the one that its instance has, where
/// the version has instances.
pub open spec fn member_meant(
    has_instance: bool,
    id: Seq<char>,
    instance: Option<Seq<char>>,
) -> Seq<char> {
    if has_instance && id.len() == 0 && or_empty(instance).len() > 0 {
        membership::static_id(or_empty(instance))
    } else {
        id
    }
}

/// An OffsetCommit request as a client makes it.
pub struct CommitCall {
    pub group_id: Seq<char>,
    pub generation: i32,
    pub member_id: Seq<char>,
    pub instance: Option<Seq<char>>,
    pub retention: i64,
    pub topics: Seq<(TopicName, Seq<CommitWish>)>,
}

/// What an OffsetCommit request begins with, as a client sends it: the group, its generation,
/// and the member.
pub open spec fn commit_head_sent(version: i16, x: CommitCall) -> Told {
    let flexible = version >= 8;
    let t = Told::new().text(flexible, x.group_id);
    let t = if version >= 1 {
        t.i32(x.generation as int).text(flexible, x.member_id)
    } else {
        t
    };
    if version >= 7 {
        t.opt_text(flexible, x.instance)
    } else {
        t
    }
}

/// The topics of an OffsetCommit request, as a client sends them, behind a time that some
/// versions have.
pub open spec fn commit_topics_sent(version: i16, x: CommitCall) -> Told {
    let flexible = version >= 8;
    let t = if 2 <= version <= 4 {
        Told::new().i64(x.retention as int)
    } else {
        Told::new()
    };
    t.list(
        flexible,
        x.topics,
        |x: (TopicName, Seq<CommitWish>)| commit_topic_sent(version, flexible, x),
    ).end(flexible)
}

proof fn lemma_commit_topics(x: CommitCall, version: i16, r: Src)
    requires
        commit_topics_sent(version, x).fits(),
    ensures
        offsets::commit_topics_at(schema::sent(commit_topics_sent(version, x), r), version) == Some(
            x.topics.map_values(
                |x: (TopicName, Seq<CommitWish>)| commit_topic_taken(version, version >= 8, x),
            ),
        ),
{
    broadcast use schema::group_sent;

    lemma_many_commit_topic(x.topics, version, version >= 8);
}

/// An OffsetCommit request is taken as it was sent.
#[verifier::spinoff_prover]
#[verifier::rlimit(40)]
pub proof fn law_offset_commit(x: CommitCall, version: i16, r: Src)
    requires
        commit_head_sent(version, x).fits(),
        commit_topics_sent(version, x).fits(),
    ensures
        offsets::commit_at(
            schema::sent(
                commit_head_sent(version, x),
                schema::sent(commit_topics_sent(version, x), r),
            ),
            version,
        ) == Some(
            CommitView {
                group_id: x.group_id,
                generation: if version >= 1 {
                    x.generation as u32
                } else {
                    0
                },
                member_id: if version >= 1 {
                    member_meant(version >= 7, x.member_id, x.instance)
                } else {
                    Seq::empty()
                },
                topics: x.topics.map_values(
                    |x: (TopicName, Seq<CommitWish>)| commit_topic_taken(version, version >= 8, x),
                ),
            },
        ),
{
    lemma_commit_topics(x, version, r);
    let body = schema::sent(commit_topics_sent(version, x), r);
    lemma_commit_head(x, version, body);
}

proof fn lemma_commit_head(x: CommitCall, version: i16, body: Src)
    requires
        commit_head_sent(version, x).fits(),
        offsets::commit_topics_at(body, version) is Some,
    ensures
        offsets::commit_at(schema::sent(commit_head_sent(version, x), body), version) == Some(
            CommitView {
                group_id: x.group_id,
                generation: if version >= 1 {
                    x.generation as u32
                } else {
                    0
                },
                member_id: if version >= 1 {
                    member_meant(version >= 7, x.member_id, x.instance)
                } else {
                    Seq::empty()
                },
                topics: offsets::commit_topics_at(body, version)->Some_0,
            },
        ),
{
    broadcast use schema::group_sent;

    let got = offsets::commit_at(schema::sent(commit_head_sent(version, x), body), version);
    if version < 1 {
        assert(got is Some);
    } else if version < 7 {
        assert(got is Some);
    } else {
        assert(got is Some);
    }
}

/// What is asked of a group, as it is taken: all that it remembers, nothing, or these topics.
pub open spec fn ask_taken(
    version: i16,
    flexible: bool,
    topics: Option<Seq<(TopicName, Seq<i32>)>>,
) -> AskView {
    match topics {
        None => AskView::All,
        Some(ts) => if ts.len() > 0 {
            AskView::Listed(
                ts.map_values(|x: (TopicName, Seq<i32>)| offset_topic_taken(version, flexible, x)),
            )
        } else if version < 2 {
            AskView::All
        } else {
            AskView::Nothing
        },
    }
}

/// An OffsetFetch request: the group, the topics or all of them, and whether offsets have to be
/// stable, as a client sends it.
pub open spec fn offset_fetch_sent(
    version: i16,
    x: (Seq<char>, Option<Seq<(TopicName, Seq<i32>)>>, bool),
) -> Told {
    let flexible = version >= 6;
    let t = Told::new().text(flexible, x.0).opt_list(
        flexible,
        x.1,
        |x: (TopicName, Seq<i32>)| offset_topic_sent(version, flexible, x),
    );
    let t = if version >= 7 {
        t.i8(flag(x.2))
    } else {
        t
    };
    t.end(flexible)
}

/// An OffsetFetch request: the group, the topics or all of them, and whether offsets have to be
/// stable is taken as it was sent.
pub proof fn law_offset_fetch(
    x: (Seq<char>, Option<Seq<(TopicName, Seq<i32>)>>, bool),
    version: i16,
    r: Src,
)
    requires
        offset_fetch_sent(version, x).fits(),
    ensures
        offsets::offset_fetch_at(schema::sent(offset_fetch_sent(version, x), r), version) == Some(
            OffsetFetchView {
                group_id: x.0,
                ask: ask_taken(version, version >= 6, x.1),
                require_stable: version >= 7 && x.2,
            },
        ),
{
    broadcast use schema::group_sent;

    if let Some(ts) = x.1 {
        lemma_many_offset_topic(ts, version, version >= 6);
    }
}

/// A group of an OffsetFetch request: its id, the member and its epoch, and the topics or all
/// of them, as a client sends it.
pub open spec fn group_ask_sent(
    version: i16,
    flexible: bool,
    x: (Seq<char>, Option<Seq<char>>, i32, Option<Seq<(TopicName, Seq<i32>)>>),
) -> Told {
    let t = Told::new().text(true, x.0);
    let t = if version >= 9 {
        t.opt_text(true, x.1).i32(x.2 as int)
    } else {
        t
    };
    t.opt_list(true, x.3, |x: (TopicName, Seq<i32>)| offset_topic_sent(version, true, x)).end(true)
}

/// A group of an OffsetFetch request: its id, the member and its epoch, and the topics or all
/// of them, as it is taken.
pub open spec fn group_ask_taken(
    version: i16,
    flexible: bool,
    x: (Seq<char>, Option<Seq<char>>, i32, Option<Seq<(TopicName, Seq<i32>)>>),
) -> GroupAskView {
    GroupAskView {
        group_id: x.0,
        ask: match x.3 {
            None => AskView::All,
            Some(ts) => if ts.len() > 0 {
                AskView::Listed(
                    ts.map_values(|x: (TopicName, Seq<i32>)| offset_topic_taken(version, true, x)),
                )
            } else {
                AskView::Nothing
            },
        },
    }
}

/// A group of an OffsetFetch request: its id, the member and its epoch, and the topics or all
/// of them is taken as it was sent.
pub proof fn law_group_ask(
    x: (Seq<char>, Option<Seq<char>>, i32, Option<Seq<(TopicName, Seq<i32>)>>),
    version: i16,
    flexible: bool,
)
    ensures
        schema::taken::<GroupAsk>(
            group_ask_sent(version, flexible, x),
            version,
            flexible,
            group_ask_taken(version, flexible, x),
        ),
{
    broadcast use schema::group_sent;

    if group_ask_sent(version, flexible, x).fits() {
        if let Some(ts) = x.3 {
            lemma_many_offset_topic(ts, version, true);
        }
    }
}

proof fn lemma_many_group_ask(
    items: Seq<(Seq<char>, Option<Seq<char>>, i32, Option<Seq<(TopicName, Seq<i32>)>>)>,
    version: i16,
    flexible: bool,
)
    ensures
        ({
            let f = |x: (Seq<char>, Option<Seq<char>>, i32, Option<Seq<(TopicName, Seq<i32>)>>)| group_ask_sent(
                version,
                flexible,
                x,
            );
            let v = |x: (Seq<char>, Option<Seq<char>>, i32, Option<Seq<(TopicName, Seq<i32>)>>)| group_ask_taken(
                version,
                flexible,
                x,
            );
            schema::field_fits(
                Kind::List(flexible, schema::kinds_of(items, f)),
                Value::List(schema::values_of(items, f)),
            ) ==> schema::list_taken::<(Seq<char>, Option<Seq<char>>, i32, Option<Seq<(TopicName, Seq<i32>)>>), GroupAsk>(items, f, v, version, flexible)
        }),
{
    let f = |x: (Seq<char>, Option<Seq<char>>, i32, Option<Seq<(TopicName, Seq<i32>)>>)| group_ask_sent(
        version,
        flexible,
        x,
    );
    let v = |x: (Seq<char>, Option<Seq<char>>, i32, Option<Seq<(TopicName, Seq<i32>)>>)| group_ask_taken(
        version,
        flexible,
        x,
    );
    if schema::field_fits(
        Kind::List(flexible, schema::kinds_of(items, f)),
        Value::List(schema::values_of(items, f)),
    ) {
        assert forall|i: int| 0 <= i < items.len() implies schema::taken::<GroupAsk>(
            f(#[trigger] items[i]),
            version,
            flexible,
            v(items[i]),
        ) by {
            law_group_ask(items[i], version, flexible);
        }
        schema::lemma_sent_list::<(Seq<char>, Option<Seq<char>>, i32, Option<Seq<(TopicName, Seq<i32>)>>), GroupAsk>(
            items,
            f,
            v,
            version,
            flexible,
        );
    }
}

/// An OffsetFetch request for several groups, as a client sends it.
pub open spec fn offset_fetch_multi_sent(
    version: i16,
    x: (Seq<(Seq<char>, Option<Seq<char>>, i32, Option<Seq<(TopicName, Seq<i32>)>>)>, bool),
) -> Told {
    Told::new().list(
        true,
        x.0,
        |x: (Seq<char>, Option<Seq<char>>, i32, Option<Seq<(TopicName, Seq<i32>)>>)| group_ask_sent(version, true, x),
    ).i8(flag(x.1)).end(true)
}

/// An OffsetFetch request for several groups is taken as it was sent.
pub proof fn law_offset_fetch_multi(
    x: (Seq<(Seq<char>, Option<Seq<char>>, i32, Option<Seq<(TopicName, Seq<i32>)>>)>, bool),
    version: i16,
    r: Src,
)
    requires
        offset_fetch_multi_sent(version, x).fits(),
        version >= 8,
    ensures
        offsets::offset_fetch_multi_at(schema::sent(offset_fetch_multi_sent(version, x), r), version) == Some(
            (
                x.0.map_values(
                    |x: (Seq<char>, Option<Seq<char>>, i32, Option<Seq<(TopicName, Seq<i32>)>>)| group_ask_taken(version, true, x),
                ),
                x.1,
            ),
        ),
{
    broadcast use schema::group_sent;

    lemma_many_group_ask(x.0, version, true);
}

/// An OffsetDelete request is taken as it was sent: the group, and the topics.
pub proof fn law_offset_delete(group: Seq<char>, topics: Seq<(Seq<char>, Seq<i32>)>, r: Src)
    requires
        Told::new().text(false, group).list(
            false,
            topics,
            |x: (Seq<char>, Seq<i32>)| whole_topic_sent(0, false, x),
        ).fits(),
    ensures
        offsets::offset_delete_at(
            schema::sent(
                Told::new().text(false, group).list(
                    false,
                    topics,
                    |x: (Seq<char>, Seq<i32>)| whole_topic_sent(0, false, x),
                ),
                r,
            ),
        ) == Some(
            OffsetDeleteView {
                group_id: group,
                topics: topics.map_values(
                    |x: (Seq<char>, Seq<i32>)| whole_topic_taken(0, false, x),
                ),
            },
        ),
{
    broadcast use schema::group_sent;

    lemma_many_whole_topic(topics, 0, false);
}

/// A JoinGroup request as a client makes it.
pub struct JoinCall {
    pub group_id: Seq<char>,
    pub session_timeout: i32,
    pub rebalance_timeout: i32,
    pub member_id: Seq<char>,
    pub instance: Option<Seq<char>>,
    pub protocol_type: Seq<char>,
    pub protocols: Seq<(Seq<char>, Option<Seq<u8>>)>,
}

/// A time that a client gives: none that is negative.
pub open spec fn time_taken(ms: i32) -> u32 {
    if ms < 0 {
        0
    } else {
        ms as u32
    }
}

/// A JoinGroup request: the group, the timeouts, the member, and the protocols that it knows,
/// as a client sends it.
pub open spec fn join_group_sent(version: i16, x: JoinCall) -> Told {
    let flexible = version >= 6;
    let t = Told::new().text(flexible, x.group_id).i32(x.session_timeout as int);
    let t = if version >= 1 {
        t.i32(x.rebalance_timeout as int)
    } else {
        t
    };
    let t = t.text(flexible, x.member_id);
    let t = if version >= 5 {
        t.opt_text(flexible, x.instance)
    } else {
        t
    };
    t.text(flexible, x.protocol_type).list(
        flexible,
        x.protocols,
        |x: (Seq<char>, Option<Seq<u8>>)| join_protocol_sent(version, flexible, x),
    ).end(flexible)
}

/// A JoinGroup request: the group, the timeouts, the member, and the protocols that it knows is
/// taken as it was sent.
#[verifier::spinoff_prover]
#[verifier::rlimit(80)]
pub proof fn law_join_group(x: JoinCall, version: i16, r: Src)
    requires
        join_group_sent(version, x).fits(),
    ensures
        membership::join_at(schema::sent(join_group_sent(version, x), r), version) == Some(
            JoinView {
                group_id: x.group_id,
                session_timeout: time_taken(x.session_timeout),
                rebalance_timeout: if version >= 1 {
                    time_taken(x.rebalance_timeout)
                } else {
                    0
                },
                member_id: x.member_id,
                instance_id: if version >= 5 {
                    or_empty(x.instance)
                } else {
                    Seq::empty()
                },
                protocol_type: x.protocol_type,
                protocols: Some(
                    x.protocols.map_values(
                        |x: (Seq<char>, Option<Seq<u8>>)| join_protocol_taken(
                            version,
                            version >= 6,
                            x,
                        ),
                    ),
                ),
            },
        ),
{
    broadcast use schema::group_sent;

    lemma_many_join_protocol(x.protocols, version, version >= 6);
    if version < 1 {
        assert(membership::join_at(schema::sent(join_group_sent(version, x), r), version) == Some(
            JoinView {
                group_id: x.group_id,
                session_timeout: time_taken(x.session_timeout),
                rebalance_timeout: if version >= 1 {
                    time_taken(x.rebalance_timeout)
                } else {
                    0
                },
                member_id: x.member_id,
                instance_id: if version >= 5 {
                    or_empty(x.instance)
                } else {
                    Seq::empty()
                },
                protocol_type: x.protocol_type,
                protocols: Some(
                    x.protocols.map_values(
                        |x: (Seq<char>, Option<Seq<u8>>)| join_protocol_taken(
                            version,
                            version >= 6,
                            x,
                        ),
                    ),
                ),
            },
        ));
    } else if version < 5 {
        assert(membership::join_at(schema::sent(join_group_sent(version, x), r), version) == Some(
            JoinView {
                group_id: x.group_id,
                session_timeout: time_taken(x.session_timeout),
                rebalance_timeout: if version >= 1 {
                    time_taken(x.rebalance_timeout)
                } else {
                    0
                },
                member_id: x.member_id,
                instance_id: if version >= 5 {
                    or_empty(x.instance)
                } else {
                    Seq::empty()
                },
                protocol_type: x.protocol_type,
                protocols: Some(
                    x.protocols.map_values(
                        |x: (Seq<char>, Option<Seq<u8>>)| join_protocol_taken(
                            version,
                            version >= 6,
                            x,
                        ),
                    ),
                ),
            },
        ));
    } else if version < 6 {
        assert(membership::join_at(schema::sent(join_group_sent(version, x), r), version) == Some(
            JoinView {
                group_id: x.group_id,
                session_timeout: time_taken(x.session_timeout),
                rebalance_timeout: if version >= 1 {
                    time_taken(x.rebalance_timeout)
                } else {
                    0
                },
                member_id: x.member_id,
                instance_id: if version >= 5 {
                    or_empty(x.instance)
                } else {
                    Seq::empty()
                },
                protocol_type: x.protocol_type,
                protocols: Some(
                    x.protocols.map_values(
                        |x: (Seq<char>, Option<Seq<u8>>)| join_protocol_taken(
                            version,
                            version >= 6,
                            x,
                        ),
                    ),
                ),
            },
        ));
    } else {
        assert(membership::join_at(schema::sent(join_group_sent(version, x), r), version) == Some(
            JoinView {
                group_id: x.group_id,
                session_timeout: time_taken(x.session_timeout),
                rebalance_timeout: if version >= 1 {
                    time_taken(x.rebalance_timeout)
                } else {
                    0
                },
                member_id: x.member_id,
                instance_id: if version >= 5 {
                    or_empty(x.instance)
                } else {
                    Seq::empty()
                },
                protocol_type: x.protocol_type,
                protocols: Some(
                    x.protocols.map_values(
                        |x: (Seq<char>, Option<Seq<u8>>)| join_protocol_taken(
                            version,
                            version >= 6,
                            x,
                        ),
                    ),
                ),
            },
        ));
    }
}

/// What the requests of a member begin with, as a client sends it: the group, its generation,
/// the member, and its instance.
pub open spec fn member_sent(
    version: i16,
    group: Seq<char>,
    generation: i32,
    member: Seq<char>,
    instance: Option<Seq<char>>,
) -> Told {
    let flexible = version >= 4;
    let t = Told::new().text(flexible, group).i32(generation as int).text(flexible, member);
    if version >= 3 {
        t.opt_text(flexible, instance)
    } else {
        t
    }
}

/// The member that speaks is taken as it was sent. So is a Heartbeat request, which says
/// nothing more.
pub proof fn law_member(
    version: i16,
    group: Seq<char>,
    generation: i32,
    member: Seq<char>,
    instance: Option<Seq<char>>,
    r: Src,
)
    requires
        member_sent(version, group, generation, member, instance).fits(),
    ensures
        membership::member_head_at(
            schema::sent(member_sent(version, group, generation, member, instance), r),
            version,
        ) == Some(
            (
                MemberHeadView {
                    group_id: group,
                    generation: generation as u32,
                    member_id: member_meant(version >= 3, member, instance),
                },
                r,
            ),
        ),
{
    broadcast use schema::group_sent;

}

/// A SyncGroup request as a client makes it.
pub struct SyncCall {
    pub group_id: Seq<char>,
    pub generation: i32,
    pub member_id: Seq<char>,
    pub instance: Option<Seq<char>>,
    pub protocol_type: Option<Seq<char>>,
    pub protocol: Option<Seq<char>>,
    pub assignments: Seq<(Seq<char>, Option<Seq<u8>>)>,
}

/// A SyncGroup request: the member, the protocol, and what the leader assigns, as a client
/// sends it.
pub open spec fn sync_group_sent(version: i16, x: SyncCall) -> Told {
    let flexible = version >= 4;
    let t = member_sent(version, x.group_id, x.generation, x.member_id, x.instance);
    let t = if version >= 5 {
        t.opt_text(true, x.protocol_type).opt_text(true, x.protocol)
    } else {
        t
    };
    t.list(
        flexible,
        x.assignments,
        |x: (Seq<char>, Option<Seq<u8>>)| sync_assignment_sent(version, flexible, x),
    ).end(flexible)
}

/// A SyncGroup request: the member, the protocol, and what the leader assigns is taken as it
/// was sent.
pub proof fn law_sync_group(x: SyncCall, version: i16, r: Src)
    requires
        sync_group_sent(version, x).fits(),
    ensures
        membership::sync_at(schema::sent(sync_group_sent(version, x), r), version) == Some(
            SyncView {
                head: MemberHeadView {
                    group_id: x.group_id,
                    generation: x.generation as u32,
                    member_id: member_meant(version >= 3, x.member_id, x.instance),
                },
                protocol_type: if version >= 5 {
                    x.protocol_type
                } else {
                    None
                },
                protocol: if version >= 5 {
                    x.protocol
                } else {
                    None
                },
                assignments: x.assignments.map_values(
                    |x: (Seq<char>, Option<Seq<u8>>)| sync_assignment_taken(
                        version,
                        version >= 4,
                        x,
                    ),
                ),
            },
        ),
{
    broadcast use schema::group_sent;

    lemma_many_sync_assignment(x.assignments, version, version >= 4);
}

/// A Metadata request: the topics or all of them, whether they are to be created, and whether
/// the operations that are allowed on the cluster and on the topics are to be told, as a client
/// sends it.
pub open spec fn metadata_sent(
    version: i16,
    x: (Option<Seq<(Seq<u8>, Option<Seq<char>>)>>, bool, bool, bool),
) -> Told {
    let flexible = version >= 9;
    let t = Told::new().opt_list(
        flexible,
        x.0,
        |x: (Seq<u8>, Option<Seq<char>>)| metadata_entry_sent(version, flexible, x),
    );
    let t = if version >= 4 {
        t.i8(flag(x.1))
    } else {
        t
    };
    let t = if 8 <= version <= 10 {
        t.i8(flag(x.2))
    } else {
        t
    };
    let t = if version >= 8 {
        t.i8(flag(x.3))
    } else {
        t
    };
    t.end(flexible)
}

/// A Metadata request: the topics or all of them, whether they are to be created, and whether
/// the operations that are allowed on the cluster and on the topics are to be told is taken as
/// it was sent.
#[verifier::spinoff_prover]
#[verifier::rlimit(80)]
pub proof fn law_metadata(
    x: (Option<Seq<(Seq<u8>, Option<Seq<char>>)>>, bool, bool, bool),
    version: i16,
    r: Src,
)
    requires
        metadata_sent(version, x).fits(),
        version >= 0,
    ensures
        metadata::metadata_at(schema::sent(metadata_sent(version, x), r), version) == (MetadataView {
            topics: match x.0 {
                Some(ts) if version > 0 || ts.len() > 0 => Some(
                    ts.map_values(
                        |x: (Seq<u8>, Option<Seq<char>>)| metadata_entry_taken(
                            version,
                            version >= 9,
                            x,
                        ),
                    ),
                ),
                _ => None,
            },
            include_cluster_ops: 8 <= version <= 10 && x.2,
            include_topic_ops: version >= 8 && x.3,
        }),
{
    broadcast use schema::group_sent;

    if let Some(ts) = x.0 {
        lemma_many_metadata_entry(ts, version, version >= 9);
    }
    if version < 1 {
        assert(metadata::metadata_at(schema::sent(metadata_sent(version, x), r), version) == (MetadataView {
            topics: match x.0 {
                Some(ts) if version > 0 || ts.len() > 0 => Some(
                    ts.map_values(
                        |x: (Seq<u8>, Option<Seq<char>>)| metadata_entry_taken(
                            version,
                            version >= 9,
                            x,
                        ),
                    ),
                ),
                _ => None,
            },
            include_cluster_ops: 8 <= version <= 10 && x.2,
            include_topic_ops: version >= 8 && x.3,
        }));
    } else if version < 4 {
        assert(metadata::metadata_at(schema::sent(metadata_sent(version, x), r), version) == (MetadataView {
            topics: match x.0 {
                Some(ts) if version > 0 || ts.len() > 0 => Some(
                    ts.map_values(
                        |x: (Seq<u8>, Option<Seq<char>>)| metadata_entry_taken(
                            version,
                            version >= 9,
                            x,
                        ),
                    ),
                ),
                _ => None,
            },
            include_cluster_ops: 8 <= version <= 10 && x.2,
            include_topic_ops: version >= 8 && x.3,
        }));
    } else if version < 8 {
        assert(metadata::metadata_at(schema::sent(metadata_sent(version, x), r), version) == (MetadataView {
            topics: match x.0 {
                Some(ts) if version > 0 || ts.len() > 0 => Some(
                    ts.map_values(
                        |x: (Seq<u8>, Option<Seq<char>>)| metadata_entry_taken(
                            version,
                            version >= 9,
                            x,
                        ),
                    ),
                ),
                _ => None,
            },
            include_cluster_ops: 8 <= version <= 10 && x.2,
            include_topic_ops: version >= 8 && x.3,
        }));
    } else if version < 9 {
        assert(metadata::metadata_at(schema::sent(metadata_sent(version, x), r), version) == (MetadataView {
            topics: match x.0 {
                Some(ts) if version > 0 || ts.len() > 0 => Some(
                    ts.map_values(
                        |x: (Seq<u8>, Option<Seq<char>>)| metadata_entry_taken(
                            version,
                            version >= 9,
                            x,
                        ),
                    ),
                ),
                _ => None,
            },
            include_cluster_ops: 8 <= version <= 10 && x.2,
            include_topic_ops: version >= 8 && x.3,
        }));
    } else if version < 11 {
        assert(metadata::metadata_at(schema::sent(metadata_sent(version, x), r), version) == (MetadataView {
            topics: match x.0 {
                Some(ts) if version > 0 || ts.len() > 0 => Some(
                    ts.map_values(
                        |x: (Seq<u8>, Option<Seq<char>>)| metadata_entry_taken(
                            version,
                            version >= 9,
                            x,
                        ),
                    ),
                ),
                _ => None,
            },
            include_cluster_ops: 8 <= version <= 10 && x.2,
            include_topic_ops: version >= 8 && x.3,
        }));
    } else {
        assert(metadata::metadata_at(schema::sent(metadata_sent(version, x), r), version) == (MetadataView {
            topics: match x.0 {
                Some(ts) if version > 0 || ts.len() > 0 => Some(
                    ts.map_values(
                        |x: (Seq<u8>, Option<Seq<char>>)| metadata_entry_taken(
                            version,
                            version >= 9,
                            x,
                        ),
                    ),
                ),
                _ => None,
            },
            include_cluster_ops: 8 <= version <= 10 && x.2,
            include_topic_ops: version >= 8 && x.3,
        }));
    }
}

/// A DescribeCluster request: whether the allowed operations are to be told, and which
/// endpoints, as a client sends it.
pub open spec fn describe_cluster_sent(version: i16, x: (bool, i8)) -> Told {
    let t = Told::new().i8(flag(x.0));
    let t = if version >= 1 {
        t.i8(x.1 as int)
    } else {
        t
    };
    t.end(true)
}

/// A DescribeCluster request: whether the allowed operations are to be told, and which
/// endpoints is taken as it was sent.
pub proof fn law_describe_cluster(x: (bool, i8), version: i16, r: Src)
    requires
        describe_cluster_sent(version, x).fits(),
    ensures
        metadata::describe_cluster_at(
            schema::sent(describe_cluster_sent(version, x), r),
            version,
        ).include_ops == x.0,
        version >= 1 ==> metadata::describe_cluster_at(
            schema::sent(describe_cluster_sent(version, x), r),
            version,
        ).endpoint_type
            == x.1,
        version < 1 ==> metadata::describe_cluster_at(
            schema::sent(describe_cluster_sent(version, x), r),
            version,
        ).endpoint_type
            == 1,
{
    broadcast use schema::group_sent;

}

/// A DescribeConfigs request: the resources, and whether synonyms and documentation are to be
/// told, as a client sends it.
pub open spec fn describe_configs_sent(
    version: i16,
    x: (Seq<(i8, Seq<char>, Seq<Seq<char>>)>, bool, bool),
) -> Told {
    let flexible = version >= 4;
    let t = Told::new().list(
        flexible,
        x.0,
        |x: (i8, Seq<char>, Seq<Seq<char>>)| config_resource_sent(version, flexible, x),
    );
    let t = if version >= 1 {
        t.i8(flag(x.1))
    } else {
        t
    };
    let t = if version >= 3 {
        t.i8(flag(x.2))
    } else {
        t
    };
    t.end(flexible)
}

/// A DescribeConfigs request: the resources, and whether synonyms and documentation are to be
/// told is taken as it was sent.
pub proof fn law_describe_configs(
    x: (Seq<(i8, Seq<char>, Seq<Seq<char>>)>, bool, bool),
    version: i16,
    r: Src,
)
    requires
        describe_configs_sent(version, x).fits(),
    ensures
        configs::describe_configs_at(schema::sent(describe_configs_sent(version, x), r), version) == (
            x.0.map_values(
                |x: (i8, Seq<char>, Seq<Seq<char>>)| config_resource_taken(
                    version,
                    version >= 4,
                    x,
                ),
            ),
            version >= 3 && x.2,
        ),
{
    broadcast use schema::group_sent;

    lemma_many_config_resource(x.0, version, version >= 4);
}

/// An AlterConfigs request: the resources, and whether they are only to be checked, as a client
/// sends it.
pub open spec fn alter_configs_sent(
    version: i16,
    x: (Seq<(i8, Seq<char>, Seq<(Seq<char>, Option<Seq<char>>)>)>, bool),
) -> Told {
    let flexible = version >= 2;
    Told::new().list(
        flexible,
        x.0,
        |x: (i8, Seq<char>, Seq<(Seq<char>, Option<Seq<char>>)>)| altered_sent(
            version,
            flexible,
            x,
        ),
    ).i8(flag(x.1)).end(flexible)
}

/// An AlterConfigs request: the resources, and whether they are only to be checked is taken as
/// it was sent.
pub proof fn law_alter_configs(
    x: (Seq<(i8, Seq<char>, Seq<(Seq<char>, Option<Seq<char>>)>)>, bool),
    version: i16,
    r: Src,
)
    requires
        alter_configs_sent(version, x).fits(),
    ensures
        configs::alter_configs_at::<AlterEntry>(schema::sent(alter_configs_sent(version, x), r), version, version >= 2) == (
            x.0.map_values(
                |x: (i8, Seq<char>, Seq<(Seq<char>, Option<Seq<char>>)>)| altered_taken(
                    version,
                    version >= 2,
                    x,
                ),
            ),
            x.1,
        ),
{
    broadcast use schema::group_sent;

    lemma_many_altered(x.0, version, version >= 2);
}

/// An IncrementalAlterConfigs request: the resources, and whether they are only to be checked,
/// as a client sends it.
pub open spec fn incremental_alter_configs_sent(
    version: i16,
    x: (Seq<(i8, Seq<char>, Seq<(Seq<char>, i8, Option<Seq<char>>)>)>, bool),
) -> Told {
    let flexible = version >= 1;
    Told::new().list(
        flexible,
        x.0,
        |x: (i8, Seq<char>, Seq<(Seq<char>, i8, Option<Seq<char>>)>)| altered_ops_sent(
            version,
            flexible,
            x,
        ),
    ).i8(flag(x.1)).end(flexible)
}

/// An IncrementalAlterConfigs request: the resources, and whether they are only to be checked
/// is taken as it was sent.
pub proof fn law_incremental_alter_configs(
    x: (Seq<(i8, Seq<char>, Seq<(Seq<char>, i8, Option<Seq<char>>)>)>, bool),
    version: i16,
    r: Src,
)
    requires
        incremental_alter_configs_sent(version, x).fits(),
    ensures
        configs::alter_configs_at::<ConfigOp>(
            schema::sent(incremental_alter_configs_sent(version, x), r),
            version,
            version >= 1,
        )
            == (
            x.0.map_values(
                |x: (i8, Seq<char>, Seq<(Seq<char>, i8, Option<Seq<char>>)>)| altered_ops_taken(
                    version,
                    version >= 1,
                    x,
                ),
            ),
            x.1,
        ),
{
    broadcast use schema::group_sent;

    lemma_many_altered_ops(x.0, version, version >= 1);
}

/// A DescribeGroups request: the groups, and whether the allowed operations are to be told, as
/// a client sends it.
pub open spec fn describe_groups_sent(version: i16, x: (Seq<Seq<char>>, bool)) -> Told {
    let flexible = version >= 5;
    let t = Told::new().list(flexible, x.0, |x: Seq<char>| text_sent(version, flexible, x));
    let t = if version >= 3 {
        t.i8(flag(x.1))
    } else {
        t
    };
    t.end(flexible)
}

/// A DescribeGroups request: the groups, and whether the allowed operations are to be told is
/// taken as it was sent.
pub proof fn law_describe_groups(x: (Seq<Seq<char>>, bool), version: i16, r: Src)
    requires
        describe_groups_sent(version, x).fits(),
    ensures
        group_admin::described_ids_at(
            schema::sent(describe_groups_sent(version, x), r),
            version,
            version >= 5,
            version >= 3,
        )
            == (
            x.0.map_values(|x: Seq<char>| text_taken(version, version >= 5, x)),
            version >= 3 && x.1,
        ),
{
    broadcast use schema::group_sent;

    lemma_many_text(x.0, version, version >= 5);
}

/// A ListGroups request: the states and the types that are asked for, as a client sends it.
pub open spec fn list_groups_sent(version: i16, x: (Seq<Seq<char>>, Seq<Seq<char>>)) -> Told {
    let t = if version >= 4 {
        Told::new().list(true, x.0, |x: Seq<char>| text_sent(version, true, x))
    } else {
        Told::new()
    };
    let t = if version >= 5 {
        t.list(true, x.1, |x: Seq<char>| text_sent(version, true, x))
    } else {
        t
    };
    t.end(version >= 3)
}

/// A ListGroups request: the states and the types that are asked for is taken as it was sent.
pub proof fn law_list_groups(x: (Seq<Seq<char>>, Seq<Seq<char>>), version: i16, r: Src)
    requires
        list_groups_sent(version, x).fits(),
    ensures
        group_admin::list_groups_at(schema::sent(list_groups_sent(version, x), r), version) == (GroupFilterView {
            states: if version >= 4 {
                x.0.map_values(|x: Seq<char>| text_taken(version, true, x))
            } else {
                Seq::empty()
            },
            types: if version >= 5 {
                x.1.map_values(|x: Seq<char>| text_taken(version, true, x))
            } else {
                Seq::empty()
            },
        }),
{
    broadcast use schema::group_sent;

    lemma_many_text(x.0, version, true);
    lemma_many_text(x.1, version, true);
}

/// A DeleteGroups request: the groups, as a client sends it.
pub open spec fn delete_groups_sent(version: i16, x: Seq<Seq<char>>) -> Told {
    let flexible = version >= 2;
    Told::new().list(flexible, x, |x: Seq<char>| text_sent(version, flexible, x)).end(flexible)
}

/// A DeleteGroups request: the groups is taken as it was sent.
pub proof fn law_delete_groups(x: Seq<Seq<char>>, version: i16, r: Src)
    requires
        delete_groups_sent(version, x).fits(),
    ensures
        message::loose_list_at::<String>(
            schema::sent(delete_groups_sent(version, x), r),
            version,
            version >= 2,
        ).0
            == x.map_values(|x: Seq<char>| text_taken(version, version >= 2, x)),
{
    broadcast use schema::group_sent;

    lemma_many_text(x, version, version >= 2);
}

/// A ListTransactions request: the states, the producers, the duration, and the pattern of the
/// ids, as a client sends it.
pub open spec fn list_transactions_sent(
    version: i16,
    x: (Seq<Seq<char>>, Seq<i64>, i64, Option<Seq<char>>),
) -> Told {
    let t = Told::new().list(
        true,
        x.0,
        |x: Seq<char>| loose_text_sent(version, true, x),
    ).list(true, x.1, |x: i64| long_sent(version, true, x));
    let t = if version >= 1 {
        t.i64(x.2 as int)
    } else {
        t
    };
    let t = if version >= 2 {
        t.opt_text(true, x.3)
    } else {
        t
    };
    t.end(true)
}

/// A ListTransactions request: the states, the producers, the duration, and the pattern of the
/// ids is taken as it was sent.
pub proof fn law_list_transactions(
    x: (Seq<Seq<char>>, Seq<i64>, i64, Option<Seq<char>>),
    version: i16,
    r: Src,
)
    requires
        list_transactions_sent(version, x).fits(),
    ensures
        transactions::list_transactions_at(
            schema::sent(list_transactions_sent(version, x), r),
            version,
        ).states
            == x.0.map_values(|x: Seq<char>| loose_text_taken(version, true, x)),
        transactions::list_transactions_at(
            schema::sent(list_transactions_sent(version, x), r),
            version,
        ).producers
            == x.1.map_values(|x: i64| long_taken(version, true, x)),
        transactions::list_transactions_at(schema::sent(list_transactions_sent(version, x), r), version).pattern == (
        if version >= 2 {
            x.3
        } else {
            None
        }),
{
    broadcast use schema::group_sent;

    lemma_many_loose_text(x.0, version, true);
    lemma_many_long(x.1, version, true);
}

/// An AlterUserScramCredentials request: what is to be deleted, and what is to be made or
/// replaced, as a client sends it.
pub open spec fn alter_scram_sent(
    version: i16,
    x: (Seq<(Seq<char>, i8)>, Seq<UpsertionView>),
) -> Told {
    Told::new().list(true, x.0, |x: (Seq<char>, i8)| scram_deletion_sent(0, true, x)).list(
        true,
        x.1,
        |x: UpsertionView| scram_upsertion_sent(0, true, x),
    ).end(true)
}

/// An AlterUserScramCredentials request: what is to be deleted, and what is to be made or
/// replaced is taken as it was sent.
pub proof fn law_alter_scram(x: (Seq<(Seq<char>, i8)>, Seq<UpsertionView>), version: i16, r: Src)
    requires
        alter_scram_sent(version, x).fits(),
    ensures
        credentials::alter_scram_at(schema::sent(alter_scram_sent(version, x), r)) == (AlterScramView {
            deletions: x.0.map_values(|x: (Seq<char>, i8)| scram_deletion_taken(0, true, x)),
            upsertions: x.1.map_values(|x: UpsertionView| scram_upsertion_taken(0, true, x)),
        }),
{
    broadcast use schema::group_sent;

    lemma_many_scram_deletion(x.0, 0, true);
    lemma_many_scram_upsertion(x.1, 0, true);
}

/// A topic of an AlterPartitionReassignments request, as a client sends it.
pub open spec fn reassign_topic_sent(
    version: i16,
    flexible: bool,
    x: (Seq<char>, Seq<(i32, Option<Seq<i32>>)>),
) -> Told {
    Told::new().text(flexible, x.0).list(
        flexible,
        x.1,
        |x: (i32, Option<Seq<i32>>)| reassign_part_sent(version, flexible, x),
    ).end(flexible)
}

/// A topic of an AlterPartitionReassignments request, as it is taken.
pub open spec fn reassign_topic_taken(
    version: i16,
    flexible: bool,
    x: (Seq<char>, Seq<(i32, Option<Seq<i32>>)>),
) -> TopicInView<ReassignPartView> {
    TopicInView {
        name: x.0,
        parts: x.1.map_values(
            |x: (i32, Option<Seq<i32>>)| reassign_part_taken(version, flexible, x),
        ),
    }
}

/// A topic of an AlterPartitionReassignments request is taken as it was sent.
pub proof fn law_reassign_topic(
    x: (Seq<char>, Seq<(i32, Option<Seq<i32>>)>),
    version: i16,
    flexible: bool,
)
    ensures
        schema::taken::<LooseTopic<ReassignPart>>(
            reassign_topic_sent(version, flexible, x),
            version,
            flexible,
            reassign_topic_taken(version, flexible, x),
        ),
{
    broadcast use schema::group_sent;

    if reassign_topic_sent(version, flexible, x).fits() {
        lemma_many_reassign_part(x.1, version, flexible);
    }
}

proof fn lemma_many_reassign_topic(
    items: Seq<(Seq<char>, Seq<(i32, Option<Seq<i32>>)>)>,
    version: i16,
    flexible: bool,
)
    ensures
        ({
            let f = |x: (Seq<char>, Seq<(i32, Option<Seq<i32>>)>)| reassign_topic_sent(
                version,
                flexible,
                x,
            );
            let v = |x: (Seq<char>, Seq<(i32, Option<Seq<i32>>)>)| reassign_topic_taken(
                version,
                flexible,
                x,
            );
            schema::field_fits(
                Kind::List(flexible, schema::kinds_of(items, f)),
                Value::List(schema::values_of(items, f)),
            ) ==> schema::list_taken::<(Seq<char>, Seq<(i32, Option<Seq<i32>>)>), LooseTopic<ReassignPart>>(items, f, v, version, flexible)
        }),
{
    let f = |x: (Seq<char>, Seq<(i32, Option<Seq<i32>>)>)| reassign_topic_sent(
        version,
        flexible,
        x,
    );
    let v = |x: (Seq<char>, Seq<(i32, Option<Seq<i32>>)>)| reassign_topic_taken(
        version,
        flexible,
        x,
    );
    if schema::field_fits(
        Kind::List(flexible, schema::kinds_of(items, f)),
        Value::List(schema::values_of(items, f)),
    ) {
        assert forall|i: int| 0 <= i < items.len() implies schema::taken::<LooseTopic<ReassignPart>>(
            f(#[trigger] items[i]),
            version,
            flexible,
            v(items[i]),
        ) by {
            law_reassign_topic(items[i], version, flexible);
        }
        schema::lemma_sent_list::<(Seq<char>, Seq<(i32, Option<Seq<i32>>)>), LooseTopic<ReassignPart>>(
            items,
            f,
            v,
            version,
            flexible,
        );
    }
}

/// An AlterPartitionReassignments request: a timeout, and the topics, as a client sends it.
pub open spec fn reassign_sent(
    version: i16,
    x: (i32, Seq<(Seq<char>, Seq<(i32, Option<Seq<i32>>)>)>),
) -> Told {
    Told::new().i32(x.0 as int).list(
        true,
        x.1,
        |x: (Seq<char>, Seq<(i32, Option<Seq<i32>>)>)| reassign_topic_sent(0, true, x),
    ).end(true)
}

/// An AlterPartitionReassignments request: a timeout, and the topics is taken as it was sent.
pub proof fn law_reassign(
    x: (i32, Seq<(Seq<char>, Seq<(i32, Option<Seq<i32>>)>)>),
    version: i16,
    r: Src,
)
    requires
        reassign_sent(version, x).fits(),
    ensures
        message::loose_list_at::<LooseTopic<ReassignPart>>(
            admin::over(schema::sent(reassign_sent(version, x), r), 4),
            0,
            true,
        ).0 == x.1.map_values(|x: (Seq<char>, Seq<(i32, Option<Seq<i32>>)>)| reassign_topic_taken(0, true, x)),
{
    broadcast use schema::group_sent;

    lemma_many_reassign_topic(x.1, 0, true);
}

/// An ElectLeaders request: the kind of the election, a timeout, and the topics or all of them,
/// as a client sends it.
pub open spec fn elect_leaders_sent(
    version: i16,
    x: (i8, i32, Option<Seq<(Seq<char>, Seq<i32>)>>),
) -> Told {
    let flexible = version >= 1;
    let t = if version >= 1 {
        Told::new().i8(x.0 as int)
    } else {
        Told::new()
    };
    t.i32(x.1 as int).opt_list(
        flexible,
        x.2,
        |x: (Seq<char>, Seq<i32>)| plain_topic_sent(version, flexible, x),
    ).end(flexible)
}

/// An ElectLeaders request: the kind of the election, a timeout, and the topics or all of them
/// is taken as it was sent.
pub proof fn law_elect_leaders(
    x: (i8, i32, Option<Seq<(Seq<char>, Seq<i32>)>>),
    version: i16,
    r: Src,
)
    requires
        elect_leaders_sent(version, x).fits(),
    ensures
        reassignment::elect_leaders_at(schema::sent(elect_leaders_sent(version, x), r), version) == (ElectView {
            election_type: if version >= 1 {
                x.0
            } else {
                0
            },
            topics: match x.2 {
                Some(ts) => Some(
                    ts.map_values(
                        |x: (Seq<char>, Seq<i32>)| plain_topic_taken(version, version >= 1, x),
                    ),
                ),
                None => None,
            },
        }),
{
    broadcast use schema::group_sent;

    if let Some(ts) = x.2 {
        lemma_many_plain_topic(ts, version, version >= 1);
    }
}

/// What a CreateTopics request says of a topic, field by field, and what is taken of it: the
/// first number is how many partitions it gets, and the second, the replication factor, changes
/// nothing.
pub proof fn law_new_topic_fields(x: TopicWish, version: i16, r: Src)
    requires
        new_topic_sent(version, true, x).fits(),
    ensures
        new_topic_sent(version, true, x).values == seq![
            Value::Text(x.name),
            Value::Int(x.partitions as int),
            Value::Int(x.replication as int),
            Value::List(
                schema::values_of(
                    x.replicas,
                    |x: (i32, Seq<i32>)| wished_replicas_sent(version, true, x),
                ),
            ),
            Value::List(
                schema::values_of(
                    x.configs,
                    |x: (Seq<char>, Option<Seq<char>>)| config_sent(version, true, x),
                ),
            ),
            Value::Tags(Seq::empty()),
        ],
        NewTopic::at(schema::sent(new_topic_sent(version, true, x), r), version, true) == wire::keep(
            NewTopicView {
                name: x.name,
                partitions: x.partitions,
                configs: x.configs.map_values(
                    |c: (Seq<char>, Option<Seq<char>>)|
                        (
                            c.0,
                            match c.1 {
                                Some(v) => v,
                                None => Seq::empty(),
                            },
                        ),
                ),
            },
            r,
        ),
{
    law_new_topic(x, version, true);
    assert(new_topic_sent(version, true, x).values =~= seq![
            Value::Text(x.name),
            Value::Int(x.partitions as int),
            Value::Int(x.replication as int),
            Value::List(
                schema::values_of(
                    x.replicas,
                    |x: (i32, Seq<i32>)| wished_replicas_sent(version, true, x),
                ),
            ),
            Value::List(
                schema::values_of(
                    x.configs,
                    |x: (Seq<char>, Option<Seq<char>>)| config_sent(version, true, x),
                ),
            ),
            Value::Tags(Seq::empty()),
    ]);
    assert(x.configs.map_values(|c: (Seq<char>, Option<Seq<char>>)| config_taken(version, true, c))
        =~= x.configs.map_values(
        |c: (Seq<char>, Option<Seq<char>>)|
            (
                c.0,
                match c.1 {
                    Some(v) => v,
                    None => Seq::empty(),
                },
            ),
    ));
}

/// The topic that is taken from a CreateTopics request has the partitions that the request asks
/// for, in every version, and does not depend on the replication factor or the replicas that it
/// wishes.
pub proof fn law_replication_aside(x: TopicWish, y: TopicWish, version: i16, flexible: bool, r: Src)
    requires
        new_topic_sent(version, flexible, x).fits(),
        new_topic_sent(version, flexible, y).fits(),
        x.name == y.name,
        x.partitions == y.partitions,
        x.configs == y.configs,
    ensures
        NewTopic::at(schema::sent(new_topic_sent(version, flexible, x), r), version, flexible)
            == NewTopic::at(
                schema::sent(new_topic_sent(version, flexible, y), r),
                version,
                flexible,
            ),
        NewTopic::at(
            schema::sent(new_topic_sent(version, flexible, x), r),
            version,
            flexible,
        ).item matches Some(t) && t.name == x.name && t.partitions == x.partitions && t.configs.len()
            == x.configs.len(),
        new_topic_sent(version, flexible, x).values[1] == Value::Int(x.partitions as int),
        new_topic_sent(version, flexible, x).values[2] == Value::Int(x.replication as int),
{
    law_new_topic(x, version, flexible);
    law_new_topic(y, version, flexible);
}

/// What a CreatePartitions request says of a topic, field by field, and what is taken of it.
pub proof fn law_grown_topic_fields(x: (Seq<char>, i32, Seq<Seq<i32>>), version: i16, r: Src)
    requires
        grown_topic_sent(version, true, x).fits(),
    ensures
        grown_topic_sent(version, true, x).values == seq![
            Value::Text(x.0),
            Value::Int(x.1 as int),
            Value::List(
                schema::values_of(x.2, |x: Seq<i32>| wished_brokers_sent(version, true, x)),
            ),
            Value::Tags(Seq::empty()),
        ],
        GrownTopic::at(schema::sent(grown_topic_sent(version, true, x), r), version, true) == wire::keep(
            (x.0, x.1),
            r,
        ),
{
    law_grown_topic(x, version, true);
    assert(grown_topic_sent(version, true, x).values =~= seq![
            Value::Text(x.0),
            Value::Int(x.1 as int),
            Value::List(
                schema::values_of(x.2, |x: Seq<i32>| wished_brokers_sent(version, true, x)),
            ),
            Value::Tags(Seq::empty()),
    ]);
}

/// What a Produce request says of a partition, field by field, and what is taken of it.
pub proof fn law_produce_part_fields(x: (i32, Option<Seq<u8>>), version: i16, r: Src)
    requires
        produce_part_sent(version, true, x).fits(),
    ensures
        produce_part_sent(version, true, x).values == seq![
            Value::Int(x.0 as int),
            Value::Blob(x.1),
            Value::Tags(Seq::empty()),
        ],
        ProducePart::at(schema::sent(produce_part_sent(version, true, x), r), version, true) == wire::keep(
            ProducePartView {
                partition: x.0,
                records: Some(
                    match x.1 {
                        Some(d) => d,
                        None => Seq::empty(),
                    },
                ),
            },
            r,
        ),
{
    law_produce_part(x, version, true);
    assert(produce_part_sent(version, true, x).values =~= seq![
            Value::Int(x.0 as int),
            Value::Blob(x.1),
            Value::Tags(Seq::empty()),
    ]);
}

/// What a Fetch request says of a partition, field by field, and what is taken of it.
pub proof fn law_fetch_part_fields(x: FetchWish, version: i16, r: Src)
    requires
        version >= 12,
        fetch_part_sent(version, true, x).fits(),
    ensures
        fetch_part_sent(version, true, x).values == seq![
            Value::Int(x.partition as int),
            Value::Int(x.current_leader_epoch as int),
            Value::Int(x.fetch_offset as int),
            Value::Int(x.last_fetched_epoch as int),
            Value::Int(x.log_start as int),
            Value::Int(x.max_bytes as int),
            Value::Tags(Seq::empty()),
        ],
        FetchPart::at(schema::sent(fetch_part_sent(version, true, x), r), version, true) == wire::keep(
            FetchPart {
                partition: x.partition,
                current_leader_epoch: x.current_leader_epoch,
                fetch_offset: x.fetch_offset,
                last_fetched_epoch: x.last_fetched_epoch,
                max_bytes: if x.max_bytes < 0 {
                    0
                } else {
                    x.max_bytes as usize
                },
            },
            r,
        ),
{
    law_fetch_part(x, version, true);
    assert(fetch_part_sent(version, true, x).values =~= seq![
            Value::Int(x.partition as int),
            Value::Int(x.current_leader_epoch as int),
            Value::Int(x.fetch_offset as int),
            Value::Int(x.last_fetched_epoch as int),
            Value::Int(x.log_start as int),
            Value::Int(x.max_bytes as int),
            Value::Tags(Seq::empty()),
    ]);
}

/// What a ListOffsets request says of a partition, field by field, and what is taken of it.
pub proof fn law_list_offsets_part_fields(x: (ListOffsetsPart, i32), version: i16, r: Src)
    requires
        version >= 6,
        list_offsets_part_sent(version, true, x).fits(),
    ensures
        list_offsets_part_sent(version, true, x).values == seq![
            Value::Int(x.0.partition as int),
            Value::Int(x.0.current_leader_epoch as int),
            Value::Int(x.0.timestamp as int),
            Value::Tags(Seq::empty()),
        ],
        ListOffsetsPart::at(schema::sent(list_offsets_part_sent(version, true, x), r), version, true) == wire::keep(
            ListOffsetsPart {
                partition: x.0.partition,
                current_leader_epoch: x.0.current_leader_epoch,
                timestamp: x.0.timestamp,
            },
            r,
        ),
{
    law_list_offsets_part(x, version, true);
    assert(list_offsets_part_sent(version, true, x).values =~= seq![
            Value::Int(x.0.partition as int),
            Value::Int(x.0.current_leader_epoch as int),
            Value::Int(x.0.timestamp as int),
            Value::Tags(Seq::empty()),
    ]);
}

/// What an OffsetForLeaderEpoch request says of a partition, field by field, and what is taken
/// of it.
pub proof fn law_epoch_part_fields(x: LeaderEpochPart, version: i16, r: Src)
    requires
        version >= 4,
        epoch_part_sent(version, true, x).fits(),
    ensures
        epoch_part_sent(version, true, x).values == seq![
            Value::Int(x.partition as int),
            Value::Int(x.current_leader_epoch as int),
            Value::Int(x.leader_epoch as int),
            Value::Tags(Seq::empty()),
        ],
        LeaderEpochPart::at(schema::sent(epoch_part_sent(version, true, x), r), version, true) == wire::keep(
            LeaderEpochPart {
                partition: x.partition,
                current_leader_epoch: x.current_leader_epoch,
                leader_epoch: x.leader_epoch,
            },
            r,
        ),
{
    law_epoch_part(x, version, true);
    assert(epoch_part_sent(version, true, x).values =~= seq![
            Value::Int(x.partition as int),
            Value::Int(x.current_leader_epoch as int),
            Value::Int(x.leader_epoch as int),
            Value::Tags(Seq::empty()),
    ]);
}

/// What a DeleteRecords request says of a partition, field by field, and what is taken of it.
pub proof fn law_delete_part_fields(x: DeleteRecordsPart, version: i16, r: Src)
    requires
        version >= 2,
        delete_part_sent(version, true, x).fits(),
    ensures
        delete_part_sent(version, true, x).values == seq![
            Value::Int(x.partition as int),
            Value::Int(x.offset as int),
            Value::Tags(Seq::empty()),
        ],
        DeleteRecordsPart::at(schema::sent(delete_part_sent(version, true, x), r), version, true) == wire::keep(
            DeleteRecordsPart { partition: x.partition, offset: x.offset },
            r,
        ),
{
    law_delete_part(x, version, true);
    assert(delete_part_sent(version, true, x).values =~= seq![
            Value::Int(x.partition as int),
            Value::Int(x.offset as int),
            Value::Tags(Seq::empty()),
    ]);
}

/// What an OffsetCommit request says of a partition, field by field, and what is taken of it.
pub proof fn law_commit_part_fields(x: CommitWish, version: i16, r: Src)
    requires
        version >= 8,
        commit_part_sent(version, true, x).fits(),
    ensures
        commit_part_sent(version, true, x).values == seq![
            Value::Int(x.partition as int),
            Value::Int(x.offset as int),
            Value::Int(x.leader_epoch as int),
            Value::OptText(x.metadata),
            Value::Tags(Seq::empty()),
        ],
        CommitPart::at(schema::sent(commit_part_sent(version, true, x), r), version, true) == wire::keep(
            CommitPartView {
                partition: x.partition,
                offset: if x.offset < 0 {
                    0
                } else {
                    x.offset as u64
                },
                leader_epoch: x.leader_epoch,
                metadata: match x.metadata {
                    Some(m) => m,
                    None => Seq::empty(),
                },
            },
            r,
        ),
{
    law_commit_part(x, version, true);
    assert(commit_part_sent(version, true, x).values =~= seq![
            Value::Int(x.partition as int),
            Value::Int(x.offset as int),
            Value::Int(x.leader_epoch as int),
            Value::OptText(x.metadata),
            Value::Tags(Seq::empty()),
    ]);
}

/// What a JoinGroup request says of a protocol, field by field, and what is taken of it.
pub proof fn law_join_protocol_fields(x: (Seq<char>, Option<Seq<u8>>), version: i16, r: Src)
    requires
        version >= 6,
        join_protocol_sent(version, true, x).fits(),
    ensures
        join_protocol_sent(version, true, x).values == seq![
            Value::Text(x.0),
            Value::Blob(x.1),
            Value::Tags(Seq::empty()),
        ],
        JoinProtocol::at(schema::sent(join_protocol_sent(version, true, x), r), version, true) == wire::keep(
            JoinProtocolView {
                name: x.0,
                metadata: match x.1 {
                    Some(d) => d,
                    None => Seq::empty(),
                },
            },
            r,
        ),
{
    law_join_protocol(x, version, true);
    assert(join_protocol_sent(version, true, x).values =~= seq![
            Value::Text(x.0),
            Value::Blob(x.1),
            Value::Tags(Seq::empty()),
    ]);
}

/// What a SyncGroup request says of a member, field by field, and what is taken of it.
pub proof fn law_sync_assignment_fields(x: (Seq<char>, Option<Seq<u8>>), version: i16, r: Src)
    requires
        version >= 4,
        sync_assignment_sent(version, true, x).fits(),
    ensures
        sync_assignment_sent(version, true, x).values == seq![
            Value::Text(x.0),
            Value::Blob(x.1),
            Value::Tags(Seq::empty()),
        ],
        SyncAssignment::at(schema::sent(sync_assignment_sent(version, true, x), r), version, true) == wire::keep(
            SyncAssignmentView {
                member_id: x.0,
                assignment: match x.1 {
                    Some(d) => d,
                    None => Seq::empty(),
                },
            },
            r,
        ),
{
    law_sync_assignment(x, version, true);
    assert(sync_assignment_sent(version, true, x).values =~= seq![
            Value::Text(x.0),
            Value::Blob(x.1),
            Value::Tags(Seq::empty()),
    ]);
}

/// What an IncrementalAlterConfigs request says of a setting, field by field, and what is taken
/// of it.
pub proof fn law_config_op_fields(x: (Seq<char>, i8, Option<Seq<char>>), version: i16, r: Src)
    requires
        version >= 1,
        config_op_sent(version, true, x).fits(),
    ensures
        config_op_sent(version, true, x).values == seq![
            Value::Text(x.0),
            Value::Int(x.1 as int),
            Value::OptText(x.2),
            Value::Tags(Seq::empty()),
        ],
        ConfigOp::at(schema::sent(config_op_sent(version, true, x), r), version, true) == wire::keep(
            ConfigOpView::Entry {
                key: x.0,
                op: x.1,
                value: match x.2 {
                    Some(v) => v,
                    None => Seq::empty(),
                },
            },
            r,
        ),
{
    law_config_op(x, version, true);
    assert(config_op_sent(version, true, x).values =~= seq![
            Value::Text(x.0),
            Value::Int(x.1 as int),
            Value::OptText(x.2),
            Value::Tags(Seq::empty()),
    ]);
}

/// What an AlterConfigs request says of a setting, field by field, and what is taken of it.
pub proof fn law_alter_entry_fields(x: (Seq<char>, Option<Seq<char>>), version: i16, r: Src)
    requires
        version >= 2,
        alter_entry_sent(version, true, x).fits(),
    ensures
        alter_entry_sent(version, true, x).values == seq![
            Value::Text(x.0),
            Value::OptText(x.1),
            Value::Tags(Seq::empty()),
        ],
        AlterEntry::at(schema::sent(alter_entry_sent(version, true, x), r), version, true) == wire::keep(
            (
                x.0,
                match x.1 {
                    Some(v) => v,
                    None => Seq::empty(),
                },
            ),
            r,
        ),
{
    law_alter_entry(x, version, true);
    assert(alter_entry_sent(version, true, x).values =~= seq![
            Value::Text(x.0),
            Value::OptText(x.1),
            Value::Tags(Seq::empty()),
    ]);
}

/// What an AlterUserScramCredentials request says of a credential, field by field, and what is
/// taken of it.
pub proof fn law_scram_upsertion_fields(x: UpsertionView, version: i16, r: Src)
    requires
        scram_upsertion_sent(version, true, x).fits(),
    ensures
        scram_upsertion_sent(version, true, x).values == seq![
            Value::Text(x.name),
            Value::Int(x.mechanism as int),
            Value::Int(x.iterations as int),
            Value::Blob(Some(x.salt)),
            Value::Blob(Some(x.salted)),
            Value::Tags(Seq::empty()),
        ],
        ScramUpsertion::at(schema::sent(scram_upsertion_sent(version, true, x), r), version, true) == wire::keep(
            UpsertionView {
                name: x.name,
                mechanism: x.mechanism,
                iterations: x.iterations,
                salt: x.salt,
                salted: x.salted,
            },
            r,
        ),
{
    law_scram_upsertion(x, version, true);
    assert(scram_upsertion_sent(version, true, x).values =~= seq![
            Value::Text(x.name),
            Value::Int(x.mechanism as int),
            Value::Int(x.iterations as int),
            Value::Blob(Some(x.salt)),
            Value::Blob(Some(x.salted)),
            Value::Tags(Seq::empty()),
    ]);
}

/// What a Metadata request says of a topic, field by field, and what is taken of it.
pub proof fn law_metadata_entry_fields(x: (Seq<u8>, Option<Seq<char>>), version: i16, r: Src)
    requires
        version >= 10,
        metadata_entry_sent(version, true, x).fits(),
    ensures
        metadata_entry_sent(version, true, x).values == seq![
            Value::Uuid(x.0),
            Value::OptText(x.1),
            Value::Tags(Seq::empty()),
        ],
        MetadataEntry::at(schema::sent(metadata_entry_sent(version, true, x), r), version, true) == wire::keep(
            MetadataEntryView { uuid: x.0, name: x.1 },
            r,
        ),
{
    law_metadata_entry(x, version, true);
    assert(metadata_entry_sent(version, true, x).values =~= seq![
            Value::Uuid(x.0),
            Value::OptText(x.1),
            Value::Tags(Seq::empty()),
    ]);
}

/// What a DeleteTopics request says of a topic, field by field, and what is taken of it.
pub proof fn law_doomed_topic_fields(x: (Option<Seq<char>>, Seq<u8>), version: i16, r: Src)
    requires
        version >= 6,
        doomed_topic_sent(version, true, x).fits(),
    ensures
        doomed_topic_sent(version, true, x).values == seq![
            Value::OptText(x.0),
            Value::Uuid(x.1),
            Value::Tags(Seq::empty()),
        ],
        DoomedTopic::at(schema::sent(doomed_topic_sent(version, true, x), r), version, true) == wire::keep(
            DoomedView { name: x.0, uuid: x.1 },
            r,
        ),
{
    law_doomed_topic(x, version, true);
    assert(doomed_topic_sent(version, true, x).values =~= seq![
            Value::OptText(x.0),
            Value::Uuid(x.1),
            Value::Tags(Seq::empty()),
    ]);
}

/// The header of a request is taken as it was sent: the API, its version, the number by which the
/// client knows the request, and the name of the client.
pub proof fn law_header(
    api: i16,
    version: i16,
    correlation: i32,
    client: Option<Seq<char>>,
    r: Src,
)
    requires
        Told::new().i16(api as int).i16(version as int).i32(correlation as int).opt_text(
            false,
            client,
        ).fits(),
    ensures
        crate::codec::header_at(
            schema::sent(
                Told::new().i16(api as int).i16(version as int).i32(correlation as int).opt_text(
                    false,
                    client,
                ),
                r,
            ),
        ) == wire::done(
            crate::codec::HeaderView {
                api_key: api,
                api_version: version,
                correlation_id: correlation,
                client_id: client,
            },
            r,
        ),
{
    broadcast use schema::group_sent;

    let b = schema::sent(
        Told::new().i16(api as int).i16(version as int).i32(correlation as int).opt_text(
            false,
            client,
        ),
        r,
    );
    assert(b.skip(4) =~= b.skip(2).skip(2));
    assert(b.skip(8) =~= b.skip(2).skip(2).skip(4));
}

} // verus!
