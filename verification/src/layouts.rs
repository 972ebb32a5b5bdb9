//! What clients find in responses: each is laid out as the protocol has it, and holds what it
//! was made of.

use vstd::prelude::*;

use crate::acl;
use crate::acl::AclEntry;
use crate::acl_api;
use crate::acl_api::{AclGroup, CreationRow, DeletedAcl, DeletionRow};
use crate::admin::Verdict;
use crate::api;
use crate::api::{ApiKey, KafkaErrorCode};
use crate::buffer::Contents;
use crate::cluster_admin::LogDirRow;
use crate::configs;
use crate::configs::{AlteredRow, ConfigRow, DescribedResource};
use crate::consumer_protocol;
use crate::credentials;
use crate::credentials::{ScramInfo, ScramUser};
use crate::delete_records;
use crate::delete_records::DeleteRecordsRow;
use crate::fetch_response;
use crate::fetch_response::{FetchRow, FetchRowView, FetchTopicOut};
use crate::group_admin;
use crate::group_admin::{
    AssignedTopic, ConsumerMember, DeletedGroup, DescribedConsumerGroup, DescribedGroup,
    GroupMember, ListedGroup,
};
use crate::handler;
use crate::handler::AuthenticationView;
use crate::list_offsets;
use crate::list_offsets::{LeaderEpochRow, ListOffsetsRow};
use crate::membership;
use crate::membership::{JoinMember, JoinReply, LeaveRow};
use crate::message;
use crate::message::{LooseString, Row, TopicOut, WireTopicOut};
use crate::metadata;
use crate::metadata::{BrokerNode, MetadataPartition, MetadataTopic, UnknownTopic};
use crate::offsets;
use crate::offsets::{GroupOffsets, OffsetRow, OffsetTopic, PartitionError};
use crate::produce;
use crate::produce::{NodeEndpoint, ProduceRow, ProduceTopicOut};
use crate::reassignment;
use crate::reassignment::{PartVerdict, ReassignRow};
use crate::schema;
use crate::schema::{Kind, Told, Value};
use crate::topic_admin;
use crate::topic_admin::{CreatedTopic, DeletedTopic, NamedVerdict};
use crate::topic_id;
use crate::topic_id::WireView;
use crate::transactions;
use crate::transactions::{ActiveProducer, OpenTransaction, ProducersRow, TransactionRow};
use crate::wire;
use crate::wire::{Out, Src};

verus! {

/// One tag is written behind what is there.
proof fn lemma_one_tag(o: Out, tag: u32, d: Seq<u8>)
    requires
        d.len() <= u32::MAX,
    ensures
        produce::tag_out(o.uvarint(1), tag, d) == o.raw(
            schema::field_bytes(Kind::Tags, Value::Tags(seq![(tag as nat, d)])),
        ),
{
    let ts = seq![(tag as nat, d)];
    assert(ts.drop_last() =~= Seq::empty());
    assert(schema::tags_bytes(ts.drop_last()) =~= Seq::empty());
    assert(produce::tag_out(o.uvarint(1), tag, d) =~= o.raw(
        schema::field_bytes(Kind::Tags, Value::Tags(ts)),
    ));
}

/// Two tags are written behind what is there.
proof fn lemma_two_tags(o: Out, a: u32, x: Seq<u8>, b: u32, y: Seq<u8>)
    requires
        x.len() <= u32::MAX,
        y.len() <= u32::MAX,
    ensures
        produce::tag_out(produce::tag_out(o.uvarint(2), a, x), b, y) == o.raw(
            schema::field_bytes(
                Kind::Tags,
                Value::Tags(Seq::empty().push((a as nat, x)).push((b as nat, y))),
            ),
        ),
{
    let ts = Seq::empty().push((a as nat, x)).push((b as nat, y));
    assert(ts.drop_last() =~= seq![(a as nat, x)]);
    assert(seq![(a as nat, x)].drop_last() =~= Seq::empty());
    reveal_with_fuel(schema::tags_bytes, 3);
    assert(produce::tag_out(produce::tag_out(o.uvarint(2), a, x), b, y) =~= o.raw(
        schema::field_bytes(Kind::Tags, Value::Tags(ts)),
    ));
}

/// A topic as it is told: under its name, or under its identifier.
pub open spec fn topic_told(t: Told, flexible: bool, w: WireView) -> Told {
    match w {
        WireView::Uuid(u) => t.uuid(u),
        WireView::Name(n) => t.text(flexible, n),
    }
}

/// A leader as it is told: its id and its epoch.
pub open spec fn leader_told(l: (i32, i32)) -> Told {
    Told::new().i32(l.0 as int).i32(l.1 as int).end(true)
}

/// Where a log diverges: the epoch, and its end.
pub open spec fn divergence_told(d: (i32, i64)) -> Told {
    Told::new().i32(d.0 as int).i64(d.1 as int)
}

proof fn lemma_leader_told(l: (i32, i32))
    ensures
        produce::leader_body(l.0, l.1) == leader_told(l).bytes(),
        leader_told(l).bytes().len() == 9,
{
    broadcast use schema::group_fields;

    wire::lemma_be_len(4, l.0 as int);
    wire::lemma_be_len(4, l.1 as int);
    assert(schema::said(Out::new(), leader_told(l)).bytes =~= leader_told(l).bytes());
}

proof fn lemma_divergence_told(d: (i32, i64))
    ensures
        fetch_response::diverging_body(d.0, d.1) == divergence_told(d).bytes(),
        divergence_told(d).bytes().len() == 12,
{
    broadcast use schema::group_fields;

    wire::lemma_be_len(4, d.0 as int);
    wire::lemma_be_len(8, d.1 as int);
    assert(schema::said(Out::new(), divergence_told(d)).bytes =~= divergence_told(d).bytes());
}

/// An aborted transaction as it is told: its producer, and its first offset.
pub open spec fn aborted_told(flexible: bool, a: (u64, u64)) -> Told {
    Told::new().nat64(a.0 as int).nat64(a.1 as int).end(flexible)
}

/// The tags of a partition of a Fetch response: where the log diverges, and who leads.
pub open spec fn fetch_row_tags(r: FetchRowView) -> Seq<(nat, Seq<u8>)> {
    let ts = match r.diverging {
        Some(d) => Seq::empty().push((0nat, divergence_told(d).bytes())),
        None => Seq::empty(),
    };
    match r.current_leader {
        Some(l) => ts.push((1nat, leader_told(l).bytes())),
        None => ts,
    }
}

proof fn lemma_row_tags(o: Out, v: FetchRowView)
    ensures
        fetch_response::row_tags(o, v.diverging, v.current_leader) == o.raw(
            schema::field_bytes(Kind::Tags, Value::Tags(fetch_row_tags(v))),
        ),
{
    broadcast use schema::group_fields;

    if let Some(d) = v.diverging {
        lemma_divergence_told(d);
    }
    if let Some(l) = v.current_leader {
        lemma_leader_told(l);
    }
    match (v.diverging, v.current_leader) {
        (Some(d), Some(l)) => {
            lemma_two_tags(o, 0u32, divergence_told(d).bytes(), 1u32, leader_told(l).bytes());
        },
        (Some(d), None) => {
            lemma_one_tag(o, 0u32, divergence_told(d).bytes());
        },
        (None, Some(l)) => {
            lemma_one_tag(o, 1u32, leader_told(l).bytes());
        },
        (None, None) => {
            assert(o.uvarint(0) == o.tags());
        },
    }
}

/// The error of a single record: which one, and what is wrong with it.
pub open spec fn record_error_told(flexible: bool) -> Told {
    Told::new().i32(0).opt_text(flexible, None).end(flexible)
}

/// A number in an array, as it is told.
pub open spec fn int_told(version: i16, flexible: bool, x: i32) -> Told {
    Told::new().i32(x as int)
}

/// A number in an array tells what it holds.
pub proof fn law_int(o: Out, x: i32, version: i16, flexible: bool)
    ensures
        schema::lays_out(
            o,
            x.row(o, version, flexible),
            int_told(version, flexible, x),
        ),
{
    broadcast use {schema::group_fields, schema::law_tells};

}

proof fn lemma_rows_int(items: Seq<i32>, version: i16, flexible: bool)
    ensures
        ({
            let f = |x: i32| int_told(version, flexible, x);
            forall|o: Out| #[trigger]
                message::rows_out(o, items, version, flexible) == o.raw(
                    schema::field_bytes(
                        Kind::List(flexible, schema::kinds_of(items, f)),
                        Value::List(schema::values_of(items, f)),
                    ),
                )
        }),
{
    let f = |x: i32| int_told(version, flexible, x);
    assert forall|i: int, o: Out|
        #![trigger items[i].row(o, version, flexible)]
        0 <= i < items.len() implies items[i].row(o, version, flexible) == schema::said(
        o,
        f(items[i]),
    ) by {
        law_int(o, items[i], version, flexible);
    }
    schema::lemma_list(items, version, flexible, f);
}

/// The id of a broker in an array, as it is told.
pub open spec fn id_told(version: i16, flexible: bool, x: u32) -> Told {
    Told::new().i32(x as int)
}

/// The id of a broker in an array tells what it holds.
pub proof fn law_id(o: Out, x: u32, version: i16, flexible: bool)
    ensures
        schema::lays_out(
            o,
            x.row(o, version, flexible),
            id_told(version, flexible, x),
        ),
{
    broadcast use {schema::group_fields, schema::law_tells};

}

proof fn lemma_rows_id(items: Seq<u32>, version: i16, flexible: bool)
    ensures
        ({
            let f = |x: u32| id_told(version, flexible, x);
            forall|o: Out| #[trigger]
                message::rows_out(o, items, version, flexible) == o.raw(
                    schema::field_bytes(
                        Kind::List(flexible, schema::kinds_of(items, f)),
                        Value::List(schema::values_of(items, f)),
                    ),
                )
        }),
{
    let f = |x: u32| id_told(version, flexible, x);
    assert forall|i: int, o: Out|
        #![trigger items[i].row(o, version, flexible)]
        0 <= i < items.len() implies items[i].row(o, version, flexible) == schema::said(
        o,
        f(items[i]),
    ) by {
        law_id(o, items[i], version, flexible);
    }
    schema::lemma_list(items, version, flexible, f);
}

/// A string in an array, as it is told.
pub open spec fn string_told(version: i16, flexible: bool, x: String) -> Told {
    Told::new().text(flexible, x@)
}

/// A string in an array tells what it holds.
pub proof fn law_string(o: Out, x: String, version: i16, flexible: bool)
    ensures
        schema::lays_out(
            o,
            x.row(o, version, flexible),
            string_told(version, flexible, x),
        ),
{
    broadcast use {schema::group_fields, schema::law_tells};

}

proof fn lemma_rows_string(items: Seq<String>, version: i16, flexible: bool)
    ensures
        ({
            let f = |x: String| string_told(version, flexible, x);
            forall|o: Out| #[trigger]
                message::rows_out(o, items, version, flexible) == o.raw(
                    schema::field_bytes(
                        Kind::List(flexible, schema::kinds_of(items, f)),
                        Value::List(schema::values_of(items, f)),
                    ),
                )
        }),
{
    let f = |x: String| string_told(version, flexible, x);
    assert forall|i: int, o: Out|
        #![trigger items[i].row(o, version, flexible)]
        0 <= i < items.len() implies items[i].row(o, version, flexible) == schema::said(
        o,
        f(items[i]),
    ) by {
        law_string(o, items[i], version, flexible);
    }
    schema::lemma_list(items, version, flexible, f);
}

/// A state in an array, as it is told.
pub open spec fn loose_string_told(version: i16, flexible: bool, x: LooseString) -> Told {
    Told::new().text(true, x.text@)
}

/// A state in an array tells what it holds.
pub proof fn law_loose_string(o: Out, x: LooseString, version: i16, flexible: bool)
    ensures
        schema::lays_out(
            o,
            x.row(o, version, flexible),
            loose_string_told(version, flexible, x),
        ),
{
    broadcast use {schema::group_fields, schema::law_tells};

}

proof fn lemma_rows_loose_string(items: Seq<LooseString>, version: i16, flexible: bool)
    ensures
        ({
            let f = |x: LooseString| loose_string_told(version, flexible, x);
            forall|o: Out| #[trigger]
                message::rows_out(o, items, version, flexible) == o.raw(
                    schema::field_bytes(
                        Kind::List(flexible, schema::kinds_of(items, f)),
                        Value::List(schema::values_of(items, f)),
                    ),
                )
        }),
{
    let f = |x: LooseString| loose_string_told(version, flexible, x);
    assert forall|i: int, o: Out|
        #![trigger items[i].row(o, version, flexible)]
        0 <= i < items.len() implies items[i].row(o, version, flexible) == schema::said(
        o,
        f(items[i]),
    ) by {
        law_loose_string(o, items[i], version, flexible);
    }
    schema::lemma_list(items, version, flexible, f);
}

/// A partition of a Fetch response: its number, the error, the high watermark, the last stable
/// offset and the start of the log (both unknown where there is an error that does not tell
/// where the log diverges), the aborted transactions, the replica to read from, and the
/// records, as it is told.
pub open spec fn fetch_row_told(version: i16, flexible: bool, x: FetchRow) -> Told {
    let r = x.deep_view();
    let known = r.error == 0 || r.diverging is Some;
    let t = Told::new().i32(r.partition as int).i16(r.error as int).i64(r.hwm as int);
    let t = if version >= 4 {
        t.i64(
            if known {
                r.lso as int
            } else {
                -1
            },
        )
    } else {
        t
    };
    let t = if version >= 5 {
        t.i64(
            if known {
                r.log_start as int
            } else {
                -1
            },
        )
    } else {
        t
    };
    let t = if version >= 4 {
        t.list(flexible, r.aborted, |a: (u64, u64)| aborted_told(flexible, a))
    } else {
        t
    };
    let t = if version >= 11 {
        t.i32(r.preferred_read_replica as int)
    } else {
        t
    };
    let t = t.blob(flexible, Some(r.records));
    if flexible {
        t.tags(fetch_row_tags(r))
    } else {
        t
    }
}

/// A partition of a Fetch response: its number, the error, the high watermark, the last stable
/// offset and the start of the log (both unknown where there is an error that does not tell
/// where the log diverges), the aborted transactions, the replica to read from, and the records
/// tells what it holds.
pub proof fn law_fetch_row(o: Out, x: FetchRow, version: i16, flexible: bool)
    ensures
        schema::lays_out(
            o,
            x.row(o, version, flexible),
            fetch_row_told(version, flexible, x),
        ),
{
    broadcast use {schema::group_fields, schema::law_tells};

    let v = x.deep_view();
    let g = |o: Out, a: (u64, u64)| fetch_response::aborted_out(o, a, flexible);
    schema::lemma_each(flexible, v.aborted, g, |a: (u64, u64)| aborted_told(flexible, a));
    assert forall|o: Out| #[trigger] fetch_response::row_tags(o, v.diverging, v.current_leader)
        == o.raw(schema::field_bytes(Kind::Tags, Value::Tags(fetch_row_tags(v)))) by {
        lemma_row_tags(o, v);
    }
}

proof fn lemma_rows_fetch_row(items: Seq<FetchRow>, version: i16, flexible: bool)
    ensures
        ({
            let f = |x: FetchRow| fetch_row_told(version, flexible, x);
            forall|o: Out| #[trigger]
                message::rows_out(o, items, version, flexible) == o.raw(
                    schema::field_bytes(
                        Kind::List(flexible, schema::kinds_of(items, f)),
                        Value::List(schema::values_of(items, f)),
                    ),
                )
        }),
{
    let f = |x: FetchRow| fetch_row_told(version, flexible, x);
    assert forall|i: int, o: Out|
        #![trigger items[i].row(o, version, flexible)]
        0 <= i < items.len() implies items[i].row(o, version, flexible) == schema::said(
        o,
        f(items[i]),
    ) by {
        law_fetch_row(o, items[i], version, flexible);
    }
    schema::lemma_list(items, version, flexible, f);
}

/// A topic of a Fetch response, as it is told.
pub open spec fn fetch_topic_told(version: i16, flexible: bool, x: FetchTopicOut) -> Told {
    topic_told(Told::new(), flexible, x.wire.deep_view()).list(
        flexible,
        x.rows@,
        |x: FetchRow| fetch_row_told(version, flexible, x),
    ).end(flexible)
}

/// A topic of a Fetch response tells what it holds.
pub proof fn law_fetch_topic(o: Out, x: FetchTopicOut, version: i16, flexible: bool)
    ensures
        schema::lays_out(
            o,
            x.row(o, version, flexible),
            fetch_topic_told(version, flexible, x),
        ),
{
    broadcast use {schema::group_fields, schema::law_tells};

    lemma_rows_fetch_row(x.rows@, version, flexible);
}

proof fn lemma_rows_fetch_topic(items: Seq<FetchTopicOut>, version: i16, flexible: bool)
    requires
        forall|i: int| 0 <= i < items.len() ==> ((#[trigger] items[i]).wire is Uuid) == (items[0].wire is Uuid),
    ensures
        ({
            let f = |x: FetchTopicOut| fetch_topic_told(version, flexible, x);
            forall|o: Out| #[trigger]
                message::rows_out(o, items, version, flexible) == o.raw(
                    schema::field_bytes(
                        Kind::List(flexible, schema::kinds_of(items, f)),
                        Value::List(schema::values_of(items, f)),
                    ),
                )
        }),
{
    let f = |x: FetchTopicOut| fetch_topic_told(version, flexible, x);
    assert forall|i: int, o: Out|
        #![trigger items[i].row(o, version, flexible)]
        0 <= i < items.len() implies items[i].row(o, version, flexible) == schema::said(
        o,
        f(items[i]),
    ) by {
        law_fetch_topic(o, items[i], version, flexible);
    }
    schema::lemma_list(items, version, flexible, f);
}

/// A broker that a client is pointed to: its id, where it is, and its rack, as it is told.
pub open spec fn endpoint_told(version: i16, flexible: bool, x: NodeEndpoint) -> Told {
    Told::new().i32(x.id as int).text(true, x.host@).i32(x.port as int).opt_text(
        true,
        x.rack.deep_view(),
    ).end(true)
}

/// A broker that a client is pointed to: its id, where it is, and its rack tells what it holds.
pub proof fn law_endpoint(o: Out, x: NodeEndpoint, version: i16, flexible: bool)
    ensures
        schema::lays_out(
            o,
            x.row(o, version, flexible),
            endpoint_told(version, flexible, x),
        ),
{
    broadcast use {schema::group_fields, schema::law_tells};

}

proof fn lemma_rows_endpoint(items: Seq<NodeEndpoint>, version: i16, flexible: bool)
    ensures
        ({
            let f = |x: NodeEndpoint| endpoint_told(version, flexible, x);
            forall|o: Out| #[trigger]
                message::rows_out(o, items, version, flexible) == o.raw(
                    schema::field_bytes(
                        Kind::List(flexible, schema::kinds_of(items, f)),
                        Value::List(schema::values_of(items, f)),
                    ),
                )
        }),
{
    let f = |x: NodeEndpoint| endpoint_told(version, flexible, x);
    assert forall|i: int, o: Out|
        #![trigger items[i].row(o, version, flexible)]
        0 <= i < items.len() implies items[i].row(o, version, flexible) == schema::said(
        o,
        f(items[i]),
    ) by {
        law_endpoint(o, items[i], version, flexible);
    }
    schema::lemma_list(items, version, flexible, f);
}

/// The tag with the brokers that a client is pointed to.
pub open spec fn endpoints_told(endpoints: Seq<NodeEndpoint>) -> Seq<(nat, Seq<u8>)> {
    seq![
        (
            0nat,
            Told::new().list(true, endpoints, |x: NodeEndpoint| endpoint_told(0, true, x)).bytes(),
        ),
    ]
}

proof fn lemma_endpoints(o: Out, endpoints: Seq<NodeEndpoint>)
    requires
        Told::new().list(true, endpoints, |x: NodeEndpoint| endpoint_told(0, true, x)).bytes().len()
            <= u32::MAX,
    ensures
        produce::endpoints_out(o, endpoints) == o.raw(
            schema::field_bytes(Kind::Tags, Value::Tags(endpoints_told(endpoints))),
        ),
{
    broadcast use schema::group_fields;

    let t = Told::new().list(true, endpoints, |x: NodeEndpoint| endpoint_told(0, true, x));
    lemma_rows_endpoint(endpoints, 0, true);
    assert(schema::said(Out::new(), t).bytes =~= t.bytes());
    lemma_one_tag(o, 0u32, t.bytes());
}

/// A Fetch response: no throttling, the error and the session, the topics, and the brokers that
/// the client is pointed to, as it is told.
pub open spec fn fetch_told(
    version: i16,
    error: i16,
    session_id: i32,
    topics: Seq<FetchTopicOut>,
    endpoints: Seq<NodeEndpoint>,
) -> Told {
    let flexible = version >= 12;
    let t = if version >= 1 {
        Told::new().i32(0)
    } else {
        Told::new()
    };
    let t = if version >= 7 {
        t.i16(error as int).i32(session_id as int)
    } else {
        t
    };
    let t = t.list(
        flexible,
        topics,
        |x: FetchTopicOut| fetch_topic_told(version, flexible, x),
    );
    if version >= 16 && endpoints.len() > 0 {
        t.tags(endpoints_told(endpoints))
    } else {
        t.end(flexible)
    }
}

/// A Fetch response: no throttling, the error and the session, the topics, and the brokers that
/// the client is pointed to tells what it is made of.
pub proof fn law_fetch(
    o: Out,
    version: i16,
    error: i16,
    session_id: i32,
    topics: Seq<FetchTopicOut>,
    endpoints: Seq<NodeEndpoint>,
)
    requires
        forall|i: int| 0 <= i < topics.len() ==> ((#[trigger] topics[i]).wire is Uuid) == (topics[0].wire is Uuid),
        Told::new().list(true, endpoints, |x: NodeEndpoint| endpoint_told(0, true, x)).bytes().len()
            <= u32::MAX,
    ensures
        schema::lays_out(
            o,
            fetch_response::fetch_out(o, version, error, session_id, topics, endpoints),
            fetch_told(version, error, session_id, topics, endpoints),
        ),
{
    broadcast use {schema::group_fields, schema::law_tells};

    lemma_rows_fetch_topic(topics, version, version >= 12);
    assert forall|o: Out| #[trigger] produce::endpoints_out(o, endpoints) == o.raw(
        schema::field_bytes(Kind::Tags, Value::Tags(endpoints_told(endpoints))),
    ) by {
        lemma_endpoints(o, endpoints);
    }
}

/// A partition of a Produce response: its number, the error, the offset of the first record, no
/// time of its own, the start of the log, no errors of single records, and the leader, as it is
/// told.
pub open spec fn produce_row_told(version: i16, flexible: bool, x: ProduceRow) -> Told {
    let t = Told::new().i32(x.partition as int).i16(x.error as int).i64(x.base_offset as int);
    let t = if version >= 2 {
        t.i64(-1)
    } else {
        t
    };
    let t = if version >= 5 {
        t.i64(x.log_start_offset as int)
    } else {
        t
    };
    let t = if version >= 8 {
        t.no_list(flexible, record_error_told(flexible)).opt_text(flexible, None)
    } else {
        t
    };
    if flexible {
        t.tags(
            match x.current_leader {
                Some(l) if version >= 10 => seq![(0nat, leader_told(l).bytes())],
                _ => Seq::empty(),
            },
        )
    } else {
        t
    }
}

/// A partition of a Produce response: its number, the error, the offset of the first record, no
/// time of its own, the start of the log, no errors of single records, and the leader tells
/// what it holds.
pub proof fn law_produce_row(o: Out, x: ProduceRow, version: i16, flexible: bool)
    ensures
        schema::lays_out(
            o,
            x.row(o, version, flexible),
            produce_row_told(version, flexible, x),
        ),
{
    broadcast use {schema::group_fields, schema::law_tells};

    if let Some(l) = x.current_leader {
        lemma_leader_told(l);
        assert forall|o: Out| #[trigger] produce::tag_out(
            o.uvarint(1),
            0u32,
            produce::leader_body(l.0, l.1),
        ) == o.raw(
            schema::field_bytes(Kind::Tags, Value::Tags(seq![(0nat, leader_told(l).bytes())])),
        ) by {
            lemma_one_tag(o, 0u32, leader_told(l).bytes());
        }
    }
}

proof fn lemma_rows_produce_row(items: Seq<ProduceRow>, version: i16, flexible: bool)
    ensures
        ({
            let f = |x: ProduceRow| produce_row_told(version, flexible, x);
            forall|o: Out| #[trigger]
                message::rows_out(o, items, version, flexible) == o.raw(
                    schema::field_bytes(
                        Kind::List(flexible, schema::kinds_of(items, f)),
                        Value::List(schema::values_of(items, f)),
                    ),
                )
        }),
{
    let f = |x: ProduceRow| produce_row_told(version, flexible, x);
    assert forall|i: int, o: Out|
        #![trigger items[i].row(o, version, flexible)]
        0 <= i < items.len() implies items[i].row(o, version, flexible) == schema::said(
        o,
        f(items[i]),
    ) by {
        law_produce_row(o, items[i], version, flexible);
    }
    schema::lemma_list(items, version, flexible, f);
}

/// A topic of a Produce response, as it is told.
pub open spec fn produce_topic_told(version: i16, flexible: bool, x: ProduceTopicOut) -> Told {
    topic_told(Told::new(), flexible, x.wire.deep_view()).list(
        flexible,
        x.rows@,
        |x: ProduceRow| produce_row_told(version, flexible, x),
    ).end(flexible)
}

/// A topic of a Produce response tells what it holds.
pub proof fn law_produce_topic(o: Out, x: ProduceTopicOut, version: i16, flexible: bool)
    requires
        x.declared == x.rows@.len(),
    ensures
        schema::lays_out(
            o,
            x.row(o, version, flexible),
            produce_topic_told(version, flexible, x),
        ),
{
    broadcast use {schema::group_fields, schema::law_tells};

    lemma_rows_produce_row(x.rows@, version, flexible);
    assert forall|o: Out| message::each_row(
        #[trigger] o.array_len(flexible, x.declared as nat),
        x.rows@,
        version,
        flexible,
    ) == message::rows_out(o, x.rows@, version, flexible) by {}
}

proof fn lemma_rows_produce_topic(items: Seq<ProduceTopicOut>, version: i16, flexible: bool)
    requires
        forall|i: int| 0 <= i < items.len() ==> (#[trigger] items[i]).declared == items[i].rows@.len(),
        forall|i: int| 0 <= i < items.len() ==> ((#[trigger] items[i]).wire is Uuid) == (items[0].wire is Uuid),
    ensures
        ({
            let f = |x: ProduceTopicOut| produce_topic_told(version, flexible, x);
            forall|o: Out| #[trigger]
                message::rows_out(o, items, version, flexible) == o.raw(
                    schema::field_bytes(
                        Kind::List(flexible, schema::kinds_of(items, f)),
                        Value::List(schema::values_of(items, f)),
                    ),
                )
        }),
{
    let f = |x: ProduceTopicOut| produce_topic_told(version, flexible, x);
    assert forall|i: int, o: Out|
        #![trigger items[i].row(o, version, flexible)]
        0 <= i < items.len() implies items[i].row(o, version, flexible) == schema::said(
        o,
        f(items[i]),
    ) by {
        law_produce_topic(o, items[i], version, flexible);
    }
    schema::lemma_list(items, version, flexible, f);
}

/// A Produce response: the topics, no throttling, and the brokers that the client is pointed
/// to, as it is told.
pub open spec fn produce_told(
    version: i16,
    topics: Seq<ProduceTopicOut>,
    endpoints: Seq<NodeEndpoint>,
) -> Told {
    let flexible = version >= 9;
    let t = Told::new().list(
        flexible,
        topics,
        |x: ProduceTopicOut| produce_topic_told(version, flexible, x),
    );
    let t = if version >= 1 {
        t.i32(0)
    } else {
        t
    };
    if version >= 10 && endpoints.len() > 0 {
        t.tags(endpoints_told(endpoints))
    } else {
        t.end(flexible)
    }
}

/// A Produce response: the topics, no throttling, and the brokers that the client is pointed to
/// tells what it is made of.
pub proof fn law_produce(
    o: Out,
    version: i16,
    topics: Seq<ProduceTopicOut>,
    endpoints: Seq<NodeEndpoint>,
)
    requires
        forall|i: int| 0 <= i < topics.len() ==> (#[trigger] topics[i]).declared == topics[i].rows@.len(),
        forall|i: int| 0 <= i < topics.len() ==> ((#[trigger] topics[i]).wire is Uuid) == (topics[0].wire is Uuid),
        Told::new().list(true, endpoints, |x: NodeEndpoint| endpoint_told(0, true, x)).bytes().len()
            <= u32::MAX,
    ensures
        schema::lays_out(
            o,
            produce::produce_out(o, version, topics.len(), topics, endpoints),
            produce_told(version, topics, endpoints),
        ),
{
    broadcast use {schema::group_fields, schema::law_tells};

    lemma_rows_produce_topic(topics, version, version >= 9);
    assert(message::each_row(
        o.array_len(version >= 9, topics.len()),
        topics,
        version,
        version >= 9,
    ) == message::rows_out(o, topics, version, version >= 9));
    assert forall|o: Out| #[trigger] produce::endpoints_out(o, endpoints) == o.raw(
        schema::field_bytes(Kind::Tags, Value::Tags(endpoints_told(endpoints))),
    ) by {
        lemma_endpoints(o, endpoints);
    }
}

/// A partition of a ListOffsets response: its number, the error, the time and the offset that
/// were found, and the leader epoch, as it is told.
pub open spec fn list_offsets_row_told(version: i16, flexible: bool, x: ListOffsetsRow) -> Told {
    let t = Told::new().i32(x.partition as int).i16(x.error as int);
    let t = if version == 0 {
        t.list(
            false,
            if x.error == 0 {
                seq![(x.timestamp, x.offset)]
            } else {
                Seq::empty()
            },
            |p: (i64, i64)| Told::new().i64(p.0 as int).i64(p.1 as int),
        )
    } else {
        t.i64(x.timestamp as int).i64(x.offset as int)
    };
    let t = if version >= 4 {
        t.i32(x.leader_epoch as int)
    } else {
        t
    };
    t.end(flexible)
}

/// A partition of a ListOffsets response: its number, the error, the time and the offset that
/// were found, and the leader epoch tells what it holds.
pub proof fn law_list_offsets_row(o: Out, x: ListOffsetsRow, version: i16, flexible: bool)
    ensures
        schema::lays_out(
            o,
            x.row(o, version, flexible),
            list_offsets_row_told(version, flexible, x),
        ),
{
    broadcast use {schema::group_fields, schema::law_tells};

    let g = |o: Out, p: (i64, i64)| o.i64(p.0 as int).i64(p.1 as int);
    let f = |p: (i64, i64)| Told::new().i64(p.0 as int).i64(p.1 as int);
    let one = seq![(x.timestamp, x.offset)];
    let none = Seq::<(i64, i64)>::empty();
    assert(one.drop_last() =~= none);
    reveal_with_fuel(Out::each, 3);
    schema::lemma_each(false, one, g, f);
    schema::lemma_each(false, none, g, f);
    assert forall|o: Out| (#[trigger] o.i32(1)).i64(x.timestamp as int).i64(x.offset as int)
        == o.raw(
        schema::field_bytes(
            Kind::List(false, schema::kinds_of(one, f)),
            Value::List(schema::values_of(one, f)),
        ),
    ) by {
        assert(o.array_len(false, one.len()).each(one, g) == o.i32(1).i64(
            x.timestamp as int,
        ).i64(x.offset as int));
    }
    assert forall|o: Out| #[trigger] o.i32(0) == o.raw(
        schema::field_bytes(
            Kind::List(false, schema::kinds_of(none, f)),
            Value::List(schema::values_of(none, f)),
        ),
    ) by {
        assert(o.array_len(false, none.len()).each(none, g) == o.i32(0));
    }
}

proof fn lemma_rows_list_offsets_row(items: Seq<ListOffsetsRow>, version: i16, flexible: bool)
    ensures
        ({
            let f = |x: ListOffsetsRow| list_offsets_row_told(version, flexible, x);
            forall|o: Out| #[trigger]
                message::rows_out(o, items, version, flexible) == o.raw(
                    schema::field_bytes(
                        Kind::List(flexible, schema::kinds_of(items, f)),
                        Value::List(schema::values_of(items, f)),
                    ),
                )
        }),
{
    let f = |x: ListOffsetsRow| list_offsets_row_told(version, flexible, x);
    assert forall|i: int, o: Out|
        #![trigger items[i].row(o, version, flexible)]
        0 <= i < items.len() implies items[i].row(o, version, flexible) == schema::said(
        o,
        f(items[i]),
    ) by {
        law_list_offsets_row(o, items[i], version, flexible);
    }
    schema::lemma_list(items, version, flexible, f);
}

/// A topic of a ListOffsets response, as it is told.
pub open spec fn list_offsets_topic_told(
    version: i16,
    flexible: bool,
    x: TopicOut<ListOffsetsRow>,
) -> Told {
    Told::new().text(flexible, x.name@).list(
        flexible,
        x.rows@,
        |x: ListOffsetsRow| list_offsets_row_told(version, flexible, x),
    ).end(flexible)
}

/// A topic of a ListOffsets response tells what it holds.
pub proof fn law_list_offsets_topic(
    o: Out,
    x: TopicOut<ListOffsetsRow>,
    version: i16,
    flexible: bool,
)
    ensures
        schema::lays_out(
            o,
            x.row(o, version, flexible),
            list_offsets_topic_told(version, flexible, x),
        ),
{
    broadcast use {schema::group_fields, schema::law_tells};

    lemma_rows_list_offsets_row(x.rows@, version, flexible);
}

proof fn lemma_rows_list_offsets_topic(
    items: Seq<TopicOut<ListOffsetsRow>>,
    version: i16,
    flexible: bool,
)
    ensures
        ({
            let f = |x: TopicOut<ListOffsetsRow>| list_offsets_topic_told(version, flexible, x);
            forall|o: Out| #[trigger]
                message::rows_out(o, items, version, flexible) == o.raw(
                    schema::field_bytes(
                        Kind::List(flexible, schema::kinds_of(items, f)),
                        Value::List(schema::values_of(items, f)),
                    ),
                )
        }),
{
    let f = |x: TopicOut<ListOffsetsRow>| list_offsets_topic_told(version, flexible, x);
    assert forall|i: int, o: Out|
        #![trigger items[i].row(o, version, flexible)]
        0 <= i < items.len() implies items[i].row(o, version, flexible) == schema::said(
        o,
        f(items[i]),
    ) by {
        law_list_offsets_topic(o, items[i], version, flexible);
    }
    schema::lemma_list(items, version, flexible, f);
}

/// A ListOffsets response, as it is told.
pub open spec fn list_offsets_told(version: i16, topics: Seq<TopicOut<ListOffsetsRow>>) -> Told {
    let flexible = version >= 6;
    let t = if version >= 2 {
        Told::new().i32(0)
    } else {
        Told::new()
    };
    t.list(
        flexible,
        topics,
        |x: TopicOut<ListOffsetsRow>| list_offsets_topic_told(version, flexible, x),
    ).end(flexible)
}

/// A ListOffsets response tells what it is made of.
pub proof fn law_list_offsets(o: Out, version: i16, topics: Seq<TopicOut<ListOffsetsRow>>)
    ensures
        schema::lays_out(
            o,
            list_offsets::list_offsets_out(o, version, topics),
            list_offsets_told(version, topics),
        ),
{
    broadcast use {schema::group_fields, schema::law_tells};

    lemma_rows_list_offsets_topic(topics, version, version >= 6);
}

/// A partition of an OffsetForLeaderEpoch response: the error, its number, the epoch, and where
/// it ends, as it is told.
pub open spec fn epoch_row_told(version: i16, flexible: bool, x: LeaderEpochRow) -> Told {
    let t = Told::new().i16(x.error as int).i32(x.partition as int);
    let t = if version >= 1 {
        t.i32(x.leader_epoch as int)
    } else {
        t
    };
    t.i64(x.end_offset as int).end(flexible)
}

/// A partition of an OffsetForLeaderEpoch response: the error, its number, the epoch, and where
/// it ends tells what it holds.
pub proof fn law_epoch_row(o: Out, x: LeaderEpochRow, version: i16, flexible: bool)
    ensures
        schema::lays_out(
            o,
            x.row(o, version, flexible),
            epoch_row_told(version, flexible, x),
        ),
{
    broadcast use {schema::group_fields, schema::law_tells};

}

proof fn lemma_rows_epoch_row(items: Seq<LeaderEpochRow>, version: i16, flexible: bool)
    ensures
        ({
            let f = |x: LeaderEpochRow| epoch_row_told(version, flexible, x);
            forall|o: Out| #[trigger]
                message::rows_out(o, items, version, flexible) == o.raw(
                    schema::field_bytes(
                        Kind::List(flexible, schema::kinds_of(items, f)),
                        Value::List(schema::values_of(items, f)),
                    ),
                )
        }),
{
    let f = |x: LeaderEpochRow| epoch_row_told(version, flexible, x);
    assert forall|i: int, o: Out|
        #![trigger items[i].row(o, version, flexible)]
        0 <= i < items.len() implies items[i].row(o, version, flexible) == schema::said(
        o,
        f(items[i]),
    ) by {
        law_epoch_row(o, items[i], version, flexible);
    }
    schema::lemma_list(items, version, flexible, f);
}

/// A topic of an OffsetForLeaderEpoch response, as it is told.
pub open spec fn epoch_topic_told(
    version: i16,
    flexible: bool,
    x: TopicOut<LeaderEpochRow>,
) -> Told {
    Told::new().text(flexible, x.name@).list(
        flexible,
        x.rows@,
        |x: LeaderEpochRow| epoch_row_told(version, flexible, x),
    ).end(flexible)
}

/// A topic of an OffsetForLeaderEpoch response tells what it holds.
pub proof fn law_epoch_topic(o: Out, x: TopicOut<LeaderEpochRow>, version: i16, flexible: bool)
    ensures
        schema::lays_out(
            o,
            x.row(o, version, flexible),
            epoch_topic_told(version, flexible, x),
        ),
{
    broadcast use {schema::group_fields, schema::law_tells};

    lemma_rows_epoch_row(x.rows@, version, flexible);
}

proof fn lemma_rows_epoch_topic(items: Seq<TopicOut<LeaderEpochRow>>, version: i16, flexible: bool)
    ensures
        ({
            let f = |x: TopicOut<LeaderEpochRow>| epoch_topic_told(version, flexible, x);
            forall|o: Out| #[trigger]
                message::rows_out(o, items, version, flexible) == o.raw(
                    schema::field_bytes(
                        Kind::List(flexible, schema::kinds_of(items, f)),
                        Value::List(schema::values_of(items, f)),
                    ),
                )
        }),
{
    let f = |x: TopicOut<LeaderEpochRow>| epoch_topic_told(version, flexible, x);
    assert forall|i: int, o: Out|
        #![trigger items[i].row(o, version, flexible)]
        0 <= i < items.len() implies items[i].row(o, version, flexible) == schema::said(
        o,
        f(items[i]),
    ) by {
        law_epoch_topic(o, items[i], version, flexible);
    }
    schema::lemma_list(items, version, flexible, f);
}

/// An OffsetForLeaderEpoch response, as it is told.
pub open spec fn leader_epochs_told(version: i16, topics: Seq<TopicOut<LeaderEpochRow>>) -> Told {
    let flexible = version >= 4;
    let t = if version >= 2 {
        Told::new().i32(0)
    } else {
        Told::new()
    };
    t.list(
        flexible,
        topics,
        |x: TopicOut<LeaderEpochRow>| epoch_topic_told(version, flexible, x),
    ).end(flexible)
}

/// An OffsetForLeaderEpoch response tells what it is made of.
pub proof fn law_leader_epochs(o: Out, version: i16, topics: Seq<TopicOut<LeaderEpochRow>>)
    ensures
        schema::lays_out(
            o,
            list_offsets::leader_epochs_out(o, version, topics),
            leader_epochs_told(version, topics),
        ),
{
    broadcast use {schema::group_fields, schema::law_tells};

    lemma_rows_epoch_topic(topics, version, version >= 4);
}

/// A partition of a DeleteRecords response: its number, where its log starts now, and the
/// error, as it is told.
pub open spec fn delete_row_told(version: i16, flexible: bool, x: DeleteRecordsRow) -> Told {
    Told::new().i32(x.partition as int).i64(
        x.low_watermark as int,
    ).i16(x.error as int).end(flexible)
}

/// A partition of a DeleteRecords response: its number, where its log starts now, and the error
/// tells what it holds.
pub proof fn law_delete_row(o: Out, x: DeleteRecordsRow, version: i16, flexible: bool)
    ensures
        schema::lays_out(
            o,
            x.row(o, version, flexible),
            delete_row_told(version, flexible, x),
        ),
{
    broadcast use {schema::group_fields, schema::law_tells};

}

proof fn lemma_rows_delete_row(items: Seq<DeleteRecordsRow>, version: i16, flexible: bool)
    ensures
        ({
            let f = |x: DeleteRecordsRow| delete_row_told(version, flexible, x);
            forall|o: Out| #[trigger]
                message::rows_out(o, items, version, flexible) == o.raw(
                    schema::field_bytes(
                        Kind::List(flexible, schema::kinds_of(items, f)),
                        Value::List(schema::values_of(items, f)),
                    ),
                )
        }),
{
    let f = |x: DeleteRecordsRow| delete_row_told(version, flexible, x);
    assert forall|i: int, o: Out|
        #![trigger items[i].row(o, version, flexible)]
        0 <= i < items.len() implies items[i].row(o, version, flexible) == schema::said(
        o,
        f(items[i]),
    ) by {
        law_delete_row(o, items[i], version, flexible);
    }
    schema::lemma_list(items, version, flexible, f);
}

/// A topic of a DeleteRecords response, as it is told.
pub open spec fn delete_topic_told(
    version: i16,
    flexible: bool,
    x: TopicOut<DeleteRecordsRow>,
) -> Told {
    Told::new().text(flexible, x.name@).list(
        flexible,
        x.rows@,
        |x: DeleteRecordsRow| delete_row_told(version, flexible, x),
    ).end(flexible)
}

/// A topic of a DeleteRecords response tells what it holds.
pub proof fn law_delete_topic(o: Out, x: TopicOut<DeleteRecordsRow>, version: i16, flexible: bool)
    ensures
        schema::lays_out(
            o,
            x.row(o, version, flexible),
            delete_topic_told(version, flexible, x),
        ),
{
    broadcast use {schema::group_fields, schema::law_tells};

    lemma_rows_delete_row(x.rows@, version, flexible);
}

proof fn lemma_rows_delete_topic(
    items: Seq<TopicOut<DeleteRecordsRow>>,
    version: i16,
    flexible: bool,
)
    ensures
        ({
            let f = |x: TopicOut<DeleteRecordsRow>| delete_topic_told(version, flexible, x);
            forall|o: Out| #[trigger]
                message::rows_out(o, items, version, flexible) == o.raw(
                    schema::field_bytes(
                        Kind::List(flexible, schema::kinds_of(items, f)),
                        Value::List(schema::values_of(items, f)),
                    ),
                )
        }),
{
    let f = |x: TopicOut<DeleteRecordsRow>| delete_topic_told(version, flexible, x);
    assert forall|i: int, o: Out|
        #![trigger items[i].row(o, version, flexible)]
        0 <= i < items.len() implies items[i].row(o, version, flexible) == schema::said(
        o,
        f(items[i]),
    ) by {
        law_delete_topic(o, items[i], version, flexible);
    }
    schema::lemma_list(items, version, flexible, f);
}

/// A DeleteRecords response, as it is told.
pub open spec fn delete_records_told(
    version: i16,
    topics: Seq<TopicOut<DeleteRecordsRow>>,
) -> Told {
    let flexible = version >= 2;
    Told::new().i32(0).list(
        flexible,
        topics,
        |x: TopicOut<DeleteRecordsRow>| delete_topic_told(version, flexible, x),
    ).end(flexible)
}

/// A DeleteRecords response tells what it is made of.
pub proof fn law_delete_records(o: Out, version: i16, topics: Seq<TopicOut<DeleteRecordsRow>>)
    ensures
        schema::lays_out(
            o,
            delete_records::delete_records_out(o, version, topics),
            delete_records_told(version, topics),
        ),
{
    broadcast use {schema::group_fields, schema::law_tells};

    lemma_rows_delete_topic(topics, version, version >= 2);
}

/// A partition and the error for it, as it is told.
pub open spec fn partition_error_told(version: i16, flexible: bool, x: PartitionError) -> Told {
    Told::new().i32(x.partition as int).i16(x.error as int).end(flexible)
}

/// A partition and the error for it tells what it holds.
pub proof fn law_partition_error(o: Out, x: PartitionError, version: i16, flexible: bool)
    ensures
        schema::lays_out(
            o,
            x.row(o, version, flexible),
            partition_error_told(version, flexible, x),
        ),
{
    broadcast use {schema::group_fields, schema::law_tells};

}

proof fn lemma_rows_partition_error(items: Seq<PartitionError>, version: i16, flexible: bool)
    ensures
        ({
            let f = |x: PartitionError| partition_error_told(version, flexible, x);
            forall|o: Out| #[trigger]
                message::rows_out(o, items, version, flexible) == o.raw(
                    schema::field_bytes(
                        Kind::List(flexible, schema::kinds_of(items, f)),
                        Value::List(schema::values_of(items, f)),
                    ),
                )
        }),
{
    let f = |x: PartitionError| partition_error_told(version, flexible, x);
    assert forall|i: int, o: Out|
        #![trigger items[i].row(o, version, flexible)]
        0 <= i < items.len() implies items[i].row(o, version, flexible) == schema::said(
        o,
        f(items[i]),
    ) by {
        law_partition_error(o, items[i], version, flexible);
    }
    schema::lemma_list(items, version, flexible, f);
}

/// A topic of an OffsetCommit response, as it is told.
pub open spec fn commit_topic_told(
    version: i16,
    flexible: bool,
    x: WireTopicOut<PartitionError>,
) -> Told {
    topic_told(Told::new(), flexible, x.wire.deep_view()).list(
        flexible,
        x.rows@,
        |x: PartitionError| partition_error_told(version, flexible, x),
    ).end(flexible)
}

/// A topic of an OffsetCommit response tells what it holds.
pub proof fn law_commit_topic(o: Out, x: WireTopicOut<PartitionError>, version: i16, flexible: bool)
    ensures
        schema::lays_out(
            o,
            x.row(o, version, flexible),
            commit_topic_told(version, flexible, x),
        ),
{
    broadcast use {schema::group_fields, schema::law_tells};

    lemma_rows_partition_error(x.rows@, version, flexible);
}

proof fn lemma_rows_commit_topic(
    items: Seq<WireTopicOut<PartitionError>>,
    version: i16,
    flexible: bool,
)
    requires
        forall|i: int| 0 <= i < items.len() ==> ((#[trigger] items[i]).wire is Uuid) == (items[0].wire is Uuid),
    ensures
        ({
            let f = |x: WireTopicOut<PartitionError>| commit_topic_told(version, flexible, x);
            forall|o: Out| #[trigger]
                message::rows_out(o, items, version, flexible) == o.raw(
                    schema::field_bytes(
                        Kind::List(flexible, schema::kinds_of(items, f)),
                        Value::List(schema::values_of(items, f)),
                    ),
                )
        }),
{
    let f = |x: WireTopicOut<PartitionError>| commit_topic_told(version, flexible, x);
    assert forall|i: int, o: Out|
        #![trigger items[i].row(o, version, flexible)]
        0 <= i < items.len() implies items[i].row(o, version, flexible) == schema::said(
        o,
        f(items[i]),
    ) by {
        law_commit_topic(o, items[i], version, flexible);
    }
    schema::lemma_list(items, version, flexible, f);
}

/// An OffsetCommit response, as it is told.
pub open spec fn offset_commit_told(
    version: i16,
    topics: Seq<WireTopicOut<PartitionError>>,
) -> Told {
    let flexible = version >= 8;
    let t = if version >= 3 {
        Told::new().i32(0)
    } else {
        Told::new()
    };
    t.list(
        flexible,
        topics,
        |x: WireTopicOut<PartitionError>| commit_topic_told(version, flexible, x),
    ).end(flexible)
}

/// An OffsetCommit response tells what it is made of.
pub proof fn law_offset_commit(o: Out, version: i16, topics: Seq<WireTopicOut<PartitionError>>)
    requires
        forall|i: int| 0 <= i < topics.len() ==> ((#[trigger] topics[i]).wire is Uuid) == (topics[0].wire is Uuid),
    ensures
        schema::lays_out(
            o,
            offsets::commit_out(o, version, topics),
            offset_commit_told(version, topics),
        ),
{
    broadcast use {schema::group_fields, schema::law_tells};

    lemma_rows_commit_topic(topics, version, version >= 8);
}

/// A topic of an OffsetDelete response, as it is told.
pub open spec fn error_topic_told(
    version: i16,
    flexible: bool,
    x: TopicOut<PartitionError>,
) -> Told {
    Told::new().text(flexible, x.name@).list(
        flexible,
        x.rows@,
        |x: PartitionError| partition_error_told(version, flexible, x),
    ).end(flexible)
}

/// A topic of an OffsetDelete response tells what it holds.
pub proof fn law_error_topic(o: Out, x: TopicOut<PartitionError>, version: i16, flexible: bool)
    ensures
        schema::lays_out(
            o,
            x.row(o, version, flexible),
            error_topic_told(version, flexible, x),
        ),
{
    broadcast use {schema::group_fields, schema::law_tells};

    lemma_rows_partition_error(x.rows@, version, flexible);
}

proof fn lemma_rows_error_topic(items: Seq<TopicOut<PartitionError>>, version: i16, flexible: bool)
    ensures
        ({
            let f = |x: TopicOut<PartitionError>| error_topic_told(version, flexible, x);
            forall|o: Out| #[trigger]
                message::rows_out(o, items, version, flexible) == o.raw(
                    schema::field_bytes(
                        Kind::List(flexible, schema::kinds_of(items, f)),
                        Value::List(schema::values_of(items, f)),
                    ),
                )
        }),
{
    let f = |x: TopicOut<PartitionError>| error_topic_told(version, flexible, x);
    assert forall|i: int, o: Out|
        #![trigger items[i].row(o, version, flexible)]
        0 <= i < items.len() implies items[i].row(o, version, flexible) == schema::said(
        o,
        f(items[i]),
    ) by {
        law_error_topic(o, items[i], version, flexible);
    }
    schema::lemma_list(items, version, flexible, f);
}

/// An OffsetDelete response, as it is told.
pub open spec fn offset_delete_told(error: i16, topics: Seq<TopicOut<PartitionError>>) -> Told {
    Told::new().i16(error as int).i32(0).list(
        false,
        topics,
        |x: TopicOut<PartitionError>| error_topic_told(0, false, x),
    )
}

/// An OffsetDelete response tells what it is made of.
pub proof fn law_offset_delete(o: Out, error: i16, topics: Seq<TopicOut<PartitionError>>)
    ensures
        schema::lays_out(
            o,
            offsets::offset_delete_out(o, error, topics),
            offset_delete_told(error, topics),
        ),
{
    broadcast use {schema::group_fields, schema::law_tells};

    lemma_rows_error_topic(topics, 0, false);
}

/// A partition of an OffsetFetch response: its number, the offset, the leader epoch, what was
/// committed with it, and the error, as it is told.
pub open spec fn offset_row_told(version: i16, flexible: bool, x: OffsetRow) -> Told {
    let t = Told::new().i32(x.partition as int).i64(x.offset as int);
    let t = if version >= 5 {
        t.i32(x.leader_epoch as int)
    } else {
        t
    };
    let t = if flexible {
        t.opt_text(true, x.metadata.deep_view())
    } else {
        t.text(
            false,
            match x.metadata {
                Some(m) => m@,
                None => Seq::empty(),
            },
        )
    };
    t.i16(x.error as int).end(flexible)
}

/// A partition of an OffsetFetch response: its number, the offset, the leader epoch, what was
/// committed with it, and the error tells what it holds.
pub proof fn law_offset_row(o: Out, x: OffsetRow, version: i16, flexible: bool)
    ensures
        schema::lays_out(
            o,
            x.row(o, version, flexible),
            offset_row_told(version, flexible, x),
        ),
{
    broadcast use {schema::group_fields, schema::law_tells};

}

proof fn lemma_rows_offset_row(items: Seq<OffsetRow>, version: i16, flexible: bool)
    ensures
        ({
            let f = |x: OffsetRow| offset_row_told(version, flexible, x);
            forall|o: Out| #[trigger]
                message::rows_out(o, items, version, flexible) == o.raw(
                    schema::field_bytes(
                        Kind::List(flexible, schema::kinds_of(items, f)),
                        Value::List(schema::values_of(items, f)),
                    ),
                )
        }),
{
    let f = |x: OffsetRow| offset_row_told(version, flexible, x);
    assert forall|i: int, o: Out|
        #![trigger items[i].row(o, version, flexible)]
        0 <= i < items.len() implies items[i].row(o, version, flexible) == schema::said(
        o,
        f(items[i]),
    ) by {
        law_offset_row(o, items[i], version, flexible);
    }
    schema::lemma_list(items, version, flexible, f);
}

/// A topic of an OffsetFetch response, as it is told.
pub open spec fn offset_topic_told(version: i16, flexible: bool, x: OffsetTopic) -> Told {
    topic_told(Told::new(), flexible, x.wire.deep_view()).list(
        flexible,
        x.rows@,
        |x: OffsetRow| offset_row_told(version, flexible, x),
    ).end(flexible)
}

/// A topic of an OffsetFetch response tells what it holds.
pub proof fn law_offset_topic(o: Out, x: OffsetTopic, version: i16, flexible: bool)
    ensures
        schema::lays_out(
            o,
            x.row(o, version, flexible),
            offset_topic_told(version, flexible, x),
        ),
{
    broadcast use {schema::group_fields, schema::law_tells};

    lemma_rows_offset_row(x.rows@, version, flexible);
}

proof fn lemma_rows_offset_topic(items: Seq<OffsetTopic>, version: i16, flexible: bool)
    requires
        forall|i: int| 0 <= i < items.len() ==> ((#[trigger] items[i]).wire is Uuid) == (items[0].wire is Uuid),
    ensures
        ({
            let f = |x: OffsetTopic| offset_topic_told(version, flexible, x);
            forall|o: Out| #[trigger]
                message::rows_out(o, items, version, flexible) == o.raw(
                    schema::field_bytes(
                        Kind::List(flexible, schema::kinds_of(items, f)),
                        Value::List(schema::values_of(items, f)),
                    ),
                )
        }),
{
    let f = |x: OffsetTopic| offset_topic_told(version, flexible, x);
    assert forall|i: int, o: Out|
        #![trigger items[i].row(o, version, flexible)]
        0 <= i < items.len() implies items[i].row(o, version, flexible) == schema::said(
        o,
        f(items[i]),
    ) by {
        law_offset_topic(o, items[i], version, flexible);
    }
    schema::lemma_list(items, version, flexible, f);
}

/// An OffsetFetch response, as it is told.
pub open spec fn offset_fetch_told(version: i16, error: i16, topics: Seq<OffsetTopic>) -> Told {
    let flexible = version >= 6;
    let t = if version >= 3 {
        Told::new().i32(0)
    } else {
        Told::new()
    };
    let t = t.list(
        flexible,
        topics,
        |x: OffsetTopic| offset_topic_told(version, flexible, x),
    );
    let t = if version >= 2 {
        t.i16(error as int)
    } else {
        t
    };
    t.end(flexible)
}

/// An OffsetFetch response tells what it is made of.
pub proof fn law_offset_fetch(o: Out, version: i16, error: i16, topics: Seq<OffsetTopic>)
    requires
        forall|i: int| 0 <= i < topics.len() ==> ((#[trigger] topics[i]).wire is Uuid) == (topics[0].wire is Uuid),
    ensures
        schema::lays_out(
            o,
            offsets::offset_fetch_out(o, version, error, topics),
            offset_fetch_told(version, error, topics),
        ),
{
    broadcast use {schema::group_fields, schema::law_tells};

    lemma_rows_offset_topic(topics, version, version >= 6);
}

/// An error and its message, as it is told.
pub open spec fn verdict_told(version: i16, flexible: bool, x: Verdict) -> Told {
    Told::new().i16(x.error as int).opt_text(flexible, x.message.deep_view()).end(flexible)
}

/// An error and its message tells what it holds.
pub proof fn law_verdict(o: Out, x: Verdict, version: i16, flexible: bool)
    ensures
        schema::lays_out(
            o,
            x.row(o, version, flexible),
            verdict_told(version, flexible, x),
        ),
{
    broadcast use {schema::group_fields, schema::law_tells};

}

proof fn lemma_rows_verdict(items: Seq<Verdict>, version: i16, flexible: bool)
    ensures
        ({
            let f = |x: Verdict| verdict_told(version, flexible, x);
            forall|o: Out| #[trigger]
                message::rows_out(o, items, version, flexible) == o.raw(
                    schema::field_bytes(
                        Kind::List(flexible, schema::kinds_of(items, f)),
                        Value::List(schema::values_of(items, f)),
                    ),
                )
        }),
{
    let f = |x: Verdict| verdict_told(version, flexible, x);
    assert forall|i: int, o: Out|
        #![trigger items[i].row(o, version, flexible)]
        0 <= i < items.len() implies items[i].row(o, version, flexible) == schema::said(
        o,
        f(items[i]),
    ) by {
        law_verdict(o, items[i], version, flexible);
    }
    schema::lemma_list(items, version, flexible, f);
}

/// A name, and the error for it, as it is told.
pub open spec fn named_verdict_told(version: i16, flexible: bool, x: NamedVerdict) -> Told {
    Told::new().text(flexible, x.name@).i16(x.verdict.error as int).opt_text(
        flexible,
        x.verdict.message.deep_view(),
    ).end(flexible)
}

/// A name, and the error for it tells what it holds.
pub proof fn law_named_verdict(o: Out, x: NamedVerdict, version: i16, flexible: bool)
    ensures
        schema::lays_out(
            o,
            x.row(o, version, flexible),
            named_verdict_told(version, flexible, x),
        ),
{
    broadcast use {schema::group_fields, schema::law_tells};

}

proof fn lemma_rows_named_verdict(items: Seq<NamedVerdict>, version: i16, flexible: bool)
    ensures
        ({
            let f = |x: NamedVerdict| named_verdict_told(version, flexible, x);
            forall|o: Out| #[trigger]
                message::rows_out(o, items, version, flexible) == o.raw(
                    schema::field_bytes(
                        Kind::List(flexible, schema::kinds_of(items, f)),
                        Value::List(schema::values_of(items, f)),
                    ),
                )
        }),
{
    let f = |x: NamedVerdict| named_verdict_told(version, flexible, x);
    assert forall|i: int, o: Out|
        #![trigger items[i].row(o, version, flexible)]
        0 <= i < items.len() implies items[i].row(o, version, flexible) == schema::said(
        o,
        f(items[i]),
    ) by {
        law_named_verdict(o, items[i], version, flexible);
    }
    schema::lemma_list(items, version, flexible, f);
}

/// A partition, and the error for it, as it is told.
pub open spec fn part_verdict_told(version: i16, flexible: bool, x: PartVerdict) -> Told {
    Told::new().i32(x.partition as int).i16(x.verdict.error as int).opt_text(
        flexible,
        x.verdict.message.deep_view(),
    ).end(flexible)
}

/// A partition, and the error for it tells what it holds.
pub proof fn law_part_verdict(o: Out, x: PartVerdict, version: i16, flexible: bool)
    ensures
        schema::lays_out(
            o,
            x.row(o, version, flexible),
            part_verdict_told(version, flexible, x),
        ),
{
    broadcast use {schema::group_fields, schema::law_tells};

}

proof fn lemma_rows_part_verdict(items: Seq<PartVerdict>, version: i16, flexible: bool)
    ensures
        ({
            let f = |x: PartVerdict| part_verdict_told(version, flexible, x);
            forall|o: Out| #[trigger]
                message::rows_out(o, items, version, flexible) == o.raw(
                    schema::field_bytes(
                        Kind::List(flexible, schema::kinds_of(items, f)),
                        Value::List(schema::values_of(items, f)),
                    ),
                )
        }),
{
    let f = |x: PartVerdict| part_verdict_told(version, flexible, x);
    assert forall|i: int, o: Out|
        #![trigger items[i].row(o, version, flexible)]
        0 <= i < items.len() implies items[i].row(o, version, flexible) == schema::said(
        o,
        f(items[i]),
    ) by {
        law_part_verdict(o, items[i], version, flexible);
    }
    schema::lemma_list(items, version, flexible, f);
}

/// A topic of a CreateTopics response: its name, its identifier, the error, the numbers of its
/// partitions and replicas, and no settings, as it is told.
pub open spec fn created_topic_told(version: i16, flexible: bool, x: CreatedTopic) -> Told {
    let t = Told::new().text(flexible, x.name@);
    let t = if version >= 7 {
        t.uuid(topic_admin::uuid_or_zero(x.numeric_id))
    } else {
        t
    };
    let t = t.i16(x.verdict.error as int);
    let t = if version >= 1 {
        t.opt_text(flexible, x.verdict.message.deep_view())
    } else {
        t
    };
    if flexible {
        t.i32(x.partitions as int).i16(x.replication as int).field(
            Kind::List(true, Told::new().text(true, Seq::empty()).kinds),
            Value::Null,
        ).end(true)
    } else {
        t
    }
}

/// A topic of a CreateTopics response: its name, its identifier, the error, the numbers of its
/// partitions and replicas, and no settings tells what it holds.
pub proof fn law_created_topic(o: Out, x: CreatedTopic, version: i16, flexible: bool)
    ensures
        schema::lays_out(
            o,
            x.row(o, version, flexible),
            created_topic_told(version, flexible, x),
        ),
{
    broadcast use {schema::group_fields, schema::law_tells};

}

proof fn lemma_rows_created_topic(items: Seq<CreatedTopic>, version: i16, flexible: bool)
    ensures
        ({
            let f = |x: CreatedTopic| created_topic_told(version, flexible, x);
            forall|o: Out| #[trigger]
                message::rows_out(o, items, version, flexible) == o.raw(
                    schema::field_bytes(
                        Kind::List(flexible, schema::kinds_of(items, f)),
                        Value::List(schema::values_of(items, f)),
                    ),
                )
        }),
{
    let f = |x: CreatedTopic| created_topic_told(version, flexible, x);
    assert forall|i: int, o: Out|
        #![trigger items[i].row(o, version, flexible)]
        0 <= i < items.len() implies items[i].row(o, version, flexible) == schema::said(
        o,
        f(items[i]),
    ) by {
        law_created_topic(o, items[i], version, flexible);
    }
    schema::lemma_list(items, version, flexible, f);
}

/// A CreateTopics response, as it is told.
pub open spec fn create_topics_told(version: i16, topics: Seq<CreatedTopic>) -> Told {
    let flexible = version >= 5;
    let t = if version >= 2 {
        Told::new().i32(0)
    } else {
        Told::new()
    };
    t.list(
        flexible,
        topics,
        |x: CreatedTopic| created_topic_told(version, flexible, x),
    ).end(flexible)
}

/// A CreateTopics response tells what it is made of.
pub proof fn law_create_topics(o: Out, version: i16, topics: Seq<CreatedTopic>)
    ensures
        schema::lays_out(
            o,
            topic_admin::create_topics_out(o, version, topics),
            create_topics_told(version, topics),
        ),
{
    broadcast use {schema::group_fields, schema::law_tells};

    lemma_rows_created_topic(topics, version, version >= 5);
}

/// A topic of a DeleteTopics response: its name, its identifier, and the error, as it is told.
pub open spec fn deleted_topic_told(version: i16, flexible: bool, x: DeletedTopic) -> Told {
    let t = if version >= 6 {
        Told::new().opt_text(true, x.name.deep_view()).uuid(x.uuid@)
    } else {
        Told::new().text(
            flexible,
            match x.name {
                Some(n) => n@,
                None => Seq::empty(),
            },
        )
    };
    let t = t.i16(x.verdict.error as int);
    let t = if version >= 5 {
        t.opt_text(true, x.verdict.message.deep_view())
    } else {
        t
    };
    t.end(flexible)
}

/// A topic of a DeleteTopics response: its name, its identifier, and the error tells what it
/// holds.
pub proof fn law_deleted_topic(o: Out, x: DeletedTopic, version: i16, flexible: bool)
    ensures
        schema::lays_out(
            o,
            x.row(o, version, flexible),
            deleted_topic_told(version, flexible, x),
        ),
{
    broadcast use {schema::group_fields, schema::law_tells};

}

proof fn lemma_rows_deleted_topic(items: Seq<DeletedTopic>, version: i16, flexible: bool)
    ensures
        ({
            let f = |x: DeletedTopic| deleted_topic_told(version, flexible, x);
            forall|o: Out| #[trigger]
                message::rows_out(o, items, version, flexible) == o.raw(
                    schema::field_bytes(
                        Kind::List(flexible, schema::kinds_of(items, f)),
                        Value::List(schema::values_of(items, f)),
                    ),
                )
        }),
{
    let f = |x: DeletedTopic| deleted_topic_told(version, flexible, x);
    assert forall|i: int, o: Out|
        #![trigger items[i].row(o, version, flexible)]
        0 <= i < items.len() implies items[i].row(o, version, flexible) == schema::said(
        o,
        f(items[i]),
    ) by {
        law_deleted_topic(o, items[i], version, flexible);
    }
    schema::lemma_list(items, version, flexible, f);
}

/// A DeleteTopics response, as it is told.
pub open spec fn delete_topics_told(version: i16, topics: Seq<DeletedTopic>) -> Told {
    let flexible = version >= 4;
    let t = if version >= 1 {
        Told::new().i32(0)
    } else {
        Told::new()
    };
    t.list(
        flexible,
        topics,
        |x: DeletedTopic| deleted_topic_told(version, flexible, x),
    ).end(flexible)
}

/// A DeleteTopics response tells what it is made of.
pub proof fn law_delete_topics(o: Out, version: i16, topics: Seq<DeletedTopic>)
    ensures
        schema::lays_out(
            o,
            topic_admin::delete_topics_out(o, version, topics),
            delete_topics_told(version, topics),
        ),
{
    broadcast use {schema::group_fields, schema::law_tells};

    lemma_rows_deleted_topic(topics, version, version >= 4);
}

/// A CreatePartitions response, as it is told.
pub open spec fn create_partitions_told(version: i16, topics: Seq<NamedVerdict>) -> Told {
    let flexible = version >= 2;
    Told::new().i32(0).list(
        flexible,
        topics,
        |x: NamedVerdict| named_verdict_told(version, flexible, x),
    ).end(flexible)
}

/// A CreatePartitions response tells what it is made of.
pub proof fn law_create_partitions(o: Out, version: i16, topics: Seq<NamedVerdict>)
    ensures
        schema::lays_out(
            o,
            topic_admin::create_partitions_out(o, version, topics),
            create_partitions_told(version, topics),
        ),
{
    broadcast use {schema::group_fields, schema::law_tells};

    lemma_rows_named_verdict(topics, version, version >= 2);
}

/// A broker of a Metadata response: its id, where it is, and no rack, as it is told.
pub open spec fn broker_told(version: i16, flexible: bool, x: BrokerNode) -> Told {
    let t = Told::new().i32(x.id as int).text(flexible, x.host@).i32(x.port as int);
    let t = if version >= 1 {
        t.opt_text(flexible, None)
    } else {
        t
    };
    t.end(flexible)
}

/// A broker of a Metadata response: its id, where it is, and no rack tells what it holds.
pub proof fn law_broker(o: Out, x: BrokerNode, version: i16, flexible: bool)
    ensures
        schema::lays_out(
            o,
            x.row(o, version, flexible),
            broker_told(version, flexible, x),
        ),
{
    broadcast use {schema::group_fields, schema::law_tells};

}

proof fn lemma_rows_broker(items: Seq<BrokerNode>, version: i16, flexible: bool)
    ensures
        ({
            let f = |x: BrokerNode| broker_told(version, flexible, x);
            forall|o: Out| #[trigger]
                message::rows_out(o, items, version, flexible) == o.raw(
                    schema::field_bytes(
                        Kind::List(flexible, schema::kinds_of(items, f)),
                        Value::List(schema::values_of(items, f)),
                    ),
                )
        }),
{
    let f = |x: BrokerNode| broker_told(version, flexible, x);
    assert forall|i: int, o: Out|
        #![trigger items[i].row(o, version, flexible)]
        0 <= i < items.len() implies items[i].row(o, version, flexible) == schema::said(
        o,
        f(items[i]),
    ) by {
        law_broker(o, items[i], version, flexible);
    }
    schema::lemma_list(items, version, flexible, f);
}

/// A partition of a Metadata response: no error, its number, its leader, no leader epoch, its
/// replicas, those in sync, and none offline, as it is told.
pub open spec fn metadata_partition_told(
    version: i16,
    flexible: bool,
    x: MetadataPartition,
) -> Told {
    let t = Told::new().i16(0).i32(x.partition as int).i32(x.leader as int);
    let t = if version >= 7 {
        t.i32(-1)
    } else {
        t
    };
    let t = t.list(
        flexible,
        x.replicas@,
        |x: i32| int_told(version, flexible, x),
    ).list(
        flexible,
        x.isr@,
        |x: i32| int_told(version, flexible, x),
    );
    let t = if version >= 5 {
        t.no_list(flexible, Told::new().i32(0))
    } else {
        t
    };
    t.end(flexible)
}

/// A partition of a Metadata response: no error, its number, its leader, no leader epoch, its
/// replicas, those in sync, and none offline tells what it holds.
pub proof fn law_metadata_partition(o: Out, x: MetadataPartition, version: i16, flexible: bool)
    ensures
        schema::lays_out(
            o,
            x.row(o, version, flexible),
            metadata_partition_told(version, flexible, x),
        ),
{
    broadcast use {schema::group_fields, schema::law_tells};

    lemma_rows_int(x.replicas@, version, flexible);
    lemma_rows_int(x.isr@, version, flexible);
}

proof fn lemma_rows_metadata_partition(items: Seq<MetadataPartition>, version: i16, flexible: bool)
    ensures
        ({
            let f = |x: MetadataPartition| metadata_partition_told(version, flexible, x);
            forall|o: Out| #[trigger]
                message::rows_out(o, items, version, flexible) == o.raw(
                    schema::field_bytes(
                        Kind::List(flexible, schema::kinds_of(items, f)),
                        Value::List(schema::values_of(items, f)),
                    ),
                )
        }),
{
    let f = |x: MetadataPartition| metadata_partition_told(version, flexible, x);
    assert forall|i: int, o: Out|
        #![trigger items[i].row(o, version, flexible)]
        0 <= i < items.len() implies items[i].row(o, version, flexible) == schema::said(
        o,
        f(items[i]),
    ) by {
        law_metadata_partition(o, items[i], version, flexible);
    }
    schema::lemma_list(items, version, flexible, f);
}

/// A topic of a Metadata response: no error, its name, its identifier, that it is not internal,
/// its partitions, and the allowed operations, as it is told.
pub open spec fn metadata_topic_told(version: i16, flexible: bool, x: MetadataTopic) -> Told {
    let t = Told::new().i16(0).text(flexible, x.name@);
    let t = if version >= 10 {
        t.uuid(topic_id::topic_uuid(x.topic_id))
    } else {
        t
    };
    let t = if version >= 1 {
        t.i8(0)
    } else {
        t
    };
    let t = t.list(
        flexible,
        x.partitions@,
        |x: MetadataPartition| metadata_partition_told(version, flexible, x),
    );
    let t = if version >= 8 {
        t.i32(x.ops as int)
    } else {
        t
    };
    t.end(flexible)
}

/// A topic of a Metadata response: no error, its name, its identifier, that it is not internal,
/// its partitions, and the allowed operations tells what it holds.
pub proof fn law_metadata_topic(o: Out, x: MetadataTopic, version: i16, flexible: bool)
    ensures
        schema::lays_out(
            o,
            x.row(o, version, flexible),
            metadata_topic_told(version, flexible, x),
        ),
{
    broadcast use {schema::group_fields, schema::law_tells};

    lemma_rows_metadata_partition(x.partitions@, version, flexible);
}

proof fn lemma_rows_metadata_topic(items: Seq<MetadataTopic>, version: i16, flexible: bool)
    ensures
        ({
            let f = |x: MetadataTopic| metadata_topic_told(version, flexible, x);
            forall|o: Out| #[trigger]
                message::rows_out(o, items, version, flexible) == o.raw(
                    schema::field_bytes(
                        Kind::List(flexible, schema::kinds_of(items, f)),
                        Value::List(schema::values_of(items, f)),
                    ),
                )
        }),
{
    let f = |x: MetadataTopic| metadata_topic_told(version, flexible, x);
    assert forall|i: int, o: Out|
        #![trigger items[i].row(o, version, flexible)]
        0 <= i < items.len() implies items[i].row(o, version, flexible) == schema::said(
        o,
        f(items[i]),
    ) by {
        law_metadata_topic(o, items[i], version, flexible);
    }
    schema::lemma_list(items, version, flexible, f);
}

/// A topic of a Metadata response that is not known: the error, no name, the identifier that
/// was asked for, and nothing else, as it is told.
pub open spec fn unknown_topic_told(version: i16, flexible: bool, x: UnknownTopic) -> Told {
    Told::new().i16(KafkaErrorCode::UnknownTopicId.code() as int).opt_text(true, None).uuid(
        x.uuid@,
    ).i8(0).no_list(true, metadata_partition_told(version, true, arbitrary())).i32(
        metadata::AUTH_OPS_OMITTED as int,
    ).end(true)
}

/// A topic of a Metadata response that is not known: the error, no name, the identifier that
/// was asked for, and nothing else tells what it holds.
pub proof fn law_unknown_topic(o: Out, x: UnknownTopic, version: i16, flexible: bool)
    ensures
        schema::lays_out(
            o,
            x.row(o, version, flexible),
            unknown_topic_told(version, flexible, x),
        ),
{
    broadcast use {schema::group_fields, schema::law_tells};

}

proof fn lemma_rows_unknown_topic(items: Seq<UnknownTopic>, version: i16, flexible: bool)
    ensures
        ({
            let f = |x: UnknownTopic| unknown_topic_told(version, flexible, x);
            forall|o: Out| #[trigger]
                message::rows_out(o, items, version, flexible) == o.raw(
                    schema::field_bytes(
                        Kind::List(flexible, schema::kinds_of(items, f)),
                        Value::List(schema::values_of(items, f)),
                    ),
                )
        }),
{
    let f = |x: UnknownTopic| unknown_topic_told(version, flexible, x);
    assert forall|i: int, o: Out|
        #![trigger items[i].row(o, version, flexible)]
        0 <= i < items.len() implies items[i].row(o, version, flexible) == schema::said(
        o,
        f(items[i]),
    ) by {
        law_unknown_topic(o, items[i], version, flexible);
    }
    schema::lemma_list(items, version, flexible, f);
}

/// A member of a JoinGroup response: its id, its instance, and no metadata, as it is told.
pub open spec fn join_member_told(version: i16, flexible: bool, x: JoinMember) -> Told {
    let t = Told::new().text(flexible, x.member_id@);
    let t = if version >= 5 {
        t.opt_text(flexible, x.instance_id.deep_view())
    } else {
        t
    };
    t.blob(flexible, Some(Seq::empty())).end(flexible)
}

/// A member of a JoinGroup response: its id, its instance, and no metadata tells what it holds.
pub proof fn law_join_member(o: Out, x: JoinMember, version: i16, flexible: bool)
    ensures
        schema::lays_out(
            o,
            x.row(o, version, flexible),
            join_member_told(version, flexible, x),
        ),
{
    broadcast use {schema::group_fields, schema::law_tells};

}

proof fn lemma_rows_join_member(items: Seq<JoinMember>, version: i16, flexible: bool)
    ensures
        ({
            let f = |x: JoinMember| join_member_told(version, flexible, x);
            forall|o: Out| #[trigger]
                message::rows_out(o, items, version, flexible) == o.raw(
                    schema::field_bytes(
                        Kind::List(flexible, schema::kinds_of(items, f)),
                        Value::List(schema::values_of(items, f)),
                    ),
                )
        }),
{
    let f = |x: JoinMember| join_member_told(version, flexible, x);
    assert forall|i: int, o: Out|
        #![trigger items[i].row(o, version, flexible)]
        0 <= i < items.len() implies items[i].row(o, version, flexible) == schema::said(
        o,
        f(items[i]),
    ) by {
        law_join_member(o, items[i], version, flexible);
    }
    schema::lemma_list(items, version, flexible, f);
}

/// A JoinGroup response: the error, the generation, the protocol, the leader, the member, and
/// all members, as it is told.
pub open spec fn join_group_told(version: i16, r: JoinReply) -> Told {
    let flexible = version >= 6;
    let t = if version >= 2 {
        Told::new().i32(0)
    } else {
        Told::new()
    };
    let t = t.i16(r.error as int).i32(r.generation as int);
    let t = if version >= 7 {
        t.opt_text(true, Some(r.protocol_type@)).opt_text(true, Some(r.protocol@))
    } else {
        t.text(flexible, r.protocol@)
    };
    let t = t.text(flexible, r.leader@);
    let t = if version >= 9 {
        t.i8(0)
    } else {
        t
    };
    t.text(flexible, r.member_id@).list(
        flexible,
        r.members@,
        |x: JoinMember| join_member_told(version, flexible, x),
    ).end(flexible)
}

/// A JoinGroup response: the error, the generation, the protocol, the leader, the member, and
/// all members tells what it is made of.
pub proof fn law_join_group(o: Out, version: i16, r: JoinReply)
    ensures
        schema::lays_out(
            o,
            membership::join_out(o, version, r),
            join_group_told(version, r),
        ),
{
    broadcast use {schema::group_fields, schema::law_tells};

    lemma_rows_join_member(r.members@, version, version >= 6);
}

/// A SyncGroup response: the error, the protocol, and the assignment of the member, as it is
/// told.
pub open spec fn sync_group_told(
    version: i16,
    error: i16,
    protocol_type: Option<Seq<char>>,
    protocol: Option<Seq<char>>,
    assignment: Seq<u8>,
) -> Told {
    let flexible = version >= 4;
    let t = if version >= 1 {
        Told::new().i32(0)
    } else {
        Told::new()
    };
    let t = t.i16(error as int);
    let t = if version >= 5 {
        t.opt_text(true, protocol_type).opt_text(true, protocol)
    } else {
        t
    };
    t.blob(flexible, Some(assignment)).end(flexible)
}

/// A SyncGroup response: the error, the protocol, and the assignment of the member tells what
/// it is made of.
pub proof fn law_sync_group(
    o: Out,
    version: i16,
    error: i16,
    protocol_type: Option<Seq<char>>,
    protocol: Option<Seq<char>>,
    assignment: Seq<u8>,
)
    ensures
        schema::lays_out(
            o,
            membership::sync_out(o, version, error, protocol_type, protocol, assignment),
            sync_group_told(version, error, protocol_type, protocol, assignment),
        ),
{
    broadcast use {schema::group_fields, schema::law_tells};

}

/// A Heartbeat response, as it is told.
pub open spec fn heartbeat_told(version: i16, error: i16) -> Told {
    let t = if version >= 1 {
        Told::new().i32(0)
    } else {
        Told::new()
    };
    t.i16(error as int).end(version >= 4)
}

/// A Heartbeat response tells what it is made of.
pub proof fn law_heartbeat(o: Out, version: i16, error: i16)
    ensures
        schema::lays_out(
            o,
            membership::heartbeat_out(o, version, error),
            heartbeat_told(version, error),
        ),
{
    broadcast use {schema::group_fields, schema::law_tells};

}

/// A member of a LeaveGroup response: its id, its instance, and the error, as it is told.
pub open spec fn leave_row_told(version: i16, flexible: bool, x: LeaveRow) -> Told {
    Told::new().text(flexible, x.member_id@).opt_text(flexible, x.instance_id.deep_view()).i16(
        x.error as int,
    ).end(flexible)
}

/// A member of a LeaveGroup response: its id, its instance, and the error tells what it holds.
pub proof fn law_leave_row(o: Out, x: LeaveRow, version: i16, flexible: bool)
    ensures
        schema::lays_out(
            o,
            x.row(o, version, flexible),
            leave_row_told(version, flexible, x),
        ),
{
    broadcast use {schema::group_fields, schema::law_tells};

}

proof fn lemma_rows_leave_row(items: Seq<LeaveRow>, version: i16, flexible: bool)
    ensures
        ({
            let f = |x: LeaveRow| leave_row_told(version, flexible, x);
            forall|o: Out| #[trigger]
                message::rows_out(o, items, version, flexible) == o.raw(
                    schema::field_bytes(
                        Kind::List(flexible, schema::kinds_of(items, f)),
                        Value::List(schema::values_of(items, f)),
                    ),
                )
        }),
{
    let f = |x: LeaveRow| leave_row_told(version, flexible, x);
    assert forall|i: int, o: Out|
        #![trigger items[i].row(o, version, flexible)]
        0 <= i < items.len() implies items[i].row(o, version, flexible) == schema::said(
        o,
        f(items[i]),
    ) by {
        law_leave_row(o, items[i], version, flexible);
    }
    schema::lemma_list(items, version, flexible, f);
}

/// A LeaveGroup response, as it is told.
pub open spec fn leave_group_told(version: i16, error: i16, rows: Seq<LeaveRow>) -> Told {
    let flexible = version >= 4;
    let t = if version >= 1 {
        Told::new().i32(0)
    } else {
        Told::new()
    };
    let t = t.i16(error as int);
    if version >= 3 {
        t.list(
        flexible,
        rows,
        |x: LeaveRow| leave_row_told(version, flexible, x),
    ).end(flexible)
    } else {
        t
    }
}

/// A LeaveGroup response tells what it is made of.
pub proof fn law_leave_group(o: Out, version: i16, error: i16, rows: Seq<LeaveRow>)
    ensures
        schema::lays_out(
            o,
            membership::leave_out(o, version, error, rows),
            leave_group_told(version, error, rows),
        ),
{
    broadcast use {schema::group_fields, schema::law_tells};

    lemma_rows_leave_row(rows, version, version >= 4);
}

/// An entry of a resource: who it is for, from any host, the operation, and whether it is
/// allowed, as it is told.
pub open spec fn acl_told(version: i16, flexible: bool, x: AclEntry) -> Told {
    Told::new().text(flexible, acl::wire_principal(x.principal@)).text(flexible, "*"@).i8(
        x.operation.number() as int,
    ).i8(x.permission.number() as int).end(flexible)
}

/// An entry of a resource: who it is for, from any host, the operation, and whether it is
/// allowed tells what it holds.
pub proof fn law_acl(o: Out, x: AclEntry, version: i16, flexible: bool)
    ensures
        schema::lays_out(
            o,
            x.row(o, version, flexible),
            acl_told(version, flexible, x),
        ),
{
    broadcast use {schema::group_fields, schema::law_tells};

}

proof fn lemma_rows_acl(items: Seq<AclEntry>, version: i16, flexible: bool)
    ensures
        ({
            let f = |x: AclEntry| acl_told(version, flexible, x);
            forall|o: Out| #[trigger]
                message::rows_out(o, items, version, flexible) == o.raw(
                    schema::field_bytes(
                        Kind::List(flexible, schema::kinds_of(items, f)),
                        Value::List(schema::values_of(items, f)),
                    ),
                )
        }),
{
    let f = |x: AclEntry| acl_told(version, flexible, x);
    assert forall|i: int, o: Out|
        #![trigger items[i].row(o, version, flexible)]
        0 <= i < items.len() implies items[i].row(o, version, flexible) == schema::said(
        o,
        f(items[i]),
    ) by {
        law_acl(o, items[i], version, flexible);
    }
    schema::lemma_list(items, version, flexible, f);
}

/// A resource of a DescribeAcls response: its type, its name, that the name stands for itself,
/// and its entries, as it is told.
pub open spec fn acl_group_told(version: i16, flexible: bool, x: AclGroup) -> Told {
    let t = Told::new().i8(x.resource_type as int).text(flexible, x.name@);
    let t = if version >= 1 {
        t.i8(acl::KAFKA_PATTERN_LITERAL as int)
    } else {
        t
    };
    t.list(
        flexible,
        x.acls@,
        |x: AclEntry| acl_told(version, flexible, x),
    ).end(flexible)
}

/// A resource of a DescribeAcls response: its type, its name, that the name stands for itself,
/// and its entries tells what it holds.
pub proof fn law_acl_group(o: Out, x: AclGroup, version: i16, flexible: bool)
    ensures
        schema::lays_out(
            o,
            x.row(o, version, flexible),
            acl_group_told(version, flexible, x),
        ),
{
    broadcast use {schema::group_fields, schema::law_tells};

    lemma_rows_acl(x.acls@, version, flexible);
}

proof fn lemma_rows_acl_group(items: Seq<AclGroup>, version: i16, flexible: bool)
    ensures
        ({
            let f = |x: AclGroup| acl_group_told(version, flexible, x);
            forall|o: Out| #[trigger]
                message::rows_out(o, items, version, flexible) == o.raw(
                    schema::field_bytes(
                        Kind::List(flexible, schema::kinds_of(items, f)),
                        Value::List(schema::values_of(items, f)),
                    ),
                )
        }),
{
    let f = |x: AclGroup| acl_group_told(version, flexible, x);
    assert forall|i: int, o: Out|
        #![trigger items[i].row(o, version, flexible)]
        0 <= i < items.len() implies items[i].row(o, version, flexible) == schema::said(
        o,
        f(items[i]),
    ) by {
        law_acl_group(o, items[i], version, flexible);
    }
    schema::lemma_list(items, version, flexible, f);
}

/// A DescribeAcls response, as it is told.
pub open spec fn describe_acls_told(
    version: i16,
    error: i16,
    message: Option<Seq<char>>,
    groups: Seq<AclGroup>,
) -> Told {
    let flexible = version >= 2;
    Told::new().i32(0).i16(error as int).opt_text(flexible, message).list(
        flexible,
        groups,
        |x: AclGroup| acl_group_told(version, flexible, x),
    ).end(flexible)
}

/// A DescribeAcls response tells what it is made of.
pub proof fn law_describe_acls(
    o: Out,
    version: i16,
    error: i16,
    message: Option<Seq<char>>,
    groups: Seq<AclGroup>,
)
    ensures
        schema::lays_out(
            o,
            acl_api::describe_acls_out(o, version, error, message, groups),
            describe_acls_told(version, error, message, groups),
        ),
{
    broadcast use {schema::group_fields, schema::law_tells};

    lemma_rows_acl_group(groups, version, version >= 2);
}

/// An entry of a CreateAcls response, as it is told.
pub open spec fn creation_row_told(version: i16, flexible: bool, x: CreationRow) -> Told {
    Told::new().i16(x.error as int).opt_text(flexible, x.message.deep_view()).end(flexible)
}

/// An entry of a CreateAcls response tells what it holds.
pub proof fn law_creation_row(o: Out, x: CreationRow, version: i16, flexible: bool)
    ensures
        schema::lays_out(
            o,
            x.row(o, version, flexible),
            creation_row_told(version, flexible, x),
        ),
{
    broadcast use {schema::group_fields, schema::law_tells};

}

proof fn lemma_rows_creation_row(items: Seq<CreationRow>, version: i16, flexible: bool)
    ensures
        ({
            let f = |x: CreationRow| creation_row_told(version, flexible, x);
            forall|o: Out| #[trigger]
                message::rows_out(o, items, version, flexible) == o.raw(
                    schema::field_bytes(
                        Kind::List(flexible, schema::kinds_of(items, f)),
                        Value::List(schema::values_of(items, f)),
                    ),
                )
        }),
{
    let f = |x: CreationRow| creation_row_told(version, flexible, x);
    assert forall|i: int, o: Out|
        #![trigger items[i].row(o, version, flexible)]
        0 <= i < items.len() implies items[i].row(o, version, flexible) == schema::said(
        o,
        f(items[i]),
    ) by {
        law_creation_row(o, items[i], version, flexible);
    }
    schema::lemma_list(items, version, flexible, f);
}

/// A CreateAcls response, as it is told.
pub open spec fn create_acls_told(version: i16, rows: Seq<CreationRow>) -> Told {
    let flexible = version >= 2;
    Told::new().i32(0).list(
        flexible,
        rows,
        |x: CreationRow| creation_row_told(version, flexible, x),
    ).end(flexible)
}

/// A CreateAcls response tells what it is made of.
pub proof fn law_create_acls(o: Out, version: i16, rows: Seq<CreationRow>)
    ensures
        schema::lays_out(
            o,
            acl_api::create_acls_out(o, version, rows),
            create_acls_told(version, rows),
        ),
{
    broadcast use {schema::group_fields, schema::law_tells};

    lemma_rows_creation_row(rows, version, version >= 2);
}

/// An entry that was deleted: no error, its resource, and what it said, as it is told.
pub open spec fn deleted_acl_told(version: i16, flexible: bool, x: DeletedAcl) -> Told {
    let t = Told::new().i16(0).opt_text(flexible, None).i8(
        x.entry.resource_type.number() as int,
    ).text(flexible, acl::wire_name(x.entry.resource_type, x.entry.resource@));
    let t = if version >= 1 {
        t.i8(acl::KAFKA_PATTERN_LITERAL as int)
    } else {
        t
    };
    t.text(flexible, acl::wire_principal(x.entry.principal@)).text(flexible, "*"@).i8(
        x.entry.operation.number() as int,
    ).i8(x.entry.permission.number() as int).end(flexible)
}

/// An entry that was deleted: no error, its resource, and what it said tells what it holds.
pub proof fn law_deleted_acl(o: Out, x: DeletedAcl, version: i16, flexible: bool)
    ensures
        schema::lays_out(
            o,
            x.row(o, version, flexible),
            deleted_acl_told(version, flexible, x),
        ),
{
    broadcast use {schema::group_fields, schema::law_tells};

}

proof fn lemma_rows_deleted_acl(items: Seq<DeletedAcl>, version: i16, flexible: bool)
    ensures
        ({
            let f = |x: DeletedAcl| deleted_acl_told(version, flexible, x);
            forall|o: Out| #[trigger]
                message::rows_out(o, items, version, flexible) == o.raw(
                    schema::field_bytes(
                        Kind::List(flexible, schema::kinds_of(items, f)),
                        Value::List(schema::values_of(items, f)),
                    ),
                )
        }),
{
    let f = |x: DeletedAcl| deleted_acl_told(version, flexible, x);
    assert forall|i: int, o: Out|
        #![trigger items[i].row(o, version, flexible)]
        0 <= i < items.len() implies items[i].row(o, version, flexible) == schema::said(
        o,
        f(items[i]),
    ) by {
        law_deleted_acl(o, items[i], version, flexible);
    }
    schema::lemma_list(items, version, flexible, f);
}

/// A filter of a DeleteAcls response, with the entries that it matched, as it is told.
pub open spec fn deletion_row_told(version: i16, flexible: bool, x: DeletionRow) -> Told {
    Told::new().i16(x.error as int).opt_text(flexible, x.message.deep_view()).list(
        flexible,
        x.matched@,
        |x: DeletedAcl| deleted_acl_told(version, flexible, x),
    ).end(flexible)
}

/// A filter of a DeleteAcls response, with the entries that it matched tells what it holds.
pub proof fn law_deletion_row(o: Out, x: DeletionRow, version: i16, flexible: bool)
    ensures
        schema::lays_out(
            o,
            x.row(o, version, flexible),
            deletion_row_told(version, flexible, x),
        ),
{
    broadcast use {schema::group_fields, schema::law_tells};

    lemma_rows_deleted_acl(x.matched@, version, flexible);
}

proof fn lemma_rows_deletion_row(items: Seq<DeletionRow>, version: i16, flexible: bool)
    ensures
        ({
            let f = |x: DeletionRow| deletion_row_told(version, flexible, x);
            forall|o: Out| #[trigger]
                message::rows_out(o, items, version, flexible) == o.raw(
                    schema::field_bytes(
                        Kind::List(flexible, schema::kinds_of(items, f)),
                        Value::List(schema::values_of(items, f)),
                    ),
                )
        }),
{
    let f = |x: DeletionRow| deletion_row_told(version, flexible, x);
    assert forall|i: int, o: Out|
        #![trigger items[i].row(o, version, flexible)]
        0 <= i < items.len() implies items[i].row(o, version, flexible) == schema::said(
        o,
        f(items[i]),
    ) by {
        law_deletion_row(o, items[i], version, flexible);
    }
    schema::lemma_list(items, version, flexible, f);
}

/// A DeleteAcls response, as it is told.
pub open spec fn delete_acls_told(version: i16, rows: Seq<DeletionRow>) -> Told {
    let flexible = version >= 2;
    Told::new().i32(0).list(
        flexible,
        rows,
        |x: DeletionRow| deletion_row_told(version, flexible, x),
    ).end(flexible)
}

/// A DeleteAcls response tells what it is made of.
pub proof fn law_delete_acls(o: Out, version: i16, rows: Seq<DeletionRow>)
    ensures
        schema::lays_out(
            o,
            acl_api::delete_acls_out(o, version, rows),
            delete_acls_told(version, rows),
        ),
{
    broadcast use {schema::group_fields, schema::law_tells};

    lemma_rows_deletion_row(rows, version, version >= 2);
}

/// A setting of a DescribeConfigs response: its name, its value, that it can be changed, where
/// it comes from, that it is no secret, no synonyms, its type, and its documentation, as it is
/// told.
pub open spec fn config_row_told(version: i16, flexible: bool, x: ConfigRow) -> Told {
    let t = Told::new().text(flexible, x.key@).opt_text(flexible, x.value.deep_view()).i8(0);
    let t = if version == 0 {
        t.i8(
            if x.is_default {
                1
            } else {
                0
            },
        )
    } else {
        t.i8(x.source as int)
    };
    let t = t.i8(0);
    let t = if version >= 1 {
        t.no_list(flexible, Told::new())
    } else {
        t
    };
    let t = if version >= 3 {
        t.i8(x.config_type as int).opt_text(flexible, x.documentation.deep_view())
    } else {
        t
    };
    t.end(flexible)
}

/// A setting of a DescribeConfigs response: its name, its value, that it can be changed, where
/// it comes from, that it is no secret, no synonyms, its type, and its documentation tells what
/// it holds.
pub proof fn law_config_row(o: Out, x: ConfigRow, version: i16, flexible: bool)
    ensures
        schema::lays_out(
            o,
            x.row(o, version, flexible),
            config_row_told(version, flexible, x),
        ),
{
    broadcast use {schema::group_fields, schema::law_tells};

}

proof fn lemma_rows_config_row(items: Seq<ConfigRow>, version: i16, flexible: bool)
    ensures
        ({
            let f = |x: ConfigRow| config_row_told(version, flexible, x);
            forall|o: Out| #[trigger]
                message::rows_out(o, items, version, flexible) == o.raw(
                    schema::field_bytes(
                        Kind::List(flexible, schema::kinds_of(items, f)),
                        Value::List(schema::values_of(items, f)),
                    ),
                )
        }),
{
    let f = |x: ConfigRow| config_row_told(version, flexible, x);
    assert forall|i: int, o: Out|
        #![trigger items[i].row(o, version, flexible)]
        0 <= i < items.len() implies items[i].row(o, version, flexible) == schema::said(
        o,
        f(items[i]),
    ) by {
        law_config_row(o, items[i], version, flexible);
    }
    schema::lemma_list(items, version, flexible, f);
}

/// A resource of a DescribeConfigs response, as it is told.
pub open spec fn described_resource_told(
    version: i16,
    flexible: bool,
    x: DescribedResource,
) -> Told {
    Told::new().i16(x.verdict.error as int).opt_text(flexible, x.verdict.message.deep_view()).i8(
        x.rtype as int,
    ).text(flexible, x.name@).list(
        flexible,
        x.configs@,
        |x: ConfigRow| config_row_told(version, flexible, x),
    ).end(flexible)
}

/// A resource of a DescribeConfigs response tells what it holds.
pub proof fn law_described_resource(o: Out, x: DescribedResource, version: i16, flexible: bool)
    ensures
        schema::lays_out(
            o,
            x.row(o, version, flexible),
            described_resource_told(version, flexible, x),
        ),
{
    broadcast use {schema::group_fields, schema::law_tells};

    lemma_rows_config_row(x.configs@, version, flexible);
}

proof fn lemma_rows_described_resource(items: Seq<DescribedResource>, version: i16, flexible: bool)
    ensures
        ({
            let f = |x: DescribedResource| described_resource_told(version, flexible, x);
            forall|o: Out| #[trigger]
                message::rows_out(o, items, version, flexible) == o.raw(
                    schema::field_bytes(
                        Kind::List(flexible, schema::kinds_of(items, f)),
                        Value::List(schema::values_of(items, f)),
                    ),
                )
        }),
{
    let f = |x: DescribedResource| described_resource_told(version, flexible, x);
    assert forall|i: int, o: Out|
        #![trigger items[i].row(o, version, flexible)]
        0 <= i < items.len() implies items[i].row(o, version, flexible) == schema::said(
        o,
        f(items[i]),
    ) by {
        law_described_resource(o, items[i], version, flexible);
    }
    schema::lemma_list(items, version, flexible, f);
}

/// A DescribeConfigs response, as it is told.
pub open spec fn describe_configs_told(version: i16, resources: Seq<DescribedResource>) -> Told {
    let flexible = version >= 4;
    Told::new().i32(0).list(
        flexible,
        resources,
        |x: DescribedResource| described_resource_told(version, flexible, x),
    ).end(flexible)
}

/// A DescribeConfigs response tells what it is made of.
pub proof fn law_describe_configs(o: Out, version: i16, resources: Seq<DescribedResource>)
    ensures
        schema::lays_out(
            o,
            configs::describe_configs_out(o, version, resources),
            describe_configs_told(version, resources),
        ),
{
    broadcast use {schema::group_fields, schema::law_tells};

    lemma_rows_described_resource(resources, version, version >= 4);
}

/// A resource of an AlterConfigs response, as it is told.
pub open spec fn altered_row_told(version: i16, flexible: bool, x: AlteredRow) -> Told {
    Told::new().i16(x.verdict.error as int).opt_text(flexible, x.verdict.message.deep_view()).i8(
        x.rtype as int,
    ).text(flexible, x.name@).end(flexible)
}

/// A resource of an AlterConfigs response tells what it holds.
pub proof fn law_altered_row(o: Out, x: AlteredRow, version: i16, flexible: bool)
    ensures
        schema::lays_out(
            o,
            x.row(o, version, flexible),
            altered_row_told(version, flexible, x),
        ),
{
    broadcast use {schema::group_fields, schema::law_tells};

}

proof fn lemma_rows_altered_row(items: Seq<AlteredRow>, version: i16, flexible: bool)
    ensures
        ({
            let f = |x: AlteredRow| altered_row_told(version, flexible, x);
            forall|o: Out| #[trigger]
                message::rows_out(o, items, version, flexible) == o.raw(
                    schema::field_bytes(
                        Kind::List(flexible, schema::kinds_of(items, f)),
                        Value::List(schema::values_of(items, f)),
                    ),
                )
        }),
{
    let f = |x: AlteredRow| altered_row_told(version, flexible, x);
    assert forall|i: int, o: Out|
        #![trigger items[i].row(o, version, flexible)]
        0 <= i < items.len() implies items[i].row(o, version, flexible) == schema::said(
        o,
        f(items[i]),
    ) by {
        law_altered_row(o, items[i], version, flexible);
    }
    schema::lemma_list(items, version, flexible, f);
}

/// An AlterConfigs or IncrementalAlterConfigs response, as it is told.
pub open spec fn alter_configs_told(version: i16, flexible: bool, rows: Seq<AlteredRow>) -> Told {
    Told::new().i32(0).list(
        flexible,
        rows,
        |x: AlteredRow| altered_row_told(version, flexible, x),
    ).end(flexible)
}

/// An AlterConfigs or IncrementalAlterConfigs response tells what it is made of.
pub proof fn law_alter_configs(o: Out, version: i16, flexible: bool, rows: Seq<AlteredRow>)
    ensures
        schema::lays_out(
            o,
            configs::altered_out(o, version, flexible, rows),
            alter_configs_told(version, flexible, rows),
        ),
{
    broadcast use {schema::group_fields, schema::law_tells};

    lemma_rows_altered_row(rows, version, flexible);
}

/// A group of a ListGroups response: its id, the kind of its protocol, its state, and its type,
/// as it is told.
pub open spec fn listed_group_told(version: i16, flexible: bool, x: ListedGroup) -> Told {
    let t = Told::new().text(flexible, x.group_id@).text(flexible, "consumer"@);
    let t = if version >= 4 {
        t.text(flexible, x.state@)
    } else {
        t
    };
    let t = if version >= 5 {
        t.text(flexible, "classic"@)
    } else {
        t
    };
    t.end(flexible)
}

/// A group of a ListGroups response: its id, the kind of its protocol, its state, and its type
/// tells what it holds.
pub proof fn law_listed_group(o: Out, x: ListedGroup, version: i16, flexible: bool)
    ensures
        schema::lays_out(
            o,
            x.row(o, version, flexible),
            listed_group_told(version, flexible, x),
        ),
{
    broadcast use {schema::group_fields, schema::law_tells};

}

proof fn lemma_rows_listed_group(items: Seq<ListedGroup>, version: i16, flexible: bool)
    ensures
        ({
            let f = |x: ListedGroup| listed_group_told(version, flexible, x);
            forall|o: Out| #[trigger]
                message::rows_out(o, items, version, flexible) == o.raw(
                    schema::field_bytes(
                        Kind::List(flexible, schema::kinds_of(items, f)),
                        Value::List(schema::values_of(items, f)),
                    ),
                )
        }),
{
    let f = |x: ListedGroup| listed_group_told(version, flexible, x);
    assert forall|i: int, o: Out|
        #![trigger items[i].row(o, version, flexible)]
        0 <= i < items.len() implies items[i].row(o, version, flexible) == schema::said(
        o,
        f(items[i]),
    ) by {
        law_listed_group(o, items[i], version, flexible);
    }
    schema::lemma_list(items, version, flexible, f);
}

/// A member of a DescribeGroups response: its id, its instance, its client, what it subscribes
/// to, and what it is assigned, as it is told.
pub open spec fn group_member_told(version: i16, flexible: bool, x: GroupMember) -> Told {
    let t = Told::new().text(flexible, x.member_id@);
    let t = if version >= 4 {
        t.opt_text(flexible, membership::instance_of(x.member_id@))
    } else {
        t
    };
    t.text(flexible, "volant-kafka"@).text(flexible, "/"@).blob(
        flexible,
        Some(consumer_protocol::subscription_out(x.topics.deep_view())),
    ).blob(
        flexible,
        Some(
            consumer_protocol::assignment_out(
                consumer_protocol::by_topic(x.assignment.deep_view()),
            ),
        ),
    ).end(flexible)
}

/// A member of a DescribeGroups response: its id, its instance, its client, what it subscribes
/// to, and what it is assigned tells what it holds.
pub proof fn law_group_member(o: Out, x: GroupMember, version: i16, flexible: bool)
    ensures
        schema::lays_out(
            o,
            x.row(o, version, flexible),
            group_member_told(version, flexible, x),
        ),
{
    broadcast use {schema::group_fields, schema::law_tells};

}

proof fn lemma_rows_group_member(items: Seq<GroupMember>, version: i16, flexible: bool)
    ensures
        ({
            let f = |x: GroupMember| group_member_told(version, flexible, x);
            forall|o: Out| #[trigger]
                message::rows_out(o, items, version, flexible) == o.raw(
                    schema::field_bytes(
                        Kind::List(flexible, schema::kinds_of(items, f)),
                        Value::List(schema::values_of(items, f)),
                    ),
                )
        }),
{
    let f = |x: GroupMember| group_member_told(version, flexible, x);
    assert forall|i: int, o: Out|
        #![trigger items[i].row(o, version, flexible)]
        0 <= i < items.len() implies items[i].row(o, version, flexible) == schema::said(
        o,
        f(items[i]),
    ) by {
        law_group_member(o, items[i], version, flexible);
    }
    schema::lemma_list(items, version, flexible, f);
}

/// A group of a DescribeGroups response, as it is told.
pub open spec fn described_group_told(version: i16, flexible: bool, x: DescribedGroup) -> Told {
    let t = Told::new().i16(x.error as int).text(flexible, x.group_id@).text(flexible, x.state@).text(
        flexible,
        x.protocol_type@,
    ).text(flexible, x.protocol@).list(
        flexible,
        x.members@,
        |x: GroupMember| group_member_told(version, flexible, x),
    );
    let t = if version >= 3 {
        t.i32(x.authorized_ops as int)
    } else {
        t
    };
    let t = if version >= 6 {
        t.opt_text(true, x.message.deep_view())
    } else {
        t
    };
    t.end(flexible)
}

/// A group of a DescribeGroups response tells what it holds.
pub proof fn law_described_group(o: Out, x: DescribedGroup, version: i16, flexible: bool)
    ensures
        schema::lays_out(
            o,
            x.row(o, version, flexible),
            described_group_told(version, flexible, x),
        ),
{
    broadcast use {schema::group_fields, schema::law_tells};

    lemma_rows_group_member(x.members@, version, flexible);
}

proof fn lemma_rows_described_group(items: Seq<DescribedGroup>, version: i16, flexible: bool)
    ensures
        ({
            let f = |x: DescribedGroup| described_group_told(version, flexible, x);
            forall|o: Out| #[trigger]
                message::rows_out(o, items, version, flexible) == o.raw(
                    schema::field_bytes(
                        Kind::List(flexible, schema::kinds_of(items, f)),
                        Value::List(schema::values_of(items, f)),
                    ),
                )
        }),
{
    let f = |x: DescribedGroup| described_group_told(version, flexible, x);
    assert forall|i: int, o: Out|
        #![trigger items[i].row(o, version, flexible)]
        0 <= i < items.len() implies items[i].row(o, version, flexible) == schema::said(
        o,
        f(items[i]),
    ) by {
        law_described_group(o, items[i], version, flexible);
    }
    schema::lemma_list(items, version, flexible, f);
}

/// A DescribeGroups response, as it is told.
pub open spec fn describe_groups_told(version: i16, groups: Seq<DescribedGroup>) -> Told {
    let flexible = version >= 5;
    let t = if version >= 1 {
        Told::new().i32(0)
    } else {
        Told::new()
    };
    t.list(
        flexible,
        groups,
        |x: DescribedGroup| described_group_told(version, flexible, x),
    ).end(flexible)
}

/// A DescribeGroups response tells what it is made of.
pub proof fn law_describe_groups(o: Out, version: i16, groups: Seq<DescribedGroup>)
    ensures
        schema::lays_out(
            o,
            group_admin::describe_groups_out(o, version, groups),
            describe_groups_told(version, groups),
        ),
{
    broadcast use {schema::group_fields, schema::law_tells};

    lemma_rows_described_group(groups, version, version >= 5);
}

/// A group of a DeleteGroups response, as it is told.
pub open spec fn deleted_group_told(version: i16, flexible: bool, x: DeletedGroup) -> Told {
    let t = Told::new().text(flexible, x.group_id@).i16(x.error as int);
    let t = if version >= 3 {
        t.opt_text(true, x.message.deep_view())
    } else {
        t
    };
    t.end(flexible)
}

/// A group of a DeleteGroups response tells what it holds.
pub proof fn law_deleted_group(o: Out, x: DeletedGroup, version: i16, flexible: bool)
    ensures
        schema::lays_out(
            o,
            x.row(o, version, flexible),
            deleted_group_told(version, flexible, x),
        ),
{
    broadcast use {schema::group_fields, schema::law_tells};

}

proof fn lemma_rows_deleted_group(items: Seq<DeletedGroup>, version: i16, flexible: bool)
    ensures
        ({
            let f = |x: DeletedGroup| deleted_group_told(version, flexible, x);
            forall|o: Out| #[trigger]
                message::rows_out(o, items, version, flexible) == o.raw(
                    schema::field_bytes(
                        Kind::List(flexible, schema::kinds_of(items, f)),
                        Value::List(schema::values_of(items, f)),
                    ),
                )
        }),
{
    let f = |x: DeletedGroup| deleted_group_told(version, flexible, x);
    assert forall|i: int, o: Out|
        #![trigger items[i].row(o, version, flexible)]
        0 <= i < items.len() implies items[i].row(o, version, flexible) == schema::said(
        o,
        f(items[i]),
    ) by {
        law_deleted_group(o, items[i], version, flexible);
    }
    schema::lemma_list(items, version, flexible, f);
}

/// A DeleteGroups response, as it is told.
pub open spec fn delete_groups_told(version: i16, groups: Seq<DeletedGroup>) -> Told {
    let flexible = version >= 2;
    Told::new().i32(0).list(
        flexible,
        groups,
        |x: DeletedGroup| deleted_group_told(version, flexible, x),
    ).end(flexible)
}

/// A DeleteGroups response tells what it is made of.
pub proof fn law_delete_groups(o: Out, version: i16, groups: Seq<DeletedGroup>)
    ensures
        schema::lays_out(
            o,
            group_admin::delete_groups_out(o, version, groups),
            delete_groups_told(version, groups),
        ),
{
    broadcast use {schema::group_fields, schema::law_tells};

    lemma_rows_deleted_group(groups, version, version >= 2);
}

/// A topic that a member is assigned, as it is told.
pub open spec fn assigned_topic_told(version: i16, flexible: bool, x: AssignedTopic) -> Told {
    Told::new().uuid(x.topic_id@).text(true, x.name@).list(
        true,
        x.parts@,
        |x: i32| int_told(version, true, x),
    ).end(true)
}

/// A topic that a member is assigned tells what it holds.
pub proof fn law_assigned_topic(o: Out, x: AssignedTopic, version: i16, flexible: bool)
    ensures
        schema::lays_out(
            o,
            x.row(o, version, flexible),
            assigned_topic_told(version, flexible, x),
        ),
{
    broadcast use {schema::group_fields, schema::law_tells};

    lemma_rows_int(x.parts@, version, true);
}

proof fn lemma_rows_assigned_topic(items: Seq<AssignedTopic>, version: i16, flexible: bool)
    ensures
        ({
            let f = |x: AssignedTopic| assigned_topic_told(version, flexible, x);
            forall|o: Out| #[trigger]
                message::rows_out(o, items, version, flexible) == o.raw(
                    schema::field_bytes(
                        Kind::List(flexible, schema::kinds_of(items, f)),
                        Value::List(schema::values_of(items, f)),
                    ),
                )
        }),
{
    let f = |x: AssignedTopic| assigned_topic_told(version, flexible, x);
    assert forall|i: int, o: Out|
        #![trigger items[i].row(o, version, flexible)]
        0 <= i < items.len() implies items[i].row(o, version, flexible) == schema::said(
        o,
        f(items[i]),
    ) by {
        law_assigned_topic(o, items[i], version, flexible);
    }
    schema::lemma_list(items, version, flexible, f);
}

/// A member of a ConsumerGroupDescribe response, as it is told.
pub open spec fn consumer_member_told(version: i16, flexible: bool, x: ConsumerMember) -> Told {
    Told::new().text(true, x.member_id@).opt_text(
        true,
        membership::instance_of(x.member_id@),
    ).opt_text(true, None).i32(-1).text(true, "volant-kafka"@).text(true, "/"@).list(
        true,
        x.topics@,
        |x: String| string_told(version, true, x),
    ).opt_text(true, None).list(
        true,
        x.assignment@,
        |x: AssignedTopic| assigned_topic_told(version, true, x),
    ).end(true).list(
        true,
        x.assignment@,
        |x: AssignedTopic| assigned_topic_told(version, true, x),
    ).end(true).end(true)
}

/// A member of a ConsumerGroupDescribe response tells what it holds.
pub proof fn law_consumer_member(o: Out, x: ConsumerMember, version: i16, flexible: bool)
    ensures
        schema::lays_out(
            o,
            x.row(o, version, flexible),
            consumer_member_told(version, flexible, x),
        ),
{
    broadcast use {schema::group_fields, schema::law_tells};

    lemma_rows_string(x.topics@, version, true);
    lemma_rows_assigned_topic(x.assignment@, version, true);
}

proof fn lemma_rows_consumer_member(items: Seq<ConsumerMember>, version: i16, flexible: bool)
    ensures
        ({
            let f = |x: ConsumerMember| consumer_member_told(version, flexible, x);
            forall|o: Out| #[trigger]
                message::rows_out(o, items, version, flexible) == o.raw(
                    schema::field_bytes(
                        Kind::List(flexible, schema::kinds_of(items, f)),
                        Value::List(schema::values_of(items, f)),
                    ),
                )
        }),
{
    let f = |x: ConsumerMember| consumer_member_told(version, flexible, x);
    assert forall|i: int, o: Out|
        #![trigger items[i].row(o, version, flexible)]
        0 <= i < items.len() implies items[i].row(o, version, flexible) == schema::said(
        o,
        f(items[i]),
    ) by {
        law_consumer_member(o, items[i], version, flexible);
    }
    schema::lemma_list(items, version, flexible, f);
}

/// A group of a ConsumerGroupDescribe response, as it is told.
pub open spec fn consumer_group_told(
    version: i16,
    flexible: bool,
    x: DescribedConsumerGroup,
) -> Told {
    Told::new().i16(x.error as int).opt_text(true, x.message.deep_view()).text(true, x.group_id@).text(
        true,
        x.state@,
    ).i32(x.epoch as int).i32(x.epoch as int).text(true, x.assignor@).list(
        true,
        x.members@,
        |x: ConsumerMember| consumer_member_told(version, true, x),
    ).i32(x.authorized_ops as int).end(true)
}

/// A group of a ConsumerGroupDescribe response tells what it holds.
pub proof fn law_consumer_group(o: Out, x: DescribedConsumerGroup, version: i16, flexible: bool)
    ensures
        schema::lays_out(
            o,
            x.row(o, version, flexible),
            consumer_group_told(version, flexible, x),
        ),
{
    broadcast use {schema::group_fields, schema::law_tells};

    lemma_rows_consumer_member(x.members@, version, true);
}

proof fn lemma_rows_consumer_group(items: Seq<DescribedConsumerGroup>, version: i16, flexible: bool)
    ensures
        ({
            let f = |x: DescribedConsumerGroup| consumer_group_told(version, flexible, x);
            forall|o: Out| #[trigger]
                message::rows_out(o, items, version, flexible) == o.raw(
                    schema::field_bytes(
                        Kind::List(flexible, schema::kinds_of(items, f)),
                        Value::List(schema::values_of(items, f)),
                    ),
                )
        }),
{
    let f = |x: DescribedConsumerGroup| consumer_group_told(version, flexible, x);
    assert forall|i: int, o: Out|
        #![trigger items[i].row(o, version, flexible)]
        0 <= i < items.len() implies items[i].row(o, version, flexible) == schema::said(
        o,
        f(items[i]),
    ) by {
        law_consumer_group(o, items[i], version, flexible);
    }
    schema::lemma_list(items, version, flexible, f);
}

/// A credential of a user: its kind, and its iterations, as it is told.
pub open spec fn scram_info_told(version: i16, flexible: bool, x: ScramInfo) -> Told {
    Told::new().i8(x.hash.number() as int).i32(x.iterations as int).end(true)
}

/// A credential of a user: its kind, and its iterations tells what it holds.
pub proof fn law_scram_info(o: Out, x: ScramInfo, version: i16, flexible: bool)
    ensures
        schema::lays_out(
            o,
            x.row(o, version, flexible),
            scram_info_told(version, flexible, x),
        ),
{
    broadcast use {schema::group_fields, schema::law_tells};

}

proof fn lemma_rows_scram_info(items: Seq<ScramInfo>, version: i16, flexible: bool)
    ensures
        ({
            let f = |x: ScramInfo| scram_info_told(version, flexible, x);
            forall|o: Out| #[trigger]
                message::rows_out(o, items, version, flexible) == o.raw(
                    schema::field_bytes(
                        Kind::List(flexible, schema::kinds_of(items, f)),
                        Value::List(schema::values_of(items, f)),
                    ),
                )
        }),
{
    let f = |x: ScramInfo| scram_info_told(version, flexible, x);
    assert forall|i: int, o: Out|
        #![trigger items[i].row(o, version, flexible)]
        0 <= i < items.len() implies items[i].row(o, version, flexible) == schema::said(
        o,
        f(items[i]),
    ) by {
        law_scram_info(o, items[i], version, flexible);
    }
    schema::lemma_list(items, version, flexible, f);
}

/// A user of a DescribeUserScramCredentials response, as it is told.
pub open spec fn scram_user_told(version: i16, flexible: bool, x: ScramUser) -> Told {
    Told::new().text(true, x.name@).i16(x.verdict.error as int).opt_text(
        true,
        x.verdict.message.deep_view(),
    ).list(
        true,
        x.infos@,
        |x: ScramInfo| scram_info_told(version, true, x),
    ).end(true)
}

/// A user of a DescribeUserScramCredentials response tells what it holds.
pub proof fn law_scram_user(o: Out, x: ScramUser, version: i16, flexible: bool)
    ensures
        schema::lays_out(
            o,
            x.row(o, version, flexible),
            scram_user_told(version, flexible, x),
        ),
{
    broadcast use {schema::group_fields, schema::law_tells};

    lemma_rows_scram_info(x.infos@, version, true);
}

proof fn lemma_rows_scram_user(items: Seq<ScramUser>, version: i16, flexible: bool)
    ensures
        ({
            let f = |x: ScramUser| scram_user_told(version, flexible, x);
            forall|o: Out| #[trigger]
                message::rows_out(o, items, version, flexible) == o.raw(
                    schema::field_bytes(
                        Kind::List(flexible, schema::kinds_of(items, f)),
                        Value::List(schema::values_of(items, f)),
                    ),
                )
        }),
{
    let f = |x: ScramUser| scram_user_told(version, flexible, x);
    assert forall|i: int, o: Out|
        #![trigger items[i].row(o, version, flexible)]
        0 <= i < items.len() implies items[i].row(o, version, flexible) == schema::said(
        o,
        f(items[i]),
    ) by {
        law_scram_user(o, items[i], version, flexible);
    }
    schema::lemma_list(items, version, flexible, f);
}

/// A partition of a DescribeLogDirs response: its number, its size, its lag, and whether it is
/// yet to come, as it is told.
pub open spec fn log_dir_told(version: i16, flexible: bool, x: LogDirRow) -> Told {
    Told::new().i32(x.partition as int).i64(x.size as int).i64(x.offset_lag as int).i8(
        if x.is_future {
            1
        } else {
            0
        },
    ).end(flexible)
}

/// A partition of a DescribeLogDirs response: its number, its size, its lag, and whether it is
/// yet to come tells what it holds.
pub proof fn law_log_dir(o: Out, x: LogDirRow, version: i16, flexible: bool)
    ensures
        schema::lays_out(
            o,
            x.row(o, version, flexible),
            log_dir_told(version, flexible, x),
        ),
{
    broadcast use {schema::group_fields, schema::law_tells};

}

proof fn lemma_rows_log_dir(items: Seq<LogDirRow>, version: i16, flexible: bool)
    ensures
        ({
            let f = |x: LogDirRow| log_dir_told(version, flexible, x);
            forall|o: Out| #[trigger]
                message::rows_out(o, items, version, flexible) == o.raw(
                    schema::field_bytes(
                        Kind::List(flexible, schema::kinds_of(items, f)),
                        Value::List(schema::values_of(items, f)),
                    ),
                )
        }),
{
    let f = |x: LogDirRow| log_dir_told(version, flexible, x);
    assert forall|i: int, o: Out|
        #![trigger items[i].row(o, version, flexible)]
        0 <= i < items.len() implies items[i].row(o, version, flexible) == schema::said(
        o,
        f(items[i]),
    ) by {
        law_log_dir(o, items[i], version, flexible);
    }
    schema::lemma_list(items, version, flexible, f);
}

/// A partition of a ListPartitionReassignments response: its number, its replicas, none that
/// come or go, and the error, as it is told.
pub open spec fn reassign_row_told(version: i16, flexible: bool, x: ReassignRow) -> Told {
    Told::new().i32(x.partition as int).list(
        true,
        x.replicas@,
        |x: u32| id_told(version, true, x),
    ).no_list(true, Told::new().i32(0)).no_list(true, Told::new().i32(0)).i16(x.verdict.error as int).opt_text(
        true,
        x.verdict.message.deep_view(),
    ).end(true)
}

/// A partition of a ListPartitionReassignments response: its number, its replicas, none that
/// come or go, and the error tells what it holds.
pub proof fn law_reassign_row(o: Out, x: ReassignRow, version: i16, flexible: bool)
    ensures
        schema::lays_out(
            o,
            x.row(o, version, flexible),
            reassign_row_told(version, flexible, x),
        ),
{
    broadcast use {schema::group_fields, schema::law_tells};

    lemma_rows_id(x.replicas@, version, true);
}

proof fn lemma_rows_reassign_row(items: Seq<ReassignRow>, version: i16, flexible: bool)
    ensures
        ({
            let f = |x: ReassignRow| reassign_row_told(version, flexible, x);
            forall|o: Out| #[trigger]
                message::rows_out(o, items, version, flexible) == o.raw(
                    schema::field_bytes(
                        Kind::List(flexible, schema::kinds_of(items, f)),
                        Value::List(schema::values_of(items, f)),
                    ),
                )
        }),
{
    let f = |x: ReassignRow| reassign_row_told(version, flexible, x);
    assert forall|i: int, o: Out|
        #![trigger items[i].row(o, version, flexible)]
        0 <= i < items.len() implies items[i].row(o, version, flexible) == schema::said(
        o,
        f(items[i]),
    ) by {
        law_reassign_row(o, items[i], version, flexible);
    }
    schema::lemma_list(items, version, flexible, f);
}

/// A transaction of a ListTransactions response: its id, its producer, and its state, as it is
/// told.
pub open spec fn open_transaction_told(version: i16, flexible: bool, x: OpenTransaction) -> Told {
    Told::new().text(true, x.id@).nat64(x.producer_id as int).text(true, x.state@).end(true)
}

/// A transaction of a ListTransactions response: its id, its producer, and its state tells what
/// it holds.
pub proof fn law_open_transaction(o: Out, x: OpenTransaction, version: i16, flexible: bool)
    ensures
        schema::lays_out(
            o,
            x.row(o, version, flexible),
            open_transaction_told(version, flexible, x),
        ),
{
    broadcast use {schema::group_fields, schema::law_tells};

}

proof fn lemma_rows_open_transaction(items: Seq<OpenTransaction>, version: i16, flexible: bool)
    ensures
        ({
            let f = |x: OpenTransaction| open_transaction_told(version, flexible, x);
            forall|o: Out| #[trigger]
                message::rows_out(o, items, version, flexible) == o.raw(
                    schema::field_bytes(
                        Kind::List(flexible, schema::kinds_of(items, f)),
                        Value::List(schema::values_of(items, f)),
                    ),
                )
        }),
{
    let f = |x: OpenTransaction| open_transaction_told(version, flexible, x);
    assert forall|i: int, o: Out|
        #![trigger items[i].row(o, version, flexible)]
        0 <= i < items.len() implies items[i].row(o, version, flexible) == schema::said(
        o,
        f(items[i]),
    ) by {
        law_open_transaction(o, items[i], version, flexible);
    }
    schema::lemma_list(items, version, flexible, f);
}

/// A producer of a DescribeProducers response, as it is told.
pub open spec fn active_producer_told(version: i16, flexible: bool, x: ActiveProducer) -> Told {
    Told::new().nat64(x.producer_id as int).i32(x.epoch as int).i32(x.last_sequence as int).i64(
        x.last_timestamp as int,
    ).i32(x.coordinator_epoch as int).i64(x.txn_start_offset as int).end(true)
}

/// A producer of a DescribeProducers response tells what it holds.
pub proof fn law_active_producer(o: Out, x: ActiveProducer, version: i16, flexible: bool)
    ensures
        schema::lays_out(
            o,
            x.row(o, version, flexible),
            active_producer_told(version, flexible, x),
        ),
{
    broadcast use {schema::group_fields, schema::law_tells};

}

proof fn lemma_rows_active_producer(items: Seq<ActiveProducer>, version: i16, flexible: bool)
    ensures
        ({
            let f = |x: ActiveProducer| active_producer_told(version, flexible, x);
            forall|o: Out| #[trigger]
                message::rows_out(o, items, version, flexible) == o.raw(
                    schema::field_bytes(
                        Kind::List(flexible, schema::kinds_of(items, f)),
                        Value::List(schema::values_of(items, f)),
                    ),
                )
        }),
{
    let f = |x: ActiveProducer| active_producer_told(version, flexible, x);
    assert forall|i: int, o: Out|
        #![trigger items[i].row(o, version, flexible)]
        0 <= i < items.len() implies items[i].row(o, version, flexible) == schema::said(
        o,
        f(items[i]),
    ) by {
        law_active_producer(o, items[i], version, flexible);
    }
    schema::lemma_list(items, version, flexible, f);
}

/// A partition of a DescribeProducers response, with its producers, as it is told.
pub open spec fn producers_row_told(version: i16, flexible: bool, x: ProducersRow) -> Told {
    Told::new().i32(x.partition as int).i16(x.error as int).opt_text(true, x.message.deep_view()).list(
        true,
        x.active@,
        |x: ActiveProducer| active_producer_told(version, true, x),
    ).end(true)
}

/// A partition of a DescribeProducers response, with its producers tells what it holds.
pub proof fn law_producers_row(o: Out, x: ProducersRow, version: i16, flexible: bool)
    ensures
        schema::lays_out(
            o,
            x.row(o, version, flexible),
            producers_row_told(version, flexible, x),
        ),
{
    broadcast use {schema::group_fields, schema::law_tells};

    lemma_rows_active_producer(x.active@, version, true);
}

proof fn lemma_rows_producers_row(items: Seq<ProducersRow>, version: i16, flexible: bool)
    ensures
        ({
            let f = |x: ProducersRow| producers_row_told(version, flexible, x);
            forall|o: Out| #[trigger]
                message::rows_out(o, items, version, flexible) == o.raw(
                    schema::field_bytes(
                        Kind::List(flexible, schema::kinds_of(items, f)),
                        Value::List(schema::values_of(items, f)),
                    ),
                )
        }),
{
    let f = |x: ProducersRow| producers_row_told(version, flexible, x);
    assert forall|i: int, o: Out|
        #![trigger items[i].row(o, version, flexible)]
        0 <= i < items.len() implies items[i].row(o, version, flexible) == schema::said(
        o,
        f(items[i]),
    ) by {
        law_producers_row(o, items[i], version, flexible);
    }
    schema::lemma_list(items, version, flexible, f);
}

/// A topic with the numbers of its partitions, as it is told.
pub open spec fn int_topic_told(version: i16, flexible: bool, x: TopicOut<i32>) -> Told {
    Told::new().text(flexible, x.name@).list(
        flexible,
        x.rows@,
        |x: i32| int_told(version, flexible, x),
    ).end(flexible)
}

/// A topic with the numbers of its partitions tells what it holds.
pub proof fn law_int_topic(o: Out, x: TopicOut<i32>, version: i16, flexible: bool)
    ensures
        schema::lays_out(
            o,
            x.row(o, version, flexible),
            int_topic_told(version, flexible, x),
        ),
{
    broadcast use {schema::group_fields, schema::law_tells};

    lemma_rows_int(x.rows@, version, flexible);
}

proof fn lemma_rows_int_topic(items: Seq<TopicOut<i32>>, version: i16, flexible: bool)
    ensures
        ({
            let f = |x: TopicOut<i32>| int_topic_told(version, flexible, x);
            forall|o: Out| #[trigger]
                message::rows_out(o, items, version, flexible) == o.raw(
                    schema::field_bytes(
                        Kind::List(flexible, schema::kinds_of(items, f)),
                        Value::List(schema::values_of(items, f)),
                    ),
                )
        }),
{
    let f = |x: TopicOut<i32>| int_topic_told(version, flexible, x);
    assert forall|i: int, o: Out|
        #![trigger items[i].row(o, version, flexible)]
        0 <= i < items.len() implies items[i].row(o, version, flexible) == schema::said(
        o,
        f(items[i]),
    ) by {
        law_int_topic(o, items[i], version, flexible);
    }
    schema::lemma_list(items, version, flexible, f);
}

proof fn lemma_minus_one()
    ensures
        wire::be64(-1) == wire::be64(u64::MAX as int),
{
    reveal_with_fuel(wire::be, 9);
}

/// A transaction of a DescribeTransactions response: the error, its id, its state, its timeout,
/// its start, its producer and epoch, and the partitions that it has written to, as it is told.
pub open spec fn transaction_told(version: i16, flexible: bool, x: TransactionRow) -> Told {
    let t = Told::new().i16(x.error as int).text(true, x.id@);
    match x.found {
        None => t.text(true, ""@).i32(0).i64(0).nat64(u64::MAX as int).i16(-1).list(
            true,
            Seq::<TopicOut<i32>>::empty(),
            |x: TopicOut<i32>| int_topic_told(version, true, x),
        ).end(true),
        Some(s) => t.text(true, s.state@).i32(s.timeout_ms as int).i64(s.start_ms as int).nat64(
            s.producer_id as int,
        ).i16(
            if s.epoch < 0x8000 {
                s.epoch as int
            } else {
                s.epoch - 0x1_0000
            },
        ).list(
            true,
            s.topics@,
            |x: TopicOut<i32>| int_topic_told(version, true, x),
        ).end(true),
    }
}

/// A transaction of a DescribeTransactions response: the error, its id, its state, its timeout,
/// its start, its producer and epoch, and the partitions that it has written to tells what it
/// holds.
pub proof fn law_transaction(o: Out, x: TransactionRow, version: i16, flexible: bool)
    ensures
        schema::lays_out(
            o,
            x.row(o, version, flexible),
            transaction_told(version, flexible, x),
        ),
{
    broadcast use {schema::group_fields, schema::law_tells};

    let none = Seq::<TopicOut<i32>>::empty();
    lemma_rows_int_topic(none, version, true);
    assert forall|o: Out| #[trigger] o.compact_len(0) == message::rows_out(
        o,
        none,
        version,
        true,
    ) by {}
    if let Some(s) = x.found {
        lemma_rows_int_topic(s.topics@, version, true);
        wire::lemma_be_mod16(s.epoch - 0x1_0000);
    }
    lemma_minus_one();
}

proof fn lemma_rows_transaction(items: Seq<TransactionRow>, version: i16, flexible: bool)
    ensures
        ({
            let f = |x: TransactionRow| transaction_told(version, flexible, x);
            forall|o: Out| #[trigger]
                message::rows_out(o, items, version, flexible) == o.raw(
                    schema::field_bytes(
                        Kind::List(flexible, schema::kinds_of(items, f)),
                        Value::List(schema::values_of(items, f)),
                    ),
                )
        }),
{
    let f = |x: TransactionRow| transaction_told(version, flexible, x);
    assert forall|i: int, o: Out|
        #![trigger items[i].row(o, version, flexible)]
        0 <= i < items.len() implies items[i].row(o, version, flexible) == schema::said(
        o,
        f(items[i]),
    ) by {
        law_transaction(o, items[i], version, flexible);
    }
    schema::lemma_list(items, version, flexible, f);
}

/// A ListGroups response: the groups, or none of them where the client may not see them, as it
/// is told.
pub open spec fn list_groups_told(version: i16, allowed: bool, groups: Seq<ListedGroup>) -> Told {
    let flexible = version >= 3;
    let t = if version >= 1 {
        Told::new().i32(0)
    } else {
        Told::new()
    };
    let t = t.i16(
        if allowed {
            0
        } else {
            KafkaErrorCode::ClusterAuthorizationFailed.code() as int
        },
    );
    t.list(
        flexible,
        if allowed {
            groups
        } else {
            Seq::empty()
        },
        |x: ListedGroup| listed_group_told(version, flexible, x),
    ).end(flexible)
}

/// A ListGroups response: the groups, or none of them where the client may not see them tells
/// what it is made of.
pub proof fn law_list_groups(o: Out, version: i16, allowed: bool, groups: Seq<ListedGroup>)
    ensures
        schema::lays_out(
            o,
            group_admin::list_groups_out(o, version, allowed, groups),
            list_groups_told(version, allowed, groups),
        ),
{
    broadcast use {schema::group_fields, schema::law_tells};

    lemma_rows_listed_group(groups, version, version >= 3);
    lemma_rows_listed_group(Seq::empty(), version, version >= 3);
}

/// A DescribeUserScramCredentials response: the users, or none of them where the client may not
/// see them, as it is told.
pub open spec fn describe_scram_told(allowed: bool, users: Seq<ScramUser>) -> Told {
    if allowed {
        Told::new().i32(0).i16(0).opt_text(true, None).list(
            true,
            users,
            |x: ScramUser| scram_user_told(0, true, x),
        ).end(true)
    } else {
        Told::new().i32(0).i16(KafkaErrorCode::ClusterAuthorizationFailed.code() as int).opt_text(
            true,
            Some("cluster authorization failed"@),
        ).no_list(true, scram_user_told(0, true, arbitrary())).end(true)
    }
}

/// A DescribeUserScramCredentials response: the users, or none of them where the client may not
/// see them tells what it is made of.
pub proof fn law_describe_scram(o: Out, allowed: bool, users: Seq<ScramUser>)
    ensures
        schema::lays_out(
            o,
            credentials::describe_scram_out(o, allowed, users),
            describe_scram_told(allowed, users),
        ),
{
    broadcast use {schema::group_fields, schema::law_tells};

    lemma_rows_scram_user(users, 0, true);
}

/// An AlterUserScramCredentials response, as it is told.
pub open spec fn alter_scram_told(users: Seq<NamedVerdict>) -> Told {
    Told::new().i32(0).list(true, users, |x: NamedVerdict| named_verdict_told(0, true, x)).end(true)
}

/// An AlterUserScramCredentials response tells what it is made of.
pub proof fn law_alter_scram(o: Out, users: Seq<NamedVerdict>)
    ensures
        schema::lays_out(
            o,
            credentials::alter_scram_out(o, users),
            alter_scram_told(users),
        ),
{
    broadcast use {schema::group_fields, schema::law_tells};

    lemma_rows_named_verdict(users, 0, true);
}

/// A topic of a DescribeLogDirs response, as it is told.
pub open spec fn log_dir_topic_told(version: i16, flexible: bool, x: TopicOut<LogDirRow>) -> Told {
    Told::new().text(flexible, x.name@).list(
        flexible,
        x.rows@,
        |x: LogDirRow| log_dir_told(version, flexible, x),
    ).end(flexible)
}

/// A topic of a DescribeLogDirs response tells what it holds.
pub proof fn law_log_dir_topic(o: Out, x: TopicOut<LogDirRow>, version: i16, flexible: bool)
    ensures
        schema::lays_out(
            o,
            x.row(o, version, flexible),
            log_dir_topic_told(version, flexible, x),
        ),
{
    broadcast use {schema::group_fields, schema::law_tells};

    lemma_rows_log_dir(x.rows@, version, flexible);
}

proof fn lemma_rows_log_dir_topic(items: Seq<TopicOut<LogDirRow>>, version: i16, flexible: bool)
    ensures
        ({
            let f = |x: TopicOut<LogDirRow>| log_dir_topic_told(version, flexible, x);
            forall|o: Out| #[trigger]
                message::rows_out(o, items, version, flexible) == o.raw(
                    schema::field_bytes(
                        Kind::List(flexible, schema::kinds_of(items, f)),
                        Value::List(schema::values_of(items, f)),
                    ),
                )
        }),
{
    let f = |x: TopicOut<LogDirRow>| log_dir_topic_told(version, flexible, x);
    assert forall|i: int, o: Out|
        #![trigger items[i].row(o, version, flexible)]
        0 <= i < items.len() implies items[i].row(o, version, flexible) == schema::said(
        o,
        f(items[i]),
    ) by {
        law_log_dir_topic(o, items[i], version, flexible);
    }
    schema::lemma_list(items, version, flexible, f);
}

/// A topic with the errors for its partitions, as it is told.
pub open spec fn part_topic_told(version: i16, flexible: bool, x: TopicOut<PartVerdict>) -> Told {
    Told::new().text(flexible, x.name@).list(
        flexible,
        x.rows@,
        |x: PartVerdict| part_verdict_told(version, flexible, x),
    ).end(flexible)
}

/// A topic with the errors for its partitions tells what it holds.
pub proof fn law_part_topic(o: Out, x: TopicOut<PartVerdict>, version: i16, flexible: bool)
    ensures
        schema::lays_out(
            o,
            x.row(o, version, flexible),
            part_topic_told(version, flexible, x),
        ),
{
    broadcast use {schema::group_fields, schema::law_tells};

    lemma_rows_part_verdict(x.rows@, version, flexible);
}

proof fn lemma_rows_part_topic(items: Seq<TopicOut<PartVerdict>>, version: i16, flexible: bool)
    ensures
        ({
            let f = |x: TopicOut<PartVerdict>| part_topic_told(version, flexible, x);
            forall|o: Out| #[trigger]
                message::rows_out(o, items, version, flexible) == o.raw(
                    schema::field_bytes(
                        Kind::List(flexible, schema::kinds_of(items, f)),
                        Value::List(schema::values_of(items, f)),
                    ),
                )
        }),
{
    let f = |x: TopicOut<PartVerdict>| part_topic_told(version, flexible, x);
    assert forall|i: int, o: Out|
        #![trigger items[i].row(o, version, flexible)]
        0 <= i < items.len() implies items[i].row(o, version, flexible) == schema::said(
        o,
        f(items[i]),
    ) by {
        law_part_topic(o, items[i], version, flexible);
    }
    schema::lemma_list(items, version, flexible, f);
}

/// An ElectLeaders response, as it is told.
pub open spec fn elect_leaders_told(
    version: i16,
    error: i16,
    topics: Seq<TopicOut<PartVerdict>>,
) -> Told {
    let flexible = version >= 1;
    Told::new().i32(0).i16(error as int).list(
        flexible,
        topics,
        |x: TopicOut<PartVerdict>| part_topic_told(version, flexible, x),
    ).end(flexible)
}

/// An ElectLeaders response tells what it is made of.
pub proof fn law_elect_leaders(o: Out, version: i16, error: i16, topics: Seq<TopicOut<PartVerdict>>)
    ensures
        schema::lays_out(
            o,
            reassignment::elect_leaders_out(o, version, error, topics),
            elect_leaders_told(version, error, topics),
        ),
{
    broadcast use {schema::group_fields, schema::law_tells};

    lemma_rows_part_topic(topics, version, version >= 1);
}

/// An AlterPartitionReassignments response, as it is told.
pub open spec fn reassign_told(v: Verdict, topics: Seq<TopicOut<PartVerdict>>) -> Told {
    Told::new().i32(0).i16(v.error as int).opt_text(true, v.message.deep_view()).list(
        true,
        topics,
        |x: TopicOut<PartVerdict>| part_topic_told(0, true, x),
    ).end(true)
}

/// An AlterPartitionReassignments response tells what it is made of.
pub proof fn law_reassign(o: Out, v: Verdict, topics: Seq<TopicOut<PartVerdict>>)
    ensures
        schema::lays_out(
            o,
            reassignment::reassignments_out(o, v, topics),
            reassign_told(v, topics),
        ),
{
    broadcast use {schema::group_fields, schema::law_tells};

    lemma_rows_part_topic(topics, 0, true);
}

/// A topic of a ListPartitionReassignments response, as it is told.
pub open spec fn reassign_topic_told(
    version: i16,
    flexible: bool,
    x: TopicOut<ReassignRow>,
) -> Told {
    Told::new().text(flexible, x.name@).list(
        flexible,
        x.rows@,
        |x: ReassignRow| reassign_row_told(version, flexible, x),
    ).end(flexible)
}

/// A topic of a ListPartitionReassignments response tells what it holds.
pub proof fn law_reassign_topic(o: Out, x: TopicOut<ReassignRow>, version: i16, flexible: bool)
    ensures
        schema::lays_out(
            o,
            x.row(o, version, flexible),
            reassign_topic_told(version, flexible, x),
        ),
{
    broadcast use {schema::group_fields, schema::law_tells};

    lemma_rows_reassign_row(x.rows@, version, flexible);
}

proof fn lemma_rows_reassign_topic(items: Seq<TopicOut<ReassignRow>>, version: i16, flexible: bool)
    ensures
        ({
            let f = |x: TopicOut<ReassignRow>| reassign_topic_told(version, flexible, x);
            forall|o: Out| #[trigger]
                message::rows_out(o, items, version, flexible) == o.raw(
                    schema::field_bytes(
                        Kind::List(flexible, schema::kinds_of(items, f)),
                        Value::List(schema::values_of(items, f)),
                    ),
                )
        }),
{
    let f = |x: TopicOut<ReassignRow>| reassign_topic_told(version, flexible, x);
    assert forall|i: int, o: Out|
        #![trigger items[i].row(o, version, flexible)]
        0 <= i < items.len() implies items[i].row(o, version, flexible) == schema::said(
        o,
        f(items[i]),
    ) by {
        law_reassign_topic(o, items[i], version, flexible);
    }
    schema::lemma_list(items, version, flexible, f);
}

/// A ListPartitionReassignments response, as it is told.
pub open spec fn list_reassign_told(v: Verdict, topics: Seq<TopicOut<ReassignRow>>) -> Told {
    Told::new().i32(0).i16(v.error as int).opt_text(true, v.message.deep_view()).list(
        true,
        topics,
        |x: TopicOut<ReassignRow>| reassign_topic_told(0, true, x),
    ).end(true)
}

/// A ListPartitionReassignments response tells what it is made of.
pub proof fn law_list_reassign(o: Out, v: Verdict, topics: Seq<TopicOut<ReassignRow>>)
    ensures
        schema::lays_out(
            o,
            reassignment::reassignments_out(o, v, topics),
            list_reassign_told(v, topics),
        ),
{
    broadcast use {schema::group_fields, schema::law_tells};

    lemma_rows_reassign_topic(topics, 0, true);
}

/// An UnregisterBroker response, as it is told.
pub open spec fn unregister_told(v: Verdict) -> Told {
    Told::new().i32(0).i16(v.error as int).opt_text(true, v.message.deep_view()).end(true)
}

/// An UnregisterBroker response tells what it is made of.
pub proof fn law_unregister(o: Out, v: Verdict)
    ensures
        schema::lays_out(
            o,
            reassignment::unregister_out(o, v),
            unregister_told(v),
        ),
{
    broadcast use {schema::group_fields, schema::law_tells};

}

/// A ListTransactions response: the error, the states that are not known, and the transactions,
/// as it is told.
pub open spec fn list_transactions_told(
    version: i16,
    error: i16,
    unknown: Seq<LooseString>,
    transactions: Seq<OpenTransaction>,
) -> Told {
    Told::new().i32(0).i16(error as int).list(
        true,
        unknown,
        |x: LooseString| loose_string_told(version, true, x),
    ).list(
        true,
        transactions,
        |x: OpenTransaction| open_transaction_told(version, true, x),
    ).end(true)
}

/// A ListTransactions response: the error, the states that are not known, and the transactions
/// tells what it is made of.
pub proof fn law_list_transactions(
    o: Out,
    version: i16,
    error: i16,
    unknown: Seq<LooseString>,
    transactions: Seq<OpenTransaction>,
)
    ensures
        schema::lays_out(
            o,
            transactions::list_transactions_out(o, version, error, unknown, transactions),
            list_transactions_told(version, error, unknown, transactions),
        ),
{
    broadcast use {schema::group_fields, schema::law_tells};

    lemma_rows_loose_string(unknown, version, true);
    lemma_rows_open_transaction(transactions, version, true);
}

/// A topic of a DescribeProducers response, as it is told.
pub open spec fn producers_topic_told(
    version: i16,
    flexible: bool,
    x: TopicOut<ProducersRow>,
) -> Told {
    Told::new().text(flexible, x.name@).list(
        flexible,
        x.rows@,
        |x: ProducersRow| producers_row_told(version, flexible, x),
    ).end(flexible)
}

/// A topic of a DescribeProducers response tells what it holds.
pub proof fn law_producers_topic(o: Out, x: TopicOut<ProducersRow>, version: i16, flexible: bool)
    ensures
        schema::lays_out(
            o,
            x.row(o, version, flexible),
            producers_topic_told(version, flexible, x),
        ),
{
    broadcast use {schema::group_fields, schema::law_tells};

    lemma_rows_producers_row(x.rows@, version, flexible);
}

proof fn lemma_rows_producers_topic(
    items: Seq<TopicOut<ProducersRow>>,
    version: i16,
    flexible: bool,
)
    ensures
        ({
            let f = |x: TopicOut<ProducersRow>| producers_topic_told(version, flexible, x);
            forall|o: Out| #[trigger]
                message::rows_out(o, items, version, flexible) == o.raw(
                    schema::field_bytes(
                        Kind::List(flexible, schema::kinds_of(items, f)),
                        Value::List(schema::values_of(items, f)),
                    ),
                )
        }),
{
    let f = |x: TopicOut<ProducersRow>| producers_topic_told(version, flexible, x);
    assert forall|i: int, o: Out|
        #![trigger items[i].row(o, version, flexible)]
        0 <= i < items.len() implies items[i].row(o, version, flexible) == schema::said(
        o,
        f(items[i]),
    ) by {
        law_producers_topic(o, items[i], version, flexible);
    }
    schema::lemma_list(items, version, flexible, f);
}

/// A DescribeProducers response, as it is told.
pub open spec fn describe_producers_told(topics: Seq<TopicOut<ProducersRow>>) -> Told {
    Told::new().i32(0).list(true, topics, |x: TopicOut<ProducersRow>| producers_topic_told(0, true, x)).end(
        true,
    )
}

/// A DescribeProducers response tells what it is made of.
pub proof fn law_describe_producers(o: Out, topics: Seq<TopicOut<ProducersRow>>)
    ensures
        schema::lays_out(
            o,
            transactions::describe_producers_out(o, topics),
            describe_producers_told(topics),
        ),
{
    broadcast use {schema::group_fields, schema::law_tells};

    lemma_rows_producers_topic(topics, 0, true);
}

/// A DescribeTransactions response, as it is told.
pub open spec fn describe_transactions_told(rows: Seq<TransactionRow>) -> Told {
    Told::new().i32(0).list(true, rows, |x: TransactionRow| transaction_told(0, true, x)).end(true)
}

/// A DescribeTransactions response tells what it is made of.
pub proof fn law_describe_transactions(o: Out, rows: Seq<TransactionRow>)
    ensures
        schema::lays_out(
            o,
            transactions::describe_transactions_out(o, rows),
            describe_transactions_told(rows),
        ),
{
    broadcast use {schema::group_fields, schema::law_tells};

    lemma_rows_transaction(rows, 0, true);
}

/// A ConsumerGroupDescribe response, as it is told.
pub open spec fn consumer_describe_told(groups: Seq<DescribedConsumerGroup>) -> Told {
    Told::new().i32(0).list(true, groups, |x: DescribedConsumerGroup| consumer_group_told(0, true, x)).end(
        true,
    )
}

/// A ConsumerGroupDescribe response tells what it is made of.
pub proof fn law_consumer_describe(o: Out, groups: Seq<DescribedConsumerGroup>)
    ensures
        schema::lays_out(
            o,
            group_admin::consumer_describe_out(o, groups),
            consumer_describe_told(groups),
        ),
{
    broadcast use {schema::group_fields, schema::law_tells};

    lemma_rows_consumer_group(groups, 0, true);
}

/// A topic as the later versions of a response tell of it, by its identifier, or as the
/// earlier ones do, by its name.
pub open spec fn topic_by(t: Told, flexible: bool, by_id: bool, w: WireView) -> Told {
    if by_id {
        t.uuid(
            match w {
                WireView::Uuid(u) => u,
                WireView::Name(_) => Seq::empty(),
            },
        )
    } else {
        t.text(
            flexible,
            match w {
                WireView::Name(n) => n,
                WireView::Uuid(_) => Seq::empty(),
            },
        )
    }
}

/// Whether all topics are told in the way of the version.
pub open spec fn told_alike(version: i16, topics: Seq<OffsetTopic>) -> bool {
    forall|i: int| 0 <= i < topics.len() ==> ((#[trigger] topics[i]).wire is Uuid) == (version >= 10)
}

/// A topic of a group of an OffsetFetch response, as it is told.
pub open spec fn group_topic_told(version: i16, flexible: bool, x: OffsetTopic) -> Told {
    topic_by(Told::new(), flexible, version >= 10, x.wire.deep_view()).list(
        flexible,
        x.rows@,
        |x: OffsetRow| offset_row_told(version, flexible, x),
    ).end(flexible)
}

/// A topic of a group of an OffsetFetch response tells what it holds.
pub proof fn law_group_topic(o: Out, x: OffsetTopic, version: i16, flexible: bool)
    requires
        (x.wire is Uuid) == (version >= 10),
    ensures
        schema::lays_out(
            o,
            x.row(o, version, flexible),
            group_topic_told(version, flexible, x),
        ),
{
    broadcast use {schema::group_fields, schema::law_tells};

    lemma_rows_offset_row(x.rows@, version, flexible);
}

proof fn lemma_rows_group_topic(items: Seq<OffsetTopic>, version: i16, flexible: bool)
    requires
        forall|i: int| 0 <= i < items.len() ==> ((#[trigger] items[i]).wire is Uuid) == (version >= 10),
    ensures
        ({
            let f = |x: OffsetTopic| group_topic_told(version, flexible, x);
            forall|o: Out| #[trigger]
                message::rows_out(o, items, version, flexible) == o.raw(
                    schema::field_bytes(
                        Kind::List(flexible, schema::kinds_of(items, f)),
                        Value::List(schema::values_of(items, f)),
                    ),
                )
        }),
{
    let f = |x: OffsetTopic| group_topic_told(version, flexible, x);
    assert forall|i: int, o: Out|
        #![trigger items[i].row(o, version, flexible)]
        0 <= i < items.len() implies items[i].row(o, version, flexible) == schema::said(
        o,
        f(items[i]),
    ) by {
        law_group_topic(o, items[i], version, flexible);
    }
    schema::lemma_list(items, version, flexible, f);
}

/// A group of an OffsetFetch response, with its topics, as it is told.
pub open spec fn group_offsets_told(version: i16, flexible: bool, x: GroupOffsets) -> Told {
    Told::new().text(flexible, x.group_id@).list(
        flexible,
        x.topics@,
        |x: OffsetTopic| group_topic_told(version, flexible, x),
    ).i16(x.error as int).end(flexible)
}

/// A group of an OffsetFetch response, with its topics tells what it holds.
pub proof fn law_group_offsets(o: Out, x: GroupOffsets, version: i16, flexible: bool)
    requires
        told_alike(version, x.topics@),
    ensures
        schema::lays_out(
            o,
            x.row(o, version, flexible),
            group_offsets_told(version, flexible, x),
        ),
{
    broadcast use {schema::group_fields, schema::law_tells};

    lemma_rows_group_topic(x.topics@, version, flexible);
}

proof fn lemma_rows_group_offsets(items: Seq<GroupOffsets>, version: i16, flexible: bool)
    requires
        forall|i: int| 0 <= i < items.len() ==> told_alike(version, (#[trigger] items[i]).topics@),
    ensures
        ({
            let f = |x: GroupOffsets| group_offsets_told(version, flexible, x);
            forall|o: Out| #[trigger]
                message::rows_out(o, items, version, flexible) == o.raw(
                    schema::field_bytes(
                        Kind::List(flexible, schema::kinds_of(items, f)),
                        Value::List(schema::values_of(items, f)),
                    ),
                )
        }),
{
    let f = |x: GroupOffsets| group_offsets_told(version, flexible, x);
    assert forall|i: int, o: Out|
        #![trigger items[i].row(o, version, flexible)]
        0 <= i < items.len() implies items[i].row(o, version, flexible) == schema::said(
        o,
        f(items[i]),
    ) by {
        law_group_offsets(o, items[i], version, flexible);
    }
    schema::lemma_list(items, version, flexible, f);
}

/// An OffsetFetch response for several groups, as it is told.
pub open spec fn offset_fetch_multi_told(version: i16, groups: Seq<GroupOffsets>) -> Told {
    Told::new().i32(0).list(
        true,
        groups,
        |x: GroupOffsets| group_offsets_told(version, true, x),
    ).end(true)
}

/// An OffsetFetch response for several groups tells what it is made of.
pub proof fn law_offset_fetch_multi(o: Out, version: i16, groups: Seq<GroupOffsets>)
    requires
        forall|i: int| 0 <= i < groups.len() ==> told_alike(
            version,
            (#[trigger] groups[i]).topics@,
        ),
    ensures
        schema::lays_out(
            o,
            offsets::offset_fetch_multi_out(o, version, groups),
            offset_fetch_multi_told(version, groups),
        ),
{
    broadcast use {schema::group_fields, schema::law_tells};

    lemma_rows_group_offsets(groups, version, true);
}

/// An API with the first and the last version that are served, as it is told.
pub open spec fn api_row_told(version: i16, flexible: bool, x: (ApiKey, i16, i16)) -> Told {
    Told::new().i16(x.0.number() as int).i16(x.1 as int).i16(x.2 as int).end(flexible)
}

/// An API with the first and the last version that are served tells what it holds.
pub proof fn law_api_row(o: Out, x: (ApiKey, i16, i16), version: i16, flexible: bool)
    ensures
        schema::lays_out(
            o,
            x.row(o, version, flexible),
            api_row_told(version, flexible, x),
        ),
{
    broadcast use {schema::group_fields, schema::law_tells};

}

proof fn lemma_rows_api_row(items: Seq<(ApiKey, i16, i16)>, version: i16, flexible: bool)
    ensures
        ({
            let f = |x: (ApiKey, i16, i16)| api_row_told(version, flexible, x);
            forall|o: Out| #[trigger]
                message::rows_out(o, items, version, flexible) == o.raw(
                    schema::field_bytes(
                        Kind::List(flexible, schema::kinds_of(items, f)),
                        Value::List(schema::values_of(items, f)),
                    ),
                )
        }),
{
    let f = |x: (ApiKey, i16, i16)| api_row_told(version, flexible, x);
    assert forall|i: int, o: Out|
        #![trigger items[i].row(o, version, flexible)]
        0 <= i < items.len() implies items[i].row(o, version, flexible) == schema::said(
        o,
        f(items[i]),
    ) by {
        law_api_row(o, items[i], version, flexible);
    }
    schema::lemma_list(items, version, flexible, f);
}

/// An ApiVersions response: no error, and the APIs, as it is told.
pub open spec fn api_versions_told(version: i16) -> Told {
    let flexible = version >= 3;
    let t = Told::new().i16(0).list(
        flexible,
        api::supported(),
        |x: (ApiKey, i16, i16)| api_row_told(version, flexible, x),
    );
    let t = if version >= 1 {
        t.i32(0)
    } else {
        t
    };
    t.end(flexible)
}

/// An ApiVersions response: no error, and the APIs tells what it is made of.
pub proof fn law_api_versions(o: Out, version: i16)
    ensures
        schema::lays_out(
            o,
            metadata::api_versions_out(o, version),
            api_versions_told(version),
        ),
{
    broadcast use {schema::group_fields, schema::law_tells};

    lemma_rows_api_row(api::supported(), version, version >= 3);
}

/// A FindCoordinator response: the error, and the broker that is asked for, as it is told.
pub open spec fn coordinator_told(
    version: i16,
    error: i16,
    message: Option<Seq<char>>,
    node_id: i32,
    host: Seq<char>,
    port: i32,
) -> Told {
    let flexible = version >= 3;
    let t = if version >= 1 {
        Told::new().i32(0)
    } else {
        Told::new()
    };
    let t = t.i16(error as int);
    let t = if version >= 1 {
        t.opt_text(flexible, message)
    } else {
        t
    };
    t.i32(node_id as int).text(flexible, host).i32(port as int).end(flexible)
}

/// A FindCoordinator response: the error, and the broker that is asked for tells what it is
/// made of.
pub proof fn law_coordinator(
    o: Out,
    version: i16,
    error: i16,
    message: Option<Seq<char>>,
    node_id: i32,
    host: Seq<char>,
    port: i32,
)
    ensures
        schema::lays_out(
            o,
            metadata::coordinator_out(o, version, error, message, node_id, host, port),
            coordinator_told(version, error, message, node_id, host, port),
        ),
{
    broadcast use {schema::group_fields, schema::law_tells};

}

/// A FindCoordinator response for several keys: for each key the broker, and the error, as it
/// is told.
pub open spec fn coordinators_told(
    keys: Seq<Seq<char>>,
    node_id: i32,
    host: Seq<char>,
    port: i32,
    error: i16,
    message: Option<Seq<char>>,
) -> Told {
    Told::new().i32(0).list(
        true,
        keys,
        |key: Seq<char>|
            Told::new().text(true, key).i32(node_id as int).text(true, host).i32(port as int).i16(
                error as int,
            ).opt_text(true, message).end(true),
    ).end(true)
}

/// A FindCoordinator response for several keys: for each key the broker, and the error tells
/// what it is made of.
pub proof fn law_coordinators(
    o: Out,
    keys: Seq<Seq<char>>,
    node_id: i32,
    host: Seq<char>,
    port: i32,
    error: i16,
    message: Option<Seq<char>>,
)
    ensures
        schema::lays_out(
            o,
            metadata::coordinators_out(o, keys, node_id, host, port, error, message),
            coordinators_told(keys, node_id, host, port, error, message),
        ),
{
    broadcast use {schema::group_fields, schema::law_tells};

    let g = |o: Out, key: Seq<char>|
        o.compact(key).i32(node_id as int).compact(host).i32(port as int).i16(
            error as int,
        ).compact_nullable(message).tags();
    let f = |key: Seq<char>|
        Told::new().text(true, key).i32(node_id as int).text(true, host).i32(port as int).i16(
            error as int,
        ).opt_text(true, message).end(true);
    schema::lemma_each(true, keys, g, f);
    assert(o.i32(0).compact_len(keys.len()) == o.i32(0).array_len(true, keys.len()));
}

/// A SaslAuthenticate response: the error and its message, what the server answers, and no end
/// of the session, as it is told.
pub open spec fn authenticate_told(version: i16, a: AuthenticationView) -> Told {
    let flexible = version >= 2;
    let r = handler::authentication_reply(a);
    let t = Told::new().i16(r.0 as int).opt_text(flexible, r.1).blob(flexible, r.2);
    let t = if version >= 1 {
        t.i64(0)
    } else {
        t
    };
    t.end(flexible)
}

/// A SaslAuthenticate response: the error and its message, what the server answers, and no end
/// of the session tells what it is made of.
pub proof fn law_authenticate(o: Out, version: i16, a: AuthenticationView)
    ensures
        schema::lays_out(
            o,
            handler::authenticate_out(o, version, a),
            authenticate_told(version, a),
        ),
{
    broadcast use {schema::group_fields, schema::law_tells};

}

/// A broker of a DescribeCluster response: its id, where it is, no rack, and that it is not
/// fenced.
pub open spec fn cluster_node_told(version: i16, x: BrokerNode) -> Told {
    let t = Told::new().i32(x.id as int).text(true, x.host@).i32(x.port as int).opt_text(true, None);
    let t = if version >= 2 {
        t.i8(0)
    } else {
        t
    };
    t.end(true)
}

/// A DescribeCluster response: the error, the kind of the endpoints, the cluster, its
/// controller, its brokers, and the allowed operations, as it is told.
pub open spec fn cluster_told(
    version: i16,
    error: i16,
    message: Option<Seq<char>>,
    endpoint_type: i8,
    controller_id: i32,
    nodes: Seq<BrokerNode>,
    ops: i32,
) -> Told {
    let t = Told::new().i32(0).i16(error as int).opt_text(true, message);
    let t = if version >= 1 {
        t.i8(endpoint_type as int)
    } else {
        t
    };
    t.text(true, metadata::KAFKA_CLUSTER_ID@).i32(controller_id as int).list(
        true,
        nodes,
        |x: BrokerNode| cluster_node_told(version, x),
    ).i32(ops as int).end(true)
}

/// A DescribeCluster response: the error, the kind of the endpoints, the cluster, its
/// controller, its brokers, and the allowed operations tells what it is made of.
pub proof fn law_cluster(
    o: Out,
    version: i16,
    error: i16,
    message: Option<Seq<char>>,
    endpoint_type: i8,
    controller_id: i32,
    nodes: Seq<BrokerNode>,
    ops: i32,
)
    ensures
        schema::lays_out(
            o,
            metadata::describe_cluster_fields(
                o,
                version,
                error,
                message,
                endpoint_type,
                controller_id,
                nodes,
                ops,
            ),
            cluster_told(version, error, message, endpoint_type, controller_id, nodes, ops),
        ),
{
    broadcast use {schema::group_fields, schema::law_tells};

    let g = |o: Out, n: BrokerNode| metadata::cluster_node_out(o, version, n);
    let f = |x: BrokerNode| cluster_node_told(version, x);
    schema::lemma_each(true, nodes, g, f);
    assert forall|o: Out| #[trigger] o.compact_len(nodes.len()) == o.array_len(true, nodes.len()) by {}
}

/// A Metadata response where all topics are known: the brokers, the cluster, its controller,
/// the topics, and the allowed operations, as it is told.
pub open spec fn metadata_told(
    version: i16,
    controller_id: i32,
    nodes: Seq<BrokerNode>,
    topics: Seq<MetadataTopic>,
    cluster_ops: i32,
) -> Told {
    let flexible = version >= 9;
    let t = if version >= 3 {
        Told::new().i32(0)
    } else {
        Told::new()
    };
    let t = t.list(
        flexible,
        nodes,
        |x: BrokerNode| broker_told(version, flexible, x),
    );
    let t = if version >= 2 {
        t.opt_text(flexible, Some(metadata::KAFKA_CLUSTER_ID@))
    } else {
        t
    };
    let t = if version >= 1 {
        t.i32(controller_id as int)
    } else {
        t
    };
    let t = t.list(
        flexible,
        topics,
        |x: MetadataTopic| metadata_topic_told(version, flexible, x),
    );
    let t = if 8 <= version <= 10 {
        t.i32(cluster_ops as int)
    } else {
        t
    };
    let t = if version >= 13 {
        t.i16(0)
    } else {
        t
    };
    t.end(flexible)
}

/// A Metadata response where all topics are known: the brokers, the cluster, its controller,
/// the topics, and the allowed operations tells what it is made of.
#[verifier::spinoff_prover]
#[verifier::rlimit(40)]
pub proof fn law_metadata(
    o: Out,
    version: i16,
    controller_id: i32,
    nodes: Seq<BrokerNode>,
    topics: Seq<MetadataTopic>,
    cluster_ops: i32,
)
    ensures
        schema::lays_out(
            o,
            metadata::metadata_out(
                o,
                version,
                controller_id,
                nodes,
                topics,
                Seq::empty(),
                cluster_ops,
            ),
            metadata_told(version, controller_id, nodes, topics, cluster_ops),
        ),
{
    broadcast use {schema::group_fields, schema::law_tells};

    lemma_rows_broker(nodes, version, version >= 9);
    lemma_rows_metadata_topic(topics, version, version >= 9);
    assert forall|o: Out| message::each_row(
        message::each_row(
            #[trigger] o.compact_len(topics.len() + 0),
            topics,
            version,
            version >= 9,
        ),
        Seq::<UnknownTopic>::empty(),
        version,
        version >= 9,
    ) == message::rows_out(o, topics, version, true) || version < 9 by {}
}

/// What a client reads in a partition of a Fetch response, field by field: the last but one are
/// the records, as the broker has them.
pub proof fn law_fetch_row_fields(x: FetchRow, version: i16, rest: Seq<u8>)
    requires
        version >= 12,
        fetch_row_told(version, true, x).fits(),
    ensures
        schema::found(
            fetch_row_told(version, true, x).kinds,
            Src::of(x.row(Out::new(), version, true).bytes + rest),
        ) == Some(
            (
                seq![
                    Value::Int(x.partition as int),
                    Value::Int(x.error as int),
                    Value::Int(x.hwm as int),
                    Value::Int(if x.error == 0 || x.diverging is Some { x.lso as int } else { -1 }),
                    Value::Int(
                        if x.error == 0 || x.diverging is Some { x.log_start as int } else { -1 },
                    ),
                    Value::List(
                        x.aborted@.map_values(|a: (u64, u64)| aborted_told(true, a).values),
                    ),
                    Value::Int(x.preferred_read_replica as int),
                    Value::Blob(Some(x.records@.bytes)),
                    Value::Tags(fetch_row_tags(x.deep_view())),
                ],
                Src::of(rest),
            ),
        ),
{
    let t = fetch_row_told(version, true, x);
    law_fetch_row(Out::new(), x, version, true);
    let written = x.row(Out::new(), version, true).bytes;
    assert(written.skip(0) =~= written);
    assert(Src::of(written.skip(Out::new().bytes.len() as int) + rest) == Src::of(written + rest));
    assert(schema::values_of(x.aborted@, |a: (u64, u64)| aborted_told(true, a))
        =~= x.aborted@.map_values(|a: (u64, u64)| aborted_told(true, a).values));
    assert(t.values =~= seq![
        Value::Int(x.partition as int),
        Value::Int(x.error as int),
        Value::Int(x.hwm as int),
        Value::Int(if x.error == 0 || x.diverging is Some { x.lso as int } else { -1 }),
        Value::Int(if x.error == 0 || x.diverging is Some { x.log_start as int } else { -1 }),
        Value::List(x.aborted@.map_values(|a: (u64, u64)| aborted_told(true, a).values)),
        Value::Int(x.preferred_read_replica as int),
        Value::Blob(Some(x.records@.bytes)),
        Value::Tags(fetch_row_tags(x.deep_view())),
    ]);
}

/// What a client reads in a partition of a Produce response, field by field.
pub proof fn law_produce_row_fields(x: ProduceRow, version: i16, rest: Seq<u8>)
    requires
        version >= 10,
        produce_row_told(version, true, x).fits(),
    ensures
        schema::found(
            produce_row_told(version, true, x).kinds,
            Src::of(x.row(Out::new(), version, true).bytes + rest),
        ) == Some(
            (
                seq![
                    Value::Int(x.partition as int),
                    Value::Int(x.error as int),
                    Value::Int(x.base_offset as int),
                    Value::Int(-1),
                    Value::Int(x.log_start_offset as int),
                    Value::List(Seq::empty()),
                    Value::OptText(None),
                    Value::Tags(
                        match x.current_leader {
                            Some(l) => seq![(0nat, leader_told(l).bytes())],
                            None => Seq::empty(),
                        },
                    ),
                ],
                Src::of(rest),
            ),
        ),
{
    let t = produce_row_told(version, true, x);
    law_produce_row(Out::new(), x, version, true);
    let written = x.row(Out::new(), version, true).bytes;
    assert(written.skip(0) =~= written);
    assert(Src::of(written.skip(Out::new().bytes.len() as int) + rest) == Src::of(written + rest));
    assert(t.values =~= seq![
        Value::Int(x.partition as int),
        Value::Int(x.error as int),
        Value::Int(x.base_offset as int),
        Value::Int(-1),
        Value::Int(x.log_start_offset as int),
        Value::List(Seq::empty()),
        Value::OptText(None),
        Value::Tags(
            match x.current_leader {
                Some(l) => seq![(0nat, leader_told(l).bytes())],
                None => Seq::empty(),
            },
        ),
    ]);
}

/// What a client reads in a partition of a ListOffsets response, field by field.
pub proof fn law_list_offsets_row_fields(x: ListOffsetsRow, version: i16, rest: Seq<u8>)
    requires
        version >= 6,
        list_offsets_row_told(version, true, x).fits(),
    ensures
        schema::found(
            list_offsets_row_told(version, true, x).kinds,
            Src::of(x.row(Out::new(), version, true).bytes + rest),
        ) == Some(
            (
                seq![
                    Value::Int(x.partition as int),
                    Value::Int(x.error as int),
                    Value::Int(x.timestamp as int),
                    Value::Int(x.offset as int),
                    Value::Int(x.leader_epoch as int),
                    Value::Tags(Seq::empty()),
                ],
                Src::of(rest),
            ),
        ),
{
    let t = list_offsets_row_told(version, true, x);
    law_list_offsets_row(Out::new(), x, version, true);
    let written = x.row(Out::new(), version, true).bytes;
    assert(written.skip(0) =~= written);
    assert(Src::of(written.skip(Out::new().bytes.len() as int) + rest) == Src::of(written + rest));
    assert(t.values =~= seq![
        Value::Int(x.partition as int),
        Value::Int(x.error as int),
        Value::Int(x.timestamp as int),
        Value::Int(x.offset as int),
        Value::Int(x.leader_epoch as int),
        Value::Tags(Seq::empty()),
    ]);
}

/// What a client reads in a partition of an OffsetForLeaderEpoch response, field by field.
pub proof fn law_epoch_row_fields(x: LeaderEpochRow, version: i16, rest: Seq<u8>)
    requires
        version >= 4,
        epoch_row_told(version, true, x).fits(),
    ensures
        schema::found(
            epoch_row_told(version, true, x).kinds,
            Src::of(x.row(Out::new(), version, true).bytes + rest),
        ) == Some(
            (
                seq![
                    Value::Int(x.error as int),
                    Value::Int(x.partition as int),
                    Value::Int(x.leader_epoch as int),
                    Value::Int(x.end_offset as int),
                    Value::Tags(Seq::empty()),
                ],
                Src::of(rest),
            ),
        ),
{
    let t = epoch_row_told(version, true, x);
    law_epoch_row(Out::new(), x, version, true);
    let written = x.row(Out::new(), version, true).bytes;
    assert(written.skip(0) =~= written);
    assert(Src::of(written.skip(Out::new().bytes.len() as int) + rest) == Src::of(written + rest));
    assert(t.values =~= seq![
        Value::Int(x.error as int),
        Value::Int(x.partition as int),
        Value::Int(x.leader_epoch as int),
        Value::Int(x.end_offset as int),
        Value::Tags(Seq::empty()),
    ]);
}

/// What a client reads in a partition of a DeleteRecords response, field by field.
pub proof fn law_delete_row_fields(x: DeleteRecordsRow, version: i16, rest: Seq<u8>)
    requires
        version >= 2,
        delete_row_told(version, true, x).fits(),
    ensures
        schema::found(
            delete_row_told(version, true, x).kinds,
            Src::of(x.row(Out::new(), version, true).bytes + rest),
        ) == Some(
            (
                seq![
                    Value::Int(x.partition as int),
                    Value::Int(x.low_watermark as int),
                    Value::Int(x.error as int),
                    Value::Tags(Seq::empty()),
                ],
                Src::of(rest),
            ),
        ),
{
    let t = delete_row_told(version, true, x);
    law_delete_row(Out::new(), x, version, true);
    let written = x.row(Out::new(), version, true).bytes;
    assert(written.skip(0) =~= written);
    assert(Src::of(written.skip(Out::new().bytes.len() as int) + rest) == Src::of(written + rest));
    assert(t.values =~= seq![
        Value::Int(x.partition as int),
        Value::Int(x.low_watermark as int),
        Value::Int(x.error as int),
        Value::Tags(Seq::empty()),
    ]);
}

/// What a client reads in a partition of an OffsetCommit response, field by field.
pub proof fn law_partition_error_fields(x: PartitionError, version: i16, rest: Seq<u8>)
    requires
        version >= 8,
        partition_error_told(version, true, x).fits(),
    ensures
        schema::found(
            partition_error_told(version, true, x).kinds,
            Src::of(x.row(Out::new(), version, true).bytes + rest),
        ) == Some(
            (
                seq![
                    Value::Int(x.partition as int),
                    Value::Int(x.error as int),
                    Value::Tags(Seq::empty()),
                ],
                Src::of(rest),
            ),
        ),
{
    let t = partition_error_told(version, true, x);
    law_partition_error(Out::new(), x, version, true);
    let written = x.row(Out::new(), version, true).bytes;
    assert(written.skip(0) =~= written);
    assert(Src::of(written.skip(Out::new().bytes.len() as int) + rest) == Src::of(written + rest));
    assert(t.values =~= seq![
        Value::Int(x.partition as int),
        Value::Int(x.error as int),
        Value::Tags(Seq::empty()),
    ]);
}

/// What a client reads in a partition of an OffsetFetch response, field by field.
pub proof fn law_offset_row_fields(x: OffsetRow, version: i16, rest: Seq<u8>)
    requires
        version >= 6,
        offset_row_told(version, true, x).fits(),
    ensures
        schema::found(
            offset_row_told(version, true, x).kinds,
            Src::of(x.row(Out::new(), version, true).bytes + rest),
        ) == Some(
            (
                seq![
                    Value::Int(x.partition as int),
                    Value::Int(x.offset as int),
                    Value::Int(x.leader_epoch as int),
                    Value::OptText(x.metadata.deep_view()),
                    Value::Int(x.error as int),
                    Value::Tags(Seq::empty()),
                ],
                Src::of(rest),
            ),
        ),
{
    let t = offset_row_told(version, true, x);
    law_offset_row(Out::new(), x, version, true);
    let written = x.row(Out::new(), version, true).bytes;
    assert(written.skip(0) =~= written);
    assert(Src::of(written.skip(Out::new().bytes.len() as int) + rest) == Src::of(written + rest));
    assert(t.values =~= seq![
        Value::Int(x.partition as int),
        Value::Int(x.offset as int),
        Value::Int(x.leader_epoch as int),
        Value::OptText(x.metadata.deep_view()),
        Value::Int(x.error as int),
        Value::Tags(Seq::empty()),
    ]);
}

/// What a client reads of a topic in a CreateTopics response, field by field.
pub proof fn law_created_topic_fields(x: CreatedTopic, version: i16, rest: Seq<u8>)
    requires
        version >= 7,
        created_topic_told(version, true, x).fits(),
    ensures
        schema::found(
            created_topic_told(version, true, x).kinds,
            Src::of(x.row(Out::new(), version, true).bytes + rest),
        ) == Some(
            (
                seq![
                    Value::Text(x.name@),
                    Value::Uuid(topic_admin::uuid_or_zero(x.numeric_id)),
                    Value::Int(x.verdict.error as int),
                    Value::OptText(x.verdict.message.deep_view()),
                    Value::Int(x.partitions as int),
                    Value::Int(x.replication as int),
                    Value::Null,
                    Value::Tags(Seq::empty()),
                ],
                Src::of(rest),
            ),
        ),
{
    let t = created_topic_told(version, true, x);
    law_created_topic(Out::new(), x, version, true);
    let written = x.row(Out::new(), version, true).bytes;
    assert(written.skip(0) =~= written);
    assert(Src::of(written.skip(Out::new().bytes.len() as int) + rest) == Src::of(written + rest));
    assert(t.values =~= seq![
        Value::Text(x.name@),
        Value::Uuid(topic_admin::uuid_or_zero(x.numeric_id)),
        Value::Int(x.verdict.error as int),
        Value::OptText(x.verdict.message.deep_view()),
        Value::Int(x.partitions as int),
        Value::Int(x.replication as int),
        Value::Null,
        Value::Tags(Seq::empty()),
    ]);
}

/// What a client reads of a topic in a DeleteTopics response, field by field.
pub proof fn law_deleted_topic_fields(x: DeletedTopic, version: i16, rest: Seq<u8>)
    requires
        version >= 6,
        deleted_topic_told(version, true, x).fits(),
    ensures
        schema::found(
            deleted_topic_told(version, true, x).kinds,
            Src::of(x.row(Out::new(), version, true).bytes + rest),
        ) == Some(
            (
                seq![
                    Value::OptText(x.name.deep_view()),
                    Value::Uuid(x.uuid@),
                    Value::Int(x.verdict.error as int),
                    Value::OptText(x.verdict.message.deep_view()),
                    Value::Tags(Seq::empty()),
                ],
                Src::of(rest),
            ),
        ),
{
    let t = deleted_topic_told(version, true, x);
    law_deleted_topic(Out::new(), x, version, true);
    let written = x.row(Out::new(), version, true).bytes;
    assert(written.skip(0) =~= written);
    assert(Src::of(written.skip(Out::new().bytes.len() as int) + rest) == Src::of(written + rest));
    assert(t.values =~= seq![
        Value::OptText(x.name.deep_view()),
        Value::Uuid(x.uuid@),
        Value::Int(x.verdict.error as int),
        Value::OptText(x.verdict.message.deep_view()),
        Value::Tags(Seq::empty()),
    ]);
}

/// What a client reads of a partition in a Metadata response, field by field.
pub proof fn law_metadata_partition_fields(x: MetadataPartition, version: i16, rest: Seq<u8>)
    requires
        version >= 9,
        metadata_partition_told(version, true, x).fits(),
    ensures
        schema::found(
            metadata_partition_told(version, true, x).kinds,
            Src::of(x.row(Out::new(), version, true).bytes + rest),
        ) == Some(
            (
                seq![
                    Value::Int(0),
                    Value::Int(x.partition as int),
                    Value::Int(x.leader as int),
                    Value::Int(-1),
                    Value::List(x.replicas@.map_values(|n: i32| seq![Value::Int(n as int)])),
                    Value::List(x.isr@.map_values(|n: i32| seq![Value::Int(n as int)])),
                    Value::List(Seq::empty()),
                    Value::Tags(Seq::empty()),
                ],
                Src::of(rest),
            ),
        ),
{
    let t = metadata_partition_told(version, true, x);
    law_metadata_partition(Out::new(), x, version, true);
    let written = x.row(Out::new(), version, true).bytes;
    assert(written.skip(0) =~= written);
    assert(Src::of(written.skip(Out::new().bytes.len() as int) + rest) == Src::of(written + rest));
    assert(schema::values_of(x.replicas@, |n: i32| int_told(version, true, n))
        =~= x.replicas@.map_values(|n: i32| seq![Value::Int(n as int)]));
    assert(schema::values_of(x.isr@, |n: i32| int_told(version, true, n)) =~= x.isr@.map_values(
        |n: i32| seq![Value::Int(n as int)],
    ));
    assert(t.values =~= seq![
        Value::Int(0),
        Value::Int(x.partition as int),
        Value::Int(x.leader as int),
        Value::Int(-1),
        Value::List(x.replicas@.map_values(|n: i32| seq![Value::Int(n as int)])),
        Value::List(x.isr@.map_values(|n: i32| seq![Value::Int(n as int)])),
        Value::List(Seq::empty()),
        Value::Tags(Seq::empty()),
    ]);
}

/// What a client reads of a topic in a Metadata response, field by field.
pub proof fn law_metadata_topic_fields(x: MetadataTopic, version: i16, rest: Seq<u8>)
    requires
        version >= 10,
        metadata_topic_told(version, true, x).fits(),
    ensures
        schema::found(
            metadata_topic_told(version, true, x).kinds,
            Src::of(x.row(Out::new(), version, true).bytes + rest),
        ) == Some(
            (
                seq![
                    Value::Int(0),
                    Value::Text(x.name@),
                    Value::Uuid(topic_id::topic_uuid(x.topic_id)),
                    Value::Int(0),
                    Value::List(
                        schema::values_of(
                            x.partitions@,
                            |x: MetadataPartition| metadata_partition_told(version, true, x),
                        ),
                    ),
                    Value::Int(x.ops as int),
                    Value::Tags(Seq::empty()),
                ],
                Src::of(rest),
            ),
        ),
{
    let t = metadata_topic_told(version, true, x);
    law_metadata_topic(Out::new(), x, version, true);
    let written = x.row(Out::new(), version, true).bytes;
    assert(written.skip(0) =~= written);
    assert(Src::of(written.skip(Out::new().bytes.len() as int) + rest) == Src::of(written + rest));
    assert(t.values =~= seq![
        Value::Int(0),
        Value::Text(x.name@),
        Value::Uuid(topic_id::topic_uuid(x.topic_id)),
        Value::Int(0),
        Value::List(
            schema::values_of(
                x.partitions@,
                |x: MetadataPartition| metadata_partition_told(version, true, x),
            ),
        ),
        Value::Int(x.ops as int),
        Value::Tags(Seq::empty()),
    ]);
}

/// What a client reads of a broker in a Metadata response, field by field.
pub proof fn law_broker_fields(x: BrokerNode, version: i16, rest: Seq<u8>)
    requires
        version >= 9,
        broker_told(version, true, x).fits(),
    ensures
        schema::found(
            broker_told(version, true, x).kinds,
            Src::of(x.row(Out::new(), version, true).bytes + rest),
        ) == Some(
            (
                seq![
                    Value::Int(x.id as int),
                    Value::Text(x.host@),
                    Value::Int(x.port as int),
                    Value::OptText(None),
                    Value::Tags(Seq::empty()),
                ],
                Src::of(rest),
            ),
        ),
{
    let t = broker_told(version, true, x);
    law_broker(Out::new(), x, version, true);
    let written = x.row(Out::new(), version, true).bytes;
    assert(written.skip(0) =~= written);
    assert(Src::of(written.skip(Out::new().bytes.len() as int) + rest) == Src::of(written + rest));
    assert(t.values =~= seq![
        Value::Int(x.id as int),
        Value::Text(x.host@),
        Value::Int(x.port as int),
        Value::OptText(None),
        Value::Tags(Seq::empty()),
    ]);
}

/// What a client reads of a broker that it is pointed to, field by field.
pub proof fn law_endpoint_fields(x: NodeEndpoint, version: i16, rest: Seq<u8>)
    requires
        endpoint_told(version, true, x).fits(),
    ensures
        schema::found(
            endpoint_told(version, true, x).kinds,
            Src::of(x.row(Out::new(), version, true).bytes + rest),
        ) == Some(
            (
                seq![
                    Value::Int(x.id as int),
                    Value::Text(x.host@),
                    Value::Int(x.port as int),
                    Value::OptText(x.rack.deep_view()),
                    Value::Tags(Seq::empty()),
                ],
                Src::of(rest),
            ),
        ),
{
    let t = endpoint_told(version, true, x);
    law_endpoint(Out::new(), x, version, true);
    let written = x.row(Out::new(), version, true).bytes;
    assert(written.skip(0) =~= written);
    assert(Src::of(written.skip(Out::new().bytes.len() as int) + rest) == Src::of(written + rest));
    assert(t.values =~= seq![
        Value::Int(x.id as int),
        Value::Text(x.host@),
        Value::Int(x.port as int),
        Value::OptText(x.rack.deep_view()),
        Value::Tags(Seq::empty()),
    ]);
}

/// What a client reads of a member in a JoinGroup response, field by field.
pub proof fn law_join_member_fields(x: JoinMember, version: i16, rest: Seq<u8>)
    requires
        version >= 6,
        join_member_told(version, true, x).fits(),
    ensures
        schema::found(
            join_member_told(version, true, x).kinds,
            Src::of(x.row(Out::new(), version, true).bytes + rest),
        ) == Some(
            (
                seq![
                    Value::Text(x.member_id@),
                    Value::OptText(x.instance_id.deep_view()),
                    Value::Blob(Some(Seq::empty())),
                    Value::Tags(Seq::empty()),
                ],
                Src::of(rest),
            ),
        ),
{
    let t = join_member_told(version, true, x);
    law_join_member(Out::new(), x, version, true);
    let written = x.row(Out::new(), version, true).bytes;
    assert(written.skip(0) =~= written);
    assert(Src::of(written.skip(Out::new().bytes.len() as int) + rest) == Src::of(written + rest));
    assert(t.values =~= seq![
        Value::Text(x.member_id@),
        Value::OptText(x.instance_id.deep_view()),
        Value::Blob(Some(Seq::empty())),
        Value::Tags(Seq::empty()),
    ]);
}

/// What a client reads of a member in a LeaveGroup response, field by field.
pub proof fn law_leave_row_fields(x: LeaveRow, version: i16, rest: Seq<u8>)
    requires
        version >= 4,
        leave_row_told(version, true, x).fits(),
    ensures
        schema::found(
            leave_row_told(version, true, x).kinds,
            Src::of(x.row(Out::new(), version, true).bytes + rest),
        ) == Some(
            (
                seq![
                    Value::Text(x.member_id@),
                    Value::OptText(x.instance_id.deep_view()),
                    Value::Int(x.error as int),
                    Value::Tags(Seq::empty()),
                ],
                Src::of(rest),
            ),
        ),
{
    let t = leave_row_told(version, true, x);
    law_leave_row(Out::new(), x, version, true);
    let written = x.row(Out::new(), version, true).bytes;
    assert(written.skip(0) =~= written);
    assert(Src::of(written.skip(Out::new().bytes.len() as int) + rest) == Src::of(written + rest));
    assert(t.values =~= seq![
        Value::Text(x.member_id@),
        Value::OptText(x.instance_id.deep_view()),
        Value::Int(x.error as int),
        Value::Tags(Seq::empty()),
    ]);
}

/// What a client reads of an entry in a DescribeAcls response, field by field.
pub proof fn law_acl_fields(x: AclEntry, version: i16, rest: Seq<u8>)
    requires
        version >= 2,
        acl_told(version, true, x).fits(),
    ensures
        schema::found(
            acl_told(version, true, x).kinds,
            Src::of(x.row(Out::new(), version, true).bytes + rest),
        ) == Some(
            (
                seq![
                    Value::Text(acl::wire_principal(x.principal@)),
                    Value::Text("*"@),
                    Value::Int(x.operation.number() as int),
                    Value::Int(x.permission.number() as int),
                    Value::Tags(Seq::empty()),
                ],
                Src::of(rest),
            ),
        ),
{
    let t = acl_told(version, true, x);
    law_acl(Out::new(), x, version, true);
    let written = x.row(Out::new(), version, true).bytes;
    assert(written.skip(0) =~= written);
    assert(Src::of(written.skip(Out::new().bytes.len() as int) + rest) == Src::of(written + rest));
    assert(t.values =~= seq![
        Value::Text(acl::wire_principal(x.principal@)),
        Value::Text("*"@),
        Value::Int(x.operation.number() as int),
        Value::Int(x.permission.number() as int),
        Value::Tags(Seq::empty()),
    ]);
}

/// What a client reads of a setting in a DescribeConfigs response, field by field.
pub proof fn law_config_row_fields(x: ConfigRow, version: i16, rest: Seq<u8>)
    requires
        version >= 4,
        config_row_told(version, true, x).fits(),
    ensures
        schema::found(
            config_row_told(version, true, x).kinds,
            Src::of(x.row(Out::new(), version, true).bytes + rest),
        ) == Some(
            (
                seq![
                    Value::Text(x.key@),
                    Value::OptText(x.value.deep_view()),
                    Value::Int(0),
                    Value::Int(x.source as int),
                    Value::Int(0),
                    Value::List(Seq::empty()),
                    Value::Int(x.config_type as int),
                    Value::OptText(x.documentation.deep_view()),
                    Value::Tags(Seq::empty()),
                ],
                Src::of(rest),
            ),
        ),
{
    let t = config_row_told(version, true, x);
    law_config_row(Out::new(), x, version, true);
    let written = x.row(Out::new(), version, true).bytes;
    assert(written.skip(0) =~= written);
    assert(Src::of(written.skip(Out::new().bytes.len() as int) + rest) == Src::of(written + rest));
    assert(t.values =~= seq![
        Value::Text(x.key@),
        Value::OptText(x.value.deep_view()),
        Value::Int(0),
        Value::Int(x.source as int),
        Value::Int(0),
        Value::List(Seq::empty()),
        Value::Int(x.config_type as int),
        Value::OptText(x.documentation.deep_view()),
        Value::Tags(Seq::empty()),
    ]);
}

/// What a client reads of a group in a ListGroups response, field by field.
pub proof fn law_listed_group_fields(x: ListedGroup, version: i16, rest: Seq<u8>)
    requires
        version >= 5,
        listed_group_told(version, true, x).fits(),
    ensures
        schema::found(
            listed_group_told(version, true, x).kinds,
            Src::of(x.row(Out::new(), version, true).bytes + rest),
        ) == Some(
            (
                seq![
                    Value::Text(x.group_id@),
                    Value::Text("consumer"@),
                    Value::Text(x.state@),
                    Value::Text("classic"@),
                    Value::Tags(Seq::empty()),
                ],
                Src::of(rest),
            ),
        ),
{
    let t = listed_group_told(version, true, x);
    law_listed_group(Out::new(), x, version, true);
    let written = x.row(Out::new(), version, true).bytes;
    assert(written.skip(0) =~= written);
    assert(Src::of(written.skip(Out::new().bytes.len() as int) + rest) == Src::of(written + rest));
    assert(t.values =~= seq![
        Value::Text(x.group_id@),
        Value::Text("consumer"@),
        Value::Text(x.state@),
        Value::Text("classic"@),
        Value::Tags(Seq::empty()),
    ]);
}

/// What a client reads of a group in a DeleteGroups response, field by field.
pub proof fn law_deleted_group_fields(x: DeletedGroup, version: i16, rest: Seq<u8>)
    requires
        version >= 3,
        deleted_group_told(version, true, x).fits(),
    ensures
        schema::found(
            deleted_group_told(version, true, x).kinds,
            Src::of(x.row(Out::new(), version, true).bytes + rest),
        ) == Some(
            (
                seq![
                    Value::Text(x.group_id@),
                    Value::Int(x.error as int),
                    Value::OptText(x.message.deep_view()),
                    Value::Tags(Seq::empty()),
                ],
                Src::of(rest),
            ),
        ),
{
    let t = deleted_group_told(version, true, x);
    law_deleted_group(Out::new(), x, version, true);
    let written = x.row(Out::new(), version, true).bytes;
    assert(written.skip(0) =~= written);
    assert(Src::of(written.skip(Out::new().bytes.len() as int) + rest) == Src::of(written + rest));
    assert(t.values =~= seq![
        Value::Text(x.group_id@),
        Value::Int(x.error as int),
        Value::OptText(x.message.deep_view()),
        Value::Tags(Seq::empty()),
    ]);
}

/// What a client reads of a name and the error for it, field by field.
pub proof fn law_named_verdict_fields(x: NamedVerdict, version: i16, rest: Seq<u8>)
    requires
        named_verdict_told(version, true, x).fits(),
    ensures
        schema::found(
            named_verdict_told(version, true, x).kinds,
            Src::of(x.row(Out::new(), version, true).bytes + rest),
        ) == Some(
            (
                seq![
                    Value::Text(x.name@),
                    Value::Int(x.verdict.error as int),
                    Value::OptText(x.verdict.message.deep_view()),
                    Value::Tags(Seq::empty()),
                ],
                Src::of(rest),
            ),
        ),
{
    let t = named_verdict_told(version, true, x);
    law_named_verdict(Out::new(), x, version, true);
    let written = x.row(Out::new(), version, true).bytes;
    assert(written.skip(0) =~= written);
    assert(Src::of(written.skip(Out::new().bytes.len() as int) + rest) == Src::of(written + rest));
    assert(t.values =~= seq![
        Value::Text(x.name@),
        Value::Int(x.verdict.error as int),
        Value::OptText(x.verdict.message.deep_view()),
        Value::Tags(Seq::empty()),
    ]);
}

/// What a client reads of a member in a DescribeGroups response, field by field.
pub proof fn law_group_member_fields(x: GroupMember, version: i16, rest: Seq<u8>)
    requires
        version >= 5,
        group_member_told(version, true, x).fits(),
    ensures
        schema::found(
            group_member_told(version, true, x).kinds,
            Src::of(x.row(Out::new(), version, true).bytes + rest),
        ) == Some(
            (
                seq![
                    Value::Text(x.member_id@),
                    Value::OptText(membership::instance_of(x.member_id@)),
                    Value::Text("volant-kafka"@),
                    Value::Text("/"@),
                    Value::Blob(Some(consumer_protocol::subscription_out(x.topics.deep_view()))),
                    Value::Blob(
                        Some(
                            consumer_protocol::assignment_out(
                                consumer_protocol::by_topic(x.assignment.deep_view()),
                            ),
                        ),
                    ),
                    Value::Tags(Seq::empty()),
                ],
                Src::of(rest),
            ),
        ),
{
    let t = group_member_told(version, true, x);
    law_group_member(Out::new(), x, version, true);
    let written = x.row(Out::new(), version, true).bytes;
    assert(written.skip(0) =~= written);
    assert(Src::of(written.skip(Out::new().bytes.len() as int) + rest) == Src::of(written + rest));
    assert(t.values =~= seq![
        Value::Text(x.member_id@),
        Value::OptText(membership::instance_of(x.member_id@)),
        Value::Text("volant-kafka"@),
        Value::Text("/"@),
        Value::Blob(Some(consumer_protocol::subscription_out(x.topics.deep_view()))),
        Value::Blob(
            Some(
                consumer_protocol::assignment_out(
                    consumer_protocol::by_topic(x.assignment.deep_view()),
                ),
            ),
        ),
        Value::Tags(Seq::empty()),
    ]);
}

/// What a client reads of a producer in a DescribeProducers response, field by field.
pub proof fn law_active_producer_fields(x: ActiveProducer, version: i16, rest: Seq<u8>)
    requires
        active_producer_told(version, true, x).fits(),
    ensures
        schema::found(
            active_producer_told(version, true, x).kinds,
            Src::of(x.row(Out::new(), version, true).bytes + rest),
        ) == Some(
            (
                seq![
                    Value::Int(x.producer_id as int),
                    Value::Int(x.epoch as int),
                    Value::Int(x.last_sequence as int),
                    Value::Int(x.last_timestamp as int),
                    Value::Int(x.coordinator_epoch as int),
                    Value::Int(x.txn_start_offset as int),
                    Value::Tags(Seq::empty()),
                ],
                Src::of(rest),
            ),
        ),
{
    let t = active_producer_told(version, true, x);
    law_active_producer(Out::new(), x, version, true);
    let written = x.row(Out::new(), version, true).bytes;
    assert(written.skip(0) =~= written);
    assert(Src::of(written.skip(Out::new().bytes.len() as int) + rest) == Src::of(written + rest));
    assert(t.values =~= seq![
        Value::Int(x.producer_id as int),
        Value::Int(x.epoch as int),
        Value::Int(x.last_sequence as int),
        Value::Int(x.last_timestamp as int),
        Value::Int(x.coordinator_epoch as int),
        Value::Int(x.txn_start_offset as int),
        Value::Tags(Seq::empty()),
    ]);
}

/// What a client reads of a transaction in a ListTransactions response, field by field.
pub proof fn law_open_transaction_fields(x: OpenTransaction, version: i16, rest: Seq<u8>)
    requires
        open_transaction_told(version, true, x).fits(),
    ensures
        schema::found(
            open_transaction_told(version, true, x).kinds,
            Src::of(x.row(Out::new(), version, true).bytes + rest),
        ) == Some(
            (
                seq![
                    Value::Text(x.id@),
                    Value::Int(x.producer_id as int),
                    Value::Text(x.state@),
                    Value::Tags(Seq::empty()),
                ],
                Src::of(rest),
            ),
        ),
{
    let t = open_transaction_told(version, true, x);
    law_open_transaction(Out::new(), x, version, true);
    let written = x.row(Out::new(), version, true).bytes;
    assert(written.skip(0) =~= written);
    assert(Src::of(written.skip(Out::new().bytes.len() as int) + rest) == Src::of(written + rest));
    assert(t.values =~= seq![
        Value::Text(x.id@),
        Value::Int(x.producer_id as int),
        Value::Text(x.state@),
        Value::Tags(Seq::empty()),
    ]);
}

/// What a client reads of a partition in a DescribeLogDirs response, field by field.
pub proof fn law_log_dir_fields(x: LogDirRow, version: i16, rest: Seq<u8>)
    requires
        log_dir_told(version, true, x).fits(),
    ensures
        schema::found(
            log_dir_told(version, true, x).kinds,
            Src::of(x.row(Out::new(), version, true).bytes + rest),
        ) == Some(
            (
                seq![
                    Value::Int(x.partition as int),
                    Value::Int(x.size as int),
                    Value::Int(x.offset_lag as int),
                    Value::Int(if x.is_future { 1 } else { 0 }),
                    Value::Tags(Seq::empty()),
                ],
                Src::of(rest),
            ),
        ),
{
    let t = log_dir_told(version, true, x);
    law_log_dir(Out::new(), x, version, true);
    let written = x.row(Out::new(), version, true).bytes;
    assert(written.skip(0) =~= written);
    assert(Src::of(written.skip(Out::new().bytes.len() as int) + rest) == Src::of(written + rest));
    assert(t.values =~= seq![
        Value::Int(x.partition as int),
        Value::Int(x.size as int),
        Value::Int(x.offset_lag as int),
        Value::Int(if x.is_future { 1 } else { 0 }),
        Value::Tags(Seq::empty()),
    ]);
}

/// In every version the records of a partition of a Fetch response are the last field that a
/// client reads, but for the tags: those that the broker has, all of them.
pub proof fn law_fetch_row_records(x: FetchRow, version: i16, flexible: bool, rest: Seq<u8>)
    requires
        fetch_row_told(version, flexible, x).fits(),
    ensures
        match schema::found(
            fetch_row_told(version, flexible, x).kinds,
            Src::of(x.row(Out::new(), version, flexible).bytes + rest),
        ) {
            Some((vs, left)) => {
                &&& left == Src::of(rest)
                &&& vs[0] == Value::Int(x.partition as int)
                &&& vs[1] == Value::Int(x.error as int)
                &&& vs[2] == Value::Int(x.hwm as int)
                &&& vs[vs.len() - (if flexible { 2int } else { 1 })] == Value::Blob(
                    Some(x.records@.bytes),
                )
            },
            None => false,
        },
{
    law_fetch_row(Out::new(), x, version, flexible);
    let written = x.row(Out::new(), version, flexible).bytes;
    assert(written.skip(0) =~= written);
    assert(Src::of(written.skip(Out::new().bytes.len() as int) + rest) == Src::of(written + rest));
}

/// A subscription as members of groups read it: the version, the topics, and no data of its own.
pub proof fn law_subscription_fields(topics: Seq<Seq<char>>)
    ensures
        consumer_protocol::subscription_out(topics) == Told::new().i16(0).list(
            false,
            topics,
            |t: Seq<char>| Told::new().text(false, t),
        ).blob(false, Some(Seq::empty())).bytes(),
{
    broadcast use schema::group_fields;

    let g = |o: Out, t: Seq<char>| o.string(t);
    let f = |t: Seq<char>| Told::new().text(false, t);
    schema::lemma_each(false, topics, g, f);
    let o = Out::new().i16(0);
    assert(o.i32(topics.len() as int) == o.array_len(false, topics.len()));
    let t = Told::new().i16(0).list(false, topics, f).blob(false, Some(Seq::empty()));
    assert(schema::said(Out::new(), t).bytes =~= t.bytes());
}

/// An assignment as members of groups read it: the version, the topics with the numbers of their
/// partitions, and no data of its own.
pub proof fn law_assignment_fields(groups: Seq<(Seq<char>, Seq<u32>)>)
    ensures
        consumer_protocol::assignment_out(groups) == Told::new().i16(0).list(
            false,
            groups,
            |g: (Seq<char>, Seq<u32>)| assigned_told(g),
        ).blob(false, Some(Seq::empty())).bytes(),
{
    broadcast use schema::group_fields;

    let g = |o: Out, t: (Seq<char>, Seq<u32>)| consumer_protocol::topic_parts_out(o, t);
    let f = |t: (Seq<char>, Seq<u32>)| assigned_told(t);
    assert forall|i: int, o: Out| #![trigger g(o, groups[i])] 0 <= i < groups.len() implies g(
        o,
        groups[i],
    ) == schema::said(o, f(groups[i])) by {
        lemma_assigned(o, groups[i]);
    }
    schema::lemma_each(false, groups, g, f);
    let o = Out::new().i16(0);
    assert(o.i32(groups.len() as int) == o.array_len(false, groups.len()));
    let t = Told::new().i16(0).list(false, groups, f).blob(false, Some(Seq::empty()));
    assert(schema::said(Out::new(), t).bytes =~= t.bytes());
}

/// A topic of an assignment: its name, and the numbers of its partitions.
pub open spec fn assigned_told(g: (Seq<char>, Seq<u32>)) -> Told {
    Told::new().text(false, g.0).list(false, g.1, |p: u32| Told::new().i32(p as int))
}

proof fn lemma_assigned(o: Out, t: (Seq<char>, Seq<u32>))
    ensures
        consumer_protocol::topic_parts_out(o, t) == schema::said(o, assigned_told(t)),
{
    broadcast use schema::group_fields;

    let g = |o: Out, p: u32| o.i32(p as int);
    let f = |p: u32| Told::new().i32(p as int);
    schema::lemma_each(false, t.1, g, f);
    let a = o.string(t.0);
    assert(a.i32(t.1.len() as int) == a.array_len(false, t.1.len()));
}

} // verus!
